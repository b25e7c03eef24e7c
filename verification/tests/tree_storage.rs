use roder_k8s::discovery::Category;
use roder_k8s::json::Json;
use roder_k8s::registry::{relationship_providers, RelationshipProvider};
use roder_k8s::storage::{storage_reference_targets, volume_attachment_matches};
use roder_k8s::tree::{
    endpoint_slice_service_name, hpa_scale_target, reference_is_expandable, service_selector,
    ResourceRef, ResourceTreeRelation,
};

fn to_json(v: &serde_json::Value) -> Json {
    match v {
        serde_json::Value::Null => Json::Null,
        serde_json::Value::Bool(b) => Json::Bool(*b),
        serde_json::Value::Number(n) => Json::Number(n.to_string(), n.as_i64()),
        serde_json::Value::String(s) => Json::Str(s.clone()),
        serde_json::Value::Array(a) => Json::Array(a.iter().map(to_json).collect()),
        serde_json::Value::Object(m) => {
            Json::Object(m.iter().map(|(k, v)| (k.clone(), to_json(v))).collect())
        }
    }
}

fn parse(text: &str) -> Json {
    to_json(&serde_json::from_str::<serde_json::Value>(text).unwrap())
}

fn rref(group: &str, version: &str, kind: &str, name: &str, namespace: Option<&str>) -> ResourceRef {
    ResourceRef {
        group: group.into(),
        version: version.into(),
        kind: kind.into(),
        name: name.into(),
        namespace: namespace.map(str::to_string),
        key: None,
        category: None,
        relation: None,
        expandable: true,
    }
}

fn test_resource(group: &str, kind: &str, namespace: Option<&str>) -> ResourceRef {
    rref(group, "v1alpha1", kind, "resource", namespace)
}

#[test]
fn service_selector_is_sorted_and_rejects_empty_selectors() {
    assert_eq!(
        service_selector(&parse(r#"{"spec": {"selector": {"tier": "web", "app": "api"}}}"#)),
        Some("app=api,tier=web".into())
    );
    assert_eq!(service_selector(&parse(r#"{"spec": {"selector": {}}}"#)), None);
}

#[test]
fn endpoint_slice_registry_and_label_resolve_the_service() {
    let mut resource = rref("discovery.k8s.io", "v1", "EndpointSlice", "api-abc12", Some("app"));
    resource.category = Some(Category::Network);
    assert_eq!(relationship_providers(&resource), [RelationshipProvider::EndpointSliceService]);
    resource.version = "v1beta1".into();
    assert_eq!(relationship_providers(&resource).len(), 0);

    assert_eq!(
        endpoint_slice_service_name(&parse(
            r#"{"metadata": {"labels": {"kubernetes.io/service-name": "api"}}}"#
        )),
        Some("api")
    );
    assert_eq!(endpoint_slice_service_name(&parse("{}")), None);
    assert_eq!(
        endpoint_slice_service_name(&parse(
            r#"{"metadata": {"labels": {"kubernetes.io/service-name": ""}}}"#
        )),
        None
    );
}

#[test]
fn hpa_registry_and_reference_resolve_the_scale_target() {
    let mut resource = rref("autoscaling", "v2", "HorizontalPodAutoscaler", "api", Some("app"));
    resource.category = Some(Category::Workloads);
    assert_eq!(relationship_providers(&resource), [RelationshipProvider::HpaScaleTarget]);
    resource.version = "v1".into();
    assert_eq!(relationship_providers(&resource).len(), 1);

    assert_eq!(
        hpa_scale_target(&parse(
            r#"{"spec": {"scaleTargetRef": {"apiVersion": "apps/v1", "kind": "Deployment", "name": "api"}}}"#
        )),
        Some(("apps".into(), "v1".into(), "Deployment".into(), "api".into()))
    );
    assert!(hpa_scale_target(&parse(
        r#"{"spec": {"scaleTargetRef": {"apiVersion": "apps/v1", "kind": "Deployment"}}}"#
    ))
    .is_none());
    assert!(reference_is_expandable(Some(ResourceTreeRelation::ScaleTarget), "apps", "Deployment"));
}

#[test]
fn relationship_registry_is_gvk_keyed_and_supports_multiple_providers() {
    let mut resource = rref("postgresql.cnpg.io", "v1", "ScheduledBackup", "daily", Some("database"));
    resource.key = Some("postgresql.cnpg.io/v1/ScheduledBackup".into());
    resource.category = Some(Category::CloudNativePg);
    assert_eq!(
        relationship_providers(&resource),
        [RelationshipProvider::CnpgClusterReference, RelationshipProvider::CnpgScheduledBackup]
    );
}

#[test]
fn storage_class_registry_requires_the_registered_version() {
    let mut resource = rref("storage.k8s.io", "v1", "StorageClass", "ceph", None);
    resource.key = Some("storage.k8s.io/v1/StorageClass".into());
    resource.category = Some(Category::Storage);
    assert_eq!(relationship_providers(&resource).len(), 1);
    resource.version = "v1beta1".into();
    assert_eq!(relationship_providers(&resource).len(), 0);
}

#[test]
fn storage_registry_and_expansion_cover_the_full_chain() {
    let resource = |kind: &str| {
        let mut r = rref("", "v1", kind, "resource", Some("app"));
        r.category = Some(Category::Storage);
        r
    };
    for kind in ["Pod", "PersistentVolumeClaim"] {
        assert_eq!(relationship_providers(&resource(kind)), [RelationshipProvider::KubernetesStorage]);
    }
    assert_eq!(
        relationship_providers(&resource("PersistentVolume")),
        [RelationshipProvider::KubernetesStorage, RelationshipProvider::VolumeAttachments]
    );
    assert_eq!(relationship_providers(&resource("Node")), [RelationshipProvider::VolumeAttachments]);
    let attachment = ResourceRef {
        group: "storage.k8s.io".into(),
        version: "v1".into(),
        kind: "VolumeAttachment".into(),
        ..resource("VolumeAttachment")
    };
    assert_eq!(relationship_providers(&attachment), [RelationshipProvider::KubernetesStorage]);
    assert!(reference_is_expandable(Some(ResourceTreeRelation::ReferencedResource), "", "PersistentVolumeClaim"));
    assert!(reference_is_expandable(Some(ResourceTreeRelation::ReferencedResource), "", "PersistentVolume"));
    assert!(!reference_is_expandable(
        Some(ResourceTreeRelation::ReferencedResource),
        "storage.k8s.io",
        "StorageClass"
    ));
}

#[test]
fn pod_storage_references_keep_the_pod_namespace() {
    let pod = rref("", "v1", "Pod", "api", Some("app"));
    let targets = storage_reference_targets(
        &pod,
        &parse(
            r#"{"spec": {"volumes": [
                {"name": "data", "persistentVolumeClaim": {"claimName": "api-data"}},
                {"name": "cache", "persistentVolumeClaim": {"claimName": "api-cache"}},
                {"name": "scratch", "ephemeral": {"volumeClaimTemplate": {"spec": {}}}},
                {"name": "config", "configMap": {"name": "api"}}
            ]}}"#,
        ),
    );
    assert_eq!(targets.len(), 3);
    assert!(targets
        .iter()
        .all(|t| t.kind == "PersistentVolumeClaim" && t.namespace.as_deref() == Some("app")));
    assert!(targets.iter().any(|t| t.name == "api-scratch"));
}

#[test]
fn claims_and_volumes_resolve_cluster_scoped_storage() {
    let mut resource = rref("", "v1", "PersistentVolumeClaim", "data", Some("app"));
    let bound = storage_reference_targets(
        &resource,
        &parse(r#"{"spec": {"volumeName": "pv-data", "storageClassName": "fast"}}"#),
    );
    assert_eq!(bound[0].kind, "PersistentVolume");
    assert_eq!(bound[0].name, "pv-data");
    assert_eq!(bound[0].namespace, None);

    let unbound = storage_reference_targets(&resource, &parse(r#"{"spec": {"storageClassName": "fast"}}"#));
    assert_eq!(unbound[0].kind, "StorageClass");
    assert_eq!(unbound[0].name, "fast");
    assert_eq!(unbound[0].namespace, None);

    resource.kind = "PersistentVolume".into();
    let class = storage_reference_targets(&resource, &parse(r#"{"spec": {"storageClassName": "fast"}}"#));
    assert_eq!(class[0].group, "storage.k8s.io");
    assert_eq!(class[0].kind, "StorageClass");
}

#[test]
fn volume_attachments_reference_their_volume_and_node() {
    let mut attachment = rref("storage.k8s.io", "v1", "VolumeAttachment", "csi-123", None);
    attachment.category = Some(Category::Storage);
    let targets = storage_reference_targets(
        &attachment,
        &parse(r#"{"spec": {"source": {"persistentVolumeName": "pv-data"}, "nodeName": "worker-1"}}"#),
    );
    assert_eq!(targets.len(), 2);
    assert!(targets.iter().all(|t| t.namespace.is_none()));
    assert!(targets.iter().any(|t| t.kind == "PersistentVolume" && t.name == "pv-data"));
    assert!(targets.iter().any(|t| t.kind == "Node" && t.name == "worker-1"));

    let node_only = storage_reference_targets(&attachment, &parse(r#"{"spec": {"nodeName": "worker-1"}}"#));
    assert_eq!(node_only.len(), 1);
    assert_eq!(node_only[0].kind, "Node");
}

#[test]
fn reverse_volume_attachment_matching_uses_the_parent_reference() {
    let attachment = parse(
        r#"{
            "apiVersion": "storage.k8s.io/v1",
            "kind": "VolumeAttachment",
            "metadata": {"name": "csi-123"},
            "spec": {"source": {"persistentVolumeName": "pv-data"}, "nodeName": "worker-1"}
        }"#,
    );
    let resource = |kind: &str, name: &str| rref("", "v1", kind, name, None);
    assert!(volume_attachment_matches(&resource("PersistentVolume", "pv-data"), &attachment));
    assert!(volume_attachment_matches(&resource("Node", "worker-1"), &attachment));
    assert!(!volume_attachment_matches(&resource("PersistentVolume", "pv-other"), &attachment));
    assert!(!volume_attachment_matches(&resource("Service", "worker-1"), &attachment));
}

#[test]
fn relationship_registry_covers_operator_and_network_resources() {
    let cases = [
        ("objectbucket.io", "ObjectBucketClaim", RelationshipProvider::ObjectBucketClaim),
        ("cert-manager.io", "Certificate", RelationshipProvider::Certificate),
        ("cert-manager.io", "CertificateRequest", RelationshipProvider::CertificateRequest),
        ("acme.cert-manager.io", "Order", RelationshipProvider::CertManagerOrder),
        ("external-secrets.io", "ExternalSecret", RelationshipProvider::ExternalSecret),
        ("external-secrets.io", "ClusterExternalSecret", RelationshipProvider::ClusterExternalSecret),
        ("kopiur.home-operations.com", "SnapshotPolicy", RelationshipProvider::KopiurPolicy),
        ("tuppr.home-operations.com", "KubernetesUpgrade", RelationshipProvider::TupprUpgrade),
        ("tuppr.home-operations.com", "TalosUpgrade", RelationshipProvider::TupprUpgrade),
        ("gateway.networking.k8s.io", "HTTPRoute", RelationshipProvider::GatewayRoute),
        ("gateway.networking.k8s.io", "ReferenceGrant", RelationshipProvider::ReferenceGrant),
        ("gateway.envoyproxy.io", "SecurityPolicy", RelationshipProvider::EnvoyPolicy),
    ];
    for (group, kind, provider) in cases {
        assert!(
            relationship_providers(&test_resource(group, kind, Some("app")))
                .iter()
                .any(|registered| *registered == provider),
            "{group}/{kind}"
        );
    }
    let mut network_policy = test_resource("networking.k8s.io", "NetworkPolicy", Some("app"));
    network_policy.version = "v1".into();
    assert_eq!(relationship_providers(&network_policy), [RelationshipProvider::NetworkPolicyPods]);
}

#[test]
fn resource_identity_spells_out_every_coordinate() {
    let r = rref("apps", "v1", "Deployment", "api", Some("prod"));
    assert_eq!(r.identity(), "apps/v1/Deployment/prod/api");
    let c = rref("", "v1", "Node", "worker", None);
    assert_eq!(c.identity(), "/v1/Node//worker");
}
