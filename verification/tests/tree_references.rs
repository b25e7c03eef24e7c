use roder_k8s::json::Json;
use roder_k8s::matching::{kopiur_child_matches_policy, label_selector_matches, tuppr_node_names};
use roder_k8s::references::{
    certificate_references, cluster_external_secret_references, envoy_policy_references,
    external_secret_references, flux_references, gateway_route_references, issuer_reference,
    kopiur_repository_references, object_bucket_claim_references, reference_grant_list_targets,
    reference_grant_named_targets, reference_grant_source_matches, reference_grant_sources,
    reference_grant_targets,
};
use roder_k8s::tree::{ResourceRef, ResourceTreeRelation};

fn to_json(v: &serde_json::Value) -> Json {
    match v {
        serde_json::Value::Null => Json::Null,
        serde_json::Value::Bool(b) => Json::Bool(*b),
        serde_json::Value::Number(n) => Json::Number(n.to_string(), n.as_i64()),
        serde_json::Value::String(s) => Json::Str(s.clone()),
        serde_json::Value::Array(a) => Json::Array(a.iter().map(to_json).collect()),
        serde_json::Value::Object(m) => {
            Json::Object(m.iter().map(|(k, v)| (k.clone(), to_json(v))).collect())
        }
    }
}

fn parse(text: &str) -> Json {
    to_json(&serde_json::from_str::<serde_json::Value>(text).unwrap())
}

fn test_resource(group: &str, kind: &str, namespace: Option<&str>) -> ResourceRef {
    ResourceRef {
        group: group.into(),
        version: "v1alpha1".into(),
        kind: kind.into(),
        name: "resource".into(),
        namespace: namespace.map(str::to_string),
        key: None,
        category: None,
        relation: None,
        expandable: true,
    }
}

#[test]
fn object_bucket_claim_links_generated_resources() {
    let resource = test_resource("objectbucket.io", "ObjectBucketClaim", Some("storage"));
    let references =
        object_bucket_claim_references(&resource, &parse(r#"{"spec": {"objectBucketName": "obc-storage-media"}}"#));
    assert_eq!(references.len(), 3);
    assert!(references.iter().any(|r| r.kind == "Secret"
        && r.name == "resource"
        && r.namespace.as_deref() == Some("storage")));
    assert!(references.iter().any(|r| r.kind == "ConfigMap" && r.name == "resource"));
    assert!(references
        .iter()
        .any(|r| r.kind == "ObjectBucket" && r.name == "obc-storage-media" && r.namespace.is_none()));
}

#[test]
fn certificates_link_secrets_and_default_or_cluster_issuers() {
    let resource = test_resource("cert-manager.io", "Certificate", Some("app"));
    let references = certificate_references(
        &resource,
        &parse(r#"{"spec": {"secretName": "api-tls", "issuerRef": {"name": "letsencrypt"}}}"#),
    );
    assert!(references.iter().any(|r| r.kind == "Secret" && r.name == "api-tls"));
    assert!(references.iter().any(|r| r.kind == "Issuer" && r.namespace.as_deref() == Some("app")));

    let cluster = issuer_reference(
        &resource,
        &parse(r#"{"spec": {"issuerRef": {"name": "root", "kind": "ClusterIssuer"}}}"#),
    )
    .unwrap();
    assert_eq!(cluster.namespace, None);
    assert_eq!(cluster.group, "cert-manager.io");
}

#[test]
fn external_secrets_link_store_and_generated_secret() {
    let resource = test_resource("external-secrets.io", "ExternalSecret", Some("app"));
    let references = external_secret_references(
        &resource,
        &parse(
            r#"{"spec": {
                "secretStoreRef": {"name": "vault", "kind": "ClusterSecretStore"},
                "target": {"name": "database"}
            }}"#,
        ),
    );
    assert!(references.iter().any(|(r, relation)| r.kind == "ClusterSecretStore"
        && r.namespace.is_none()
        && *relation == ResourceTreeRelation::ReferencedResource));
    assert!(references.iter().any(|(r, relation)| r.kind == "Secret"
        && r.name == "database"
        && *relation == ResourceTreeRelation::GeneratedResource));

    let cluster = test_resource("external-secrets.io", "ClusterExternalSecret", None);
    let generated = cluster_external_secret_references(
        &cluster,
        &parse(r#"{"status": {"externalSecretName": "shared", "provisionedNamespaces": ["a", "b"]}}"#),
    );
    assert_eq!(generated.len(), 2);
    assert!(generated.iter().all(|r| r.kind == "ExternalSecret" && r.name == "shared"));
}

#[test]
fn external_secret_defaults_and_status_precedence() {
    let resource = test_resource("external-secrets.io", "ExternalSecret", Some("app"));
    let references = external_secret_references(&resource, &parse(r#"{"spec": {"secretStoreRef": {"name": "vault"}}}"#));
    assert_eq!(references.len(), 2);
    assert_eq!(references[0].0.kind, "SecretStore");
    assert_eq!(references[0].0.namespace.as_deref(), Some("app"));
    assert_eq!(references[1].0.name, "resource");

    let cluster = test_resource("external-secrets.io", "ClusterExternalSecret", None);
    // A status member that is present but empty wins over the spec, and falls back to the name.
    let generated = cluster_external_secret_references(
        &cluster,
        &parse(r#"{"status": {"externalSecretName": "", "provisionedNamespaces": ["a", "", 3]},
                   "spec": {"externalSecretName": "from-spec"}}"#),
    );
    assert_eq!(generated.len(), 1);
    assert_eq!(generated[0].name, "resource");
    assert_eq!(generated[0].namespace.as_deref(), Some("a"));
}

#[test]
fn flux_links_sources_charts_and_dependencies() {
    let resource = test_resource("helm.toolkit.fluxcd.io", "HelmRelease", Some("apps"));
    let references = flux_references(
        &resource,
        &parse(
            r#"{"spec": {
                "chartRef": {"kind": "OCIRepository", "name": "charts", "namespace": "flux-system"},
                "dependsOn": [{"name": "database"}]
            }}"#,
        ),
    );
    assert!(references.iter().any(|r| r.group == "source.toolkit.fluxcd.io"
        && r.kind == "OCIRepository"
        && r.namespace.as_deref() == Some("flux-system")));
    assert!(references.iter().any(|r| r.group == "helm.toolkit.fluxcd.io"
        && r.kind == "HelmRelease"
        && r.name == "database"
        && r.namespace.as_deref() == Some("apps")));
}

#[test]
fn kopiur_policy_links_repositories_and_operational_children() {
    let resource = test_resource("kopiur.home-operations.com", "SnapshotPolicy", Some("backup"));
    let repositories = kopiur_repository_references(
        &resource,
        &parse(
            r#"{"spec": {"repositories": [
                {"kind": "Repository", "name": "local"},
                {"kind": "ClusterRepository", "name": "archive"}
            ]}}"#,
        ),
    );
    assert_eq!(repositories[0].namespace.as_deref(), Some("backup"));
    assert_eq!(repositories[1].namespace, None);

    let labels = vec![("backup".to_string(), "daily".to_string())];
    let schedule = parse(
        r#"{
            "apiVersion": "kopiur.home-operations.com/v1alpha1", "kind": "SnapshotSchedule",
            "metadata": {"name": "daily"},
            "spec": {"policySelector": {"matchLabels": {"backup": "daily"}}}
        }"#,
    );
    assert!(kopiur_child_matches_policy("SnapshotSchedule", "resource", &labels, &schedule));
    let restore = parse(
        r#"{
            "apiVersion": "kopiur.home-operations.com/v1alpha1", "kind": "Restore",
            "metadata": {"name": "restore"},
            "spec": {"source": {"fromPolicy": {"name": "resource"}}}
        }"#,
    );
    assert!(kopiur_child_matches_policy("Restore", "resource", &labels, &restore));
}

#[test]
fn snapshots_match_by_reference_or_config_label() {
    let labels = vec![];
    let by_label = parse(r#"{"metadata": {"labels": {"kopiur.home-operations.com/config": "nightly"}}}"#);
    assert!(kopiur_child_matches_policy("Snapshot", "nightly", &labels, &by_label));
    assert!(!kopiur_child_matches_policy("Snapshot", "weekly", &labels, &by_label));
    assert!(!kopiur_child_matches_policy("Repository", "nightly", &labels, &by_label));
}

#[test]
fn label_selectors_apply_every_operator() {
    let labels = vec![("app".to_string(), "api".to_string()), ("tier".to_string(), "web".to_string())];
    let sel = |text: &str| parse(text);
    assert!(label_selector_matches(&sel("{}"), &labels));
    assert!(label_selector_matches(&sel(r#"{"matchLabels": {"app": "api"}}"#), &labels));
    assert!(!label_selector_matches(&sel(r#"{"matchLabels": {"app": "db"}}"#), &labels));
    assert!(!label_selector_matches(&sel(r#"{"matchLabels": {"app": 1}}"#), &labels));
    assert!(label_selector_matches(
        &sel(r#"{"matchExpressions": [{"key": "tier", "operator": "In", "values": ["web", "worker"]}]}"#),
        &labels
    ));
    assert!(label_selector_matches(
        &sel(r#"{"matchExpressions": [{"key": "track", "operator": "NotIn", "values": ["canary"]}]}"#),
        &labels
    ));
    assert!(!label_selector_matches(
        &sel(r#"{"matchExpressions": [{"key": "app", "operator": "DoesNotExist"}]}"#),
        &labels
    ));
    assert!(label_selector_matches(&sel(r#"{"matchExpressions": [{"key": "app", "operator": "Exists"}]}"#), &labels));
    assert!(!label_selector_matches(&sel(r#"{"matchExpressions": [{"key": "app", "operator": "Gt"}]}"#), &labels));
    assert!(!label_selector_matches(&sel(r#"{"matchExpressions": [{"operator": "Exists"}]}"#), &labels));
}

#[test]
fn tuppr_links_every_reported_node_without_duplicates() {
    let names = tuppr_node_names(
        "TalosUpgrade",
        &parse(
            r#"{"status": {
                "currentNode": "worker-1",
                "currentNodes": ["worker-1", "worker-2"],
                "completedNodes": ["worker-0"],
                "failedNodes": [{"nodeName": "worker-3"}],
                "rebootingNodes": [{"nodeName": "worker-4"}]
            }}"#,
        ),
    );
    assert_eq!(names, ["worker-0", "worker-1", "worker-2", "worker-3", "worker-4"]);
    assert_eq!(
        tuppr_node_names("KubernetesUpgrade", &parse(r#"{"status": {"controllerNode": "control-1"}}"#)),
        ["control-1"]
    );
    assert!(tuppr_node_names("KubernetesUpgrade", &parse(r#"{"status": {"controllerNode": ""}}"#)).is_empty());
}

#[test]
fn gateway_envoy_and_reference_grant_refs_apply_api_defaults() {
    let route = test_resource("gateway.networking.k8s.io", "HTTPRoute", Some("app"));
    let references = gateway_route_references(
        &route,
        &parse(
            r#"{"spec": {
                "parentRefs": [{"name": "public"}],
                "rules": [{"backendRefs": [
                    {"name": "api"},
                    {"group": "example.io", "kind": "Backend", "name": "external", "namespace": "shared"}
                ]}]
            }}"#,
        ),
    );
    assert!(references.iter().any(|r| r.kind == "Gateway" && r.group == "gateway.networking.k8s.io"));
    assert!(references
        .iter()
        .any(|r| r.kind == "Service" && r.group.is_empty() && r.namespace.as_deref() == Some("app")));
    assert!(references.iter().any(|r| r.kind == "Backend" && r.namespace.as_deref() == Some("shared")));

    let policy = test_resource("gateway.envoyproxy.io", "SecurityPolicy", Some("app"));
    let targets = envoy_policy_references(
        &policy,
        &parse(
            r#"{"spec": {"targetRefs": [
                {"kind": "HTTPRoute", "name": "api"},
                {"group": "", "kind": "Service", "name": "auth"}
            ]}}"#,
        ),
    );
    assert_eq!(targets.len(), 2);
    assert_eq!(targets[0].group, "gateway.networking.k8s.io");
    assert!(targets[1].group.is_empty());

    let grant = test_resource("gateway.networking.k8s.io", "ReferenceGrant", Some("shared"));
    let data = parse(
        r#"{"spec": {
            "from": [{"group": "gateway.networking.k8s.io", "kind": "HTTPRoute", "namespace": "app"}],
            "to": [
                {"group": "", "kind": "Service", "name": "api"},
                {"group": "", "kind": "Secret"}
            ]
        }}"#,
    );
    let named = reference_grant_named_targets(&grant, &data);
    assert_eq!(named[0].namespace.as_deref(), Some("shared"));
    let listed = reference_grant_list_targets(&grant, &data);
    assert_eq!(listed, [(String::new(), "Secret".into(), Some("shared".into()))]);
    let sources = reference_grant_sources(&data);
    assert_eq!(
        sources,
        [("gateway.networking.k8s.io".into(), "HTTPRoute".into(), Some("app".into()))]
    );

    let matching_source = parse(
        r#"{
            "apiVersion": "gateway.networking.k8s.io/v1",
            "kind": "HTTPRoute",
            "metadata": {"name": "app", "namespace": "app"},
            "spec": {"rules": [{"backendRefs": [{"name": "api", "namespace": "shared"}]}]}
        }"#,
    );
    let unrelated_source = parse(
        r#"{
            "apiVersion": "gateway.networking.k8s.io/v1",
            "kind": "HTTPRoute",
            "metadata": {"name": "other", "namespace": "app"},
            "spec": {"rules": [{"backendRefs": [{"name": "other", "namespace": "elsewhere"}]}]}
        }"#,
    );
    let targets = reference_grant_targets(&data);
    assert!(reference_grant_source_matches(&matching_source, Some("shared"), &targets));
    assert!(!reference_grant_source_matches(&unrelated_source, Some("shared"), &targets));
    assert!(!reference_grant_source_matches(&matching_source, None, &targets));
}
