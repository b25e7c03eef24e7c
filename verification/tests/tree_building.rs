use roder_k8s::catalog::{catalog_index, make_key, resolve_resource, ResourceKind};
use roder_k8s::discovery::Category;
use roder_k8s::json::Json;
use roder_k8s::registry::RelationshipProvider;
use roder_k8s::relations::{
    budget_children, child_direction, child_namespace, error_node, join_errors,
    kustomization_children, node_precheck, owned_by, owner_relationships, static_relationships,
    Direction,
};
use roder_k8s::tree::{ResourceRef, ResourceTreeRelation, MAX_NODES};

fn to_json(v: &serde_json::Value) -> Json {
    match v {
        serde_json::Value::Null => Json::Null,
        serde_json::Value::Bool(b) => Json::Bool(*b),
        serde_json::Value::Number(n) => Json::Number(n.to_string(), n.as_i64()),
        serde_json::Value::String(s) => Json::Str(s.clone()),
        serde_json::Value::Array(a) => Json::Array(a.iter().map(to_json).collect()),
        serde_json::Value::Object(m) => {
            Json::Object(m.iter().map(|(k, v)| (k.clone(), to_json(v))).collect())
        }
    }
}

fn parse(text: &str) -> Json {
    to_json(&serde_json::from_str::<serde_json::Value>(text).unwrap())
}

fn kind(group: &str, version: &str, kind: &str, namespaced: bool, category: Category) -> ResourceKind {
    ResourceKind {
        key: make_key(group, version, kind),
        group: group.into(),
        version: version.into(),
        kind: kind.into(),
        plural: format!("{}s", kind.to_lowercase()),
        namespaced,
        category,
    }
}

fn catalog() -> Vec<ResourceKind> {
    vec![
        kind("", "v1", "Pod", true, Category::Workloads),
        kind("", "v1", "Node", false, Category::Cluster),
        kind("apps", "v1", "Deployment", true, Category::Workloads),
        kind("apps", "v1", "ReplicaSet", true, Category::Workloads),
        kind("example.io", "v1beta1", "Widget", true, Category::Custom("example.io".into())),
        kind("example.io", "v1", "Widget", true, Category::Custom("example.io".into())),
    ]
}

fn rref(group: &str, kind: &str, name: &str, ns: Option<&str>, key: Option<&str>) -> ResourceRef {
    ResourceRef {
        group: group.into(),
        version: "v1".into(),
        kind: kind.into(),
        name: name.into(),
        namespace: ns.map(str::to_string),
        key: key.map(str::to_string),
        category: None,
        relation: None,
        expandable: true,
    }
}

#[test]
fn catalog_keys_and_lookup() {
    assert_eq!(make_key("", "v1", "Pod"), "/v1/Pod");
    assert_eq!(make_key("batch", "v1", "Job"), "batch/v1/Job");
    let c = catalog();
    assert_eq!(catalog_index(&c, "example.io", Some("v1"), "Widget"), Some(5));
    assert_eq!(catalog_index(&c, "example.io", Some("v9"), "Widget"), Some(4));
    assert_eq!(catalog_index(&c, "example.io", None, "Widget"), Some(4));
    assert_eq!(catalog_index(&c, "example.io", None, "Gadget"), None);
}

#[test]
fn resolved_references_follow_the_catalog_scope() {
    let c = catalog();
    let node = resolve_resource(&c, String::new(), String::new(), "Node".into(), "worker".into(), Some("app".into()), Some(ResourceTreeRelation::ReferencedResource));
    assert_eq!(node.namespace, None);
    assert_eq!(node.key.as_deref(), Some("/v1/Node"));
    assert_eq!(node.category, Some(Category::Cluster));
    let unknown = resolve_resource(&c, "x.io".into(), String::new(), "Thing".into(), "t".into(), Some("app".into()), Some(ResourceTreeRelation::Owner));
    assert_eq!(unknown.namespace.as_deref(), Some("app"));
    assert_eq!(unknown.key, None);
    assert!(unknown.expandable);
}

#[test]
fn cycles_depth_and_missing_kinds_stop_a_node() {
    let pod = rref("", "Pod", "api", Some("app"), Some("/v1/Pod"));
    let mut ancestry = Vec::new();
    assert_eq!(node_precheck(&pod, &mut ancestry, 0), None);
    assert_eq!(ancestry, vec!["/v1/Pod/app/api".to_string()]);
    assert_eq!(node_precheck(&pod, &mut ancestry, 1).as_deref(), Some("relationship cycle detected"));
    assert_eq!(ancestry.len(), 1);
    let deep = rref("", "Pod", "other", Some("app"), Some("/v1/Pod"));
    assert_eq!(
        node_precheck(&deep, &mut ancestry, 12).as_deref(),
        Some("maximum relationship depth (12) reached")
    );
    let unknown = rref("x.io", "Thing", "t", None, None);
    assert_eq!(
        node_precheck(&unknown, &mut Vec::new(), 0).as_deref(),
        Some("kind not found in this cluster's catalog")
    );
}

#[test]
fn the_node_budget_truncates_children() {
    let mut children: Vec<ResourceRef> = (0..5).map(|i| rref("", "Pod", &format!("p{i}"), None, None)).collect();
    let mut count = MAX_NODES - 2;
    assert_eq!(budget_children(&mut children, &mut count).as_deref(), Some("relationship tree limited to 500 resources"));
    assert_eq!(children.len(), 2);
    assert_eq!(count, MAX_NODES);
    let mut few = vec![rref("", "Pod", "p", None, None)];
    let mut small = 1;
    assert_eq!(budget_children(&mut few, &mut small), None);
    assert_eq!(small, 2);
}

#[test]
fn owners_expand_upwards_and_errors_join() {
    let mut owner = rref("apps", "ReplicaSet", "rs", Some("app"), None);
    owner.relation = Some(ResourceTreeRelation::Owner);
    assert_eq!(child_direction(&owner), Direction::Owners);
    owner.relation = Some(ResourceTreeRelation::OwnedResource);
    assert_eq!(child_direction(&owner), Direction::Descendants);
    assert_eq!(join_errors(&[]), None);
    assert_eq!(join_errors(&["a".to_string(), "b".to_string()]).as_deref(), Some("a; b"));
    let node = error_node(owner, "boom".into());
    assert_eq!(node.error.as_deref(), Some("boom"));
    assert!(node.children.is_empty());
}

#[test]
fn kustomization_inventory_becomes_flux_children() {
    let c = catalog();
    let data = parse(r#"{"status": {"inventory": {"entries": [
        {"id": "app_api_apps_Deployment", "v": "v1"},
        {"id": "_worker__Node"},
        {"id": "broken"}
    ]}}}"#);
    let children = kustomization_children(&c, &data).unwrap();
    assert_eq!(children.len(), 2);
    assert_eq!(children[0].key.as_deref(), Some("apps/v1/Deployment"));
    assert_eq!(children[0].namespace.as_deref(), Some("app"));
    assert_eq!(children[0].relation, Some(ResourceTreeRelation::FluxInventory));
    assert!(!children[0].expandable);
    assert_eq!(children[1].namespace, None);
    assert_eq!(
        kustomization_children(&c, &parse("{}")).err().as_deref(),
        Some("Kustomization has no inventory yet")
    );
}

#[test]
fn providers_that_read_the_object_alone() {
    let c = catalog();
    let hpa = rref("autoscaling", "HorizontalPodAutoscaler", "api", Some("app"), None);
    let data = parse(r#"{"spec": {"scaleTargetRef": {"apiVersion": "apps/v1", "kind": "Deployment", "name": "api"}}}"#);
    let (children, errors) = static_relationships(RelationshipProvider::HpaScaleTarget, &c, &hpa, &data).unwrap();
    assert!(errors.is_empty());
    assert_eq!(children.len(), 1);
    assert_eq!(children[0].relation, Some(ResourceTreeRelation::ScaleTarget));
    assert_eq!(children[0].key.as_deref(), Some("apps/v1/Deployment"));
    assert!(static_relationships(RelationshipProvider::WorkloadPods, &c, &hpa, &data).is_none());

    let slice = rref("discovery.k8s.io", "EndpointSlice", "api-x", Some("app"), None);
    let sdata = parse(r#"{"metadata": {"labels": {"kubernetes.io/service-name": "api"}}}"#);
    let (svc, _) = static_relationships(RelationshipProvider::EndpointSliceService, &c, &slice, &sdata).unwrap();
    assert_eq!(svc[0].kind, "Service");
    assert!(!svc[0].expandable);

    let kust = rref("kustomize.toolkit.fluxcd.io", "Kustomization", "k", Some("flux-system"), None);
    let (none, errs) = static_relationships(RelationshipProvider::FluxKustomization, &c, &kust, &parse("{}")).unwrap();
    assert!(none.is_empty());
    assert_eq!(errs, vec!["Kustomization has no inventory yet".to_string()]);
}

#[test]
fn owners_are_read_from_owner_references() {
    let c = catalog();
    let pod = rref("", "Pod", "api-1", Some("app"), Some("/v1/Pod"));
    let object = parse(r#"{"metadata": {"ownerReferences": [
        {"apiVersion": "apps/v1", "kind": "ReplicaSet", "name": "api-rs", "uid": "u1"}
    ]}}"#);
    let owners = owner_relationships(&c, &object, &pod);
    assert_eq!(owners.len(), 1);
    assert_eq!(owners[0].kind, "ReplicaSet");
    assert_eq!(owners[0].namespace.as_deref(), Some("app"));
    assert_eq!(owners[0].relation, Some(ResourceTreeRelation::Owner));
    assert!(owners[0].expandable);
    assert!(owned_by(&object, "u1"));
    assert!(!owned_by(&object, "u2"));
    assert_eq!(child_namespace(&object, Some("app"), true).as_deref(), Some("app"));
    assert_eq!(child_namespace(&object, Some("app"), false), None);
}
