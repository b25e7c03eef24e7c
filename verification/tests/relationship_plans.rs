use roder_k8s::catalog::{make_key, ResourceKind};
use roder_k8s::discovery::Category;
use roder_k8s::helm::ManifestObjectRef;
use roder_k8s::json::Json;
use roder_k8s::queries::{
    filter_keeps, finish_plan, helm_manifest_children, query_children, query_error, query_kind,
    relationship_plan, ClusterQuery, QueryFilter,
};
use roder_k8s::registry::RelationshipProvider;
use roder_k8s::tree::{ResourceRef, ResourceTreeRelation};

fn to_json(v: &serde_json::Value) -> Json {
    match v {
        serde_json::Value::Null => Json::Null,
        serde_json::Value::Bool(b) => Json::Bool(*b),
        serde_json::Value::Number(n) => Json::Number(n.to_string(), n.as_i64()),
        serde_json::Value::String(s) => Json::Str(s.clone()),
        serde_json::Value::Array(a) => Json::Array(a.iter().map(to_json).collect()),
        serde_json::Value::Object(m) => {
            Json::Object(m.iter().map(|(k, v)| (k.clone(), to_json(v))).collect())
        }
    }
}

fn parse(text: &str) -> Json {
    to_json(&serde_json::from_str::<serde_json::Value>(text).unwrap())
}

fn kind(group: &str, version: &str, kind: &str, namespaced: bool) -> ResourceKind {
    ResourceKind {
        key: make_key(group, version, kind),
        group: group.into(),
        version: version.into(),
        kind: kind.into(),
        plural: format!("{}s", kind.to_lowercase()),
        namespaced,
        category: Category::Workloads,
    }
}

fn catalog() -> Vec<ResourceKind> {
    vec![
        kind("", "v1", "Pod", true),
        kind("", "v1", "Node", false),
        kind("", "v1", "Service", true),
        kind("apps", "v1", "Deployment", true),
        kind("apps", "v1", "ReplicaSet", true),
        kind("discovery.k8s.io", "v1", "EndpointSlice", true),
        kind("postgresql.cnpg.io", "v1", "Backup", true),
        kind("ceph.rook.io", "v1", "CephBlockPool", true),
        kind("ceph.rook.io", "v1", "CephCluster", true),
    ]
}

fn resource(group: &str, kind: &str, name: &str, ns: Option<&str>) -> ResourceRef {
    ResourceRef {
        group: group.into(),
        version: "v1".into(),
        kind: kind.into(),
        name: name.into(),
        namespace: ns.map(str::to_string),
        key: None,
        category: None,
        relation: None,
        expandable: true,
    }
}

fn every(group: &str, kind: &str, ns: Option<&str>, label: &str) -> ClusterQuery {
    ClusterQuery {
        group: group.into(),
        kind: kind.into(),
        namespace: ns.map(str::to_string),
        selector: None,
        filter: QueryFilter::Every,
        relation: ResourceTreeRelation::ReferencedResource,
        owned: false,
        label: label.into(),
    }
}

#[test]
fn deployments_list_their_owned_replica_sets() {
    let deployment = resource("apps", "Deployment", "web", Some("prod"));
    let object = parse(r#"{"metadata": {"name": "web", "uid": "d-1"}}"#);
    let plan = relationship_plan(RelationshipProvider::OwnedChildren, &catalog(), &deployment, &object, Vec::new());
    assert!(plan.children.is_empty());
    assert_eq!(plan.queries.len(), 1);
    let q = &plan.queries[0];
    assert_eq!((q.group.as_str(), q.kind.as_str(), q.label.as_str()), ("apps", "ReplicaSet", "owned resources"));
    assert_eq!(q.namespace.as_deref(), Some("prod"));
    let listed = vec![
        parse(r#"{"metadata": {"name": "web-1", "ownerReferences": [{"uid": "d-1"}]}}"#),
        parse(r#"{"metadata": {"name": "other", "ownerReferences": [{"uid": "d-2"}]}}"#),
    ];
    let found = query_children(&catalog(), q, &listed);
    assert_eq!(found.len(), 1);
    assert_eq!(found[0].name, "web-1");
    assert_eq!(found[0].namespace.as_deref(), Some("prod"));
    assert_eq!(found[0].relation, Some(ResourceTreeRelation::OwnedResource));
    assert_eq!(found[0].key.as_deref(), Some("apps/v1/ReplicaSet"));
}

#[test]
fn objects_without_a_uid_list_no_owned_children() {
    let deployment = resource("apps", "Deployment", "web", Some("prod"));
    let object = parse(r#"{"metadata": {"name": "web"}}"#);
    let plan = relationship_plan(RelationshipProvider::OwnedChildren, &catalog(), &deployment, &object, Vec::new());
    assert!(plan.queries.is_empty());
}

#[test]
fn services_list_selected_pods_and_their_endpoint_slices() {
    let service = resource("", "Service", "api", Some("prod"));
    let object = parse(r#"{"spec": {"selector": {"app": "api"}}}"#);
    let plan = relationship_plan(RelationshipProvider::ServiceTargets, &catalog(), &service, &object, Vec::new());
    assert_eq!(plan.queries.len(), 2);
    assert_eq!(plan.queries[0].selector.as_deref(), Some("app=api"));
    assert_eq!(plan.queries[0].label, "selected pods");
    assert_eq!(plan.queries[1].selector.as_deref(), Some("kubernetes.io/service-name=api"));
    assert_eq!(plan.queries[1].relation, ResourceTreeRelation::EndpointSlice);
}

#[test]
fn workloads_without_a_selector_report_it() {
    let deployment = resource("apps", "Deployment", "web", Some("prod"));
    let object = parse(r#"{"spec": {}}"#);
    let plan = relationship_plan(RelationshipProvider::WorkloadPods, &catalog(), &deployment, &object, Vec::new());
    assert!(plan.queries.is_empty());
    assert_eq!(plan.errors, vec!["workload has no label selector".to_string()]);
}

#[test]
fn cnpg_clusters_list_labelled_and_named_resources() {
    let cluster = resource("postgresql.cnpg.io", "Cluster", "db", Some("data"));
    let plan = relationship_plan(RelationshipProvider::CnpgCluster, &catalog(), &cluster, &parse("{}"), Vec::new());
    let labels: Vec<&str> = plan.queries.iter().map(|q| q.label.as_str()).collect();
    assert_eq!(
        labels,
        vec![
            "Pod resources",
            "PersistentVolumeClaim resources",
            "Service resources",
            "Backup resources",
            "Database resources",
            "DatabaseRole resources",
            "Pooler resources"
        ]
    );
    assert_eq!(plan.queries[0].selector.as_deref(), Some("cnpg.io/cluster=db"));
    let backups = &plan.queries[3];
    assert!(filter_keeps(&backups.filter, &parse(r#"{"spec": {"cluster": {"name": "db"}}}"#)));
    assert!(!filter_keeps(&backups.filter, &parse(r#"{"spec": {"cluster": {"name": "other"}}}"#)));
}

#[test]
fn rook_storage_classes_point_at_their_pool_and_cluster() {
    let class = resource("storage.k8s.io", "StorageClass", "ceph-block", None);
    let object = parse(
        r#"{"provisioner": "rook-ceph.rbd.csi.ceph.com",
            "parameters": {"clusterID": "rook-ceph", "pool": "replicapool"}}"#,
    );
    let plan = relationship_plan(RelationshipProvider::RookStorageClass, &catalog(), &class, &object, Vec::new());
    assert_eq!(plan.children.len(), 1);
    assert_eq!(plan.children[0].kind, "CephBlockPool");
    assert_eq!(plan.children[0].namespace.as_deref(), Some("rook-ceph"));
    assert_eq!(plan.queries.len(), 1);
    assert_eq!(plan.queries[0].namespace.as_deref(), Some("rook-ceph"));
    let other = parse(r#"{"provisioner": "ebs.csi.aws.com", "parameters": {"clusterID": "x"}}"#);
    let plan = relationship_plan(RelationshipProvider::RookStorageClass, &catalog(), &class, &other, Vec::new());
    assert!(plan.children.is_empty() && plan.queries.is_empty());
}

#[test]
fn scheduled_backups_find_their_backups_by_owner_or_label() {
    let schedule = resource("postgresql.cnpg.io", "ScheduledBackup", "nightly", Some("data"));
    let object = parse(r#"{"metadata": {"uid": "s-1"}}"#);
    let plan = relationship_plan(RelationshipProvider::CnpgScheduledBackup, &catalog(), &schedule, &object, Vec::new());
    let filter = &plan.queries[0].filter;
    assert!(filter_keeps(filter, &parse(r#"{"metadata": {"ownerReferences": [{"uid": "s-1"}]}}"#)));
    assert!(filter_keeps(filter, &parse(r#"{"metadata": {"labels": {"cnpg.io/scheduled-backup": "nightly"}}}"#)));
    assert!(!filter_keeps(filter, &parse(r#"{"metadata": {"labels": {"cnpg.io/scheduled-backup": "weekly"}}}"#)));
}

#[test]
fn finished_plans_collect_children_and_labelled_errors() {
    let service = resource("", "Service", "api", Some("prod"));
    let object = parse(r#"{"spec": {"selector": {"app": "api"}}}"#);
    let plan = relationship_plan(RelationshipProvider::ServiceTargets, &catalog(), &service, &object, Vec::new());
    let listings = vec![
        Ok(vec![parse(r#"{"metadata": {"name": "api-1"}}"#), parse(r#"{"metadata": {}}"#)]),
        Err("forbidden".to_string()),
    ];
    let (children, errors) = finish_plan(&catalog(), plan, listings);
    assert_eq!(children.len(), 1);
    assert_eq!(children[0].name, "api-1");
    assert_eq!(children[0].relation, Some(ResourceTreeRelation::SelectedPod));
    assert_eq!(errors, vec!["endpoint slices: forbidden".to_string()]);
}

#[test]
fn kinds_the_cluster_does_not_serve_find_nothing() {
    let q = every("example.io", "Widget", Some("ns"), "widgets");
    assert!(query_kind(&catalog(), &q).is_none());
    assert!(query_children(&catalog(), &q, &[parse(r#"{"metadata": {"name": "w"}}"#)]).is_empty());
    assert_eq!(query_error(&q, "boom"), "widgets: boom");
}

#[test]
fn cluster_scoped_children_have_no_namespace() {
    let q = every("", "Node", Some("ns"), "nodes");
    let found = query_children(&catalog(), &q, &[parse(r#"{"metadata": {"name": "n1", "namespace": "x"}}"#)]);
    assert_eq!(found[0].namespace, None);
}

#[test]
fn helm_manifest_objects_resolve_against_the_catalog() {
    let refs = vec![ManifestObjectRef {
        group: "apps".into(),
        version: "v1".into(),
        kind: "Deployment".into(),
        name: "podinfo".into(),
        namespace: Some("apps".into()),
    }];
    let children = helm_manifest_children(&catalog(), refs);
    assert_eq!(children[0].key.as_deref(), Some("apps/v1/Deployment"));
    assert_eq!(children[0].relation, Some(ResourceTreeRelation::HelmManifest));
}
