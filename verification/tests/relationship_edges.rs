use roder_k8s::queries::combine_relationships;
use roder_k8s::relations::{deduplicate_and_sort, expanded_node, relation_label};
use roder_k8s::tree::{ResourceRef, ResourceTreeRelation};

fn pod(name: &str, namespace: Option<&str>, relation: Option<ResourceTreeRelation>) -> ResourceRef {
    ResourceRef {
        group: String::new(),
        version: "v1".into(),
        kind: "Pod".into(),
        name: name.into(),
        namespace: namespace.map(Into::into),
        key: Some("/v1/Pod".into()),
        category: None,
        relation,
        expandable: false,
    }
}

#[test]
fn relationship_deduplication_preserves_distinct_edges() {
    let make = |relation| pod("api-1", Some("default"), Some(relation));
    let mut resources = vec![
        make(ResourceTreeRelation::SelectedPod),
        make(ResourceTreeRelation::SelectedPod),
        make(ResourceTreeRelation::OwnedResource),
    ];
    deduplicate_and_sort(&mut resources);
    assert_eq!(resources.len(), 2);
}

#[test]
fn relationships_sort_by_label_kind_namespace_and_name() {
    let mut service = pod("web", Some("apps"), Some(ResourceTreeRelation::ReferencedResource));
    service.kind = "Service".into();
    let mut resources = vec![
        pod("b", Some("apps"), Some(ResourceTreeRelation::SelectedPod)),
        service,
        pod("a", Some("apps"), Some(ResourceTreeRelation::SelectedPod)),
        pod("z", None, Some(ResourceTreeRelation::SelectedPod)),
        pod("c", Some("apps"), None),
        pod("a", Some("apps"), Some(ResourceTreeRelation::SelectedPod)),
    ];
    deduplicate_and_sort(&mut resources);
    let order: Vec<(Option<&str>, &str, &str)> = resources
        .iter()
        .map(|r| (r.relation.map(relation_label), r.kind.as_str(), r.name.as_str()))
        .collect();
    let references = relation_label(ResourceTreeRelation::ReferencedResource);
    let selects = relation_label(ResourceTreeRelation::SelectedPod);
    assert_eq!(order.len(), 5);
    assert_eq!(order[0], (None, "Pod", "c"));
    assert!(order.contains(&(Some(references), "Service", "web")));
    let pods: Vec<&str> = order.iter().filter(|o| o.0 == Some(selects)).map(|o| o.2).collect();
    assert_eq!(pods, vec!["z", "a", "b"]);
}

#[test]
fn deduplication_of_nothing_is_nothing() {
    let mut resources: Vec<ResourceRef> = Vec::new();
    deduplicate_and_sort(&mut resources);
    assert!(resources.is_empty());
}

#[test]
fn providers_results_are_combined_in_order() {
    let out = combine_relationships(vec![
        (vec![pod("a", Some("ns"), None)], vec!["first failed".to_string()]),
        (Vec::new(), Vec::new()),
        (vec![pod("b", None, None), pod("c", None, None)], vec!["second failed".to_string()]),
    ]);
    let names: Vec<&str> = out.0.iter().map(|r| r.name.as_str()).collect();
    assert_eq!(names, vec!["a", "b", "c"]);
    assert_eq!(out.1, vec!["first failed", "second failed"]);
}

#[test]
fn expanded_nodes_keep_their_children_and_join_errors() {
    let children = vec![pod("a", None, None).leaf(), pod("b", None, None).leaf()];
    let node = expanded_node(pod("root", None, None), children, &["x failed".to_string(), "y failed".to_string()]);
    let names: Vec<&str> = node.children.iter().map(|c| c.name.as_str()).collect();
    assert_eq!(names, vec!["a", "b"]);
    assert_eq!(node.error.as_deref(), Some("x failed; y failed"));
    let quiet = expanded_node(pod("root", None, None), Vec::new(), &[]);
    assert_eq!(quiet.error, None);
}
