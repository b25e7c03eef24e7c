use roder_k8s::tree::{
    descendant_capacity_available, flux_group, is_expandable_kind, owned_child_kind,
    parse_inventory_id, reference_is_expandable, reserve_node_slots, split_api_version,
    ResourceTreeRelation, MAX_NODES,
};

#[test]
fn parses_grouped_and_core_api_versions() {
    assert_eq!(split_api_version("apps/v1"), ("apps".into(), "v1".into()));
    assert_eq!(split_api_version("v1"), (String::new(), "v1".into()));
}

#[test]
fn known_controller_children_are_bounded() {
    assert_eq!(
        owned_child_kind("apps", "Deployment"),
        Some(("apps", "ReplicaSet"))
    );
    assert_eq!(owned_child_kind("batch", "CronJob"), Some(("batch", "Job")));
    assert_eq!(owned_child_kind("example.io", "Widget"), None);
}

#[test]
fn flux_inventory_only_expands_nested_flux_owners() {
    assert!(!reference_is_expandable(
        Some(ResourceTreeRelation::FluxInventory),
        "apps",
        "Deployment"
    ));
    assert!(reference_is_expandable(
        Some(ResourceTreeRelation::FluxInventory),
        "kustomize.toolkit.fluxcd.io",
        "Kustomization"
    ));
    assert!(reference_is_expandable(
        Some(ResourceTreeRelation::Owner),
        "example.io",
        "Widget"
    ));
}

#[test]
fn parses_flux_inventory_ids() {
    assert_eq!(
        parse_inventory_id("infra_frontend__Service"),
        Some((
            Some("infra".into()),
            "frontend".into(),
            String::new(),
            "Service".into()
        ))
    );
    assert!(parse_inventory_id("too_few_parts").is_none());
}

#[test]
fn node_budget_truncates_without_exceeding_the_limit() {
    let mut count = MAX_NODES - 2;
    assert!(descendant_capacity_available(count));
    assert_eq!(reserve_node_slots(&mut count, 5), 2);
    assert!(!descendant_capacity_available(count));
    assert_eq!(reserve_node_slots(&mut count, 1), 0);
    assert_eq!(count, MAX_NODES);
}

#[test]
fn inventory_kind_keeps_later_underscores() {
    assert_eq!(
        parse_inventory_id("_name_grp_Kind_X"),
        Some((None, "name".into(), "grp".into(), "Kind_X".into()))
    );
    assert!(parse_inventory_id("ns__grp_Kind").is_none());
    assert!(parse_inventory_id("ns_name_grp_").is_none());
}

#[test]
fn flux_kinds_map_to_their_groups() {
    assert_eq!(flux_group("Kustomization"), "kustomize.toolkit.fluxcd.io");
    assert_eq!(flux_group("ImagePolicy"), "image.toolkit.fluxcd.io");
    assert_eq!(flux_group("Receiver"), "notification.toolkit.fluxcd.io");
    assert_eq!(flux_group("GitRepository"), "source.toolkit.fluxcd.io");
}

#[test]
fn expandable_kinds() {
    assert!(is_expandable_kind("", "Service"));
    assert!(is_expandable_kind("gateway.networking.k8s.io", "GRPCRoute"));
    assert!(!is_expandable_kind("", "ConfigMap"));
    assert!(reference_is_expandable(
        Some(ResourceTreeRelation::ReferencedResource),
        "",
        "PersistentVolume"
    ));
    assert!(!reference_is_expandable(None, "", "Pod"));
}
