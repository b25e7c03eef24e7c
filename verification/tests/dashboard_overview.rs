use roder_k8s::catalog::{make_key, ResourceKind};
use roder_k8s::dashboard::{
    assemble_groups, controller_group_specs, group_kinds, node_facts, pod_phase_counts, prometheus_kinds,
    ControllerHealthGroup, PodCounts,
};
use roder_k8s::discovery::Category;
use roder_k8s::files::normalize_file_path;
use roder_k8s::json::Json;
use roder_k8s::rollup::{HealthRollup, ResourceHealthRollup};
use serde_json::Value;

fn to_json(v: &Value) -> Json {
    match v {
        Value::Null => Json::Null,
        Value::Bool(b) => Json::Bool(*b),
        Value::Number(n) => Json::Number(n.to_string(), n.as_i64()),
        Value::String(s) => Json::Str(s.clone()),
        Value::Array(a) => Json::Array(a.iter().map(to_json).collect()),
        Value::Object(m) => Json::Object(m.iter().map(|(k, v)| (k.clone(), to_json(v))).collect()),
    }
}

fn parse(text: &str) -> Json {
    to_json(&serde_json::from_str::<Value>(text).unwrap())
}

fn pod(phase: Option<&str>) -> Json {
    match phase {
        Some(p) => parse(&format!(r#"{{"status": {{"phase": "{p}"}}}}"#)),
        None => parse("{}"),
    }
}

fn kind(group: &str, name: &str, category: Category) -> ResourceKind {
    ResourceKind {
        key: make_key(group, "v1", name),
        group: group.into(),
        version: "v1".into(),
        kind: name.into(),
        plural: format!("{}s", name.to_lowercase()),
        namespaced: true,
        category,
    }
}

fn group(name: &str, rollups: usize) -> ControllerHealthGroup {
    ControllerHealthGroup {
        name: name.into(),
        resources: (0..rollups)
            .map(|_| ResourceHealthRollup {
                key: "k".into(),
                kind: "K".into(),
                health: HealthRollup::default(),
                error: Some("e".into()),
            })
            .collect(),
        signals: Vec::new(),
    }
}

#[test]
fn pods_are_counted_by_phase() {
    let pods = vec![
        pod(Some("Running")),
        pod(Some("Running")),
        pod(Some("Pending")),
        pod(Some("Failed")),
        pod(Some("Succeeded")),
        pod(None),
    ];
    assert_eq!(pod_phase_counts(&pods), PodCounts { total: 6, running: 2, pending: 1, failed: 1 });
    assert_eq!(pod_phase_counts(&[]), PodCounts { total: 0, running: 0, pending: 0, failed: 0 });
}

#[test]
fn node_facts_read_readiness_and_versions() {
    let node = parse(
        r#"{"metadata": {"name": "n1"}, "status": {
            "conditions": [{"type": "MemoryPressure", "status": "False"}, {"type": "Ready", "status": "True"}],
            "nodeInfo": {"kubeletVersion": "v1.31.0", "osImage": ""}}}"#,
    );
    let facts = node_facts(&node);
    assert_eq!(facts.name, "n1");
    assert!(facts.ready);
    assert_eq!(facts.kubelet_version.as_deref(), Some("v1.31.0"));
    assert_eq!(facts.os_image, None);
    let bare = node_facts(&parse("{}"));
    assert_eq!(bare.name, "");
    assert!(!bare.ready);
}

#[test]
fn groups_are_ordered_and_empty_ones_dropped() {
    let groups = vec![group("Flux", 1), group("External Secrets", 0), group("cert-manager", 2), group("Rook Ceph", 0), group("Kopiur", 1), group("Tuppr", 0)];
    let out = assemble_groups(groups, group("CloudNativePG", 1), group("Prometheus Operator", 0));
    let names: Vec<&str> = out.iter().map(|g| g.name.as_str()).collect();
    assert_eq!(names, vec!["Flux", "cert-manager", "CloudNativePG", "Kopiur"]);
    let specs = controller_group_specs();
    assert_eq!(specs.len(), 6);
    assert_eq!(specs[4].group, Some("kopiur.home-operations.com"));
}

#[test]
fn group_and_prometheus_kinds_come_from_the_catalog() {
    let catalog = vec![
        kind("kopiur.home-operations.com", "SnapshotPolicy", Category::Custom("home-operations.com".into())),
        kind("tuppr.home-operations.com", "TalosUpgrade", Category::Custom("home-operations.com".into())),
        kind("monitoring.coreos.com", "Prometheus", Category::Custom("coreos.com".into())),
        kind("monitoring.coreos.com", "ServiceMonitor", Category::Custom("coreos.com".into())),
        kind("monitoring.coreos.com", "Alertmanager", Category::Custom("coreos.com".into())),
        kind("kustomize.toolkit.fluxcd.io", "Kustomization", Category::Flux),
    ];
    let home = Category::Custom("home-operations.com".into());
    assert_eq!(group_kinds(&catalog, &home, Some("kopiur.home-operations.com")), vec![0]);
    assert_eq!(group_kinds(&catalog, &home, None), vec![0, 1]);
    assert_eq!(group_kinds(&catalog, &Category::Flux, None), vec![5]);
    assert_eq!(prometheus_kinds(&catalog), vec![2, 4]);
}

#[test]
fn normalized_paths_are_fixed_points() {
    for path in ["/", "/var//log/./app/", "/../../etc", "/a/b/../../..", "/x/./y/.."] {
        let once = normalize_file_path(path).unwrap();
        assert!(once.starts_with('/'));
        assert!(once.len() <= path.len());
        assert_eq!(normalize_file_path(&once).unwrap(), once);
    }
}
