use roder_k8s::alerts::{
    matching_rule_targets, resolve_targets, rule_definitions, target_for, workload_gvk,
    AlertResourceTarget,
};
use roder_k8s::catalog::{make_key, ResourceKind};
use roder_k8s::discovery::Category;
use roder_k8s::json::Json;

fn to_json(v: &serde_json::Value) -> Json {
    match v {
        serde_json::Value::Null => Json::Null,
        serde_json::Value::Bool(b) => Json::Bool(*b),
        serde_json::Value::Number(n) => Json::Number(n.to_string(), n.as_i64()),
        serde_json::Value::String(s) => Json::Str(s.clone()),
        serde_json::Value::Array(a) => Json::Array(a.iter().map(to_json).collect()),
        serde_json::Value::Object(m) => {
            Json::Object(m.iter().map(|(k, v)| (k.clone(), to_json(v))).collect())
        }
    }
}

fn parse(text: &str) -> Json {
    to_json(&serde_json::from_str::<serde_json::Value>(text).unwrap())
}

fn kind(group: &str, version: &str, kind: &str, namespaced: bool) -> ResourceKind {
    ResourceKind {
        key: make_key(group, version, kind),
        group: group.to_string(),
        version: version.to_string(),
        kind: kind.to_string(),
        plural: format!("{}s", kind.to_ascii_lowercase()),
        namespaced,
        category: Category::Cluster,
    }
}

fn labels(pairs: &[(&str, &str)]) -> Vec<(String, String)> {
    pairs.iter().map(|(k, v)| (k.to_string(), v.to_string())).collect()
}

fn set_label(labels: &mut Vec<(String, String)>, name: &str, value: &str) {
    match labels.iter_mut().find(|(k, _)| k == name) {
        Some(pair) => pair.1 = value.to_string(),
        None => labels.push((name.to_string(), value.to_string())),
    }
}

#[test]
fn resolves_standard_targets_and_requires_namespaces() {
    let kinds = vec![
        kind("", "v1", "Pod", true),
        kind("", "v1", "Node", false),
        kind("apps", "v1", "Deployment", true),
        kind("batch", "v1", "Job", true),
    ];
    let labels = labels(&[
        ("namespace", "production"),
        ("pod", "api-123"),
        ("node", "worker-1"),
        ("deployment", "api"),
        ("job_name", "migration"),
        ("job", "kube-state-metrics"),
    ]);

    let targets = resolve_targets(&labels, &kinds);

    assert_eq!(targets.len(), 4);
    assert!(targets.iter().any(|target| {
        target.kind == "Node" && target.namespace.is_none() && target.name == "worker-1"
    }));
    assert!(!targets.iter().any(|target| target.name == "kube-state-metrics"));
    assert!(resolve_targets(&[("pod".into(), "api-123".into())], &kinds).is_empty());
}

#[test]
fn resolves_workload_and_custom_resource_conventions() {
    let kinds = vec![
        kind("apps", "v1", "StatefulSet", true),
        kind("example.io", "v1alpha1", "Widget", true),
    ];
    let labels = labels(&[
        ("namespace", "default"),
        ("workload", "database"),
        ("workload_type", "stateful_set"),
        ("customresource_group", "example.io"),
        ("customresource_version", "v1alpha1"),
        ("customresource_kind", "Widget"),
        ("name", "sample"),
    ]);

    let targets = resolve_targets(&labels, &kinds);

    assert_eq!(targets.len(), 2);
    assert!(targets.iter().any(|target| target.name == "database"));
    assert!(targets.iter().any(|target| target.name == "sample"));

    let mut older_version = labels;
    set_label(&mut older_version, "customresource_version", "v1beta1");
    let targets = resolve_targets(&older_version, &kinds);
    assert!(targets
        .iter()
        .any(|target| { target.name == "sample" && target.key == "example.io/v1alpha1/Widget" }));
}

#[test]
fn links_alerts_to_compatible_prometheus_rules() {
    let rule_kind = kind("monitoring.coreos.com", "v1", "PrometheusRule", true);
    let object = parse(
        r#"{
            "apiVersion": "monitoring.coreos.com/v1",
            "kind": "PrometheusRule",
            "metadata": {"name": "workload-rules", "namespace": "monitoring"},
            "spec": { "groups": [{ "rules": [
                { "alert": "ApiDown", "labels": { "severity": "critical" } },
                { "record": "api:requests:rate", "expr": "vector(0)" }
            ] }] }
        }"#,
    );
    let other = parse(
        r#"{
            "apiVersion": "monitoring.coreos.com/v1",
            "kind": "PrometheusRule",
            "metadata": {"name": "warning-rules", "namespace": "monitoring"},
            "spec": { "groups": [{ "rules": [
                { "alert": "ApiDown", "labels": { "severity": "warning" } }
            ] }] }
        }"#,
    );
    let definitions = rule_definitions(&[object, other], &rule_kind);

    let critical = labels(&[("severity", "critical")]);
    let targets = matching_rule_targets("ApiDown", &critical, &definitions);

    assert_eq!(targets.len(), 1);
    assert_eq!(targets[0].name, "workload-rules");
    assert!(matching_rule_targets("Other", &[], &definitions).is_empty());
}

#[test]
fn targets_come_out_sorted_without_repeats() {
    let kinds = vec![kind("", "v1", "Pod", true), kind("apps", "v1", "Deployment", true)];
    let labels = labels(&[
        ("namespace", "prod"),
        ("pod", "web-1"),
        ("deployment", "web"),
        ("workload", "web"),
        ("workload_kind", "Deployment"),
    ]);
    let targets = resolve_targets(&labels, &kinds);
    let keys: Vec<(String, String)> =
        targets.iter().map(|t| (t.key.clone(), t.name.clone())).collect();
    assert_eq!(
        keys,
        vec![
            ("/v1/Pod".to_string(), "web-1".to_string()),
            ("apps/v1/Deployment".to_string(), "web".to_string()),
        ]
    );
}

#[test]
fn a_namespaced_target_needs_a_namespace_label() {
    let kinds = vec![kind("", "v1", "Pod", true), kind("", "v1", "Node", false)];
    assert!(target_for(&kinds, "", None, "Pod", "p", &[]).is_none());
    let node: AlertResourceTarget = target_for(&kinds, "", None, "Node", "n", &[]).unwrap();
    assert_eq!(node.key, "/v1/Node");
    assert_eq!(node.namespace, None);
    assert!(target_for(&kinds, "apps", None, "Deployment", "d", &[]).is_none());
}

#[test]
fn workload_type_labels_are_normalized() {
    assert_eq!(workload_gvk("stateful_set"), Some(("apps", "StatefulSet")));
    assert_eq!(workload_gvk("Cron-Job"), Some(("batch", "CronJob")));
    assert_eq!(workload_gvk("widget"), None);
}

#[test]
fn the_most_specific_compatible_rules_are_chosen() {
    let rule_kind = kind("monitoring.coreos.com", "v1", "PrometheusRule", true);
    let object_text = r#"{
            "metadata": {"name": "a", "namespace": "monitoring"},
            "spec": { "groups": [
                { "rules": [{ "alert": "Down", "labels": { "team": "x" } }] },
                { "rules": [{ "alert": "Down", "labels": { "team": "y", "summary": "{{ $labels.job }}" } }] }
            ] }
        }"#;
    let object = parse(object_text);
    let other = parse(
        r#"{
            "metadata": {"name": "b", "namespace": "monitoring"},
            "spec": { "groups": [{ "rules": [{ "alert": "Down" }] }] }
        }"#,
    );
    let only_a = rule_definitions(&[parse(object_text)], &rule_kind);
    let none_fit = labels(&[("team", "z")]);
    let names: Vec<String> = matching_rule_targets("Down", &none_fit, &only_a)
        .into_iter()
        .map(|t| t.name)
        .collect();
    assert_eq!(names, vec!["a".to_string()]);
    let definitions = rule_definitions(&[object, other], &rule_kind);
    assert_eq!(definitions.len(), 3);
    let names: Vec<String> = matching_rule_targets("Down", &none_fit, &definitions)
        .into_iter()
        .map(|t| t.name)
        .collect();
    assert_eq!(names, vec!["b".to_string()]);
    let team_y = labels(&[("team", "y")]);
    let names: Vec<String> = matching_rule_targets("Down", &team_y, &definitions)
        .into_iter()
        .map(|t| t.name)
        .collect();
    assert_eq!(names, vec!["a".to_string()]);
}
