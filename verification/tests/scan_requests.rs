use roder_k8s::json::Json;
use roder_k8s::recommend::{autoscaler_target, scan_request, template_containers, WorkloadKind};

fn to_json(v: &serde_json::Value) -> Json {
    match v {
        serde_json::Value::Null => Json::Null,
        serde_json::Value::Bool(b) => Json::Bool(*b),
        serde_json::Value::Number(n) => Json::Number(n.to_string(), n.as_i64()),
        serde_json::Value::String(s) => Json::Str(s.clone()),
        serde_json::Value::Array(a) => Json::Array(a.iter().map(to_json).collect()),
        serde_json::Value::Object(m) => {
            Json::Object(m.iter().map(|(k, v)| (k.clone(), to_json(v))).collect())
        }
    }
}

fn parse(text: &str) -> Json {
    to_json(&serde_json::from_str::<serde_json::Value>(text).unwrap())
}

fn deployment(resources: &str) -> Json {
    parse(&format!(
        r#"{{
            "apiVersion": "apps/v1",
            "kind": "Deployment",
            "metadata": {{"name": "web", "namespace": "prod"}},
            "spec": {{"template": {{"spec": {{"containers": [
                {{"name": "app", "resources": {resources}}},
                {{"name": "sidecar"}}
            ]}}}}}}
        }}"#
    ))
}

#[test]
fn declared_quantities_are_read_per_container() {
    let data = deployment(r#"{"requests": {"cpu": "100m", "memory": "256Mi"}, "limits": {"memory": "512Mi"}}"#);
    let containers = template_containers(&data, &["spec", "template", "spec"]);
    assert_eq!(containers.len(), 2);
    assert_eq!(containers[0].name, "app");
    assert_eq!(containers[0].cpu_request.as_deref(), Some("100m"));
    assert_eq!(containers[0].memory_request.as_deref(), Some("256Mi"));
    assert_eq!(containers[0].memory_limit.as_deref(), Some("512Mi"));
    assert_eq!(containers[0].cpu_limit, None);
}

#[test]
fn a_container_with_no_resources_block_reports_everything_unset() {
    let data = deployment("{}");
    let containers = template_containers(&data, &["spec", "template", "spec"]);
    let sidecar = &containers[1];
    assert_eq!(sidecar.name, "sidecar");
    assert_eq!(sidecar.cpu_request, None);
    assert_eq!(sidecar.cpu_limit, None);
    assert_eq!(sidecar.memory_request, None);
    assert_eq!(sidecar.memory_limit, None);
}

#[test]
fn cronjob_template_quantities_are_found_one_level_deeper() {
    let data = parse(
        r#"{
            "metadata": {"name": "backup", "namespace": "prod"},
            "spec": {"jobTemplate": {"spec": {"template": {"spec": {"containers": [
                {"name": "backup", "resources": {"requests": {"cpu": "2"}}}
            ]}}}}}
        }"#,
    );
    let containers = template_containers(&data, &["spec", "jobTemplate", "spec", "template", "spec"]);
    assert_eq!(containers.len(), 1);
    assert_eq!(containers[0].cpu_request.as_deref(), Some("2"));
}

#[test]
fn a_missing_template_path_yields_no_containers() {
    let data = parse(r#"{"metadata": {"name": "web"}, "spec": {}}"#);
    assert!(template_containers(&data, &["spec", "template", "spec"]).is_empty());
}

#[test]
fn hpa_targets_are_matched_by_namespace_kind_and_name() {
    let autoscaled = vec![("prod".to_string(), "Deployment".to_string(), "web".to_string())];
    let object = deployment(r#"{"requests": {"cpu": "100m"}}"#);
    let request = scan_request(&object, WorkloadKind::Deployment, &["spec", "template", "spec"], &autoscaled)
        .expect("request");
    assert!(request.has_hpa);

    // The same name under a different kind is a different workload.
    let other = scan_request(&object, WorkloadKind::StatefulSet, &["spec", "template", "spec"], &autoscaled)
        .expect("request");
    assert!(!other.has_hpa);
}

#[test]
fn workloads_without_name_or_containers_are_not_scanned() {
    let nameless = parse(r#"{"spec": {"template": {"spec": {"containers": [{"name": "a"}]}}}}"#);
    assert!(scan_request(&nameless, WorkloadKind::Deployment, &["spec", "template", "spec"], &[]).is_none());
    let empty = parse(r#"{"metadata": {"name": "x"}, "spec": {"template": {"spec": {"containers": []}}}}"#);
    assert!(scan_request(&empty, WorkloadKind::Deployment, &["spec", "template", "spec"], &[]).is_none());
    let hpa = parse(r#"{"metadata": {"namespace": "prod"}, "spec": {"scaleTargetRef": {"kind": "Deployment", "name": "web"}}}"#);
    assert_eq!(
        autoscaler_target(&hpa),
        Some(("prod".to_string(), "Deployment".to_string(), "web".to_string()))
    );
}
