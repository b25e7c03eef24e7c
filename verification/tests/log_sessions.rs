use roder_k8s::json::Json;
use roder_k8s::logs::{
    container_log_prefix, log_containers, log_failure_line, pod_active, workload_container, LogSeen,
};
use serde_json::Value;

fn to_json(v: &Value) -> Json {
    match v {
        Value::Null => Json::Null,
        Value::Bool(b) => Json::Bool(*b),
        Value::Number(n) => Json::Number(n.to_string(), n.as_i64()),
        Value::String(s) => Json::Str(s.clone()),
        Value::Array(a) => Json::Array(a.iter().map(to_json).collect()),
        Value::Object(m) => Json::Object(m.iter().map(|(k, v)| (k.clone(), to_json(v))).collect()),
    }
}

fn parse(text: &str) -> Json {
    to_json(&serde_json::from_str::<Value>(text).unwrap())
}

fn crashing_pod(finished_at: &str) -> Json {
    parse(&format!(
        r#"{{"spec": {{"initContainers": [{{"name": "setup"}}], "containers": [{{"name": "app"}}, {{"name": "sidecar"}}, {{"image": "unnamed"}}]}},
            "status": {{
              "initContainerStatuses": [{{"name": "setup", "state": {{"terminated": {{"exitCode": 0, "finishedAt": "t0"}}}}}}],
              "containerStatuses": [
                {{"name": "app", "state": {{"waiting": {{}}}}, "lastState": {{"terminated": {{"exitCode": 1, "finishedAt": "{finished_at}"}}}}}},
                {{"name": "sidecar", "state": {{"running": {{}}}}}}
              ]}}}}"#
    ))
}

#[test]
fn finished_attempts_are_streamed_once_until_they_change() {
    let mut seen = LogSeen::new();
    let first = log_containers(&crashing_pod("t1"), "apps", "web-0", &mut seen);
    assert_eq!(
        first,
        vec![("setup".to_string(), false), ("app".to_string(), true), ("sidecar".to_string(), false)]
    );
    let again = log_containers(&crashing_pod("t1"), "apps", "web-0", &mut seen);
    assert_eq!(again, vec![("sidecar".to_string(), false)]);
    let next_crash = log_containers(&crashing_pod("t2"), "apps", "web-0", &mut seen);
    assert_eq!(next_crash, vec![("app".to_string(), true), ("sidecar".to_string(), false)]);
    let other_pod = log_containers(&crashing_pod("t2"), "apps", "web-1", &mut seen);
    assert_eq!(other_pod.len(), 3);
}

#[test]
fn already_reported_remembers_the_last_signature() {
    let mut seen = LogSeen::new();
    assert!(!seen.already_reported("ns", "pod", "c", "1@a"));
    assert!(seen.already_reported("ns", "pod", "c", "1@a"));
    assert!(!seen.already_reported("ns", "pod", "c", "2@b"));
    assert!(!seen.already_reported("ns", "pod", "other", "2@b"));
    assert!(seen.already_reported("ns", "pod", "c", "2@b"));
}

#[test]
fn containers_that_have_not_run_are_skipped() {
    let pod = parse(r#"{"spec": {"containers": [{"name": "app"}]}, "status": {"containerStatuses": [{"name": "app", "state": {"waiting": {}}}]}}"#);
    let mut seen = LogSeen::new();
    assert!(log_containers(&pod, "ns", "p", &mut seen).is_empty());
    assert!(log_containers(&parse("{}"), "ns", "p", &mut seen).is_empty());
}

#[test]
fn prefixes_and_failure_lines() {
    assert_eq!(container_log_prefix("app", 2), "app │ ");
    assert_eq!(container_log_prefix("app", 1), "");
    assert_eq!(
        log_failure_line("web-0 │ ", "pods \"web-0\" not found"),
        "web-0 │ [roder] failed to stream logs: pods \"web-0\" not found"
    );
}

#[test]
fn workload_pods_stream_their_first_container_when_they_have_several() {
    let two = parse(r#"{"spec": {"containers": [{"name": "app"}, {"name": "proxy"}]}}"#);
    assert_eq!(workload_container(&two).as_deref(), Some("app"));
    let one = parse(r#"{"spec": {"containers": [{"name": "app"}]}}"#);
    assert_eq!(workload_container(&one), None);
}

#[test]
fn only_succeeded_and_failed_pods_are_inactive() {
    assert!(pod_active(None));
    assert!(pod_active(Some(&parse(r#"{"status": {"phase": "Pending"}}"#))));
    assert!(pod_active(Some(&parse(r#"{"metadata": {}}"#))));
    assert!(!pod_active(Some(&parse(r#"{"status": {"phase": "Succeeded"}}"#))));
    assert!(!pod_active(Some(&parse(r#"{"status": {"phase": "Failed"}}"#))));
}
