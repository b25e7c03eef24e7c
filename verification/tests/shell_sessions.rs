use roder_k8s::json::Json;
use roder_k8s::shell::{
    container_running, debug_container_name, debug_container_plan, debug_patch,
    debug_start_timeout, ephemeral_container_names, node_shell_name, node_shell_plan,
    node_shell_pod, node_shell_start_timeout,
};
use serde_json::Value;

fn to_json(v: &Value) -> Json {
    match v {
        Value::Null => Json::Null,
        Value::Bool(b) => Json::Bool(*b),
        Value::Number(n) => Json::Number(n.to_string(), n.as_i64()),
        Value::String(s) => Json::Str(s.clone()),
        Value::Array(a) => Json::Array(a.iter().map(to_json).collect()),
        Value::Object(m) => Json::Object(m.iter().map(|(k, v)| (k.clone(), to_json(v))).collect()),
    }
}

fn to_value(j: &Json) -> Value {
    match j {
        Json::Null => Value::Null,
        Json::Bool(b) => Value::Bool(*b),
        Json::Number(text, _) => serde_json::from_str(text).unwrap(),
        Json::Str(s) => Value::String(s.clone()),
        Json::Array(a) => Value::Array(a.iter().map(to_value).collect()),
        Json::Object(m) => {
            Value::Object(m.iter().map(|(k, v)| (k.clone(), to_value(v))).collect())
        }
    }
}

fn parse(text: &str) -> Json {
    to_json(&serde_json::from_str::<Value>(text).unwrap())
}

#[test]
fn debug_names_skip_the_ones_in_use() {
    assert_eq!(debug_container_name(&[], 0x12abcdef), "debug-abcdef");
    let taken = vec!["debug-abcdef".to_string(), "debug-abcdef-1".to_string()];
    assert_eq!(debug_container_name(&taken, 0xabcdef), "debug-abcdef-2");
    let other = vec!["debug-000001".to_string()];
    assert_eq!(debug_container_name(&other, 0), "debug-000000");
}

#[test]
fn debug_patch_keeps_existing_ephemeral_containers() {
    let pod = parse(
        r#"{"spec": {"ephemeralContainers": [{"name": "debug-000001", "image": "busybox"}]}}"#,
    );
    assert_eq!(ephemeral_container_names(&pod), vec!["debug-000001".to_string()]);
    let patch = to_value(&debug_patch(&pod, "debug-000001-1"));
    let containers = patch["spec"]["ephemeralContainers"].as_array().unwrap();
    assert_eq!(containers.len(), 2);
    assert_eq!(containers[0]["image"], "busybox");
    assert_eq!(containers[1]["name"], "debug-000001-1");
    assert_eq!(containers[1]["image"], "nicolaka/netshoot");
    assert_eq!(containers[1]["tty"], true);
    assert_eq!(containers[1]["terminationMessagePolicy"], "File");
}

#[test]
fn debug_plans_name_a_free_container() {
    let pod = parse(r#"{"spec": {}}"#);
    let (name, patch) = debug_container_plan(&pod);
    assert!(name.starts_with("debug-"));
    assert_eq!(name.len(), "debug-".len() + 6);
    assert_eq!(to_value(&patch)["spec"]["ephemeralContainers"][0]["name"], Value::String(name));
}

#[test]
fn running_is_read_from_the_named_status() {
    let pod = parse(
        r#"{"status": {
            "ephemeralContainerStatuses": [
                {"name": "debug-1", "state": {"waiting": {"reason": "ContainerCreating"}}},
                {"name": "debug-2", "state": {"running": {"startedAt": "now"}}}
            ],
            "containerStatuses": [{"name": "shell", "state": {"running": {}}}]
        }}"#,
    );
    assert!(!container_running(&pod, "ephemeralContainerStatuses", "debug-1"));
    assert!(container_running(&pod, "ephemeralContainerStatuses", "debug-2"));
    assert!(container_running(&pod, "containerStatuses", "shell"));
    assert!(!container_running(&pod, "containerStatuses", "debug-2"));
}

#[test]
fn node_shells_are_privileged_host_pods() {
    assert_eq!(node_shell_name(0x1000123456), "roder-node-shell-123456");
    let pod = to_value(&node_shell_pod("roder-node-shell-123456", "worker-1"));
    assert_eq!(pod["metadata"]["namespace"], "default");
    assert_eq!(pod["spec"]["nodeName"], "worker-1");
    assert_eq!(pod["spec"]["hostPID"], true);
    assert_eq!(pod["spec"]["activeDeadlineSeconds"], 3600);
    assert_eq!(pod["spec"]["containers"][0]["securityContext"]["privileged"], true);
    assert_eq!(pod["spec"]["tolerations"][0]["operator"], "Exists");
    let (name, planned) = node_shell_plan("worker-2");
    assert!(name.starts_with("roder-node-shell-"));
    assert_eq!(to_value(&planned)["metadata"]["name"], Value::String(name));
}

#[test]
fn start_timeouts_name_the_container() {
    assert_eq!(
        debug_start_timeout("debug-1").message(),
        "Kubernetes API error: debug container debug-1 did not start within 60s"
    );
    assert_eq!(
        node_shell_start_timeout("roder-node-shell-1").message(),
        "Kubernetes API error: node-shell pod roder-node-shell-1 did not start within 60s"
    );
}
