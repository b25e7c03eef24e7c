use roder_k8s::json::Json;
use roder_k8s::logs::{attempt_signature, container_log_plan, workload_label_selector, LogPlan};

fn to_json(v: &serde_json::Value) -> Json {
    match v {
        serde_json::Value::Null => Json::Null,
        serde_json::Value::Bool(b) => Json::Bool(*b),
        serde_json::Value::Number(n) => Json::Number(n.to_string(), n.as_i64()),
        serde_json::Value::String(s) => Json::Str(s.clone()),
        serde_json::Value::Array(a) => Json::Array(a.iter().map(to_json).collect()),
        serde_json::Value::Object(m) => {
            Json::Object(m.iter().map(|(k, v)| (k.clone(), to_json(v))).collect())
        }
    }
}

fn parse(text: &str) -> Json {
    to_json(&serde_json::from_str::<serde_json::Value>(text).unwrap())
}

#[test]
fn workload_selector_includes_labels_and_expressions() {
    let data = parse(
        r#"{
            "spec": {"selector": {
                "matchLabels": {"app": "api"},
                "matchExpressions": [
                    {"key": "tier", "operator": "In", "values": ["web", "worker"]},
                    {"key": "deprecated", "operator": "DoesNotExist"},
                    {"key": "track", "operator": "NotIn", "values": ["canary"]},
                    {"key": "managed", "operator": "Exists"}
                ]
            }}
        }"#,
    );
    assert_eq!(
        workload_label_selector(&data).unwrap(),
        "!deprecated,app=api,managed,tier in (web,worker),track notin (canary)"
    );
}

#[test]
fn match_expressions_only_selector_remains_scoped() {
    let data = parse(
        r#"{"spec": {"selector": {"matchExpressions": [{"key": "app", "operator": "Exists"}]}}}"#,
    );
    assert_eq!(workload_label_selector(&data).unwrap(), "app");
}

#[test]
fn empty_or_malformed_selector_is_rejected() {
    assert!(workload_label_selector(&parse(r#"{"spec": {"selector": {}}}"#)).is_err());
    assert!(workload_label_selector(&parse(
        r#"{"spec": {"selector": {"matchExpressions": [
            {"key": "app", "operator": "In", "values": []}
        ]}}}"#
    ))
    .is_err());
}

#[test]
fn selector_errors_name_the_offending_entry() {
    assert_eq!(
        workload_label_selector(&parse(r#"{"spec": {}}"#)).unwrap_err(),
        "workload has no label selector"
    );
    assert_eq!(
        workload_label_selector(&parse(r#"{"spec": {"selector": {"matchLabels": {"app": 3}}}}"#))
            .unwrap_err(),
        "workload selector label app is not a string"
    );
    assert_eq!(
        workload_label_selector(&parse(
            r#"{"spec": {"selector": {"matchExpressions": [{"key": "a", "operator": "Gt"}]}}}"#
        ))
        .unwrap_err(),
        "workload selector expression for a has unsupported operator Gt"
    );
    assert_eq!(
        workload_label_selector(&parse(
            r#"{"spec": {"selector": {"matchExpressions": [{"operator": "Exists"}]}}}"#
        ))
        .unwrap_err(),
        "workload selector expression is missing key"
    );
    assert_eq!(
        workload_label_selector(&parse(
            r#"{"spec": {"selector": {"matchExpressions": [{"key": "a"}]}}}"#
        ))
        .unwrap_err(),
        "workload selector expression for a is missing operator"
    );
    assert_eq!(
        workload_label_selector(&parse(
            r#"{"spec": {"selector": {"matchExpressions": [{"key": "a", "operator": "In", "values": [1]}]}}}"#
        ))
        .unwrap_err(),
        "workload selector expression for a has a non-string value"
    );
    assert_eq!(
        workload_label_selector(&parse(
            r#"{"spec": {"selector": {"matchExpressions": [{"key": "a", "operator": "NotIn"}]}}}"#
        ))
        .unwrap_err(),
        "workload selector expression NotIn for a has no values"
    );
}

#[test]
fn attempt_signature_is_exit_code_and_finish_time() {
    let t = parse(r#"{"exitCode": 137, "finishedAt": "2026-01-02T03:04:05Z"}"#);
    assert_eq!(attempt_signature(&t), "137@2026-01-02T03:04:05Z");
    assert_eq!(attempt_signature(&parse("{}")), "-1@");
}

#[test]
fn log_plans_follow_the_container_state() {
    let pod = parse(
        r#"{"status": {
            "initContainerStatuses": [
                {"name": "init", "state": {"terminated": {"exitCode": 0, "finishedAt": "t1"}}}
            ],
            "containerStatuses": [
                {"name": "app", "state": {"running": {}}},
                {"name": "crash", "state": {"waiting": {}},
                 "lastState": {"terminated": {"exitCode": 1, "finishedAt": "t2"}}},
                {"name": "new", "state": {"waiting": {}}}
            ]
        }}"#,
    );
    assert!(matches!(container_log_plan(&pod, "app"), LogPlan::Live));
    match container_log_plan(&pod, "init") {
        LogPlan::Static { previous, signature } => {
            assert!(!previous);
            assert_eq!(signature, "0@t1");
        }
        _ => panic!("init should be static"),
    }
    match container_log_plan(&pod, "crash") {
        LogPlan::Static { previous, signature } => {
            assert!(previous);
            assert_eq!(signature, "1@t2");
        }
        _ => panic!("crash should be static"),
    }
    assert!(matches!(container_log_plan(&pod, "new"), LogPlan::Skip));
    assert!(matches!(container_log_plan(&pod, "absent"), LogPlan::Skip));
}
