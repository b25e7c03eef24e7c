use roder_k8s::json::Json;
use roder_k8s::overview::{cnpg_signals_at, summarize_cnpg_signals, RowStatus};

fn to_json(v: &serde_json::Value) -> Json {
    match v {
        serde_json::Value::Null => Json::Null,
        serde_json::Value::Bool(b) => Json::Bool(*b),
        serde_json::Value::Number(n) => Json::Number(n.to_string(), n.as_i64()),
        serde_json::Value::String(s) => Json::Str(s.clone()),
        serde_json::Value::Array(a) => Json::Array(a.iter().map(to_json).collect()),
        serde_json::Value::Object(m) => {
            Json::Object(m.iter().map(|(k, v)| (k.clone(), to_json(v))).collect())
        }
    }
}

/// A namespaced object in `database` with the given name and body.
fn object(name: &str, body: &str) -> Json {
    let mut v: serde_json::Value = serde_json::from_str(body).unwrap();
    v.as_object_mut().unwrap().insert(
        "metadata".to_string(),
        serde_json::from_str(&format!(r#"{{"name": "{name}", "namespace": "database"}}"#)).unwrap(),
    );
    to_json(&v)
}

#[test]
fn cnpg_signals_report_archival_failure_and_stale_recovery_point() {
    let clusters = [object(
        "app",
        r#"{"status": {"conditions": [{
            "type": "ContinuousArchiving",
            "status": "False",
            "message": "WAL upload failed"
        }]}}"#,
    )];
    let backups = [object(
        "older",
        r#"{
            "spec": {"cluster": {"name": "app"}},
            "status": {"phase": "completed", "stoppedAt": "2026-09-01T02:00:00Z"}
        }"#,
    )];
    let schedules = [object(
        "daily",
        r#"{
            "spec": {"cluster": {"name": "app"}},
            "status": {"lastScheduleTime": "2026-09-02T02:00:00Z"}
        }"#,
    )];

    let signals = summarize_cnpg_signals(&clusters, &backups, &schedules);

    assert_eq!(signals.len(), 2);
    assert_eq!(signals[0].label, "app archival");
    assert_eq!(signals[0].status, RowStatus::Error);
    assert_eq!(signals[0].message, "WAL upload failed");
    assert_eq!(signals[1].label, "app backup RPO");
    assert_eq!(signals[1].status, RowStatus::Warn);
    assert_eq!(signals[1].timestamp.as_deref(), Some("2026-09-01T02:00:00Z"));
}

#[test]
fn cnpg_signal_fails_when_a_schedule_has_never_produced_a_backup() {
    let clusters = [object("app", "{}")];
    let schedules = [object(
        "daily",
        r#"{
            "spec": {"cluster": {"name": "app"}},
            "status": {"lastScheduleTime": "2026-09-02T02:00:00Z"}
        }"#,
    )];

    let signals = summarize_cnpg_signals(&clusters, &[], &schedules);

    assert_eq!(signals[0].status, RowStatus::Error);
    assert_eq!(signals[0].value, "No recovery point");
}

#[test]
fn a_backup_after_the_last_run_is_a_healthy_recovery_point() {
    let clusters = [object("db", "{}")];
    let backups = [
        object("b1", r#"{"spec": {"cluster": {"name": "db"}}, "status": {"phase": "Succeeded", "stoppedAt": "2026-09-03T00:00:00+02:00"}}"#),
        object("b0", r#"{"spec": {"cluster": {"name": "db"}}, "status": {"phase": "failed", "stoppedAt": "2026-09-09T00:00:00Z"}}"#),
    ];
    let schedules = [object(
        "daily",
        r#"{"spec": {"cluster": {"name": "db"}}, "status": {"lastScheduleTime": "2026-09-02T21:00:00Z"}}"#,
    )];
    let signals = summarize_cnpg_signals(&clusters, &backups, &schedules);
    assert_eq!(signals.len(), 1);
    assert_eq!(signals[0].status, RowStatus::Healthy);
    assert_eq!(signals[0].value, "Recovery point age");
    assert_eq!(signals[0].message, "Latest successful recovery point");
    assert_eq!(signals[0].timestamp.as_deref(), Some("2026-09-03T00:00:00+02:00"));
}

#[test]
fn signals_are_sorted_by_label_with_given_instants() {
    let clusters = [
        object("zeta", r#"{"status": {"conditions": [{"type": "ContinuousArchiving", "status": "True"}]}}"#),
        object("alpha", r#"{"status": {"conditions": [{"type": "ContinuousArchiving"}]}}"#),
    ];
    let backups = [object(
        "b",
        r#"{"spec": {"cluster": {"name": "zeta"}}, "status": {"phase": "Completed", "stoppedAt": "x"}}"#,
    )];
    let signals = cnpg_signals_at(&clusters, &backups, &[Some(10)], &[], &[]);
    let labels: Vec<_> = signals.iter().map(|s| s.label.as_str()).collect();
    assert_eq!(labels, ["alpha archival", "zeta archival", "zeta backup RPO"]);
    assert_eq!(signals[0].status, RowStatus::Pending);
    assert_eq!(signals[0].value, "Pending");
    assert_eq!(signals[1].value, "Healthy");
    assert_eq!(signals[2].timestamp.as_deref(), Some("x"));
    // The same stamp that does not parse as RFC 3339 gives no recovery point.
    assert_eq!(summarize_cnpg_signals(&clusters, &backups, &[]).len(), 2);
}
