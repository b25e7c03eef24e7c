use roder_k8s::catalog::{make_key, ResourceKind};
use roder_k8s::discovery::Category;
use roder_k8s::json::Json;
use roder_k8s::overview::RowStatus;
use roder_k8s::rollup::{
    record_status, rollup_is_shown, status_is_reported, summarize_resources, HealthRollup,
};
use serde_json::Value;

fn to_json(v: &Value) -> Json {
    match v {
        Value::Null => Json::Null,
        Value::Bool(b) => Json::Bool(*b),
        Value::Number(n) => Json::Number(n.to_string(), n.as_i64()),
        Value::String(s) => Json::Str(s.clone()),
        Value::Array(a) => Json::Array(a.iter().map(to_json).collect()),
        Value::Object(m) => Json::Object(m.iter().map(|(k, v)| (k.clone(), to_json(v))).collect()),
    }
}

fn parse(text: &str) -> Json {
    to_json(&serde_json::from_str::<Value>(text).unwrap())
}

fn resource_kind(group: &str, kind: &str) -> ResourceKind {
    ResourceKind {
        key: make_key(group, "v1", kind),
        group: group.into(),
        version: "v1".into(),
        kind: kind.into(),
        plural: format!("{}s", kind.to_lowercase()),
        namespaced: true,
        category: Category::Custom(group.into()),
    }
}

#[test]
fn unreadable_rollup_keeps_its_canonical_resource_key_and_error() {
    let rollup = summarize_resources(&resource_kind("example.io", "Widget"), Err("403 Forbidden".into()));

    assert_eq!(rollup.key, "example.io/v1/Widget");
    assert_eq!(rollup.health.total, 0);
    assert_eq!(rollup.error.as_deref(), Some("403 Forbidden"));
    assert!(rollup_is_shown(&rollup));
}

#[test]
fn missing_or_empty_status_is_unreported_and_other_unknowns_are_unknown() {
    let mut rollup = HealthRollup::default();
    record_status(&mut rollup, &parse(r#"{"metadata": {"name": "widget"}}"#), RowStatus::Unknown);
    record_status(&mut rollup, &parse(r#"{"status": {}}"#), RowStatus::Unknown);
    record_status(&mut rollup, &parse(r#"{"status": null}"#), RowStatus::Unknown);
    record_status(&mut rollup, &parse(r#"{"status": {"phase": "Unexpected"}}"#), RowStatus::Unknown);
    assert_eq!(rollup.unreported, 3);
    assert_eq!(rollup.unknown, 1);
    assert_eq!(rollup.total, 4);
    assert!(!status_is_reported(&parse(r#"{"status": {}}"#)));
    assert!(status_is_reported(&parse(r#"{"status": "odd"}"#)));
}

#[test]
fn suspended_objects_are_counted_apart_from_their_status() {
    let mut rollup = HealthRollup::default();
    record_status(&mut rollup, &parse(r#"{"spec": {"suspend": true}}"#), RowStatus::Error);
    record_status(&mut rollup, &parse(r#"{"spec": {"suspend": false}}"#), RowStatus::Error);
    assert_eq!(rollup.suspended, 1);
    assert_eq!(rollup.failing, 1);
}

#[test]
fn statuses_fall_into_their_buckets() {
    let objects: Vec<Json> = (0..6).map(|_| parse(r#"{"status": {"ready": true}}"#)).collect();
    let statuses = [
        RowStatus::Healthy,
        RowStatus::Done,
        RowStatus::Pending,
        RowStatus::Warn,
        RowStatus::Error,
        RowStatus::Unknown,
    ];
    let rollup = summarize_resources(&resource_kind("apps", "Deployment"), Ok((objects.as_slice(), &statuses[..])));
    let h = rollup.health;
    assert_eq!((h.total, h.ready, h.reconciling, h.warning, h.failing, h.unknown), (6, 2, 1, 1, 1, 1));
    assert_eq!(rollup.error, None);

    let empty = summarize_resources(&resource_kind("apps", "Deployment"), Ok((&[][..], &[][..])));
    assert!(!rollup_is_shown(&empty));
}
