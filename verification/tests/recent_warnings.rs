use roder_k8s::json::Json;
use roder_k8s::warnings::{event_warning, recent_warnings, MAX_WARNINGS};
use serde_json::Value;

fn to_json(v: &Value) -> Json {
    match v {
        Value::Null => Json::Null,
        Value::Bool(b) => Json::Bool(*b),
        Value::Number(n) => Json::Number(n.to_string(), n.as_i64()),
        Value::String(s) => Json::Str(s.clone()),
        Value::Array(a) => Json::Array(a.iter().map(to_json).collect()),
        Value::Object(m) => Json::Object(m.iter().map(|(k, v)| (k.clone(), to_json(v))).collect()),
    }
}

fn parse(text: &str) -> Json {
    to_json(&serde_json::from_str::<Value>(text).unwrap())
}

fn event(name: &str, last: Option<&str>) -> Json {
    let stamp = match last {
        Some(t) => format!(r#", "lastTimestamp": "{t}""#),
        None => String::new(),
    };
    parse(&format!(
        r#"{{"metadata": {{"name": "{name}", "namespace": "apps"}},
            "involvedObject": {{"kind": "Pod", "name": "web-0"}},
            "reason": "BackOff", "message": "restarting"{stamp}}}"#
    ))
}

#[test]
fn warning_fields_prefer_series_and_reporting_component() {
    let w = event_warning(&parse(
        r#"{"metadata": {"name": "ev"},
            "involvedObject": {"kind": "Pod", "name": "web-0", "namespace": "shop"},
            "reason": "Failed", "message": "pull failed",
            "reportingComponent": "kubelet", "source": {"component": "other"},
            "series": {"count": 7, "lastObservedTime": "2024-05-02T10:00:00.000000Z"},
            "eventTime": "2024-05-01T10:00:00.000000Z",
            "lastTimestamp": "2024-04-30T10:00:00Z", "count": 3}"#,
    ));
    assert_eq!(w.event_name, "ev");
    assert_eq!(w.namespace.as_deref(), Some("shop"));
    assert_eq!(w.involved_kind, "Pod");
    assert_eq!(w.involved_name, "web-0");
    assert_eq!(w.reason, "Failed");
    assert_eq!(w.message, "pull failed");
    assert_eq!(w.source, "kubelet");
    assert_eq!(w.timestamp.as_deref(), Some("2024-05-02T10:00:00.000000Z"));
    assert_eq!(w.count, 7);
}

#[test]
fn warning_fields_fall_back_to_older_fields() {
    let w = event_warning(&parse(
        r#"{"metadata": {"name": "ev", "namespace": "apps"},
            "involvedObject": {"namespace": "shop"},
            "source": {"component": "scheduler"},
            "lastTimestamp": "2024-04-30T10:00:00Z", "count": 0}"#,
    ));
    assert_eq!(w.namespace.as_deref(), Some("apps"));
    assert_eq!(w.involved_kind, "");
    assert_eq!(w.reason, "");
    assert_eq!(w.source, "scheduler");
    assert_eq!(w.timestamp.as_deref(), Some("2024-04-30T10:00:00Z"));
    assert_eq!(w.count, 1);
}

#[test]
fn warning_without_count_or_source_counts_once() {
    let w = event_warning(&parse(r#"{"metadata": {}}"#));
    assert_eq!(w.event_name, "");
    assert_eq!(w.namespace, None);
    assert_eq!(w.source, "");
    assert_eq!(w.timestamp, None);
    assert_eq!(w.count, 1);
}

#[test]
fn recent_warnings_are_newest_first_and_stable() {
    let events = vec![
        event("a", Some("2024-01-01T00:00:00Z")),
        event("b", None),
        event("c", Some("2024-03-01T00:00:00Z")),
        event("d", Some("2024-01-01T00:00:00Z")),
        event("e", None),
    ];
    let names: Vec<String> = recent_warnings(&events).into_iter().map(|w| w.event_name).collect();
    assert_eq!(names, vec!["c", "a", "d", "b", "e"]);
}

#[test]
fn recent_warnings_keep_the_newest_eight() {
    let events: Vec<Json> = (0..12)
        .map(|i| event(&format!("e{i}"), Some(&format!("2024-01-{:02}T00:00:00Z", i + 1))))
        .collect();
    let out = recent_warnings(&events);
    assert_eq!(out.len(), MAX_WARNINGS);
    let names: Vec<String> = out.into_iter().map(|w| w.event_name).collect();
    assert_eq!(names, vec!["e11", "e10", "e9", "e8", "e7", "e6", "e5", "e4"]);
}

#[test]
fn recent_warnings_of_nothing_is_empty() {
    assert!(recent_warnings(&[]).is_empty());
}
