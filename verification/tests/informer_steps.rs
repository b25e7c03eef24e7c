use roder_k8s::informer::{
    caches_objects, next_attempt, on_request_error, on_watch_status, row_uid, table_kind_error,
    ErrorClass, InformerPhase, InformerStep,
};
use roder_k8s::json::Json;

fn to_json(v: &serde_json::Value) -> Json {
    match v {
        serde_json::Value::Null => Json::Null,
        serde_json::Value::Bool(b) => Json::Bool(*b),
        serde_json::Value::Number(n) => Json::Number(n.to_string(), n.as_i64()),
        serde_json::Value::String(s) => Json::Str(s.clone()),
        serde_json::Value::Array(a) => Json::Array(a.iter().map(to_json).collect()),
        serde_json::Value::Object(m) => {
            Json::Object(m.iter().map(|(k, v)| (k.clone(), to_json(v))).collect())
        }
    }
}

fn parse(text: &str) -> Json {
    to_json(&serde_json::from_str::<serde_json::Value>(text).unwrap())
}

#[test]
fn forbidden_requests_end_the_informer_in_every_phase() {
    for phase in [InformerPhase::Listing, InformerPhase::Connecting, InformerPhase::Watching] {
        assert_eq!(on_request_error(phase, ErrorClass::Forbidden), InformerStep::Terminal);
    }
}

#[test]
fn refused_credentials_back_off_and_relist() {
    for phase in [InformerPhase::Listing, InformerPhase::Connecting, InformerPhase::Watching] {
        assert_eq!(
            on_request_error(phase, ErrorClass::Auth),
            InformerStep::Relist { backoff: true }
        );
    }
}

#[test]
fn permanent_failures_are_reported() {
    assert_eq!(on_request_error(InformerPhase::Watching, ErrorClass::Permanent), InformerStep::Fail);
}

#[test]
fn transient_failures_relist_while_listing_and_reconnect_otherwise() {
    assert_eq!(
        on_request_error(InformerPhase::Listing, ErrorClass::Transient),
        InformerStep::Relist { backoff: true }
    );
    assert_eq!(
        on_request_error(InformerPhase::Connecting, ErrorClass::Transient),
        InformerStep::Reconnect
    );
    assert_eq!(
        on_request_error(InformerPhase::Watching, ErrorClass::Transient),
        InformerStep::Reconnect
    );
}

#[test]
fn watch_status_codes_pick_the_next_step() {
    assert_eq!(on_watch_status(410), InformerStep::Relist { backoff: false });
    assert_eq!(on_watch_status(401), InformerStep::Relist { backoff: true });
    assert_eq!(on_watch_status(403), InformerStep::Terminal);
    assert_eq!(on_watch_status(404), InformerStep::Fail);
    assert_eq!(on_watch_status(500), InformerStep::Reconnect);
    assert_eq!(on_watch_status(200), InformerStep::Reconnect);
}

#[test]
fn attempts_grow_only_when_backing_off() {
    assert_eq!(next_attempt(0, InformerStep::Reconnect), 1);
    assert_eq!(next_attempt(3, InformerStep::Relist { backoff: true }), 4);
    assert_eq!(next_attempt(3, InformerStep::Relist { backoff: false }), 3);
    assert_eq!(next_attempt(3, InformerStep::Terminal), 3);
    assert_eq!(next_attempt(u32::MAX, InformerStep::Reconnect), u32::MAX);
}

#[test]
fn only_core_pods_and_claims_cache_objects() {
    assert!(caches_objects("", "Pod"));
    assert!(caches_objects("", "PersistentVolumeClaim"));
    assert!(!caches_objects("", "Service"));
    assert!(!caches_objects("example.io", "Pod"));
}

#[test]
fn rows_are_identified_by_uid_or_namespace_and_name() {
    let with_uid = parse(r#"{"metadata": {"uid": "uid-1", "name": "pod1", "namespace": "ns"}}"#);
    assert_eq!(row_uid(&with_uid), "uid-1");
    let without = parse(r#"{"metadata": {"name": "pod1", "namespace": "ns"}}"#);
    assert_eq!(row_uid(&without), "ns/pod1");
    let cluster = parse(r#"{"metadata": {"name": "node-a"}}"#);
    assert_eq!(row_uid(&cluster), "/node-a");
}

#[test]
fn pages_that_are_not_tables_are_rejected() {
    assert_eq!(table_kind_error("Table"), None);
    assert_eq!(
        table_kind_error("PodList"),
        Some("expected Kubernetes Table, got PodList".to_string())
    );
}
