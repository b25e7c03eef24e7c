use roder_k8s::alertmanager::utf8_prefix;
use roder_k8s::alerts::{nonempty_label, workload_gvk};

#[test]
fn response_preview_truncates_at_utf8_boundary() {
    let value = format!("{}é", "a".repeat(499));
    assert_eq!(utf8_prefix(&value, 500), "a".repeat(499));
    assert_eq!(utf8_prefix(&value, 501), value);
}

#[test]
fn preview_of_a_short_body_is_the_whole_body() {
    assert_eq!(utf8_prefix("abc", 500), "abc");
    assert_eq!(utf8_prefix("", 3), "");
    assert_eq!(utf8_prefix("é", 1), "");
}

#[test]
fn workload_types_are_normalized() {
    assert_eq!(workload_gvk("stateful_set"), Some(("apps", "StatefulSet")));
    assert_eq!(workload_gvk("CronJob"), Some(("batch", "CronJob")));
    assert_eq!(workload_gvk("pod"), Some(("", "Pod")));
    assert_eq!(workload_gvk("Widget"), None);
}

#[test]
fn empty_labels_count_as_missing() {
    let labels = vec![
        ("namespace".to_string(), "".to_string()),
        ("pod".to_string(), "api-123".to_string()),
    ];
    assert_eq!(nonempty_label(&labels, "namespace"), None);
    assert_eq!(nonempty_label(&labels, "pod"), Some("api-123"));
    assert_eq!(nonempty_label(&labels, "node"), None);
}
