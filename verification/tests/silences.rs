use std::collections::HashMap;

use roder_k8s::alertmanager::{
    alertmanager_url_from, direct_alertmanager_url, firing_alerts, silence_request, silence_target,
    AmAlert, FiringAlert, SilenceError,
};

const NOW: i128 = 1_700_000_000 * 1_000_000_000;

fn pairs(map: &HashMap<String, String>) -> Vec<(String, String)> {
    map.iter().map(|(k, v)| (k.clone(), v.clone())).collect()
}

#[test]
fn silence_uses_every_alert_label_as_an_exact_matcher() {
    let labels = HashMap::from([
        ("alertname".to_string(), "PodDown".to_string()),
        ("namespace".to_string(), "production".to_string()),
    ]);
    let request = silence_request(&pairs(&labels), Some(3_600), "operator", NOW).expect("valid silence request");
    assert_eq!(request.matchers.len(), labels.len());
    assert!(request.matchers.iter().all(|m| {
        !m.is_regex && m.is_equal && labels.get(&m.name).map(String::as_str) == Some(m.value.as_str())
    }));
    assert_eq!(request.created_by, "operator");
    assert_eq!(request.comment, "Silenced from Roder");
    assert_eq!(request.starts_at, "2023-11-14T22:13:20Z");
    assert_eq!(request.ends_at, "2023-11-14T23:13:20Z");
}

#[test]
fn forever_silence_uses_alertmanager_maximum_timestamp() {
    let labels = vec![("alertname".to_string(), "PodDown".to_string())];
    let request = silence_request(&labels, None, "operator", NOW).unwrap();
    assert_eq!(request.ends_at, "9999-12-31T23:59:59Z");
}

#[test]
fn silences_need_labels_and_a_bounded_duration() {
    assert_eq!(silence_request(&[], None, "operator", NOW).err().unwrap(), "alert has no labels");
    let labels = vec![("alertname".to_string(), "PodDown".to_string())];
    assert_eq!(
        silence_request(&labels, Some(u64::MAX), "operator", NOW).err().unwrap(),
        "silence duration is too large"
    );
}

fn am_alert(severity: Option<&str>, silenced_by: Vec<String>) -> AmAlert {
    let mut labels = vec![("alertname".to_string(), "PodDown".to_string())];
    if let Some(s) = severity {
        labels.push(("severity".to_string(), s.to_string()));
    }
    AmAlert {
        fingerprint: "abc".to_string(),
        labels,
        annotations: vec![("summary".to_string(), "pod is down".to_string())],
        starts_at: "2026-01-01T00:00:00Z".to_string(),
        silenced_by,
    }
}

#[test]
fn inhibited_alert_is_not_reported_as_silenced() {
    // Inhibited ("suppressed") with no silence: `silencedBy` is empty.
    let alert = am_alert(Some("warning"), vec![]);
    assert!(!alert.into_firing().silenced);
}

#[test]
fn firing_alerts_keep_only_real_severities() {
    let raw = vec![
        am_alert(Some("warning"), vec!["s1".to_string()]),
        am_alert(Some("none"), vec![]),
        am_alert(Some(""), vec![]),
        am_alert(None, vec![]),
    ];
    let shown = firing_alerts(raw);
    assert_eq!(shown.len(), 1);
    assert_eq!(shown[0].name, "PodDown");
    assert_eq!(shown[0].severity, "warning");
    assert_eq!(shown[0].summary, "pod is down");
    assert_eq!(shown[0].description, "");
    assert!(shown[0].silenced);
}

fn firing(fingerprint: &str, silenced: bool) -> FiringAlert {
    FiringAlert {
        fingerprint: fingerprint.to_string(),
        name: String::new(),
        severity: "warning".to_string(),
        summary: String::new(),
        description: String::new(),
        starts_at: String::new(),
        silenced,
        labels: vec![("alertname".to_string(), fingerprint.to_string())],
    }
}

#[test]
fn silencing_needs_a_known_unsilenced_alert() {
    let alerts = vec![firing("a", true), firing("b", false)];
    assert!(matches!(silence_target(&alerts, "zzz"), Err(SilenceError::NotFound)));
    assert!(matches!(silence_target(&alerts, "a"), Err(SilenceError::AlreadySilenced)));
    assert_eq!(silence_target(&alerts, "b").ok().unwrap()[0].1, "b");
    assert_eq!(SilenceError::NotFound.message(), "alert not found");
}

#[test]
fn alertmanager_url_requires_direct_http() {
    assert_eq!(direct_alertmanager_url("http://alertmanager:9093/").unwrap(), "http://alertmanager:9093");
    assert!(direct_alertmanager_url("/api/v1/namespaces/monitoring/services/alertmanager/proxy").is_err());
}

#[test]
fn alertmanager_url_checks_the_scheme() {
    assert_eq!(
        alertmanager_url_from("ftp://host/", Ok("ftp".to_string())).unwrap_err(),
        "RODER_ALERTMANAGER_URL must use http or https"
    );
    assert_eq!(
        alertmanager_url_from("x", Err("relative URL without a base".to_string())).unwrap_err(),
        "invalid RODER_ALERTMANAGER_URL: relative URL without a base"
    );
    assert_eq!(alertmanager_url_from("https://h//", Ok("https".to_string())).unwrap(), "https://h");
}
