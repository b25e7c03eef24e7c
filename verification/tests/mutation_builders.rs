use roder_k8s::json::Json;
use roder_k8s::mutations::{
    build_rerun_job, cronjob_job, cronjob_job_at, mark_certificate_for_renewal, name_base,
    renewal_namespace, rerun_namespace,
};
use serde_json::Value;

fn to_json(v: &Value) -> Json {
    match v {
        Value::Null => Json::Null,
        Value::Bool(b) => Json::Bool(*b),
        Value::Number(n) => Json::Number(n.to_string(), n.as_i64()),
        Value::String(s) => Json::Str(s.clone()),
        Value::Array(a) => Json::Array(a.iter().map(to_json).collect()),
        Value::Object(m) => Json::Object(m.iter().map(|(k, v)| (k.clone(), to_json(v))).collect()),
    }
}

fn to_value(j: &Json) -> Value {
    match j {
        Json::Null => Value::Null,
        Json::Bool(b) => Value::Bool(*b),
        Json::Number(text, _) => serde_json::from_str(text).unwrap(),
        Json::Str(s) => Value::String(s.clone()),
        Json::Array(a) => Value::Array(a.iter().map(to_value).collect()),
        Json::Object(m) => {
            Value::Object(m.iter().map(|(k, v)| (k.clone(), to_value(v))).collect())
        }
    }
}

fn parse(text: &str) -> Json {
    to_json(&serde_json::from_str::<Value>(text).unwrap())
}

fn source_job(condition: Option<&str>) -> Json {
    let conditions = match condition {
        Some(condition) => format!(r#"[{{"type": "{condition}", "status": "True"}}]"#),
        None => "[]".to_string(),
    };
    parse(&format!(
        r#"{{
            "apiVersion": "batch/v1",
            "kind": "Job",
            "metadata": {{"name": "Database_Backup", "namespace": "default"}},
            "spec": {{
                "manualSelector": true,
                "selector": {{"matchLabels": {{"controller-uid": "old-uid"}}}},
                "backoffLimit": 4,
                "template": {{
                    "metadata": {{
                        "annotations": {{"example.com/keep": "yes"}},
                        "labels": {{
                            "app": "backup",
                            "batch.kubernetes.io/controller-uid": "old-uid",
                            "batch.kubernetes.io/job-name": "Database_Backup",
                            "controller-uid": "old-uid",
                            "job-name": "Database_Backup"
                        }}
                    }},
                    "spec": {{
                        "restartPolicy": "Never",
                        "containers": [{{"name": "backup", "image": "backup:latest"}}]
                    }}
                }}
            }},
            "status": {{"conditions": {conditions}}}
        }}"#
    ))
}

#[test]
fn rerun_rejects_non_terminal_job() {
    let error = build_rerun_job(&source_job(None), "default", "backup").unwrap_err();
    assert!(error.message().contains("only completed or failed"));
}

#[test]
fn rerun_clones_spec_without_controller_identity() {
    let job = build_rerun_job(&source_job(Some("Complete")), "default", "Database_Backup").unwrap();
    let data = to_value(&job);

    assert_eq!(
        data.pointer("/metadata/generateName").and_then(Value::as_str),
        Some("databasebackup-rerun-")
    );
    assert_eq!(data.pointer("/spec/backoffLimit").and_then(Value::as_i64), Some(4));
    assert!(data.pointer("/spec/selector").is_none());
    assert!(data.pointer("/spec/manualSelector").is_none());
    assert_eq!(
        data.pointer("/spec/template/metadata/labels/app").and_then(Value::as_str),
        Some("backup")
    );
    assert_eq!(
        data.pointer("/spec/template/metadata/labels")
            .and_then(Value::as_object)
            .unwrap()
            .len(),
        1
    );
    assert_eq!(
        data.pointer("/spec/template/metadata/annotations/example.com~1keep")
            .and_then(Value::as_str),
        Some("yes")
    );
}

#[test]
fn failed_job_can_be_rerun_with_bounded_generate_name() {
    let source_name = format!("{}!", "A".repeat(100));
    let job = build_rerun_job(&source_job(Some("Failed")), "default", &source_name).unwrap();
    let generate_name = to_value(&job)
        .pointer("/metadata/generateName")
        .and_then(Value::as_str)
        .unwrap()
        .to_string();
    assert!(generate_name.ends_with("-rerun-"));
    assert!(generate_name.len() <= 55);
}

#[test]
fn manual_certificate_renewal_preserves_other_conditions() {
    let mut certificate = parse(
        r#"{
            "metadata": {"generation": 7},
            "status": {"conditions": [
                {"type": "Ready", "status": "True"},
                {"type": "Issuing", "status": "False", "reason": "Completed"}
            ]}
        }"#,
    );
    mark_certificate_for_renewal(&mut certificate, "2026-08-27T12:00:00Z").unwrap();
    let certificate = to_value(&certificate);
    let conditions = certificate.pointer("/status/conditions").and_then(Value::as_array).unwrap();
    assert_eq!(conditions.len(), 2);
    assert_eq!(conditions[0]["type"], "Ready");
    assert_eq!(conditions[1]["status"], "True");
    assert_eq!(conditions[1]["reason"], "ManuallyTriggered");
    assert_eq!(conditions[1]["observedGeneration"], 7);
}

#[test]
fn renewal_creates_missing_status_and_conditions() {
    let mut certificate = parse(r#"{"metadata": {"name": "web"}, "spec": {}}"#);
    mark_certificate_for_renewal(&mut certificate, "2026-01-01T00:00:00Z").unwrap();
    let certificate = to_value(&certificate);
    let conditions = certificate.pointer("/status/conditions").and_then(Value::as_array).unwrap();
    assert_eq!(conditions.len(), 1);
    assert_eq!(conditions[0]["type"], "Issuing");
    assert_eq!(conditions[0]["lastTransitionTime"], "2026-01-01T00:00:00Z");
    assert_eq!(conditions[0]["observedGeneration"], 0);
}

#[test]
fn renewal_refuses_malformed_certificates_and_leaves_them_alone() {
    let mut not_object = parse("[1]");
    assert_eq!(
        mark_certificate_for_renewal(&mut not_object, "t").unwrap_err().message(),
        "Kubernetes API error: Certificate is not an object"
    );
    let mut bad_status = parse(r#"{"status": "ok"}"#);
    assert_eq!(
        mark_certificate_for_renewal(&mut bad_status, "t").unwrap_err().message(),
        "Kubernetes API error: Certificate status is not an object"
    );
    assert_eq!(to_value(&bad_status), serde_json::from_str::<Value>(r#"{"status": "ok"}"#).unwrap());
    let mut bad_conditions = parse(r#"{"status": {"conditions": {}}}"#);
    assert_eq!(
        mark_certificate_for_renewal(&mut bad_conditions, "t").unwrap_err().message(),
        "Kubernetes API error: Certificate status.conditions is not an array"
    );
}

#[test]
fn manual_cronjob_run_is_owned_by_the_cronjob() {
    let cronjob = parse(
        r#"{
            "metadata": {"name": "Nightly_Backup", "uid": "cj-uid"},
            "spec": {"jobTemplate": {"spec": {"backoffLimit": 2}}}
        }"#,
    );
    let job = to_value(&cronjob_job_at(&cronjob, "Nightly_Backup", Some("ops"), 1700000000).unwrap());
    assert_eq!(job["metadata"]["name"], "nightlybackup-manual-1700000000");
    assert_eq!(job["metadata"]["namespace"], "ops");
    assert_eq!(job["metadata"]["annotations"]["cronjob.kubernetes.io/instantiate"], "manual");
    assert_eq!(job["metadata"]["ownerReferences"][0]["uid"], "cj-uid");
    assert_eq!(job["metadata"]["ownerReferences"][0]["controller"], false);
    assert_eq!(job["spec"]["backoffLimit"], 2);
    let now = cronjob_job(&cronjob, "Nightly_Backup", None).unwrap();
    assert_eq!(to_value(&now)["metadata"]["namespace"], Value::Null);
}

#[test]
fn cronjob_without_a_job_template_is_refused() {
    let cronjob = parse(r#"{"spec": {}}"#);
    assert_eq!(
        cronjob_job_at(&cronjob, "x", None, 0).unwrap_err().message(),
        "Kubernetes API error: CronJob has no spec.jobTemplate"
    );
    let no_spec = parse(r#"{"spec": {"jobTemplate": {}}}"#);
    let job = to_value(&cronjob_job_at(&no_spec, "--", None, 5).unwrap());
    assert_eq!(job["metadata"]["name"], "job-manual-5");
    assert_eq!(job["spec"], serde_json::from_str::<Value>("{}").unwrap());
}

#[test]
fn generated_name_bases_keep_dns_characters() {
    let base: String = name_base("-My.App_Name-", 48, "job").into_iter().collect();
    assert_eq!(base, "myappname");
    let long: String = name_base(&"a".repeat(60), 48, "job").into_iter().collect();
    assert_eq!(long.len(), 48);
    let empty: String = name_base("___", 48, "cluster").into_iter().collect();
    assert_eq!(empty, "cluster");
}

#[test]
fn rerun_and_renewal_requests_are_checked() {
    assert_eq!(rerun_namespace("batch/v1/Job", Some("ns")).unwrap(), "ns");
    assert_eq!(
        rerun_namespace("apps/v1/Deployment", Some("ns")).unwrap_err().message(),
        "Kubernetes API error: re-run requires a batch/v1 Job"
    );
    assert_eq!(
        rerun_namespace("batch/v1/Job", None).unwrap_err().message(),
        "Kubernetes API error: Job namespace is required"
    );
    assert_eq!(renewal_namespace("cert-manager.io", "Certificate", Some("ns")).unwrap(), "ns");
    assert_eq!(
        renewal_namespace("cert-manager.io", "Certificate", Some("")).unwrap_err().message(),
        "Kubernetes API error: Certificate namespace is required"
    );
    assert_eq!(
        renewal_namespace("cert-manager.io", "Issuer", Some("ns")).unwrap_err().message(),
        "Kubernetes API error: renewal requires a cert-manager.io Certificate"
    );
}
