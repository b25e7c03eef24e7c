use roder_k8s::json::Json;
use roder_k8s::sanitize::{should_sweep_job, should_sweep_pod, SweepOptions};

fn to_json(v: &serde_json::Value) -> Json {
    match v {
        serde_json::Value::Null => Json::Null,
        serde_json::Value::Bool(b) => Json::Bool(*b),
        serde_json::Value::Number(n) => Json::Number(n.to_string(), n.as_i64()),
        serde_json::Value::String(s) => Json::Str(s.clone()),
        serde_json::Value::Array(a) => Json::Array(a.iter().map(to_json).collect()),
        serde_json::Value::Object(m) => {
            Json::Object(m.iter().map(|(k, v)| (k.clone(), to_json(v))).collect())
        }
    }
}

fn parse(text: &str) -> Json {
    to_json(&serde_json::from_str::<serde_json::Value>(text).unwrap())
}

fn pod_in_phase(phase: &str) -> Json {
    parse(&format!(r#"{{"status": {{"phase": "{phase}"}}}}"#))
}

#[test]
fn sweeps_terminally_failed_pods() {
    assert!(should_sweep_pod(&pod_in_phase("Failed"), SweepOptions::default()));
}

#[test]
fn does_not_sweep_running_or_pending_pods_by_phase() {
    assert!(!should_sweep_pod(&pod_in_phase("Running"), SweepOptions::default()));
    assert!(!should_sweep_pod(&pod_in_phase("Pending"), SweepOptions::default()));
}

#[test]
fn terminal_pods_can_be_excluded() {
    let options = SweepOptions { terminal_pods: false, ..Default::default() };
    assert!(!should_sweep_pod(&pod_in_phase("Failed"), options));
}

#[test]
fn restarted_pods_are_opt_in() {
    let pod = parse(
        r#"{"status": {"containerStatuses": [{
            "name": "app", "image": "app", "imageID": "", "ready": true,
            "restartCount": 2, "started": true, "state": {"running": {}}
        }]}}"#,
    );
    assert!(!should_sweep_pod(&pod, SweepOptions::default()));
    assert!(should_sweep_pod(
        &pod,
        SweepOptions {
            terminal_pods: false,
            stuck_pods: false,
            restarted_pods: true,
            completed_jobs: false,
            failed_jobs: false,
        }
    ));
}

#[test]
fn stuck_pods_can_be_selected_independently() {
    let pod = parse(
        r#"{"status": {"containerStatuses": [{
            "name": "app", "image": "app", "imageID": "", "ready": false,
            "restartCount": 3, "started": false,
            "state": {"waiting": {"reason": "CrashLoopBackOff"}}
        }]}}"#,
    );
    assert!(should_sweep_pod(&pod, SweepOptions { terminal_pods: false, ..Default::default() }));
    assert!(!should_sweep_pod(
        &pod,
        SweepOptions { terminal_pods: false, stuck_pods: false, ..Default::default() }
    ));
}

#[test]
fn completed_and_failed_jobs_are_independent() {
    let job = |condition: &str| {
        parse(&format!(
            r#"{{"spec": {{"template": {{"spec": {{"containers": [], "restartPolicy": "Never"}}}}}},
                "status": {{"conditions": [{{"type": "{condition}", "status": "True",
                "lastProbeTime": null, "lastTransitionTime": null}}]}}}}"#
        ))
    };
    let completed_only = SweepOptions { failed_jobs: false, ..Default::default() };
    assert!(should_sweep_job(&job("Complete"), completed_only));
    assert!(!should_sweep_job(&job("Failed"), completed_only));
}

#[test]
fn deleting_evicted_and_oom_pods() {
    let deleting = parse(r#"{"metadata": {"deletionTimestamp": "2026-01-01T00:00:00Z"}, "status": {"phase": "Failed"}}"#);
    assert!(!should_sweep_pod(&deleting, SweepOptions::default()));
    let evicted = parse(r#"{"status": {"phase": "Running", "reason": "Evicted"}}"#);
    assert!(should_sweep_pod(&evicted, SweepOptions::default()));
    let oom = parse(
        r#"{"status": {"initContainerStatuses": [{"restartCount": 0, "state": {"terminated": {"reason": "OOMKilled"}}}]}}"#,
    );
    assert!(should_sweep_pod(&oom, SweepOptions { terminal_pods: false, ..Default::default() }));
    let nothing = SweepOptions {
        terminal_pods: false,
        stuck_pods: false,
        restarted_pods: false,
        completed_jobs: false,
        failed_jobs: false,
    };
    assert!(!should_sweep_pod(&oom, nothing));
    let unfinished = parse(r#"{"status": {"conditions": [{"type": "Complete", "status": "False"}]}}"#);
    assert!(!should_sweep_job(&unfinished, SweepOptions::default()));
}
