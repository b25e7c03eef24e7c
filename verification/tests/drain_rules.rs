use roder_k8s::drain::{
    boot_changed, reboot_step, reboot_timeout_error, drain_blockers, is_evictable, is_waitable_terminating, record_removal,
    remaining_terminating_pods, skipped_pod_count, start_drain, DrainEvent, DrainOptions,
    DrainPod, DrainStart, DrainSummary, PodIdentity,
};
use roder_k8s::json::Json;

fn pod(name: &str) -> DrainPod {
    DrainPod {
        name: Some(name.to_string()),
        namespace: None,
        uid: None,
        deleting: false,
        owner_kinds: Vec::new(),
        annotation_keys: Vec::new(),
        phase: None,
        volume_is_empty_dir: Vec::new(),
    }
}

fn owned_by(name: &str, kind: &str) -> DrainPod {
    let mut p = pod(name);
    p.owner_kinds.push(kind.to_string());
    p
}

#[test]
fn blocks_unmanaged_pods() {
    let p = pod("standalone");
    let blockers = drain_blockers(&p, &DrainOptions::default());
    assert_eq!(blockers.len(), 1);
    assert_eq!(blockers[0].clearable_by, "force");

    let forced = DrainOptions { force: true, ..Default::default() };
    assert!(drain_blockers(&p, &forced).is_empty());
}

#[test]
fn blocks_empty_dir_data_loss() {
    let mut p = owned_by("local-data", "ReplicaSet");
    p.volume_is_empty_dir.push(true);
    let blockers = drain_blockers(&p, &DrainOptions::default());
    assert_eq!(blockers.len(), 1);
    assert_eq!(blockers[0].clearable_by, "delete_emptydir_data");

    let allowed = DrainOptions { delete_emptydir_data: true, ..Default::default() };
    assert!(drain_blockers(&p, &allowed).is_empty());
}

#[test]
fn reports_all_blockers_for_unmanaged_empty_dir_pod() {
    let mut p = pod("standalone-data");
    p.volume_is_empty_dir.push(true);
    let blockers = drain_blockers(&p, &DrainOptions::default());
    let clearable_by: Vec<_> = blockers.iter().map(|b| b.clearable_by.as_str()).collect();
    assert_eq!(clearable_by, ["force", "delete_emptydir_data"]);
}

#[test]
fn blocks_daemonset_pods_when_not_ignored() {
    let p = owned_by("ds-pod", "DaemonSet");
    let strict = DrainOptions { ignore_daemonsets: false, ..Default::default() };
    let blockers = drain_blockers(&p, &strict);
    assert_eq!(blockers.len(), 1);
    assert_eq!(blockers[0].clearable_by, "ignore_daemonsets");

    // Default options ignore DaemonSets.
    assert!(drain_blockers(&p, &DrainOptions::default()).is_empty());
}

#[test]
fn mirror_and_terminal_pods_never_block() {
    let mut mirror = pod("static-pod");
    mirror.annotation_keys.push("kubernetes.io/config.mirror".to_string());
    assert!(drain_blockers(&mirror, &DrainOptions::default()).is_empty());

    let mut terminal = pod("done-pod");
    terminal.phase = Some("Succeeded".to_string());
    assert!(drain_blockers(&terminal, &DrainOptions::default()).is_empty());
}

fn with_identity(name: &str, uid: &str) -> DrainPod {
    let mut p = pod(name);
    p.namespace = Some("default".to_string());
    p.uid = Some(uid.to_string());
    p
}

#[test]
fn accepted_deleting_pod_is_still_waiting_for_termination() {
    let accepted_pod = with_identity("app-pod", "pod-uid");
    let mut deleting_pod = with_identity("app-pod", "pod-uid");
    deleting_pod.deleting = true;

    let accepted = vec![PodIdentity::from_pod(&accepted_pod)];
    assert_eq!(remaining_terminating_pods(&[deleting_pod], &accepted), ["app-pod"]);
    assert!(remaining_terminating_pods(&[], &accepted).is_empty());
}

#[test]
fn replacement_pod_with_same_name_is_not_an_accepted_identity() {
    let original = with_identity("app-pod", "original-uid");
    let replacement = with_identity("app-pod", "replacement-uid");

    let accepted = vec![PodIdentity::from_pod(&original)];
    assert!(remaining_terminating_pods(&[replacement], &accepted).is_empty());
}

fn deleting(mut p: DrainPod) -> DrainPod {
    p.deleting = true;
    p
}

#[test]
fn only_deleting_workload_pods_join_the_termination_wait() {
    let mut mirror = deleting(pod("mirror"));
    mirror.annotation_keys.push("kubernetes.io/config.mirror".to_string());
    let mut terminal = deleting(pod("terminal"));
    terminal.phase = Some("Failed".to_string());
    let pods = vec![
        deleting(owned_by("workload", "ReplicaSet")),
        deleting(owned_by("daemon", "DaemonSet")),
        mirror,
        terminal,
    ];
    assert_eq!(pods.iter().filter(|p| is_waitable_terminating(p)).count(), 1);
    assert!(is_waitable_terminating(&pods[0]));
}

#[test]
fn skipped_count_only_includes_pods_not_requiring_eviction() {
    let mut mirror = pod("mirror");
    mirror.annotation_keys.push("kubernetes.io/config.mirror".to_string());
    let mut terminal = pod("terminal");
    terminal.phase = Some("Succeeded".to_string());
    let pods = vec![
        owned_by("daemon", "DaemonSet"),
        mirror,
        terminal,
        deleting(pod("deleting")),
        pod("evictable"),
    ];
    assert_eq!(skipped_pod_count(&pods), 4);
}

#[test]
fn skipped_and_evicted_pods_partition_the_node() {
    let pods = vec![owned_by("a", "ReplicaSet"), owned_by("b", "DaemonSet"), deleting(pod("c"))];
    let evictable = pods.iter().filter(|p| is_evictable(p)).count();
    assert_eq!(skipped_pod_count(&pods) + evictable, pods.len());
}

#[test]
fn a_blocked_drain_lists_every_blocker_and_evicts_nothing() {
    let mut data = owned_by("data", "ReplicaSet");
    data.volume_is_empty_dir.push(false);
    data.volume_is_empty_dir.push(true);
    let pods = vec![pod("lonely"), data, owned_by("ds", "DaemonSet")];
    match start_drain(&pods, &DrainOptions::default()) {
        DrainStart::Blocked { summary, blockers } => {
            assert_eq!(blockers.len(), 2);
            assert_eq!(summary.evicted, 0);
            assert_eq!(summary.skipped, 1);
            assert_eq!(
                summary.failed,
                vec!["lonely: unmanaged pod".to_string(), "data: uses emptyDir storage".to_string()]
            );
        }
        DrainStart::Proceed { .. } => panic!("expected a blocked drain"),
    }
}

#[test]
fn an_unblocked_drain_evicts_workloads_and_waits_on_deletions() {
    let pods = vec![
        owned_by("web", "ReplicaSet"),
        owned_by("ds", "DaemonSet"),
        deleting(owned_by("old", "ReplicaSet")),
        owned_by("api", "StatefulSet"),
    ];
    match start_drain(&pods, &DrainOptions::default()) {
        DrainStart::Proceed { summary, evictable, terminating } => {
            assert_eq!(evictable, vec![0, 3]);
            assert_eq!(terminating.len(), 1);
            assert_eq!(terminating[0].name, "old");
            assert_eq!(summary.skipped, 2);
            assert!(summary.failed.is_empty());
        }
        DrainStart::Blocked { .. } => panic!("expected the drain to proceed"),
    }
}

#[test]
fn removal_outcomes_update_the_summary() {
    let mut summary = DrainSummary { evicted: 0, skipped: 1, failed: Vec::new() };
    let mut terminating = Vec::new();
    let web = owned_by("web", "ReplicaSet");
    match record_removal(&mut summary, &mut terminating, &web, Ok(()), 2) {
        DrainEvent::Evicted { pod, done, total } => {
            assert_eq!((pod.as_str(), done, total), ("web", 1, 2));
        }
        _ => panic!("expected an eviction"),
    }
    assert_eq!(terminating.len(), 1);
    let api = owned_by("api", "ReplicaSet");
    record_removal(&mut summary, &mut terminating, &api, Err(String::new()), 2);
    assert_eq!(
        summary.failed,
        vec!["api: drain deadline elapsed before pod removal was accepted".to_string()]
    );
    record_removal(&mut summary, &mut terminating, &api, Err("pdb".to_string()), 2);
    assert_eq!(summary.failed[1], "api: pdb");
    assert_eq!(summary.evicted, 1);
}

fn conv(v: &serde_json::Value) -> Json {
    match v {
        serde_json::Value::Null => Json::Null,
        serde_json::Value::Bool(b) => Json::Bool(*b),
        serde_json::Value::Number(n) => Json::Number(n.to_string(), n.as_i64()),
        serde_json::Value::String(s) => Json::Str(s.clone()),
        serde_json::Value::Array(a) => Json::Array(a.iter().map(conv).collect()),
        serde_json::Value::Object(m) => Json::Object(m.iter().map(|(k, v)| (k.clone(), conv(v))).collect()),
    }
}

fn node_json(text: &str) -> Json {
    conv(&serde_json::from_str(text).unwrap())
}

#[test]
fn reboot_completes_after_not_ready_then_ready() {
    let ready = node_json(r#"{"status": {"conditions": [{"type": "Ready", "status": "True"}], "nodeInfo": {"bootId": "a"}}}"#);
    let not_ready = node_json(r#"{"status": {"conditions": [{"type": "Ready", "status": "False"}], "nodeInfo": {"bootId": "a"}}}"#);
    assert_eq!(reboot_step(false, Some("a"), Some(&ready)), (false, false));
    assert_eq!(reboot_step(false, Some("a"), Some(&not_ready)), (false, true));
    assert_eq!(reboot_step(true, Some("a"), Some(&ready)), (true, true));
    assert_eq!(reboot_step(false, Some("a"), None), (false, true));
}

#[test]
fn reboot_completes_when_the_boot_id_changed() {
    let rebooted = node_json(r#"{"status": {"conditions": [{"type": "Ready", "status": "True"}], "nodeInfo": {"bootId": "b"}}}"#);
    assert!(boot_changed(&rebooted, Some("a")));
    assert!(!boot_changed(&rebooted, None));
    assert_eq!(reboot_step(false, Some("a"), Some(&rebooted)), (true, false));
    assert_eq!(reboot_step(false, None, Some(&rebooted)), (false, false));
    assert_eq!(
        reboot_timeout_error("worker-1").message(),
        "Kubernetes API error: node worker-1 did not complete a NotReady-to-Ready reboot cycle before timeout"
    );
}
