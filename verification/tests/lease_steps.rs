use roder_k8s::coordination::{
    acquire_action, after_renewal, after_write, may_renew, new_lease, new_lease_now, release_patch,
    renew_patch, renew_patch_now, take_patch_now, roder_pod, roder_pods, take_patch, AcquireAction, AcquireNext, LeaseView, LeaseWrite, RoderPod,
};
use roder_k8s::json::Json;
use serde_json::Value;

fn to_json(v: &Value) -> Json {
    match v {
        Value::Null => Json::Null,
        Value::Bool(b) => Json::Bool(*b),
        Value::Number(n) => Json::Number(n.to_string(), n.as_i64()),
        Value::String(s) => Json::Str(s.clone()),
        Value::Array(a) => Json::Array(a.iter().map(to_json).collect()),
        Value::Object(m) => Json::Object(m.iter().map(|(k, v)| (k.clone(), to_json(v))).collect()),
    }
}

fn to_value(j: &Json) -> Value {
    match j {
        Json::Null => Value::Null,
        Json::Bool(b) => Value::Bool(*b),
        Json::Number(text, _) => serde_json::from_str(text).unwrap(),
        Json::Str(s) => Value::String(s.clone()),
        Json::Array(a) => Value::Array(a.iter().map(to_value).collect()),
        Json::Object(m) => {
            Value::Object(m.iter().map(|(k, v)| (k.clone(), to_value(v))).collect())
        }
    }
}

fn value(text: &str) -> Value {
    serde_json::from_str(text).unwrap()
}

fn pod(name: &str, uid: &str) -> RoderPod {
    RoderPod {
        name: name.into(),
        uid: uid.into(),
        node: "n1".into(),
        ip: "10.0.0.1".into(),
        ready: true,
        tls_fingerprint: None,
    }
}

fn lease(holder: Option<&str>, transitions: Option<i32>) -> LeaseView {
    LeaseView {
        holder: holder.map(str::to_string),
        transitions,
        resource_version: Some("42".into()),
    }
}

#[test]
fn absent_leases_are_created() {
    assert_eq!(acquire_action(None, &[], "me/1"), AcquireAction::Create);
}

#[test]
fn leases_of_live_pods_are_never_taken() {
    let pods = [pod("other", "2")];
    assert_eq!(acquire_action(Some(&lease(Some("other/2"), Some(3))), &pods, "me/1"), AcquireAction::Busy);
    assert_eq!(
        acquire_action(Some(&lease(Some("legacy-holder"), Some(3))), &pods, "me/1"),
        AcquireAction::Busy
    );
}

#[test]
fn leases_of_gone_pods_are_taken_over_with_a_transition() {
    let pods = [pod("other", "3")];
    assert_eq!(
        acquire_action(Some(&lease(Some("other/2"), Some(3))), &pods, "me/1"),
        AcquireAction::Take { transitions: 4 }
    );
    assert_eq!(
        acquire_action(Some(&lease(None, None)), &pods, "me/1"),
        AcquireAction::Take { transitions: 1 }
    );
    assert_eq!(
        acquire_action(Some(&lease(Some("me/1"), Some(5))), &[], "me/1"),
        AcquireAction::Take { transitions: 5 }
    );
}

#[test]
fn conflicts_are_retried_a_bounded_number_of_times() {
    assert_eq!(after_write(LeaseWrite::Written, 0), AcquireNext::Held);
    assert_eq!(after_write(LeaseWrite::Conflict, 0), AcquireNext::Retry);
    assert_eq!(after_write(LeaseWrite::Conflict, 2), AcquireNext::Retry);
    assert_eq!(after_write(LeaseWrite::Conflict, 3), AcquireNext::Busy);
    assert_eq!(after_write(LeaseWrite::Failed, 1), AcquireNext::Fail);
}

#[test]
fn only_the_holder_renews() {
    assert!(may_renew(Some(&lease(Some("me/1"), None)), "me/1"));
    assert!(!may_renew(Some(&lease(Some("other/2"), None)), "me/1"));
    assert!(!may_renew(Some(&lease(None, None)), "me/1"));
    assert!(!may_renew(None, "me/1"));
}

#[test]
fn three_failed_renewals_in_a_row_cancel() {
    assert_eq!(after_renewal(false, 0), (1, false));
    assert_eq!(after_renewal(false, 1), (2, false));
    assert_eq!(after_renewal(false, 2), (3, true));
    assert_eq!(after_renewal(true, 2), (0, false));
    assert_eq!(after_renewal(false, u32::MAX), (u32::MAX, true));
}

#[test]
fn lease_documents_carry_holder_and_version() {
    let created = to_value(&new_lease("roder-node-a", "node-a", "me/1", "2026-01-01T00:00:00Z"));
    assert_eq!(created["metadata"]["annotations"]["roder.io/target-node"], "node-a");
    assert_eq!(created["spec"]["holderIdentity"], "me/1");
    assert_eq!(created["spec"]["leaseDurationSeconds"], 45);
    assert_eq!(created["spec"]["leaseTransitions"], 0);
    let taken = to_value(&take_patch(&lease(Some("x/1"), Some(1)), "me/1", "t", 2));
    assert_eq!(taken["metadata"]["resourceVersion"], "42");
    assert_eq!(taken["spec"]["leaseTransitions"], 2);
    assert_eq!(taken["spec"]["acquireTime"], "t");
    assert_eq!(
        to_value(&renew_patch(&lease(Some("me/1"), None), "t2")),
        value(r#"{"metadata": {"resourceVersion": "42"}, "spec": {"renewTime": "t2"}}"#)
    );
    let unversioned = LeaseView { holder: None, transitions: None, resource_version: None };
    assert_eq!(
        to_value(&release_patch(&unversioned)),
        value(r#"{"metadata": {"resourceVersion": null}, "spec": {"holderIdentity": null}}"#)
    );
}

#[test]
fn listed_pods_become_roder_pods() {
    let listed = to_json(&value(
        r#"[
            {"metadata": {"name": "roder-0", "uid": "u0", "annotations": {"roder.io/tls-fingerprint": "ab"}},
             "spec": {"nodeName": "n1"},
             "status": {"phase": "Running", "podIP": "10.0.0.5",
                        "conditions": [{"type": "Ready", "status": "True"}]}},
            {"metadata": {"name": "roder-1", "uid": "u1", "deletionTimestamp": "2026-01-01T00:00:00Z"},
             "spec": {"nodeName": "n2"},
             "status": {"phase": "Running", "podIP": "10.0.0.6",
                        "conditions": [{"type": "Ready", "status": "True"}]}},
            {"metadata": {"name": "roder-2", "uid": "u2"}, "spec": {"nodeName": "n3"},
             "status": {"phase": "Pending"}}
        ]"#,
    ));
    let Json::Array(items) = listed else { panic!("array expected") };
    let pods = roder_pods(&items);
    assert_eq!(pods.len(), 2);
    assert_eq!(pods[0].name, "roder-0");
    assert!(pods[0].ready);
    assert_eq!(pods[0].tls_fingerprint.as_deref(), Some("ab"));
    assert_eq!(pods[1].name, "roder-1");
    assert!(!pods[1].ready);
    assert!(roder_pod(&items[2]).is_none());
}

fn is_microtime(text: &str) -> bool {
    let bytes = text.as_bytes();
    text.len() == 27 && bytes[10] == b'T' && bytes[19] == b'.' && text.ends_with('Z')
}

#[test]
fn lease_writes_now_carry_a_microsecond_timestamp() {
    let lease = to_value(&new_lease_now("roder-node-a", "node-a", "pod-1"));
    assert_eq!(lease["spec"]["holderIdentity"], "pod-1");
    let acquired = lease["spec"]["acquireTime"].as_str().unwrap();
    assert!(is_microtime(acquired), "{acquired}");
    assert_eq!(lease["spec"]["renewTime"], acquired);

    let view = LeaseView { holder: Some("pod-1".into()), transitions: Some(2), resource_version: Some("7".into()) };
    let renew = to_value(&renew_patch_now(&view));
    assert_eq!(renew["metadata"]["resourceVersion"], "7");
    assert!(is_microtime(renew["spec"]["renewTime"].as_str().unwrap()));

    let take = to_value(&take_patch_now(&view, "pod-2", 3));
    assert_eq!(take["spec"]["holderIdentity"], "pod-2");
    assert_eq!(take["spec"]["leaseTransitions"], 3);
}
