use roder_k8s::coordination::{holder_pod_exists, lease_name, RoderPod};

#[test]
fn lease_names_are_stable_and_bounded() {
    assert_eq!(
        lease_name("release", "node-a"),
        lease_name("release", "node-a")
    );
    assert_ne!(
        lease_name("release", "node-a"),
        lease_name("release", "node-b")
    );
    assert!(lease_name("release", &"n".repeat(300)).len() <= 253);
}

#[test]
fn holder_identity_is_fenced_by_pod_uid() {
    let pods = vec![RoderPod {
        name: "roder-a".into(),
        uid: "uid-a".into(),
        node: "node-a".into(),
        ip: "10.0.0.1".into(),
        ready: false,
        tls_fingerprint: None,
    }];
    assert!(holder_pod_exists("roder-a/uid-a", &pods));
    assert!(!holder_pod_exists("roder-a/old-uid", &pods));
    assert!(holder_pod_exists("malformed", &pods));
}

fn fnv1a(bytes: &[u8]) -> u64 {
    let mut hash = 0xcbf29ce484222325u64;
    for byte in bytes {
        hash ^= u64::from(*byte);
        hash = hash.wrapping_mul(0x100000001b3);
    }
    hash
}

#[test]
fn lease_name_sanitizes_the_target_and_appends_the_hash() {
    let name = lease_name("scope", "Worker_1.Example-");
    let hash = fnv1a(b"scope\0Worker_1.Example-");
    assert_eq!(name, format!("roder-node-worker-1-example-{hash:016x}"));
}

#[test]
fn lease_name_keeps_only_220_target_characters() {
    let name = lease_name("s", &"x".repeat(300));
    assert_eq!(name.len(), "roder-node-".len() + 220 + 1 + 16);
}
