use roder_k8s::catalog::{make_key, ResourceKind};
use roder_k8s::discovery::Category;
use roder_k8s::flux::{flux_kind_by_name, flux_kinds, reconcile_patch, reconcile_patch_at, source_target};
use roder_k8s::json::Json;
use roder_k8s::kopiur::{manual_snapshot, manual_snapshot_at};
use roder_k8s::mutations::{
    apply_target, cordon_patch, force_sync_patch, force_sync_patch_at, mark_certificate_for_renewal_now,
    restart_patch, restart_patch_at,
};
use serde_json::Value;

fn to_json(v: &Value) -> Json {
    match v {
        Value::Null => Json::Null,
        Value::Bool(b) => Json::Bool(*b),
        Value::Number(n) => Json::Number(n.to_string(), n.as_i64()),
        Value::String(s) => Json::Str(s.clone()),
        Value::Array(a) => Json::Array(a.iter().map(to_json).collect()),
        Value::Object(m) => Json::Object(m.iter().map(|(k, v)| (k.clone(), to_json(v))).collect()),
    }
}

fn to_value(j: &Json) -> Value {
    match j {
        Json::Null => Value::Null,
        Json::Bool(b) => Value::Bool(*b),
        Json::Number(text, _) => serde_json::from_str(text).unwrap(),
        Json::Str(s) => Value::String(s.clone()),
        Json::Array(a) => Value::Array(a.iter().map(to_value).collect()),
        Json::Object(m) => Value::Object(m.iter().map(|(k, v)| (k.clone(), to_value(v))).collect()),
    }
}

fn value(text: &str) -> Value {
    serde_json::from_str(text).unwrap()
}

fn kind(group: &str, version: &str, name: &str, category: Category) -> ResourceKind {
    ResourceKind {
        key: make_key(group, version, name),
        group: group.into(),
        version: version.into(),
        kind: name.into(),
        plural: format!("{}s", name.to_lowercase()),
        namespaced: true,
        category,
    }
}

fn catalog() -> Vec<ResourceKind> {
    vec![
        kind("apps", "v1", "Deployment", Category::Workloads),
        kind("other.example.com", "v1", "GitRepository", Category::Custom("example.com".into())),
        kind("kustomize.toolkit.fluxcd.io", "v1", "Kustomization", Category::Flux),
        kind("source.toolkit.fluxcd.io", "v1", "GitRepository", Category::Flux),
        kind("helm.toolkit.fluxcd.io", "v2", "HelmRelease", Category::Flux),
    ]
}

#[test]
fn reconcile_patch_sets_requested_force_and_reset_annotations() {
    let plain = to_value(&reconcile_patch_at("2024-05-01T10:00:00Z", false, false));
    assert_eq!(
        plain,
        value(r#"{"metadata": {"annotations": {"reconcile.fluxcd.io/requestedAt": "2024-05-01T10:00:00Z"}}}"#)
    );
    let both = to_value(&reconcile_patch_at("T", true, true));
    assert_eq!(
        both,
        value(
            r#"{"metadata": {"annotations": {
                "reconcile.fluxcd.io/forceAt": "T",
                "reconcile.fluxcd.io/requestedAt": "T",
                "reconcile.fluxcd.io/resetAt": "T"}}}"#
        )
    );
    let reset = to_value(&reconcile_patch_at("T", false, true));
    let annotations = reset["metadata"]["annotations"].as_object().unwrap();
    assert_eq!(annotations.len(), 2);
    assert_eq!(annotations["reconcile.fluxcd.io/resetAt"], "T");
}

#[test]
fn reconcile_patch_now_uses_one_rfc3339_time() {
    let patch = to_value(&reconcile_patch(true, false));
    let annotations = &patch["metadata"]["annotations"];
    let requested = annotations["reconcile.fluxcd.io/requestedAt"].as_str().unwrap();
    assert!(requested.ends_with('Z'));
    assert!(requested.contains('T'));
    assert_eq!(annotations["reconcile.fluxcd.io/forceAt"], requested);
}

#[test]
fn source_target_resolves_the_flux_source_kind() {
    let object = to_json(&value(
        r#"{"spec": {"sourceRef": {"kind": "GitRepository", "name": "infra"}}}"#,
    ));
    let (key, ns, name) = source_target(&catalog(), &object, Some("flux-system")).unwrap();
    assert_eq!(key, "source.toolkit.fluxcd.io/v1/GitRepository");
    assert_eq!(ns.as_deref(), Some("flux-system"));
    assert_eq!(name, "infra");

    let chart = to_json(&value(
        r#"{"spec": {"chart": {"spec": {"sourceRef": {"kind": "GitRepository", "name": "charts", "namespace": "shared"}}}}}"#,
    ));
    let (_, ns, name) = source_target(&catalog(), &chart, Some("apps")).unwrap();
    assert_eq!(ns.as_deref(), Some("shared"));
    assert_eq!(name, "charts");
}

#[test]
fn source_target_errors_name_what_is_missing() {
    let no_spec = to_json(&value(r#"{"metadata": {}}"#));
    assert_eq!(
        source_target(&catalog(), &no_spec, None).unwrap_err().message(),
        "Kubernetes API error: resource has no spec"
    );
    let no_ref = to_json(&value(r#"{"spec": {"interval": "1m"}}"#));
    assert_eq!(
        source_target(&catalog(), &no_ref, None).unwrap_err().message(),
        "Kubernetes API error: resource has no sourceRef to reconcile"
    );
    let bucket = to_json(&value(r#"{"spec": {"sourceRef": {"kind": "Bucket", "name": "b"}}}"#));
    assert_eq!(
        source_target(&catalog(), &bucket, None).unwrap_err().message(),
        "Kubernetes API error: no Flux source kind found: Bucket"
    );
}

#[test]
fn flux_kind_lookup_skips_other_groups() {
    assert_eq!(flux_kind_by_name(&catalog(), "GitRepository"), Some(3));
    assert_eq!(flux_kind_by_name(&catalog(), "Deployment"), None);
    assert_eq!(flux_kinds(&catalog()), vec![2, 3, 4]);
    assert!(flux_kinds(&[]).is_empty());
}

#[test]
fn restart_and_force_sync_patches_carry_the_time() {
    assert_eq!(
        to_value(&restart_patch_at("T1")),
        value(r#"{"spec": {"template": {"metadata": {"annotations": {"kubectl.kubernetes.io/restartedAt": "T1"}}}}}"#)
    );
    assert_eq!(
        to_value(&force_sync_patch_at("T2")),
        value(r#"{"metadata": {"annotations": {"force-sync": "T2"}}}"#)
    );
    let now = to_value(&restart_patch());
    assert!(now["spec"]["template"]["metadata"]["annotations"]["kubectl.kubernetes.io/restartedAt"]
        .as_str()
        .unwrap()
        .ends_with('Z'));
    let now = to_value(&force_sync_patch());
    assert!(now["metadata"]["annotations"]["force-sync"].as_str().unwrap().contains('T'));
}

#[test]
fn cordon_patch_sets_unschedulable() {
    assert_eq!(to_value(&cordon_patch(true)), value(r#"{"spec": {"unschedulable": true}}"#));
    assert_eq!(to_value(&cordon_patch(false)), value(r#"{"spec": {"unschedulable": false}}"#));
}

#[test]
fn certificate_renewal_now_marks_issuing() {
    let mut certificate = to_json(&value(
        r#"{"metadata": {"name": "web", "generation": 3}, "status": {"conditions": []}}"#,
    ));
    mark_certificate_for_renewal_now(&mut certificate).unwrap();
    let marked = to_value(&certificate);
    let conditions = marked["status"]["conditions"].as_array().unwrap();
    assert_eq!(conditions.len(), 1);
    assert_eq!(conditions[0]["type"], "Issuing");
    assert_eq!(conditions[0]["status"], "True");
}

#[test]
fn apply_target_reads_key_name_and_namespace() {
    let (key, name, ns) = apply_target(
        "apiVersion: apps/v1\nkind: Deployment\nmetadata:\n  name: web\n  namespace: shop\n",
    )
    .unwrap();
    assert_eq!(key, "apps/v1/Deployment");
    assert_eq!(name, "web");
    assert_eq!(ns.as_deref(), Some("shop"));

    let (key, name, ns) = apply_target("apiVersion: v1\nkind: Namespace\nmetadata:\n  name: shop\n").unwrap();
    assert_eq!(key, "/v1/Namespace");
    assert_eq!(name, "shop");
    assert_eq!(ns, None);
}

#[test]
fn apply_target_refuses_incomplete_documents() {
    let missing_name = apply_target("apiVersion: v1\nkind: ConfigMap\nmetadata: {}\n").unwrap_err();
    assert_eq!(missing_name.message(), "Kubernetes API error: document is missing metadata.name");
    let missing_types = apply_target("metadata:\n  name: web\n").unwrap_err();
    assert_eq!(missing_types.message(), "Kubernetes API error: document is missing apiVersion/kind");
    let invalid = apply_target("- just\n- a list\n").unwrap_err();
    assert!(invalid.message().starts_with("Kubernetes API error: invalid YAML: "));
}

#[test]
fn manual_snapshot_references_its_policy() {
    let snapshot = to_value(&manual_snapshot_at(
        "kopiur.home-operations.com",
        "v1alpha1",
        "daily",
        Some("backups"),
        1700000000,
    ));
    assert_eq!(
        snapshot,
        value(
            r#"{"apiVersion": "kopiur.home-operations.com/v1alpha1", "kind": "Snapshot",
                "metadata": {"name": "daily-manual-1700000000", "namespace": "backups",
                    "labels": {"kopiur.home-operations.com/origin": "manual",
                               "kopiur.home-operations.com/config": "daily"}},
                "spec": {"policyRef": {"name": "daily"}}}"#
        )
    );
    let policy = kind("kopiur.home-operations.com", "v1alpha1", "SnapshotPolicy", Category::Custom("home-operations.com".into()));
    let (key, now) = manual_snapshot(&policy, "daily", None);
    assert_eq!(key, "kopiur.home-operations.com/v1alpha1/Snapshot");
    let now = to_value(&now);
    assert!(now["metadata"]["name"].as_str().unwrap().starts_with("daily-manual-"));
    assert_eq!(now["metadata"]["namespace"], Value::Null);
}
