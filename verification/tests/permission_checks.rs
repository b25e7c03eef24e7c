use roder_k8s::catalog::{make_key, ResourceKind};
use roder_k8s::discovery::Category;
use roder_k8s::json::Json;
use roder_k8s::permissions::{
    action_checks, review_namespace, sanitize_checks, source_review, AccessCheck, ResourceAction,
};
use roder_k8s::sanitize::SweepOptions;

fn summary(checks: &[AccessCheck]) -> Vec<String> {
    checks
        .iter()
        .map(|c| {
            format!(
                "{} {} ns={} name={} sub={}",
                c.verb,
                c.key,
                c.namespace.as_deref().unwrap_or("-"),
                c.name.as_deref().unwrap_or("-"),
                c.subresource.as_deref().unwrap_or("-")
            )
        })
        .collect()
}

#[test]
fn simple_actions_need_one_review() {
    let plan = action_checks(ResourceAction::Delete, "apps/v1/Deployment", Some("app"), Some("api"), "apps", "v1", false, false).unwrap();
    assert_eq!(summary(&plan.checks), ["delete apps/v1/Deployment ns=app name=api sub=-"]);
    let plan = action_checks(ResourceAction::Evict, "/v1/Pod", Some("app"), None, "", "v1", true, false).unwrap();
    assert_eq!(summary(&plan.checks), ["create /v1/Pod ns=app name=- sub=eviction"]);
    let plan = action_checks(ResourceAction::FluxSuspend, "k", None, None, "g", "v", false, false).unwrap();
    assert_eq!(summary(&plan.checks), ["patch k ns=- name=- sub=-"]);
}

#[test]
fn drain_checks_follow_the_eviction_option() {
    let evict = action_checks(ResourceAction::Drain, "/v1/Node", Some("ignored"), Some("n1"), "", "v1", false, false).unwrap();
    assert_eq!(
        summary(&evict.checks),
        [
            "patch /v1/Node ns=- name=n1 sub=-",
            "list /v1/Pod ns=- name=- sub=-",
            "create /v1/Pod ns=- name=- sub=eviction",
        ]
    );
    let delete = action_checks(ResourceAction::Drain, "/v1/Node", None, Some("n1"), "", "v1", false, true).unwrap();
    assert_eq!(summary(&delete.checks)[2], "delete /v1/Pod ns=- name=- sub=-");
}

#[test]
fn logs_and_shells_need_pod_access() {
    let pod_logs = action_checks(ResourceAction::Logs, "/v1/Pod", Some("app"), Some("p"), "", "v1", true, false).unwrap();
    assert_eq!(summary(&pod_logs.checks), ["get /v1/Pod ns=app name=p sub=-", "get /v1/Pod ns=app name=p sub=log"]);
    let workload_logs =
        action_checks(ResourceAction::Logs, "apps/v1/Deployment", Some("app"), Some("d"), "apps", "v1", false, false).unwrap();
    assert_eq!(summary(&workload_logs.checks)[1], "list /v1/Pod ns=app name=- sub=-");
    let shell = action_checks(ResourceAction::NodeShell, "/v1/Node", None, Some("n1"), "", "v1", false, false).unwrap();
    assert_eq!(shell.checks.len(), 5);
    assert_eq!(summary(&shell.checks)[4], "create /v1/Pod ns=default name=- sub=exec");
}

#[test]
fn source_reconcile_needs_a_name_and_the_source() {
    let unnamed = action_checks(ResourceAction::FluxReconcileWithSource, "k", None, None, "g", "v", false, false).unwrap();
    assert_eq!(summary(&unnamed.checks), ["get k ns=- name=- sub=-", "patch k ns=- name=- sub=-"]);
    assert!(source_review(&[], None, None, None).is_none());
    let plan = action_checks(ResourceAction::FluxReconcileWithSource, "k", Some("ns"), Some("n"), "g", "v", false, false).unwrap();
    assert!(plan.then_flux_source);
    assert_eq!(plan.checks.len(), 2);
    let snap = action_checks(ResourceAction::KopiurSnapshotNow, "k", Some("b"), Some("p"), "kopiur.home-operations.com", "v1alpha1", false, false).unwrap();
    assert_eq!(summary(&snap.checks), ["create kopiur.home-operations.com/v1alpha1/Snapshot ns=b name=- sub=-"]);
    let rerun = action_checks(ResourceAction::JobRerun, "batch/v1/Job", Some("d"), Some("j"), "batch", "v1", false, false).unwrap();
    assert_eq!(summary(&rerun.checks)[1], "create batch/v1/Job ns=d name=- sub=-");
}

#[test]
fn sweeps_need_list_and_delete_per_kind() {
    let all = sanitize_checks(Some("app"), SweepOptions::default(), false);
    assert_eq!(all.len(), 4);
    let preview = sanitize_checks(None, SweepOptions::default(), true);
    assert_eq!(summary(&preview), ["list /v1/Pod ns=- name=- sub=-", "list batch/v1/Job ns=- name=- sub=-"]);
    let jobs_only = SweepOptions { terminal_pods: false, stuck_pods: false, restarted_pods: false, ..Default::default() };
    assert_eq!(sanitize_checks(None, jobs_only, false).len(), 2);
    assert_eq!(review_namespace(false, Some("x")), None);
    assert_eq!(review_namespace(true, Some("x")), Some("x"));
}

fn source_kind() -> ResourceKind {
    ResourceKind {
        key: make_key("source.toolkit.fluxcd.io", "v1", "GitRepository"),
        group: "source.toolkit.fluxcd.io".into(),
        version: "v1".into(),
        kind: "GitRepository".into(),
        plural: "gitrepositories".into(),
        namespaced: true,
        category: Category::Flux,
    }
}

#[test]
fn source_review_patches_the_resolved_source() {
    let object = Json::Object(vec![(
        "spec".into(),
        Json::Object(vec![(
            "sourceRef".into(),
            Json::Object(vec![
                ("kind".into(), Json::Str("GitRepository".into())),
                ("name".into(), Json::Str("infra".into())),
            ]),
        )]),
    )]);
    let catalog = [source_kind()];
    let check = source_review(&catalog, Some(&object), Some("flux-system"), Some("apps")).unwrap();
    assert_eq!(summary(&[check]), ["patch source.toolkit.fluxcd.io/v1/GitRepository ns=flux-system name=infra sub=-"]);
    assert!(source_review(&catalog, Some(&object), Some("flux-system"), None).is_none());
    assert!(source_review(&catalog, None, Some("flux-system"), Some("apps")).is_none());
    assert!(source_review(&[], Some(&object), Some("flux-system"), Some("apps")).is_none());
}
