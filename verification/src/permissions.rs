//! Which access reviews decide whether an action is allowed: each action of
//! the resource menu maps to the verbs, resources and subresources it needs.
use vstd::prelude::*;
use crate::catalog::{make_key, spec_make_key, ResourceKind};
use crate::flux::{source_target, spec_source_target};
use crate::json::Json;
use crate::sanitize::SweepOptions;
use crate::text::{owned, str_eq};
use crate::tree::opt_view;

verus! {

/// An action offered on a resource.
#[derive(PartialEq, Eq, Structural, Clone, Copy, Debug)]
pub enum ResourceAction {
    Delete,
    Evict,
    Scale,
    Restart,
    Cordon,
    Drain,
    Logs,
    Exec,
    DebugExec,
    NodeShell,
    FluxReconcile,
    FluxSuspend,
    FluxForce,
    FluxReset,
    FluxReconcileWithSource,
    ExternalSecretsRefresh,
    CertificateRenew,
    CronJobTrigger,
    JobRerun,
    KopiurSnapshotNow,
}

/// One access review: may the current identity use `verb` on this resource?
pub struct AccessCheck {
    pub verb: String,
    pub key: String,
    pub namespace: Option<String>,
    pub name: Option<String>,
    pub subresource: Option<String>,
}

pub type CheckView = (Seq<char>, Seq<char>, Option<Seq<char>>, Option<Seq<char>>, Option<Seq<char>>);

pub open spec fn check_view(c: AccessCheck) -> CheckView {
    (c.verb@, c.key@, opt_view(c.namespace), opt_view(c.name), opt_view(c.subresource))
}

pub open spec fn check_views(v: Seq<AccessCheck>) -> Seq<CheckView> {
    v.map_values(|c: AccessCheck| check_view(c))
}

/// The namespace node shells run in.
pub const NODE_SHELL_NAMESPACE: &'static str = "default";

/// How an action's permission is decided: every check must pass; for
/// `FluxReconcileWithSource` the source object must then be patchable too.
pub struct ActionPlan {
    pub checks: Vec<AccessCheck>,
    pub then_flux_source: bool,
}

pub open spec fn some_str(o: Option<&str>) -> Option<Seq<char>> {
    match o {
        Some(s) => Some(s@),
        None => None,
    }
}

/// A check on the target itself (named when a name is given).
pub open spec fn on_target(verb: Seq<char>, key: Seq<char>, ns: Option<Seq<char>>, name: Option<Seq<char>>, sub: Option<Seq<char>>) -> CheckView {
    (verb, key, ns, name, sub)
}

/// The key of core pods.
pub open spec fn pods_key() -> Seq<char> {
    spec_make_key(Seq::empty(), "v1"@, "Pod"@)
}

/// The checks an action needs, in the order they are made (a source
/// reconcile then also needs the review `source_review` gives).
///
/// Delete needs `delete`; Evict `create` on `eviction`; the patching actions
/// `patch`; Drain `patch` on the node (cluster-wide), `list` on pods, and
/// `delete` on pods when eviction is disabled, else `create` on pod
/// `eviction`; Logs `get` and `get` on `log` for a pod, else `get` on the
/// target and `list` and `get` on `log` of pods; Exec `create` on `exec`;
/// DebugExec `get`, `patch` on `ephemeralcontainers` and `create` on `exec`;
/// NodeShell `get` on the node and `create`, `get`, `delete` and `create` on
/// `exec` of pods in the node-shell namespace; a source reconcile `get` and
/// `patch`, then `patch` on its source; CertificateRenew `get` and `update` on
/// `status`; CronJob triggers and Job reruns `get` and `create` on Jobs;
/// a Kopiur snapshot `create` on Snapshots of the policy's group and version.
pub open spec fn spec_action_checks(
    action: ResourceAction,
    key: Seq<char>,
    ns: Option<Seq<char>>,
    name: Option<Seq<char>>,
    group: Seq<char>,
    version: Seq<char>,
    is_pod: bool,
    disable_eviction: bool,
) -> Option<(Seq<CheckView>, bool)> {
    let pods = pods_key();
    let shell_ns = Some(NODE_SHELL_NAMESPACE@);
    match action {
        ResourceAction::Delete => Some((seq![on_target("delete"@, key, ns, name, None)], false)),
        ResourceAction::Evict => Some((seq![on_target("create"@, key, ns, name, Some("eviction"@))], false)),
        ResourceAction::Scale | ResourceAction::Restart | ResourceAction::Cordon
        | ResourceAction::FluxReconcile | ResourceAction::FluxSuspend | ResourceAction::FluxForce
        | ResourceAction::FluxReset | ResourceAction::ExternalSecretsRefresh => Some((seq![on_target("patch"@, key, ns, name, None)], false)),
        ResourceAction::Drain => Some((
            seq![
                on_target("patch"@, key, None, name, None),
                ("list"@, pods, None, None, None),
                if disable_eviction {
                    ("delete"@, pods, None, None, None)
                } else {
                    ("create"@, pods, None, None, Some("eviction"@))
                },
            ],
            false,
        )),
        ResourceAction::Logs => if is_pod {
            Some((seq![on_target("get"@, key, ns, name, None), on_target("get"@, key, ns, name, Some("log"@))], false))
        } else {
            Some((seq![
                on_target("get"@, key, ns, name, None),
                ("list"@, pods, ns, None, None),
                ("get"@, pods, ns, None, Some("log"@)),
            ], false))
        },
        ResourceAction::Exec => Some((seq![on_target("create"@, key, ns, name, Some("exec"@))], false)),
        ResourceAction::DebugExec => Some((seq![
            on_target("get"@, key, ns, name, None),
            on_target("patch"@, key, ns, name, Some("ephemeralcontainers"@)),
            on_target("create"@, key, ns, name, Some("exec"@)),
        ], false)),
        ResourceAction::NodeShell => Some((seq![
            on_target("get"@, key, ns, name, None),
            ("create"@, pods, shell_ns, None, None),
            ("get"@, pods, shell_ns, None, None),
            ("delete"@, pods, shell_ns, None, None),
            ("create"@, pods, shell_ns, None, Some("exec"@)),
        ], false)),
        ResourceAction::FluxReconcileWithSource => Some((seq![on_target("get"@, key, ns, name, None), on_target("patch"@, key, ns, name, None)], true)),
        ResourceAction::CertificateRenew => Some((seq![
            on_target("get"@, key, ns, name, None),
            on_target("update"@, key, ns, name, Some("status"@)),
        ], false)),
        ResourceAction::CronJobTrigger | ResourceAction::JobRerun => Some((seq![
            on_target("get"@, key, ns, name, None),
            ("create"@, spec_make_key("batch"@, "v1"@, "Job"@), ns, None, None),
        ], false)),
        ResourceAction::KopiurSnapshotNow => Some((seq![("create"@, spec_make_key(group, version, "Snapshot"@), ns, None, None)], false)),
    }
}

/// Running a command in a container is reviewed as Kubernetes requires for
/// `pods/exec`: every review on the `exec` subresource that any action plans
/// uses the verb `create`; Exec and DebugExec plan one on the target itself,
/// NodeShell one on pods in the node-shell namespace; Exec plans nothing else.
pub proof fn lemma_exec_reviews_use_create(
    action: ResourceAction,
    key: Seq<char>,
    ns: Option<Seq<char>>,
    name: Option<Seq<char>>,
    group: Seq<char>,
    version: Seq<char>,
    is_pod: bool,
    disable_eviction: bool,
)
    ensures
        spec_action_checks(action, key, ns, name, group, version, is_pod, disable_eviction) is Some,
        ({
            let plan = spec_action_checks(action, key, ns, name, group, version, is_pod, disable_eviction)->0;
            let checks = plan.0;
            &&& forall|k: int| 0 <= k < checks.len() && #[trigger] checks[k].4 == Some("exec"@)
                ==> checks[k].0 == "create"@
            &&& (action == ResourceAction::Exec || action == ResourceAction::DebugExec) ==> exists|k: int|
                0 <= k < checks.len() && #[trigger] checks[k] == ("create"@, key, ns, name, Some("exec"@))
            &&& action == ResourceAction::Exec ==> checks == seq![("create"@, key, ns, name, Some("exec"@))]
            &&& action == ResourceAction::NodeShell ==> exists|k: int|
                0 <= k < checks.len() && #[trigger] checks[k] == ("create"@, pods_key(), Some(NODE_SHELL_NAMESPACE@), None::<Seq<char>>, Some("exec"@))
        }),
{
    reveal_strlit("exec");
    reveal_strlit("eviction");
    reveal_strlit("log");
    reveal_strlit("ephemeralcontainers");
    reveal_strlit("status");
    let plan = spec_action_checks(action, key, ns, name, group, version, is_pod, disable_eviction)->0;
    let checks = plan.0;
    assert("eviction"@[1] != "exec"@[1]);
    assert(Some("eviction"@) != Some("exec"@));
    assert("log"@[0] != "exec"@[0]);
    assert(Some("log"@) != Some("exec"@));
    assert(Some("ephemeralcontainers"@) != Some("exec"@));
    assert(Some("status"@) != Some("exec"@));
    if action == ResourceAction::Exec {
        assert(checks[0] == ("create"@, key, ns, name, Some("exec"@)));
    } else if action == ResourceAction::DebugExec {
        assert(checks[2] == ("create"@, key, ns, name, Some("exec"@)));
    } else if action == ResourceAction::NodeShell {
        assert(checks[4] == ("create"@, pods_key(), Some(NODE_SHELL_NAMESPACE@), None::<Seq<char>>, Some("exec"@)));
    }
}

/// What every action's plan looks like: at least one review; only a source
/// reconcile defers to a review of its source; Delete is reviewed as `delete`
/// on the target and Evict as `create` on its `eviction` subresource; the
/// patching actions as one `patch` on the target; Logs reviews only read
/// (`get` and `list`) and reaches logs through the `log` subresource; Drain
/// patches the node cluster-wide, lists pods, and then deletes pods when
/// eviction is disabled, else evicts them.
pub proof fn lemma_action_plans_shape(
    action: ResourceAction,
    key: Seq<char>,
    ns: Option<Seq<char>>,
    name: Option<Seq<char>>,
    group: Seq<char>,
    version: Seq<char>,
    is_pod: bool,
    disable_eviction: bool,
)
    ensures
        ({
            let plan = spec_action_checks(action, key, ns, name, group, version, is_pod, disable_eviction)->0;
            let checks = plan.0;
            &&& checks.len() > 0
            &&& plan.1 <==> action == ResourceAction::FluxReconcileWithSource
            &&& action == ResourceAction::Delete ==> checks == seq![("delete"@, key, ns, name, None::<Seq<char>>)]
            &&& action == ResourceAction::Evict ==> checks == seq![("create"@, key, ns, name, Some("eviction"@))]
            &&& (action == ResourceAction::Scale || action == ResourceAction::Restart
                || action == ResourceAction::Cordon || action == ResourceAction::FluxReconcile
                || action == ResourceAction::FluxSuspend || action == ResourceAction::FluxForce
                || action == ResourceAction::FluxReset || action == ResourceAction::ExternalSecretsRefresh)
                ==> checks == seq![("patch"@, key, ns, name, None::<Seq<char>>)]
            &&& action == ResourceAction::Logs ==> forall|k: int| 0 <= k < checks.len()
                ==> (#[trigger] checks[k].0 == "get"@ || checks[k].0 == "list"@)
                    && (checks[k].4 is Some ==> checks[k].4 == Some("log"@))
            &&& action == ResourceAction::Drain ==> checks.len() == 3
                && checks[0] == ("patch"@, key, None::<Seq<char>>, name, None::<Seq<char>>)
                && checks[1] == ("list"@, pods_key(), None::<Seq<char>>, None::<Seq<char>>, None::<Seq<char>>)
                && checks[2] == (if disable_eviction {
                    ("delete"@, pods_key(), None::<Seq<char>>, None::<Seq<char>>, None::<Seq<char>>)
                } else {
                    ("create"@, pods_key(), None::<Seq<char>>, None::<Seq<char>>, Some("eviction"@))
                })
        }),
{
}

fn opt_string(o: Option<&str>) -> (r: Option<String>)
    ensures
        opt_view(r) == some_str(o),
{
    match o {
        Some(s) => Some(owned(s)),
        None => None,
    }
}

fn check(verb: &str, key: &str, ns: Option<&str>, name: Option<&str>, sub: Option<&str>) -> (r: AccessCheck)
    ensures
        check_view(r) == (verb@, key@, some_str(ns), some_str(name), some_str(sub)),
{
    AccessCheck {
        verb: owned(verb),
        key: owned(key),
        namespace: opt_string(ns),
        name: opt_string(name),
        subresource: opt_string(sub),
    }
}

/// The access reviews that decide whether `action` is allowed on the resource
/// with catalog key `key` (of group `group` and version `version`).
pub fn action_checks(
    action: ResourceAction,
    key: &str,
    ns: Option<&str>,
    name: Option<&str>,
    group: &str,
    version: &str,
    is_pod: bool,
    disable_eviction: bool,
) -> (r: Option<ActionPlan>)
    ensures
        match r {
            Some(p) => spec_action_checks(action, key@, some_str(ns), some_str(name), group@, version@, is_pod, disable_eviction)
                == Some((check_views(p.checks@), p.then_flux_source)),
            None => spec_action_checks(action, key@, some_str(ns), some_str(name), group@, version@, is_pod, disable_eviction) is None,
        },
{
    let pods = make_key("", "v1", "Pod");
    proof {
        reveal_strlit("");
    }
    assert(pods@ == pods_key());
    let mut checks: Vec<AccessCheck> = Vec::new();
    let mut then_flux_source = false;
    match action {
        ResourceAction::Delete => {
            checks.push(check("delete", key, ns, name, None));
        },
        ResourceAction::Evict => {
            checks.push(check("create", key, ns, name, Some("eviction")));
        },
        ResourceAction::Scale | ResourceAction::Restart | ResourceAction::Cordon
        | ResourceAction::FluxReconcile | ResourceAction::FluxSuspend | ResourceAction::FluxForce
        | ResourceAction::FluxReset | ResourceAction::ExternalSecretsRefresh => {
            checks.push(check("patch", key, ns, name, None));
        },
        ResourceAction::Drain => {
            checks.push(check("patch", key, None, name, None));
            checks.push(check("list", pods.as_str(), None, None, None));
            if disable_eviction {
                checks.push(check("delete", pods.as_str(), None, None, None));
            } else {
                checks.push(check("create", pods.as_str(), None, None, Some("eviction")));
            }
        },
        ResourceAction::Logs => {
            if is_pod {
                checks.push(check("get", key, ns, name, None));
                checks.push(check("get", key, ns, name, Some("log")));
            } else {
                checks.push(check("get", key, ns, name, None));
                checks.push(check("list", pods.as_str(), ns, None, None));
                checks.push(check("get", pods.as_str(), ns, None, Some("log")));
            }
        },
        ResourceAction::Exec => {
            checks.push(check("create", key, ns, name, Some("exec")));
        },
        ResourceAction::DebugExec => {
            checks.push(check("get", key, ns, name, None));
            checks.push(check("patch", key, ns, name, Some("ephemeralcontainers")));
            checks.push(check("create", key, ns, name, Some("exec")));
        },
        ResourceAction::NodeShell => {
            let shell = Some(NODE_SHELL_NAMESPACE);
            checks.push(check("get", key, ns, name, None));
            checks.push(check("create", pods.as_str(), shell, None, None));
            checks.push(check("get", pods.as_str(), shell, None, None));
            checks.push(check("delete", pods.as_str(), shell, None, None));
            checks.push(check("create", pods.as_str(), shell, None, Some("exec")));
        },
        ResourceAction::FluxReconcileWithSource => {
            checks.push(check("get", key, ns, name, None));
            checks.push(check("patch", key, ns, name, None));
            then_flux_source = true;
        },
        ResourceAction::CertificateRenew => {
            checks.push(check("get", key, ns, name, None));
            checks.push(check("update", key, ns, name, Some("status")));
        },
        ResourceAction::CronJobTrigger | ResourceAction::JobRerun => {
            let jobs = make_key("batch", "v1", "Job");
            checks.push(check("get", key, ns, name, None));
            checks.push(check("create", jobs.as_str(), ns, None, None));
        },
        ResourceAction::KopiurSnapshotNow => {
            let snapshot = make_key(group, version, "Snapshot");
            checks.push(check("create", snapshot.as_str(), ns, None, None));
        },
    }
    let r = ActionPlan { checks, then_flux_source };
    let ghost pair = spec_action_checks(action, key@, some_str(ns), some_str(name), group@, version@, is_pod, disable_eviction)->0;
    assert(check_views(r.checks@) =~= pair.0);
    Some(r)
}

/// The namespace an access review is scoped to: none for a cluster-scoped kind.
pub fn review_namespace<'a>(namespaced: bool, ns: Option<&'a str>) -> (r: Option<&'a str>)
    ensures
        r == if namespaced {
            ns
        } else {
            None
        },
{
    if namespaced {
        ns
    } else {
        None
    }
}

/// A sweep touches pods when it removes any class of pods.
pub open spec fn includes_pods(o: SweepOptions) -> bool {
    o.terminal_pods || o.stuck_pods || o.restarted_pods
}

/// A sweep touches jobs when it removes completed or failed jobs.
pub open spec fn includes_jobs(o: SweepOptions) -> bool {
    o.completed_jobs || o.failed_jobs
}

/// The checks a sweep needs: `list` on pods, and `delete` unless it only
/// previews, when it touches pods; the same on Jobs when it touches jobs.
pub open spec fn spec_sanitize_checks(ns: Option<Seq<char>>, o: SweepOptions, preview: bool) -> Seq<CheckView> {
    let pods = pods_key();
    let jobs = spec_make_key("batch"@, "v1"@, "Job"@);
    let for_kind = |k: Seq<char>| if preview {
        seq![("list"@, k, ns, None::<Seq<char>>, None::<Seq<char>>)]
    } else {
        seq![("list"@, k, ns, None::<Seq<char>>, None::<Seq<char>>), ("delete"@, k, ns, None::<Seq<char>>, None::<Seq<char>>)]
    };
    (if includes_pods(o) { for_kind(pods) } else { Seq::empty() }) + (if includes_jobs(o) { for_kind(jobs) } else { Seq::empty() })
}

/// The access reviews that decide whether a sweep (or its preview) is allowed.
pub fn sanitize_checks(ns: Option<&str>, options: SweepOptions, preview: bool) -> (r: Vec<AccessCheck>)
    ensures
        check_views(r@) == spec_sanitize_checks(some_str(ns), options, preview),
{
    let pods = make_key("", "v1", "Pod");
    proof {
        reveal_strlit("");
    }
    let jobs = make_key("batch", "v1", "Job");
    let mut out: Vec<AccessCheck> = Vec::new();
    if options.terminal_pods || options.stuck_pods || options.restarted_pods {
        out.push(check("list", pods.as_str(), ns, None, None));
        if !preview {
            out.push(check("delete", pods.as_str(), ns, None, None));
        }
    }
    if options.completed_jobs || options.failed_jobs {
        out.push(check("list", jobs.as_str(), ns, None, None));
        if !preview {
            out.push(check("delete", jobs.as_str(), ns, None, None));
        }
    }
    assert(check_views(out@) =~= spec_sanitize_checks(some_str(ns), options, preview));
    out
}

/// The last review of a source reconcile: `patch` on the source the named
/// object (as read, `None` when it could not be read) reconciles against,
/// in the source's namespace or else the object's. There is none to pass
/// (the action is refused) without a name, without the object, or when the
/// source cannot be resolved.
pub open spec fn spec_source_review(
    catalog: Seq<ResourceKind>,
    object: Option<Json>,
    ns: Option<Seq<char>>,
    name: Option<Seq<char>>,
) -> Option<CheckView> {
    match (name, object) {
        (Some(_), Some(o)) => match spec_source_target(catalog, o, ns) {
            Ok((k, sns, sn)) => Some(("patch"@, k, sns, Some(sn), None)),
            Err(_) => None,
        },
        _ => None,
    }
}

/// The review of the source a Flux object reconciles against.
pub fn source_review(catalog: &[ResourceKind], object: Option<&Json>, ns: Option<&str>, name: Option<&str>) -> (r: Option<AccessCheck>)
    ensures
        match r {
            Some(c) => spec_source_review(catalog@, crate::json::deref_opt(object), some_str(ns), some_str(name)) == Some(check_view(c)),
            None => spec_source_review(catalog@, crate::json::deref_opt(object), some_str(ns), some_str(name)) is None,
        },
{
    if name.is_none() {
        return None;
    }
    let o = match object {
        Some(o) => o,
        None => return None,
    };
    match source_target(catalog, o, ns) {
        Ok((key, sns, sname)) => Some(AccessCheck {
            verb: owned("patch"),
            key,
            namespace: sns,
            name: Some(sname),
            subresource: None,
        }),
        Err(_) => None,
    }
}

} // verus!
