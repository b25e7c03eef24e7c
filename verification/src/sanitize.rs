//! Which pods and jobs a cluster sweep deletes: terminal, stuck or restarted
//! pods, and completed or failed jobs, each class opted in separately.
use vstd::prelude::*;
use crate::json::{json_get, json_path, json_str, key_views, opt_str, Json};
use crate::references::{array_at, array_at_path};
use crate::text::str_eq;

verus! {

/// Which classes of pods and jobs a sweep removes.
#[derive(Clone, Copy)]
pub struct SweepOptions {
    pub terminal_pods: bool,
    pub stuck_pods: bool,
    pub restarted_pods: bool,
    pub completed_jobs: bool,
    pub failed_jobs: bool,
}

impl Default for SweepOptions {
    /// Everything but restarted pods.
    fn default() -> (r: Self)
        ensures
            r.terminal_pods,
            r.stuck_pods,
            !r.restarted_pods,
            r.completed_jobs,
            r.failed_jobs,
    {
        SweepOptions {
            terminal_pods: true,
            stuck_pods: true,
            restarted_pods: false,
            completed_jobs: true,
            failed_jobs: true,
        }
    }
}

/// The member at `path` is present and not null.
pub open spec fn present(o: Json, path: Seq<Seq<char>>) -> bool {
    match json_path(o, path) {
        Some(Json::Null) => false,
        Some(_) => true,
        None => false,
    }
}

/// Evicted, or finished (`Succeeded` or `Failed`).
pub open spec fn pod_terminal(pod: Json) -> bool {
    let reason = json_str(json_path(pod, seq!["status"@, "reason"@]));
    let phase = json_str(json_path(pod, seq!["status"@, "phase"@]));
    reason == Some("Evicted"@) || phase == Some("Succeeded"@) || phase == Some("Failed"@)
}

/// The statuses of the main containers, then of the init containers.
pub open spec fn container_statuses(pod: Json) -> Seq<Json> {
    array_at(pod, seq!["status"@, "containerStatuses"@]) + array_at(pod, seq!["status"@, "initContainerStatuses"@])
}

/// A container that has restarted: its `restartCount` is above zero.
pub open spec fn restarted(c: Json) -> bool {
    match json_get(c, "restartCount"@) {
        Some(Json::Number(_, Some(n))) => n > 0,
        _ => false,
    }
}

/// A stuck container: waiting for a crash loop, an error, an image that does
/// not pull or an unknown status; or terminated for running out of memory.
pub open spec fn stuck(c: Json) -> bool {
    match json_path(c, seq!["state"@, "waiting"@]) {
        Some(Json::Null) | None => match json_path(c, seq!["state"@, "terminated"@]) {
            Some(Json::Null) | None => false,
            Some(t) => json_str(json_get(t, "reason"@)) == Some("OOMKilled"@),
        },
        Some(w) => {
            let r = json_str(json_get(w, "reason"@));
            r == Some("CrashLoopBackOff"@) || r == Some("Error"@) || r == Some("ImagePullBackOff"@)
                || r == Some("ErrImagePull"@) || r == Some("ContainerStatusUnknown"@)
        },
    }
}

/// Some container in `cs` has restarted.
pub open spec fn any_restarted_in(cs: Seq<Json>) -> bool {
    exists|i: int| 0 <= i < cs.len() && restarted(#[trigger] cs[i])
}

/// Some container in `cs` is stuck.
pub open spec fn any_stuck_in(cs: Seq<Json>) -> bool {
    exists|i: int| 0 <= i < cs.len() && stuck(#[trigger] cs[i])
}

/// Whether a sweep deletes this pod (its JSON document): never one already
/// being deleted; a terminal pod when terminal pods are swept; one with a
/// restarted container when restarted pods are; one with a stuck container
/// when stuck pods are.
pub open spec fn spec_should_sweep_pod(pod: Json, o: SweepOptions) -> bool {
    let cs = container_statuses(pod);
    if present(pod, seq!["metadata"@, "deletionTimestamp"@]) {
        false
    } else {
        (o.terminal_pods && pod_terminal(pod))
            || (o.restarted_pods && any_restarted_in(cs))
            || (o.stuck_pods && any_stuck_in(cs))
    }
}

fn is_present(o: &Json, path: &[&str]) -> (r: bool)
    ensures
        r == present(*o, key_views(path@)),
{
    match o.path(path) {
        Some(Json::Null) => false,
        Some(_) => true,
        None => false,
    }
}

fn is_restarted(c: &Json) -> (r: bool)
    ensures
        r == restarted(*c),
{
    match c.get("restartCount") {
        Some(Json::Number(_, Some(n))) => *n > 0,
        _ => false,
    }
}

fn is_stuck(c: &Json) -> (r: bool)
    ensures
        r == stuck(*c),
{
    let wp = ["state", "waiting"];
    assert(key_views(wp@) =~= seq!["state"@, "waiting"@]);
    let tp = ["state", "terminated"];
    assert(key_views(tp@) =~= seq!["state"@, "terminated"@]);
    match c.path(&wp) {
        Some(Json::Null) | None => match c.path(&tp) {
            Some(Json::Null) | None => false,
            Some(t) => match opt_str(t.get("reason")) {
                Some(r) => str_eq(r, "OOMKilled"),
                None => false,
            },
        },
        Some(w) => match opt_str(w.get("reason")) {
            Some(r) => str_eq(r, "CrashLoopBackOff") || str_eq(r, "Error") || str_eq(r, "ImagePullBackOff")
                || str_eq(r, "ErrImagePull") || str_eq(r, "ContainerStatusUnknown"),
            None => false,
        },
    }
}

fn any_restarted(cs: &[Json]) -> (r: bool)
    ensures
        r == any_restarted_in(cs@),
{
    let n = cs.len();
    for i in 0..n
        invariant
            n == cs@.len(),
            forall|k: int| 0 <= k < i ==> !restarted(#[trigger] cs@[k]),
    {
        if is_restarted(&cs[i]) {
            return true;
        }
    }
    false
}

fn any_stuck(cs: &[Json]) -> (r: bool)
    ensures
        r == any_stuck_in(cs@),
{
    let n = cs.len();
    for i in 0..n
        invariant
            n == cs@.len(),
            forall|k: int| 0 <= k < i ==> !stuck(#[trigger] cs@[k]),
    {
        if is_stuck(&cs[i]) {
            return true;
        }
    }
    false
}

proof fn lemma_restarted_concat(a: Seq<Json>, b: Seq<Json>)
    ensures
        any_restarted_in(a + b) == (any_restarted_in(a) || any_restarted_in(b)),
{
    if any_restarted_in(a + b) {
        let i = choose|i: int| 0 <= i < (a + b).len() && restarted(#[trigger] (a + b)[i]);
        if i < a.len() {
            assert(restarted(a[i]));
        } else {
            assert(restarted(b[i - a.len()]));
        }
    }
    if any_restarted_in(a) {
        let i = choose|i: int| 0 <= i < a.len() && restarted(#[trigger] a[i]);
        assert(restarted((a + b)[i]));
    }
    if any_restarted_in(b) {
        let i = choose|i: int| 0 <= i < b.len() && restarted(#[trigger] b[i]);
        assert(restarted((a + b)[i + a.len()]));
    }
}

proof fn lemma_stuck_concat(a: Seq<Json>, b: Seq<Json>)
    ensures
        any_stuck_in(a + b) == (any_stuck_in(a) || any_stuck_in(b)),
{
    if any_stuck_in(a + b) {
        let i = choose|i: int| 0 <= i < (a + b).len() && stuck(#[trigger] (a + b)[i]);
        if i < a.len() {
            assert(stuck(a[i]));
        } else {
            assert(stuck(b[i - a.len()]));
        }
    }
    if any_stuck_in(a) {
        let i = choose|i: int| 0 <= i < a.len() && stuck(#[trigger] a[i]);
        assert(stuck((a + b)[i]));
    }
    if any_stuck_in(b) {
        let i = choose|i: int| 0 <= i < b.len() && stuck(#[trigger] b[i]);
        assert(stuck((a + b)[i + a.len()]));
    }
}

/// Whether a sweep with `options` deletes the pod.
pub fn should_sweep_pod(pod: &Json, options: SweepOptions) -> (r: bool)
    ensures
        r == spec_should_sweep_pod(*pod, options),
{
    let dp = ["metadata", "deletionTimestamp"];
    assert(key_views(dp@) =~= seq!["metadata"@, "deletionTimestamp"@]);
    if is_present(pod, &dp) {
        return false;
    }
    let rp = ["status", "reason"];
    assert(key_views(rp@) =~= seq!["status"@, "reason"@]);
    let pp = ["status", "phase"];
    assert(key_views(pp@) =~= seq!["status"@, "phase"@]);
    let evicted = match opt_str(pod.path(&rp)) {
        Some(r) => str_eq(r, "Evicted"),
        None => false,
    };
    let finished = match opt_str(pod.path(&pp)) {
        Some(p) => str_eq(p, "Succeeded") || str_eq(p, "Failed"),
        None => false,
    };
    if options.terminal_pods && (evicted || finished) {
        return true;
    }
    let cp = ["status", "containerStatuses"];
    assert(key_views(cp@) =~= seq!["status"@, "containerStatuses"@]);
    let ip = ["status", "initContainerStatuses"];
    assert(key_views(ip@) =~= seq!["status"@, "initContainerStatuses"@]);
    let cs = array_at_path(pod, &cp);
    let ics = array_at_path(pod, &ip);
    proof {
        lemma_restarted_concat(cs@, ics@);
        lemma_stuck_concat(cs@, ics@);
    }
    if options.restarted_pods && (any_restarted(cs) || any_restarted(ics)) {
        return true;
    }
    options.stuck_pods && (any_stuck(cs) || any_stuck(ics))
}

/// A job condition that is `True` and of a swept type: `Complete` when
/// completed jobs are swept, `Failed` when failed jobs are.
pub open spec fn condition_sweeps(c: Json, o: SweepOptions) -> bool {
    json_str(json_get(c, "status"@)) == Some("True"@) && {
        let t = json_str(json_get(c, "type"@));
        (t == Some("Complete"@) && o.completed_jobs) || (t == Some("Failed"@) && o.failed_jobs)
    }
}

/// Whether a sweep deletes this job (its JSON document): some condition in
/// `status.conditions` sweeps it.
pub open spec fn spec_should_sweep_job(job: Json, o: SweepOptions) -> bool {
    let cs = array_at(job, seq!["status"@, "conditions"@]);
    exists|i: int| 0 <= i < cs.len() && condition_sweeps(#[trigger] cs[i], o)
}

/// Whether a sweep with `options` deletes the job.
pub fn should_sweep_job(job: &Json, options: SweepOptions) -> (r: bool)
    ensures
        r == spec_should_sweep_job(*job, options),
{
    let cp = ["status", "conditions"];
    assert(key_views(cp@) =~= seq!["status"@, "conditions"@]);
    let cs = array_at_path(job, &cp);
    let n = cs.len();
    for i in 0..n
        invariant
            n == cs@.len(),
            cs@ == array_at(*job, seq!["status"@, "conditions"@]),
            forall|k: int| 0 <= k < i ==> !condition_sweeps(#[trigger] cs@[k], options),
    {
        let c = &cs[i];
        let is_true = match opt_str(c.get("status")) {
            Some(s) => str_eq(s, "True"),
            None => false,
        };
        let swept = match opt_str(c.get("type")) {
            Some(t) => (str_eq(t, "Complete") && options.completed_jobs) || (str_eq(t, "Failed") && options.failed_jobs),
            None => false,
        };
        if is_true && swept {
            assert(condition_sweeps(cs@[i as int], options));
            return true;
        }
    }
    false
}

/// A pod already being deleted is never swept, whatever the options.
pub proof fn lemma_deleting_pods_are_never_swept(pod: Json, o: SweepOptions)
    requires
        present(pod, seq!["metadata"@, "deletionTimestamp"@]),
    ensures
        !spec_should_sweep_pod(pod, o),
{
}

/// With no class opted in, nothing is swept.
pub proof fn lemma_no_class_sweeps_nothing(pod: Json, job: Json, o: SweepOptions)
    requires
        !o.terminal_pods,
        !o.stuck_pods,
        !o.restarted_pods,
        !o.completed_jobs,
        !o.failed_jobs,
    ensures
        !spec_should_sweep_pod(pod, o),
        !spec_should_sweep_job(job, o),
{
}

} // verus!
