//! Node drain decisions: which pods block a drain, which are evicted, which are
//! skipped, and which already-terminating pods the drain must wait for.
//!
//! The drain follows `kubectl drain`'s defaults: DaemonSet-owned and mirror
//! (static) pods are not evicted, terminal pods need no eviction, and unmanaged
//! or `emptyDir` pods refuse the drain unless the matching option opts in.
use vstd::prelude::*;
use crate::error::{is_api_error, K8sError};
use crate::json::{deref_opt, json_get, json_path, json_str, key_views, opt_str, Json};
use crate::overview::{find_condition, spec_condition};
use crate::text::{chars_of, extend_chars, string_of};
use crate::tree::opt_view;
use crate::sort::{sort_strings, spec_sort};
use crate::text::{colon_join, owned, str_eq, string_views, strings_contain};

verus! {

/// The annotation the kubelet puts on mirror pods.
pub const MIRROR_ANNOTATION: &'static str = "kubernetes.io/config.mirror";

/// What a drain reads of one pod.
pub struct DrainPod {
    pub name: Option<String>,
    pub namespace: Option<String>,
    pub uid: Option<String>,
    /// `metadata.deletionTimestamp` is set.
    pub deleting: bool,
    /// The `kind` of each owner reference, in order.
    pub owner_kinds: Vec<String>,
    /// The keys of `metadata.annotations`.
    pub annotation_keys: Vec<String>,
    /// `status.phase`, when reported.
    pub phase: Option<String>,
    /// For each volume in `spec.volumes`, whether it is an `emptyDir`.
    pub volume_is_empty_dir: Vec<bool>,
}

/// The drain options that decide what blocks a drain.
pub struct DrainOptions {
    pub ignore_daemonsets: bool,
    pub force: bool,
    pub delete_emptydir_data: bool,
}

impl Default for DrainOptions {
    /// DaemonSet pods are ignored; everything else refuses.
    fn default() -> (r: Self)
        ensures
            r.ignore_daemonsets,
            !r.force,
            !r.delete_emptydir_data,
    {
        DrainOptions { ignore_daemonsets: true, force: false, delete_emptydir_data: false }
    }
}

/// One reason a pod refuses the drain, and the option that clears it.
pub struct DrainBlocker {
    pub pod: String,
    pub reason: String,
    pub clearable_by: String,
}

/// A blocker as three character sequences: pod, reason, clearing option.
pub open spec fn blocker_view(b: DrainBlocker) -> (Seq<char>, Seq<char>, Seq<char>) {
    (b.pod@, b.reason@, b.clearable_by@)
}

pub open spec fn blocker_views(v: Seq<DrainBlocker>) -> Seq<(Seq<char>, Seq<char>, Seq<char>)> {
    v.map_values(|b: DrainBlocker| blocker_view(b))
}

/// Some owner reference is a DaemonSet.
pub open spec fn spec_is_daemonset(p: DrainPod) -> bool {
    string_views(p.owner_kinds@).contains("DaemonSet"@)
}

/// The pod carries the mirror annotation.
pub open spec fn spec_is_mirror(p: DrainPod) -> bool {
    string_views(p.annotation_keys@).contains(MIRROR_ANNOTATION@)
}

/// The pod's phase is `Succeeded` or `Failed`.
pub open spec fn spec_is_terminal(p: DrainPod) -> bool {
    match p.phase {
        Some(ph) => ph@ == "Succeeded"@ || ph@ == "Failed"@,
        None => false,
    }
}

/// The drain evicts this pod: not deleting, not mirror, not DaemonSet-owned,
/// not terminal.
pub open spec fn spec_is_evictable(p: DrainPod) -> bool {
    !p.deleting && !spec_is_mirror(p) && !spec_is_daemonset(p) && !spec_is_terminal(p)
}

/// A deletion already under way that the drain waits for: a workload pod
/// (not DaemonSet, not mirror, not terminal) being deleted.
pub open spec fn spec_is_waitable_terminating(p: DrainPod) -> bool {
    p.deleting && !spec_is_daemonset(p) && !spec_is_mirror(p) && !spec_is_terminal(p)
}

/// The pod's name, or `unknown pod`.
pub open spec fn blocker_name(p: DrainPod) -> Seq<char> {
    match p.name {
        Some(n) => n@,
        None => "unknown pod"@,
    }
}

/// Every reason `p` blocks the drain under `o`, in the order they are checked.
pub open spec fn spec_drain_blockers(p: DrainPod, o: DrainOptions) -> Seq<
    (Seq<char>, Seq<char>, Seq<char>),
> {
    let name = blocker_name(p);
    if spec_is_terminal(p) || spec_is_mirror(p) || p.deleting {
        Seq::empty()
    } else if spec_is_daemonset(p) {
        if o.ignore_daemonsets {
            Seq::empty()
        } else {
            seq![(name, "DaemonSet-managed pod"@, "ignore_daemonsets"@)]
        }
    } else {
        let unmanaged = if p.owner_kinds@.len() == 0 && !o.force {
            seq![(name, "unmanaged pod"@, "force"@)]
        } else {
            Seq::empty()
        };
        let empty_dir = if !o.delete_emptydir_data && p.volume_is_empty_dir@.contains(true) {
            seq![(name, "uses emptyDir storage"@, "delete_emptydir_data"@)]
        } else {
            Seq::empty()
        };
        unmanaged + empty_dir
    }
}

/// Whether the pod is owned by a DaemonSet.
pub fn is_daemonset(p: &DrainPod) -> (r: bool)
    ensures
        r == spec_is_daemonset(*p),
{
    strings_contain(p.owner_kinds.as_slice(), "DaemonSet")
}

/// Whether the pod is a mirror (static) pod.
pub fn is_mirror(p: &DrainPod) -> (r: bool)
    ensures
        r == spec_is_mirror(*p),
{
    strings_contain(p.annotation_keys.as_slice(), MIRROR_ANNOTATION)
}

/// Whether the pod has finished, successfully or not.
pub fn is_terminal(p: &DrainPod) -> (r: bool)
    ensures
        r == spec_is_terminal(*p),
{
    match &p.phase {
        Some(ph) => str_eq(ph.as_str(), "Succeeded") || str_eq(ph.as_str(), "Failed"),
        None => false,
    }
}

/// Whether the drain evicts the pod.
pub fn is_evictable(p: &DrainPod) -> (r: bool)
    ensures
        r == spec_is_evictable(*p),
{
    if p.deleting {
        return false;
    }
    if is_mirror(p) {
        return false;
    }
    if is_daemonset(p) {
        return false;
    }
    !is_terminal(p)
}

/// Whether the drain waits for this pod's deletion to finish.
pub fn is_waitable_terminating(p: &DrainPod) -> (r: bool)
    ensures
        r == spec_is_waitable_terminating(*p),
{
    p.deleting && !is_daemonset(p) && !is_mirror(p) && !is_terminal(p)
}

fn has_empty_dir(v: &[bool]) -> (r: bool)
    ensures
        r == v@.contains(true),
{
    let n = v.len();
    for i in 0..n
        invariant
            n == v@.len(),
            forall|k: int| 0 <= k < i ==> !v@[k],
    {
        if v[i] {
            return true;
        }
    }
    false
}

fn blocker(name: &str, reason: &str, clearable_by: &str) -> (r: DrainBlocker)
    ensures
        blocker_view(r) == (name@, reason@, clearable_by@),
{
    DrainBlocker { pod: owned(name), reason: owned(reason), clearable_by: owned(clearable_by) }
}

/// Every reason `pod` blocks the drain under `options`.
///
/// Terminal, mirror and already-deleting pods never block; a DaemonSet pod
/// blocks only when DaemonSets are not ignored; any other pod may block as
/// unmanaged (no owner, unless forced) and for `emptyDir` data (unless its
/// deletion is allowed), reported in that order.
pub fn drain_blockers(pod: &DrainPod, options: &DrainOptions) -> (r: Vec<DrainBlocker>)
    ensures
        blocker_views(r@) == spec_drain_blockers(*pod, *options),
        spec_is_terminal(*pod) || spec_is_mirror(*pod) || pod.deleting ==> r@.len() == 0,
{
    let name = match &pod.name {
        Some(n) => owned(n.as_str()),
        None => owned("unknown pod"),
    };
    let ghost nm = blocker_name(*pod);
    assert(name@ == nm);
    let mut out: Vec<DrainBlocker> = Vec::new();
    if is_terminal(pod) || is_mirror(pod) || pod.deleting {
        assert(blocker_views(out@) =~= Seq::empty());
        return out;
    }
    if is_daemonset(pod) {
        if !options.ignore_daemonsets {
            out.push(blocker(name.as_str(), "DaemonSet-managed pod", "ignore_daemonsets"));
        }
        assert(blocker_views(out@) =~= spec_drain_blockers(*pod, *options));
        return out;
    }
    if pod.owner_kinds.len() == 0 && !options.force {
        out.push(blocker(name.as_str(), "unmanaged pod", "force"));
    }
    let ghost first = blocker_views(out@);
    if !options.delete_emptydir_data && has_empty_dir(pod.volume_is_empty_dir.as_slice()) {
        out.push(blocker(name.as_str(), "uses emptyDir storage", "delete_emptydir_data"));
    }
    assert(blocker_views(out@) =~= spec_drain_blockers(*pod, *options));
    out
}

/// How many of `pods` the drain does not evict.
pub open spec fn spec_skipped(pods: Seq<DrainPod>) -> nat
    decreases pods.len(),
{
    if pods.len() == 0 {
        0
    } else {
        spec_skipped(pods.drop_last()) + if spec_is_evictable(pods.last()) {
            0nat
        } else {
            1nat
        }
    }
}

/// The pods the drain evicts, in order.
pub open spec fn spec_evictable(pods: Seq<DrainPod>) -> Seq<DrainPod> {
    pods.filter(|p: DrainPod| spec_is_evictable(p))
}

/// The number of pods the drain does not evict (DaemonSet, mirror, terminal,
/// or already deleting).
pub fn skipped_pod_count(pods: &[DrainPod]) -> (r: usize)
    ensures
        r == spec_skipped(pods@),
{
    let n = pods.len();
    let mut count: usize = 0;
    for i in 0..n
        invariant
            n == pods@.len(),
            count == spec_skipped(pods@.take(i as int)),
            count <= i,
    {
        assert(pods@.take(i + 1).drop_last() == pods@.take(i as int));
        if !is_evictable(&pods[i]) {
            count = count + 1;
        }
    }
    assert(pods@.take(n as int) == pods@);
    count
}

/// Skipped and evicted pods together are all the pods.
pub proof fn lemma_skipped_and_evictable_partition(pods: Seq<DrainPod>)
    ensures
        spec_skipped(pods) + spec_evictable(pods).len() == pods.len(),
    decreases pods.len(),
{
    if pods.len() > 0 {
        lemma_skipped_and_evictable_partition(pods.drop_last());
        assert(pods =~= pods.drop_last().push(pods.last()));
        pods.drop_last().lemma_filter_len_push(|p: DrainPod| spec_is_evictable(p), pods.last());
    }
}

/// A pod the drain waits on is never one it evicts.
pub proof fn lemma_waitable_is_not_evictable(p: DrainPod)
    ensures
        spec_is_waitable_terminating(p) ==> !spec_is_evictable(p),
{
}

/// With DaemonSets ignored, unmanaged pods forced and `emptyDir` data allowed
/// to go, no pod blocks the drain.
pub proof fn lemma_full_opt_in_never_blocks(p: DrainPod, o: DrainOptions)
    requires
        o.ignore_daemonsets,
        o.force,
        o.delete_emptydir_data,
    ensures
        spec_drain_blockers(p, o).len() == 0,
{
}

/// Identifies a pod whose removal the drain waits on.
pub struct PodIdentity {
    pub namespace: String,
    pub name: String,
    pub uid: Option<String>,
}

pub open spec fn or_empty(o: Option<String>) -> Seq<char> {
    match o {
        Some(s) => s@,
        None => Seq::empty(),
    }
}

/// The identity of `p`: namespace and name (empty when missing) and uid.
pub open spec fn spec_identity_of(p: DrainPod) -> (Seq<char>, Seq<char>, Option<Seq<char>>) {
    (or_empty(p.namespace), or_empty(p.name), opt_view(p.uid))
}

pub open spec fn identity_view(i: PodIdentity) -> (Seq<char>, Seq<char>, Option<Seq<char>>) {
    (i.namespace@, i.name@, opt_view(i.uid))
}

/// An identity with a uid matches only that uid; one without matches by
/// namespace and name.
pub open spec fn spec_identity_matches(i: (Seq<char>, Seq<char>, Option<Seq<char>>), p: DrainPod) -> bool {
    match i.2 {
        Some(u) => opt_view(p.uid) == Some(u),
        None => or_empty(p.namespace) == i.0 && or_empty(p.name) == i.1,
    }
}

fn or_empty_string(o: &Option<String>) -> (r: String)
    ensures
        r@ == or_empty(*o),
{
    match o {
        Some(s) => s.clone(),
        None => String::new(),
    }
}

impl PodIdentity {
    /// The identity of `p`.
    pub fn from_pod(p: &DrainPod) -> (r: PodIdentity)
        ensures
            identity_view(r) == spec_identity_of(*p),
    {
        PodIdentity {
            namespace: or_empty_string(&p.namespace),
            name: or_empty_string(&p.name),
            uid: match &p.uid {
                Some(u) => Some(u.clone()),
                None => None,
            },
        }
    }

    /// Whether `p` is the pod this identity names.
    pub fn matches(&self, p: &DrainPod) -> (r: bool)
        ensures
            r == spec_identity_matches(identity_view(*self), *p),
    {
        match &self.uid {
            Some(u) => match &p.uid {
                Some(pu) => str_eq(pu.as_str(), u.as_str()),
                None => false,
            },
            None => {
                let ns = or_empty_string(&p.namespace);
                let nm = or_empty_string(&p.name);
                str_eq(ns.as_str(), self.namespace.as_str()) && str_eq(nm.as_str(), self.name.as_str())
            },
        }
    }
}

/// A pod is always matched by its own identity, and never by that of a pod
/// with another uid: a replacement pod with the same name but a new uid is not
/// the pod that was evicted.
pub proof fn lemma_identity_matches_its_pod(p: DrainPod, q: DrainPod)
    ensures
        spec_identity_matches(spec_identity_of(p), p),
        p.uid is Some && q.uid is Some && opt_view(p.uid) != opt_view(q.uid)
            ==> !spec_identity_matches(spec_identity_of(p), q),
{
}

pub open spec fn identity_views(v: Seq<PodIdentity>) -> Seq<(Seq<char>, Seq<char>, Option<Seq<char>>)> {
    v.map_values(|i: PodIdentity| identity_view(i))
}

/// Some identity in `ids` matches `p`.
pub open spec fn matched_by_any(ids: Seq<(Seq<char>, Seq<char>, Option<Seq<char>>)>, p: DrainPod) -> bool {
    exists|k: int| 0 <= k < ids.len() && spec_identity_matches(#[trigger] ids[k], p)
}

/// The names of the pods that some identity matches, in pod order (pods
/// without a name are left out).
pub open spec fn spec_matching_names(
    pods: Seq<DrainPod>,
    ids: Seq<(Seq<char>, Seq<char>, Option<Seq<char>>)>,
) -> Seq<Seq<char>>
    decreases pods.len(),
{
    if pods.len() == 0 {
        Seq::empty()
    } else {
        let prev = spec_matching_names(pods.drop_last(), ids);
        let p = pods.last();
        if matched_by_any(ids, p) && p.name is Some {
            prev.push(p.name->0@)
        } else {
            prev
        }
    }
}

fn any_matches(ids: &[PodIdentity], p: &DrainPod) -> (r: bool)
    ensures
        r == matched_by_any(identity_views(ids@), *p),
{
    let n = ids.len();
    for i in 0..n
        invariant
            n == ids@.len(),
            forall|k: int| 0 <= k < i ==> !spec_identity_matches(identity_views(ids@)[k], *p),
    {
        if ids[i].matches(p) {
            assert(spec_identity_matches(identity_views(ids@)[i as int], *p));
            return true;
        }
    }
    false
}

/// The names of the listed pods that the drain still waits on, sorted.
pub fn remaining_terminating_pods(pods: &[DrainPod], terminating: &[PodIdentity]) -> (r: Vec<String>)
    ensures
        string_views(r@) == spec_sort(spec_matching_names(pods@, identity_views(terminating@))),
{
    let ghost ids = identity_views(terminating@);
    let mut names: Vec<String> = Vec::new();
    let n = pods.len();
    for i in 0..n
        invariant
            n == pods@.len(),
            ids == identity_views(terminating@),
            string_views(names@) == spec_matching_names(pods@.take(i as int), ids),
    {
        assert(pods@.take(i + 1).drop_last() == pods@.take(i as int));
        if any_matches(terminating, &pods[i]) {
            match &pods[i].name {
                Some(nm) => {
                    names.push(nm.clone());
                    assert(string_views(names@) =~= spec_matching_names(pods@.take(i + 1), ids));
                },
                None => {},
            }
        }
    }
    assert(pods@.take(n as int) == pods@);
    sort_strings(names)
}

} // verus!

verus! {

/// What a drain reports when it ends.
pub struct DrainSummary {
    pub evicted: usize,
    pub skipped: usize,
    pub failed: Vec<String>,
}

/// Progress reported while draining.
pub enum DrainEvent {
    Cordoned,
    Blocked { blockers: Vec<DrainBlocker> },
    Started { total: usize },
    Evicted { pod: String, done: usize, total: usize },
    EvictFailed { pod: String, reason: String },
    WaitingTermination { pods: Vec<String> },
}

/// Every blocker of every pod, pod by pod.
pub open spec fn spec_all_blockers(pods: Seq<DrainPod>, o: DrainOptions) -> Seq<
    (Seq<char>, Seq<char>, Seq<char>),
>
    decreases pods.len(),
{
    if pods.len() == 0 {
        Seq::empty()
    } else {
        spec_all_blockers(pods.drop_last(), o) + spec_drain_blockers(pods.last(), o)
    }
}

/// `pod: reason` for each blocker.
pub open spec fn blocker_lines(bs: Seq<(Seq<char>, Seq<char>, Seq<char>)>) -> Seq<Seq<char>> {
    bs.map_values(|b: (Seq<char>, Seq<char>, Seq<char>)| b.0 + ": "@ + b.1)
}

/// The positions of the pods the drain evicts, in order.
pub open spec fn spec_evictable_positions(pods: Seq<DrainPod>) -> Seq<usize>
    decreases pods.len(),
{
    if pods.len() == 0 {
        Seq::empty()
    } else {
        let prev = spec_evictable_positions(pods.drop_last());
        if spec_is_evictable(pods.last()) {
            prev.push((pods.len() - 1) as usize)
        } else {
            prev
        }
    }
}

/// The identities of the pods already being deleted that the drain waits on.
pub open spec fn spec_waitable_identities(pods: Seq<DrainPod>) -> Seq<
    (Seq<char>, Seq<char>, Option<Seq<char>>),
>
    decreases pods.len(),
{
    if pods.len() == 0 {
        Seq::empty()
    } else {
        let prev = spec_waitable_identities(pods.drop_last());
        if spec_is_waitable_terminating(pods.last()) {
            prev.push(spec_identity_of(pods.last()))
        } else {
            prev
        }
    }
}

/// How a drain goes on once the node's pods are listed.
pub enum DrainStart {
    /// Some pod refuses the drain: nothing is evicted.
    Blocked { summary: DrainSummary, blockers: Vec<DrainBlocker> },
    /// Evict the pods at `evictable` (positions in the listing), then wait for
    /// `terminating` to disappear.
    Proceed { summary: DrainSummary, evictable: Vec<usize>, terminating: Vec<PodIdentity> },
}

/// Decides, from the pods on the node, whether the drain is refused or which
/// pods it evicts and waits on.
///
/// `skipped` counts the pods not evicted. When any pod blocks, the result is
/// `Blocked` with every blocker and one `pod: reason` failure line for each.
pub fn start_drain(pods: &[DrainPod], options: &DrainOptions) -> (r: DrainStart)
    ensures
        match r {
            DrainStart::Blocked { summary, blockers } => {
                &&& spec_all_blockers(pods@, *options).len() > 0
                &&& blocker_views(blockers@) == spec_all_blockers(pods@, *options)
                &&& summary.evicted == 0
                &&& summary.skipped == spec_skipped(pods@)
                &&& string_views(summary.failed@) == blocker_lines(spec_all_blockers(pods@, *options))
            },
            DrainStart::Proceed { summary, evictable, terminating } => {
                &&& spec_all_blockers(pods@, *options).len() == 0
                &&& evictable@ == spec_evictable_positions(pods@)
                &&& identity_views(terminating@) == spec_waitable_identities(pods@)
                &&& summary.evicted == 0
                &&& summary.skipped == spec_skipped(pods@)
                &&& summary.failed@.len() == 0
            },
        },
{
    let skipped = skipped_pod_count(pods);
    let n = pods.len();
    let mut blockers: Vec<DrainBlocker> = Vec::new();
    let mut failed: Vec<String> = Vec::new();
    let mut evictable: Vec<usize> = Vec::new();
    let mut terminating: Vec<PodIdentity> = Vec::new();
    for i in 0..n
        invariant
            n == pods@.len(),
            blocker_views(blockers@) == spec_all_blockers(pods@.take(i as int), *options),
            string_views(failed@) == blocker_lines(blocker_views(blockers@)),
            evictable@ == spec_evictable_positions(pods@.take(i as int)),
            identity_views(terminating@) == spec_waitable_identities(pods@.take(i as int)),
    {
        let ghost pre = pods@.take(i + 1);
        assert(pre.drop_last() == pods@.take(i as int));
        assert(pre.last() == pods@[i as int]);
        let bs = drain_blockers(&pods[i], options);
        let m = bs.len();
        let ghost start_b = blocker_views(blockers@);
        for j in 0..m
            invariant
                m == bs@.len(),
                blocker_views(blockers@) == start_b + blocker_views(bs@).take(j as int),
                string_views(failed@) == blocker_lines(blocker_views(blockers@)),
        {
            let line = colon_join(bs[j].pod.as_str(), bs[j].reason.as_str());
            let b = DrainBlocker {
                pod: bs[j].pod.clone(),
                reason: bs[j].reason.clone(),
                clearable_by: bs[j].clearable_by.clone(),
            };
            let ghost bv = blocker_view(b);
            assert(bv == blocker_view(bs@[j as int]));
            assert(line@ == bv.0 + ": "@ + bv.1);
            let ghost old_b = blockers@;
            let ghost old_f = failed@;
            failed.push(line);
            blockers.push(b);
            assert(blocker_views(blockers@) =~= blocker_views(old_b).push(bv));
            assert(string_views(failed@) =~= string_views(old_f).push(line@));
            assert(blocker_lines(blocker_views(blockers@)) =~= blocker_lines(blocker_views(old_b)).push(line@));
            assert(blocker_views(bs@).take(j + 1) =~= blocker_views(bs@).take(j as int).push(bv));
            assert(blocker_views(blockers@) =~= start_b + blocker_views(bs@).take(j + 1));
        }
        assert(blocker_views(bs@).take(m as int) == blocker_views(bs@));
        if is_evictable(&pods[i]) {
            evictable.push(i);
        }
        if is_waitable_terminating(&pods[i]) {
            let id = PodIdentity::from_pod(&pods[i]);
            terminating.push(id);
            assert(identity_views(terminating@) =~= spec_waitable_identities(pre));
        }
    }
    assert(pods@.take(n as int) == pods@);
    if blockers.len() > 0 {
        DrainStart::Blocked { summary: DrainSummary { evicted: 0, skipped, failed }, blockers }
    } else {
        DrainStart::Proceed {
            summary: DrainSummary { evicted: 0, skipped, failed: Vec::new() },
            evictable,
            terminating,
        }
    }
}

/// Why a removal was not accepted when no attempt reported an error.
pub const DEADLINE_BEFORE_REMOVAL: &'static str = "drain deadline elapsed before pod removal was accepted";

/// The failure added when pods being deleted outlive the drain's deadline.
pub const TERMINATION_TIMEOUT: &'static str = "timed out waiting for workload pods to terminate";

/// Records the outcome of removing one evictable pod, out of `total`.
///
/// `outcome` is `Ok` when the eviction (or deletion) was accepted, else the
/// last error seen, empty when no attempt was made before the deadline. An
/// accepted pod joins the pods waited on and counts as evicted; a refused one
/// adds a `pod: reason` failure.
pub fn record_removal(
    summary: &mut DrainSummary,
    terminating: &mut Vec<PodIdentity>,
    pod: &DrainPod,
    outcome: Result<(), String>,
    total: usize,
) -> (event: DrainEvent)
    requires
        old(summary).evicted < usize::MAX,
    ensures
        match outcome {
            Ok(()) => {
                &&& final(summary).evicted == old(summary).evicted + 1
                &&& final(summary).failed@ == old(summary).failed@
                &&& identity_views(final(terminating)@) == identity_views(old(terminating)@).push(spec_identity_of(*pod))
                &&& event matches DrainEvent::Evicted { pod: p, done, total: t }
                    && p@ == or_empty(pod.name) && done == final(summary).evicted && t == total
            },
            Err(e) => {
                let reason = if e@.len() == 0 { DEADLINE_BEFORE_REMOVAL@ } else { e@ };
                &&& final(summary).evicted == old(summary).evicted
                &&& string_views(final(summary).failed@) == string_views(old(summary).failed@).push(or_empty(pod.name) + ": "@ + reason)
                &&& final(terminating)@ == old(terminating)@
                &&& event matches DrainEvent::EvictFailed { pod: p, reason: r }
                    && p@ == or_empty(pod.name) && r@ == reason
            },
        },
        final(summary).skipped == old(summary).skipped,
{
    let name = or_empty_string(&pod.name);
    match outcome {
        Ok(()) => {
            let id = PodIdentity::from_pod(pod);
            terminating.push(id);
            proof {
                assert(identity_views(terminating@) =~= identity_views(old(terminating)@).push(spec_identity_of(*pod)));
            }
            summary.evicted = summary.evicted + 1;
            DrainEvent::Evicted { pod: name, done: summary.evicted, total }
        },
        Err(e) => {
            let reason = if e.as_str().is_empty() {
                owned(DEADLINE_BEFORE_REMOVAL)
            } else {
                e
            };
            let line = colon_join(name.as_str(), reason.as_str());
            let ghost before = summary.failed@;
            summary.failed.push(line);
            proof {
                assert(string_views(summary.failed@) =~= string_views(before).push(line@));
            }
            DrainEvent::EvictFailed { pod: name, reason }
        },
    }
}

/// Ends the termination wait: when pods still being deleted outlived the
/// deadline, the summary gains the timeout failure.
pub fn close_termination_wait(summary: &mut DrainSummary, still_terminating: bool)
    ensures
        final(summary).evicted == old(summary).evicted,
        final(summary).skipped == old(summary).skipped,
        string_views(final(summary).failed@) == if still_terminating {
            string_views(old(summary).failed@).push(TERMINATION_TIMEOUT@)
        } else {
            string_views(old(summary).failed@)
        },
{
    if still_terminating {
        let ghost before = summary.failed@;
        summary.failed.push(owned(TERMINATION_TIMEOUT));
        proof {
            assert(string_views(summary.failed@) =~= string_views(before).push(TERMINATION_TIMEOUT@));
        }
    }
}

/// The node is Ready: its first `Ready` condition has status `True`.
pub open spec fn spec_node_ready(node: Json) -> bool {
    match spec_condition(node, "Ready"@) {
        Some(c) => json_str(json_get(c, "status"@)) == Some("True"@),
        None => false,
    }
}

/// The node booted again: a boot id was known before the drain and the node
/// now reports another.
pub open spec fn spec_boot_changed(node: Json, previous_boot_id: Option<Seq<char>>) -> bool {
    match previous_boot_id {
        Some(before) => match json_str(json_path(node, seq!["status"@, "nodeInfo"@, "bootId"@])) {
            Some(now) => now != before,
            None => false,
        },
        None => false,
    }
}

/// One look at a rebooting node, with whether it was seen NotReady (or
/// unreachable) before: the reboot is complete once the node is Ready after
/// having been seen NotReady, or Ready with a new boot id; an unreachable or
/// NotReady node is remembered as seen NotReady. Returns (complete, seen
/// NotReady).
pub open spec fn spec_reboot_step(saw_not_ready: bool, previous_boot_id: Option<Seq<char>>, node: Option<Json>) -> (bool, bool) {
    match node {
        None => (false, true),
        Some(n) => if !spec_node_ready(n) {
            (false, true)
        } else if saw_not_ready || spec_boot_changed(n, previous_boot_id) {
            (true, saw_not_ready)
        } else {
            (false, saw_not_ready)
        },
    }
}

/// Whether a node is Ready.
pub fn node_ready(node: &Json) -> (r: bool)
    ensures
        r == spec_node_ready(*node),
{
    match find_condition(node, "Ready") {
        Some(c) => crate::json::opt_str_is(c.get("status"), "True"),
        None => false,
    }
}

/// Whether a node reports a boot id other than the one seen before.
pub fn boot_changed(node: &Json, previous_boot_id: Option<&str>) -> (r: bool)
    ensures
        r == spec_boot_changed(*node, match previous_boot_id {
            Some(b) => Some(b@),
            None => None,
        }),
{
    let p = ["status", "nodeInfo", "bootId"];
    assert(key_views(p@) =~= seq!["status"@, "nodeInfo"@, "bootId"@]);
    match previous_boot_id {
        Some(before) => match opt_str(node.path(&p)) {
            Some(now) => !str_eq(now, before),
            None => false,
        },
        None => false,
    }
}

/// One step of waiting for a node to reboot, from what fetching it gave
/// (`None` when it could not be fetched).
pub fn reboot_step(saw_not_ready: bool, previous_boot_id: Option<&str>, node: Option<&Json>) -> (r: (bool, bool))
    ensures
        r == spec_reboot_step(saw_not_ready, match previous_boot_id {
            Some(b) => Some(b@),
            None => None,
        }, deref_opt(node)),
{
    match node {
        None => (false, true),
        Some(n) => if !node_ready(n) {
            (false, true)
        } else if saw_not_ready || boot_changed(n, previous_boot_id) {
            (true, saw_not_ready)
        } else {
            (false, saw_not_ready)
        },
    }
}

/// A reboot completes only after the node was seen NotReady or came back
/// with a new boot id, and a Ready node seen NotReady before completes it.
pub proof fn lemma_reboot_needs_a_down_phase(saw_not_ready: bool, previous_boot_id: Option<Seq<char>>, node: Option<Json>)
    ensures
        spec_reboot_step(saw_not_ready, previous_boot_id, node).0 ==> (saw_not_ready || spec_boot_changed(node->0, previous_boot_id)),
        (saw_not_ready && node is Some && spec_node_ready(node->0)) ==> spec_reboot_step(saw_not_ready, previous_boot_id, node).0,
        !spec_reboot_step(saw_not_ready, previous_boot_id, node).0 ==> (spec_reboot_step(saw_not_ready, previous_boot_id, node).1 == (saw_not_ready || node is None || !spec_node_ready(node->0))),
{
}

/// The error of a reboot wait that timed out.
pub fn reboot_timeout_error(name: &str) -> (e: K8sError)
    ensures
        is_api_error(e, "node "@ + name@ + " did not complete a NotReady-to-Ready reboot cycle before timeout"@),
{
    let mut out = chars_of("node ");
    let nc = chars_of(name);
    extend_chars(&mut out, nc.as_slice());
    let tail = chars_of(" did not complete a NotReady-to-Ready reboot cycle before timeout");
    extend_chars(&mut out, tail.as_slice());
    K8sError::Api(string_of(out.as_slice()))
}

} // verus!
