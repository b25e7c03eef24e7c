//! Dashboard health signals for CloudNativePG clusters: WAL archiving health and
//! the age of the latest recovery point against the latest scheduled run.
use vstd::prelude::*;
use crate::tree::opt_view;
use crate::json::{deref_opt, json_get, json_path, json_str, key_views, opt_str, Json};
use crate::sort::{lex_le, lex_lt, lemma_lex_total, lemma_lex_transitive, str_lt};
use crate::text::{ascii_lower, chars_of, extend_chars, owned, str_eq, string_of, to_ascii_lowercase};

verus! {

/// How healthy a row or signal is.
#[derive(PartialEq, Eq, Structural, Clone, Copy, Debug)]
pub enum RowStatus {
    Healthy,
    Done,
    Pending,
    Warn,
    Error,
    Unknown,
}

/// One health signal shown for a controller group.
#[derive(Debug)]
pub struct ControllerHealthSignal {
    pub label: String,
    pub value: String,
    pub status: RowStatus,
    pub timestamp: Option<String>,
    pub message: String,
}

/// A signal by views: label, value, status, timestamp, message.
pub type SignalView = (Seq<char>, Seq<char>, RowStatus, Option<Seq<char>>, Seq<char>);

pub open spec fn signal_view(s: ControllerHealthSignal) -> SignalView {
    (s.label@, s.value@, s.status, opt_view(s.timestamp), s.message@)
}

pub open spec fn signal_views(v: Seq<ControllerHealthSignal>) -> Seq<SignalView> {
    v.map_values(|s: ControllerHealthSignal| signal_view(s))
}

/// The string at a key path, or empty.
pub open spec fn str_at(o: Json, path: Seq<Seq<char>>) -> Seq<char> {
    match json_str(json_path(o, path)) {
        Some(s) => s,
        None => Seq::empty(),
    }
}

/// `metadata.namespace`, empty when missing.
pub open spec fn obj_namespace(o: Json) -> Seq<char> {
    str_at(o, seq!["metadata"@, "namespace"@])
}

/// `metadata.name`, empty when missing.
pub open spec fn obj_name(o: Json) -> Seq<char> {
    str_at(o, seq!["metadata"@, "name"@])
}

/// The cluster a backup or schedule is for: `spec.cluster.name`.
pub open spec fn cluster_ref(o: Json) -> Option<Seq<char>> {
    json_str(json_path(o, seq!["spec"@, "cluster"@, "name"@]))
}

pub open spec fn lower(s: Seq<char>) -> Seq<char> {
    s.map_values(|c: char| ascii_lower(c))
}

/// A backup whose `status.phase` is `completed` or `succeeded`, ignoring case.
pub open spec fn backup_completed(o: Json) -> bool {
    let ph = lower(str_at(o, seq!["status"@, "phase"@]));
    ph == "completed"@ || ph == "succeeded"@
}

/// The latest completed backup of cluster `ns/name`, as its instant and its
/// `status.stoppedAt` text. `times[i]` is the instant `stoppedAt` of backup `i`
/// denotes, `None` when it does not parse. On equal instants the first backup
/// stays.
pub open spec fn latest_backup(bs: Seq<Json>, times: Seq<Option<i128>>, ns: Seq<char>, name: Seq<char>) -> Option<(i128, Seq<char>)>
    decreases bs.len(),
{
    if bs.len() == 0 || times.len() != bs.len() {
        None
    } else {
        let prev = latest_backup(bs.drop_last(), times.drop_last(), ns, name);
        let b = bs.last();
        let stopped = json_str(json_path(b, seq!["status"@, "stoppedAt"@]));
        if backup_completed(b) && cluster_ref(b) == Some(name) && obj_namespace(b) == ns
            && stopped is Some && times.last() is Some
            && match prev {
                Some(p) => times.last()->0 > p.0,
                None => true,
            } {
            Some((times.last()->0, stopped->0))
        } else {
            prev
        }
    }
}

/// The latest `status.lastScheduleTime` of the schedules of cluster `ns/name`;
/// `times[i]` is the instant of schedule `i`, `None` when missing or not
/// parseable.
pub open spec fn latest_schedule(ss: Seq<Json>, times: Seq<Option<i128>>, ns: Seq<char>, name: Seq<char>) -> Option<i128>
    decreases ss.len(),
{
    if ss.len() == 0 || times.len() != ss.len() {
        None
    } else {
        let prev = latest_schedule(ss.drop_last(), times.drop_last(), ns, name);
        let s = ss.last();
        if cluster_ref(s) == Some(name) && obj_namespace(s) == ns && times.last() is Some {
            match prev {
                Some(p) => if times.last()->0 > p { Some(times.last()->0) } else { Some(p) },
                None => Some(times.last()->0),
            }
        } else {
            prev
        }
    }
}

/// The first entry of `status.conditions` whose `type` is `ty`.
pub open spec fn first_condition(cs: Seq<Json>, ty: Seq<char>) -> Option<Json>
    decreases cs.len(),
{
    if cs.len() == 0 {
        None
    } else if json_str(json_get(cs[0], "type"@)) == Some(ty) {
        Some(cs[0])
    } else {
        first_condition(cs.drop_first(), ty)
    }
}

pub open spec fn spec_condition(o: Json, ty: Seq<char>) -> Option<Json> {
    match json_path(o, seq!["status"@, "conditions"@]) {
        Some(Json::Array(cs)) => first_condition(cs@, ty),
        _ => None,
    }
}

/// The archiving signal of a cluster, when it reports `ContinuousArchiving`.
pub open spec fn archival_signal(c: Json) -> Option<SignalView> {
    match spec_condition(c, "ContinuousArchiving"@) {
        None => None,
        Some(a) => {
            let st = json_str(json_get(a, "status"@));
            let status = if st == Some("True"@) {
                RowStatus::Healthy
            } else if st == Some("False"@) {
                RowStatus::Error
            } else {
                RowStatus::Pending
            };
            let value = match status {
                RowStatus::Healthy => "Healthy"@,
                RowStatus::Error => "Failing"@,
                _ => "Pending"@,
            };
            let message = match json_str(json_get(a, "message"@)) {
                Some(m) => m,
                None => Seq::empty(),
            };
            Some((obj_name(c) + " archival"@, value, status, None, message))
        },
    }
}

/// The recovery-point signal of a cluster, when it has a completed backup or
/// a scheduled run.
pub open spec fn rpo_signal(c: Json, backup: Option<(i128, Seq<char>)>, scheduled: Option<i128>) -> Option<SignalView> {
    if backup is None && scheduled is None {
        None
    } else {
        let status = if backup is None {
            RowStatus::Error
        } else if match (backup, scheduled) {
            (Some(b), Some(t)) => b.0 < t,
            _ => false,
        } {
            RowStatus::Warn
        } else {
            RowStatus::Healthy
        };
        let message = if backup is None {
            "No successful backup after a scheduled run"@
        } else if status == RowStatus::Warn {
            "The latest scheduled run has no completed backup"@
        } else {
            "Latest successful recovery point"@
        };
        let value = if backup is Some { "Recovery point age"@ } else { "No recovery point"@ };
        let timestamp = match backup {
            Some(b) => Some(b.1),
            None => None,
        };
        Some((obj_name(c) + " backup RPO"@, value, status, timestamp, message))
    }
}

/// A cluster's recovery point is shown once it has a completed backup or a
/// scheduled run: failing without a completed backup, a warning when the latest
/// scheduled run is later than the latest completed backup, healthy otherwise,
/// and stamped with the latest backup's `stoppedAt` when there is one.
pub proof fn lemma_rpo_status(c: Json, backup: Option<(i128, Seq<char>)>, scheduled: Option<i128>)
    ensures
        rpo_signal(c, backup, scheduled) is None <==> backup is None && scheduled is None,
        rpo_signal(c, backup, scheduled) matches Some(sig) ==> {
            &&& backup is None ==> sig.2 == RowStatus::Error && sig.3 is None
            &&& backup matches Some(b) ==> sig.3 == Some(b.1) && (sig.2 == RowStatus::Warn <==> (scheduled matches Some(t) && b.0 < t))
            &&& backup is Some && !(sig.2 == RowStatus::Warn) ==> sig.2 == RowStatus::Healthy
        },
{
}

pub open spec fn opt_seq(o: Option<SignalView>) -> Seq<SignalView> {
    match o {
        Some(s) => seq![s],
        None => Seq::empty(),
    }
}

/// The signals of each cluster in order: archiving, then recovery point.
pub open spec fn unsorted_signals(
    clusters: Seq<Json>,
    backups: Seq<Json>,
    backup_times: Seq<Option<i128>>,
    schedules: Seq<Json>,
    schedule_times: Seq<Option<i128>>,
) -> Seq<SignalView>
    decreases clusters.len(),
{
    if clusters.len() == 0 {
        Seq::empty()
    } else {
        let c = clusters.last();
        let ns = obj_namespace(c);
        let name = obj_name(c);
        unsorted_signals(clusters.drop_last(), backups, backup_times, schedules, schedule_times)
            + opt_seq(archival_signal(c))
            + opt_seq(rpo_signal(
                c,
                latest_backup(backups, backup_times, ns, name),
                latest_schedule(schedules, schedule_times, ns, name),
            ))
    }
}

/// Backup `b`, stopped at instant `t`, is a completed backup of cluster
/// `ns/name` with a `status.stoppedAt` that parses.
pub open spec fn counts_as_backup(b: Json, t: Option<i128>, ns: Seq<char>, name: Seq<char>) -> bool {
    &&& backup_completed(b)
    &&& cluster_ref(b) == Some(name)
    &&& obj_namespace(b) == ns
    &&& json_str(json_path(b, seq!["status"@, "stoppedAt"@])) is Some
    &&& t is Some
}

/// The recovery point is the latest completed backup of the cluster: none
/// exactly when no backup counts; otherwise one that counts, with its
/// `stoppedAt` text, at an instant no counting backup is later than, and the
/// first such backup among equal instants.
pub proof fn lemma_latest_backup_is_latest(bs: Seq<Json>, times: Seq<Option<i128>>, ns: Seq<char>, name: Seq<char>)
    requires
        times.len() == bs.len(),
    ensures
        latest_backup(bs, times, ns, name) is None <==> forall|i: int|
            0 <= i < bs.len() ==> !counts_as_backup(#[trigger] bs[i], times[i], ns, name),
        latest_backup(bs, times, ns, name) matches Some(p) ==> exists|i: int|
            0 <= i < bs.len() && counts_as_backup(#[trigger] bs[i], times[i], ns, name) && times[i] == Some(p.0)
                && json_str(json_path(bs[i], seq!["status"@, "stoppedAt"@])) == Some(p.1)
                && forall|j: int| 0 <= j < i && counts_as_backup(#[trigger] bs[j], times[j], ns, name)
                    ==> times[j]->0 < p.0,
        latest_backup(bs, times, ns, name) matches Some(p) ==> forall|i: int|
            0 <= i < bs.len() && counts_as_backup(#[trigger] bs[i], times[i], ns, name) ==> times[i]->0 <= p.0,
    decreases bs.len(),
{
    if bs.len() > 0 {
        let pb = bs.drop_last();
        let pt = times.drop_last();
        let n = bs.len() - 1;
        lemma_latest_backup_is_latest(pb, pt, ns, name);
        assert forall|i: int| 0 <= i < n implies #[trigger] bs[i] == pb[i] && times[i] == pt[i] by {}
        let prev = latest_backup(pb, pt, ns, name);
        let cur = latest_backup(bs, times, ns, name);
        if cur != prev {
            assert(counts_as_backup(bs[n], times[n], ns, name));
            assert forall|j: int| 0 <= j < n && counts_as_backup(#[trigger] bs[j], times[j], ns, name)
                implies times[j]->0 < (cur->0).0 by {
                assert(pb[j] == bs[j]);
            }
        } else if let Some(p) = prev {
            let i = choose|i: int|
                0 <= i < pb.len() && counts_as_backup(#[trigger] pb[i], pt[i], ns, name) && pt[i] == Some(p.0)
                    && json_str(json_path(pb[i], seq!["status"@, "stoppedAt"@])) == Some(p.1)
                    && forall|j: int| 0 <= j < i && counts_as_backup(#[trigger] pb[j], pt[j], ns, name)
                        ==> pt[j]->0 < p.0;
            assert(bs[i] == pb[i]);
            assert forall|j: int| 0 <= j < i && counts_as_backup(#[trigger] bs[j], times[j], ns, name)
                implies times[j]->0 < p.0 by {
                assert(pb[j] == bs[j]);
            }
        }
    }
}

/// The latest scheduled run of a cluster is the latest `lastScheduleTime` of
/// its schedules: none exactly when none of its schedules has one, else one of
/// theirs that none of theirs is later than.
pub proof fn lemma_latest_schedule_is_latest(ss: Seq<Json>, times: Seq<Option<i128>>, ns: Seq<char>, name: Seq<char>)
    requires
        times.len() == ss.len(),
    ensures
        latest_schedule(ss, times, ns, name) is None <==> forall|i: int|
            0 <= i < ss.len() ==> !(cluster_ref(#[trigger] ss[i]) == Some(name) && obj_namespace(ss[i]) == ns
                && times[i] is Some),
        latest_schedule(ss, times, ns, name) matches Some(t) ==> exists|i: int|
            0 <= i < ss.len() && cluster_ref(#[trigger] ss[i]) == Some(name) && obj_namespace(ss[i]) == ns
                && times[i] == Some(t),
        latest_schedule(ss, times, ns, name) matches Some(t) ==> forall|i: int|
            0 <= i < ss.len() && cluster_ref(#[trigger] ss[i]) == Some(name) && obj_namespace(ss[i]) == ns
                && times[i] is Some ==> times[i]->0 <= t,
    decreases ss.len(),
{
    if ss.len() > 0 {
        let ps = ss.drop_last();
        let pt = times.drop_last();
        let n = ss.len() - 1;
        lemma_latest_schedule_is_latest(ps, pt, ns, name);
        assert forall|i: int| 0 <= i < n implies #[trigger] ss[i] == ps[i] && times[i] == pt[i] by {}
        let prev = latest_schedule(ps, pt, ns, name);
        if let Some(t) = prev {
            if latest_schedule(ss, times, ns, name) == prev {
                let i = choose|i: int|
                    0 <= i < ps.len() && cluster_ref(#[trigger] ps[i]) == Some(name) && obj_namespace(ps[i]) == ns
                        && pt[i] == Some(t);
                assert(ss[i] == ps[i]);
            }
        }
    }
}

/// Where a stable insertion by label puts `x` in `r`: after every element
/// whose label does not sort after `x`'s.
pub open spec fn label_ins_index(r: Seq<SignalView>, x: SignalView) -> int
    decreases r.len(),
{
    if r.len() == 0 {
        0
    } else if lex_lt(x.0, r[0].0) {
        0
    } else {
        1 + label_ins_index(r.drop_first(), x)
    }
}

/// `s` stably sorted by label (`slice::sort_by` on the label).
pub open spec fn sort_by_label(s: Seq<SignalView>) -> Seq<SignalView>
    decreases s.len(),
{
    if s.len() == 0 {
        s
    } else {
        let r = sort_by_label(s.drop_last());
        r.insert(label_ins_index(r, s.last()), s.last())
    }
}

/// The signals of all clusters, sorted by label.
pub open spec fn spec_cnpg_signals(
    clusters: Seq<Json>,
    backups: Seq<Json>,
    backup_times: Seq<Option<i128>>,
    schedules: Seq<Json>,
    schedule_times: Seq<Option<i128>>,
) -> Seq<SignalView> {
    sort_by_label(unsorted_signals(clusters, backups, backup_times, schedules, schedule_times))
}

/// Labels never decrease along `s`.
pub open spec fn sorted_by_label(s: Seq<SignalView>) -> bool {
    forall|i: int, j: int| 0 <= i < j < s.len() ==> lex_le(s[i].0, s[j].0)
}

proof fn lemma_label_ins_index(r: Seq<SignalView>, x: SignalView)
    ensures
        0 <= label_ins_index(r, x) <= r.len(),
        forall|k: int| 0 <= k < label_ins_index(r, x) ==> !lex_lt(x.0, #[trigger] r[k].0),
        label_ins_index(r, x) < r.len() ==> lex_lt(x.0, r[label_ins_index(r, x)].0),
    decreases r.len(),
{
    if r.len() > 0 && !lex_lt(x.0, r[0].0) {
        lemma_label_ins_index(r.drop_first(), x);
        assert forall|k: int| 0 <= k < label_ins_index(r, x) implies !lex_lt(x.0, #[trigger] r[k].0) by {
            if k > 0 {
                assert(r[k] == r.drop_first()[k - 1]);
            }
        }
    }
}

/// Sorting by label yields labels in ascending order.
pub proof fn lemma_sort_by_label_sorted(s: Seq<SignalView>)
    ensures
        sorted_by_label(sort_by_label(s)),
        sort_by_label(s).len() == s.len(),
    decreases s.len(),
{
    if s.len() > 0 {
        let r = sort_by_label(s.drop_last());
        let x = s.last();
        lemma_sort_by_label_sorted(s.drop_last());
        lemma_label_ins_index(r, x);
        let p = label_ins_index(r, x);
        let nv = r.insert(p, x);
        assert forall|k: int| p <= k < r.len() implies lex_lt(x.0, #[trigger] r[k].0) by {
            if k > p {
                assert(lex_le(r[p].0, r[k].0));
                if r[p].0 != r[k].0 {
                    lemma_lex_transitive(x.0, r[p].0, r[k].0);
                }
            }
        }
        assert forall|k: int| 0 <= k < p implies lex_le(#[trigger] r[k].0, x.0) by {
            assert(!lex_lt(x.0, r[k].0));
            if r[k].0 != x.0 {
                lemma_lex_total(r[k].0, x.0);
            }
        }
        assert forall|i: int, j: int| 0 <= i < j < nv.len() implies lex_le(nv[i].0, nv[j].0) by {
            if j < p {
                assert(nv[i] == r[i] && nv[j] == r[j]);
            } else if j == p {
                assert(nv[i] == r[i]);
            } else if i < p {
                assert(nv[i] == r[i] && nv[j] == r[j - 1]);
                if r[i].0 != x.0 {
                    lemma_lex_transitive(r[i].0, x.0, r[j - 1].0);
                }
            } else if i == p {
                assert(nv[j] == r[j - 1]);
            } else {
                assert(nv[i] == r[i - 1] && nv[j] == r[j - 1]);
            }
        }
    }
}

fn cat2(a: &str, b: &str) -> (r: String)
    ensures
        r@ == a@ + b@,
{
    let mut out = chars_of(a);
    let bc = chars_of(b);
    extend_chars(&mut out, bc.as_slice());
    string_of(out.as_slice())
}

fn str_at_path(o: &Json, path: &[&str]) -> (r: String)
    ensures
        r@ == str_at(*o, key_views(path@)),
{
    match opt_str(o.path(path)) {
        Some(s) => owned(s),
        None => String::new(),
    }
}

fn lower_string(s: &str) -> (r: Vec<char>)
    ensures
        r@ == lower(s@),
{
    let cs = chars_of(s);
    let mut out: Vec<char> = Vec::new();
    let n = cs.len();
    for i in 0..n
        invariant
            n == cs@.len(),
            cs@ == s@,
            out@ == lower(s@.take(i as int)),
    {
        out.push(to_ascii_lowercase(cs[i]));
        assert(lower(s@.take(i + 1)) =~= lower(s@.take(i as int)).push(ascii_lower(s@[i as int])));
    }
    assert(s@.take(n as int) == s@);
    out
}

fn is_backup_completed(b: &Json) -> (r: bool)
    ensures
        r == backup_completed(*b),
{
    let ghost path = seq!["status"@, "phase"@];
    let keys = ["status", "phase"];
    assert(key_views(keys@) =~= path);
    let ph = str_at_path(b, &keys);
    let l = lower_string(ph.as_str());
    let ls = string_of(l.as_slice());
    str_eq(ls.as_str(), "completed") || str_eq(ls.as_str(), "succeeded")
}

fn namespace_of(o: &Json) -> (r: String)
    ensures
        r@ == obj_namespace(*o),
{
    let keys = ["metadata", "namespace"];
    assert(key_views(keys@) =~= seq!["metadata"@, "namespace"@]);
    str_at_path(o, &keys)
}

fn name_of(o: &Json) -> (r: String)
    ensures
        r@ == obj_name(*o),
{
    let keys = ["metadata", "name"];
    assert(key_views(keys@) =~= seq!["metadata"@, "name"@]);
    str_at_path(o, &keys)
}

fn cluster_of(o: &Json) -> (r: Option<&str>)
    ensures
        match r {
            Some(s) => cluster_ref(*o) == Some(s@),
            None => cluster_ref(*o) is None,
        },
{
    let keys = ["spec", "cluster", "name"];
    assert(key_views(keys@) =~= seq!["spec"@, "cluster"@, "name"@]);
    opt_str(o.path(&keys))
}

fn stopped_at(o: &Json) -> (r: Option<&str>)
    ensures
        match r {
            Some(s) => json_str(json_path(*o, seq!["status"@, "stoppedAt"@])) == Some(s@),
            None => json_str(json_path(*o, seq!["status"@, "stoppedAt"@])) is None,
        },
{
    let keys = ["status", "stoppedAt"];
    assert(key_views(keys@) =~= seq!["status"@, "stoppedAt"@]);
    opt_str(o.path(&keys))
}

fn find_latest_backup(
    backups: &[Json],
    times: &[Option<i128>],
    ns: &str,
    name: &str,
) -> (r: Option<(i128, String)>)
    requires
        times@.len() == backups@.len(),
    ensures
        match r {
            Some((t, s)) => latest_backup(backups@, times@, ns@, name@) == Some((t, s@)),
            None => latest_backup(backups@, times@, ns@, name@) is None,
        },
{
    let mut best: Option<(i128, String)> = None;
    let n = backups.len();
    for i in 0..n
        invariant
            n == backups@.len(),
            n == times@.len(),
            match best {
                Some((t, s)) => latest_backup(backups@.take(i as int), times@.take(i as int), ns@, name@) == Some((t, s@)),
                None => latest_backup(backups@.take(i as int), times@.take(i as int), ns@, name@) is None,
            },
    {
        assert(backups@.take(i + 1).drop_last() == backups@.take(i as int));
        assert(times@.take(i + 1).drop_last() == times@.take(i as int));
        assert(backups@.take(i + 1).last() == backups@[i as int]);
        assert(times@.take(i + 1).last() == times@[i as int]);
        let b = &backups[i];
        if is_backup_completed(b) {
            match cluster_of(b) {
                Some(c) => {
                    if str_eq(c, name) {
                        let bns = namespace_of(b);
                        if str_eq(bns.as_str(), ns) {
                            match (stopped_at(b), times[i]) {
                                (Some(ts), Some(t)) => {
                                    let newer = match &best {
                                        Some(cur) => t > cur.0,
                                        None => true,
                                    };
                                    if newer {
                                        best = Some((t, owned(ts)));
                                    }
                                },
                                _ => {},
                            }
                        }
                    }
                },
                None => {},
            }
        }
    }
    assert(backups@.take(n as int) == backups@);
    assert(times@.take(n as int) == times@);
    best
}

fn find_latest_schedule(
    schedules: &[Json],
    times: &[Option<i128>],
    ns: &str,
    name: &str,
) -> (r: Option<i128>)
    requires
        times@.len() == schedules@.len(),
    ensures
        r == latest_schedule(schedules@, times@, ns@, name@),
{
    let mut best: Option<i128> = None;
    let n = schedules.len();
    for i in 0..n
        invariant
            n == schedules@.len(),
            n == times@.len(),
            best == latest_schedule(schedules@.take(i as int), times@.take(i as int), ns@, name@),
    {
        assert(schedules@.take(i + 1).drop_last() == schedules@.take(i as int));
        assert(times@.take(i + 1).drop_last() == times@.take(i as int));
        assert(schedules@.take(i + 1).last() == schedules@[i as int]);
        assert(times@.take(i + 1).last() == times@[i as int]);
        let s = &schedules[i];
        match (cluster_of(s), times[i]) {
            (Some(c), Some(t)) => {
                if str_eq(c, name) {
                    let sns = namespace_of(s);
                    if str_eq(sns.as_str(), ns) {
                        best = match best {
                            Some(p) => if t > p { Some(t) } else { Some(p) },
                            None => Some(t),
                        };
                    }
                }
            },
            _ => {},
        }
    }
    assert(schedules@.take(n as int) == schedules@);
    assert(times@.take(n as int) == times@);
    best
}

pub(crate) fn find_condition<'a>(o: &'a Json, ty: &str) -> (r: Option<&'a Json>)
    ensures
        deref_opt(r) == spec_condition(*o, ty@),
{
    let keys = ["status", "conditions"];
    assert(key_views(keys@) =~= seq!["status"@, "conditions"@]);
    match o.path(&keys) {
        Some(Json::Array(cs)) => {
            let n = cs.len();
            assert(cs@.skip(0) == cs@);
            assert(spec_condition(*o, ty@) == first_condition(cs@, ty@));
            for i in 0..n
                invariant
                    n == cs@.len(),
                    spec_condition(*o, ty@) == first_condition(cs@, ty@),
                    first_condition(cs@.skip(i as int), ty@) == first_condition(cs@, ty@),
            {
                assert(cs@.skip(i as int).drop_first() == cs@.skip(i + 1));
                assert(cs@.skip(i as int)[0] == cs@[i as int]);
                match cs[i].get("type") {
                    Some(Json::Str(t)) => {
                        if str_eq(t.as_str(), ty) {
                            assert(json_str(json_get(cs@[i as int], "type"@)) == Some(ty@));
                            assert(first_condition(cs@.skip(i as int), ty@) == Some(cs@[i as int]));
                            return Some(&cs[i]);
                        }
                    },
                    _ => {},
                }
            }
            None
        },
        _ => None,
    }
}

fn make_archival_signal(c: &Json) -> (r: Option<ControllerHealthSignal>)
    ensures
        match r {
            Some(s) => archival_signal(*c) == Some(signal_view(s)),
            None => archival_signal(*c) is None,
        },
{
    let a = match find_condition(c, "ContinuousArchiving") {
        Some(a) => a,
        None => {
            return None;
        },
    };
    let status = match a.get("status") {
        Some(Json::Str(s)) => if str_eq(s.as_str(), "True") {
            RowStatus::Healthy
        } else if str_eq(s.as_str(), "False") {
            RowStatus::Error
        } else {
            RowStatus::Pending
        },
        _ => RowStatus::Pending,
    };
    let value = match status {
        RowStatus::Healthy => owned("Healthy"),
        RowStatus::Error => owned("Failing"),
        _ => owned("Pending"),
    };
    let message = match a.get("message") {
        Some(Json::Str(m)) => owned(m.as_str()),
        _ => String::new(),
    };
    let name = name_of(c);
    Some(ControllerHealthSignal {
        label: cat2(name.as_str(), " archival"),
        value,
        status,
        timestamp: None,
        message,
    })
}

fn make_rpo_signal(c: &Json, backup: Option<(i128, String)>, scheduled: Option<i128>) -> (r: Option<ControllerHealthSignal>)
    ensures
        match r {
            Some(s) => rpo_signal(*c, match backup {
                Some((t, s)) => Some((t, s@)),
                None => None,
            }, scheduled) == Some(signal_view(s)),
            None => rpo_signal(*c, match backup {
                Some((t, s)) => Some((t, s@)),
                None => None,
            }, scheduled) is None,
        },
{
    if backup.is_none() && scheduled.is_none() {
        return None;
    }
    let status = match (&backup, scheduled) {
        (None, _) => RowStatus::Error,
        (Some(b), Some(last)) => if b.0 < last { RowStatus::Warn } else { RowStatus::Healthy },
        (Some(_), None) => RowStatus::Healthy,
    };
    let message = match (&backup, status) {
        (None, _) => owned("No successful backup after a scheduled run"),
        (Some(_), RowStatus::Warn) => owned("The latest scheduled run has no completed backup"),
        _ => owned("Latest successful recovery point"),
    };
    let value = if backup.is_some() {
        owned("Recovery point age")
    } else {
        owned("No recovery point")
    };
    let timestamp = match backup {
        Some((_, s)) => Some(s),
        None => None,
    };
    let name = name_of(c);
    Some(ControllerHealthSignal {
        label: cat2(name.as_str(), " backup RPO"),
        value,
        status,
        timestamp,
        message,
    })
}

fn sort_signals_by_label(v: Vec<ControllerHealthSignal>) -> (r: Vec<ControllerHealthSignal>)
    ensures
        signal_views(r@) == sort_by_label(signal_views(v@)),
{
    let ghost orig = signal_views(v@);
    let mut rest = v;
    let mut out: Vec<ControllerHealthSignal> = Vec::new();
    let ghost mut k: int = 0;
    assert(orig.take(0) =~= Seq::<SignalView>::empty());
    assert(signal_views(out@) =~= Seq::<SignalView>::empty());
    assert(orig.skip(0) =~= orig);
    while rest.len() > 0
        invariant
            0 <= k <= orig.len(),
            signal_views(out@) == sort_by_label(orig.take(k)),
            signal_views(rest@) == orig.skip(k),
        decreases rest@.len(),
    {
        let ghost before = rest@;
        let item = rest.remove(0);
        let ghost iv = signal_view(item);
        proof {
            assert(signal_views(rest@) =~= signal_views(before).drop_first());
            assert(signal_views(before)[0] == signal_view(before[0]));
            assert(orig.skip(k)[0] == orig[k]);
            assert(iv == orig[k]);
            assert(orig.skip(k).drop_first() =~= orig.skip(k + 1));
        }
        let ghost ov = signal_views(out@);
        let mut p: usize = 0;
        assert(ov.skip(0) == ov);
        while p < out.len() && !str_lt(item.label.as_str(), out[p].label.as_str())
            invariant
                p <= out@.len(),
                ov == signal_views(out@),
                iv == signal_view(item),
                label_ins_index(ov, iv) == p + label_ins_index(ov.skip(p as int), iv),
            decreases out@.len() - p,
        {
            assert(ov.skip(p as int).drop_first() =~= ov.skip(p + 1));
            assert(ov.skip(p as int)[0] == ov[p as int]);
            p = p + 1;
        }
        proof {
            if p < out.len() {
                assert(ov.skip(p as int)[0] == ov[p as int]);
            }
        }
        out.insert(p, item);
        proof {
            assert(orig.take(k + 1).drop_last() =~= orig.take(k));
            assert(orig.take(k + 1).last() == iv);
            assert(signal_views(out@) =~= ov.insert(p as int, iv));
            k = k + 1;
        }
    }
    proof {
        assert(orig.skip(k).len() == 0);
        assert(orig.take(k) =~= orig);
    }
    out
}

/// The CloudNativePG health signals, given the instant each backup's
/// `status.stoppedAt` and each schedule's `status.lastScheduleTime` denotes
/// (`None` where missing or not parseable).
///
/// For each cluster in order: an archiving signal when it reports a
/// `ContinuousArchiving` condition (`True` healthy, `False` failing, else
/// pending), then a recovery-point signal when it has a completed backup or a
/// scheduled run: failing with no completed backup, warning when the latest
/// completed backup is older than the latest scheduled run, else healthy.
/// Signals are then stably sorted by label.
pub fn cnpg_signals_at(
    clusters: &[Json],
    backups: &[Json],
    backup_times: &[Option<i128>],
    schedules: &[Json],
    schedule_times: &[Option<i128>],
) -> (r: Vec<ControllerHealthSignal>)
    requires
        backup_times@.len() == backups@.len(),
        schedule_times@.len() == schedules@.len(),
    ensures
        signal_views(r@) == spec_cnpg_signals(clusters@, backups@, backup_times@, schedules@, schedule_times@),
{
    let mut signals: Vec<ControllerHealthSignal> = Vec::new();
    let n = clusters.len();
    for i in 0..n
        invariant
            n == clusters@.len(),
            backup_times@.len() == backups@.len(),
            schedule_times@.len() == schedules@.len(),
            signal_views(signals@) == unsorted_signals(clusters@.take(i as int), backups@, backup_times@, schedules@, schedule_times@),
    {
        assert(clusters@.take(i + 1).drop_last() == clusters@.take(i as int));
        assert(clusters@.take(i + 1).last() == clusters@[i as int]);
        let c = &clusters[i];
        let ghost before = signal_views(signals@);
        match make_archival_signal(c) {
            Some(s) => {
                signals.push(s);
            },
            None => {},
        }
        let ghost mid = signal_views(signals@);
        assert(mid =~= before + opt_seq(archival_signal(*c)));
        let ns = namespace_of(c);
        let name = name_of(c);
        let backup = find_latest_backup(backups, backup_times, ns.as_str(), name.as_str());
        let scheduled = find_latest_schedule(schedules, schedule_times, ns.as_str(), name.as_str());
        match make_rpo_signal(c, backup, scheduled) {
            Some(s) => {
                signals.push(s);
            },
            None => {},
        }
        assert(signal_views(signals@) =~= unsorted_signals(clusters@.take(i + 1), backups@, backup_times@, schedules@, schedule_times@));
    }
    assert(clusters@.take(n as int) == clusters@);
    sort_signals_by_label(signals)
}

} // verus!

verus! {

/// The instant an RFC 3339 timestamp denotes, in nanoseconds since the Unix
/// epoch, or `None` when `time` does not parse it.
pub uninterp spec fn rfc3339_nanos(text: Seq<char>) -> Option<i128>;

/// Parses an RFC 3339 timestamp with `time::OffsetDateTime::parse` and the
/// `Rfc3339` description, giving its instant in nanoseconds since the epoch
/// (`OffsetDateTime::unix_timestamp_nanos`, which orders as the parsed values
/// do). Its result is a function of the text alone, named `rfc3339_nanos`.
#[verifier::external_body]
pub(crate) fn parse_rfc3339(text: &str) -> (r: Option<i128>)
    ensures
        r == rfc3339_nanos(text@),
{
    match time::OffsetDateTime::parse(text, &time::format_description::well_known::Rfc3339) {
        Ok(t) => Some(t.unix_timestamp_nanos()),
        Err(_) => None,
    }
}

/// The instant of the string at `path`, when there is one and it parses.
pub open spec fn time_at(o: Json, path: Seq<Seq<char>>) -> Option<i128> {
    match json_str(json_path(o, path)) {
        Some(s) => rfc3339_nanos(s),
        None => None,
    }
}

pub open spec fn times_at(os: Seq<Json>, path: Seq<Seq<char>>) -> Seq<Option<i128>> {
    os.map_values(|o: Json| time_at(o, path))
}

fn parse_times(os: &[Json], path: &[&str]) -> (r: Vec<Option<i128>>)
    ensures
        r@ == times_at(os@, key_views(path@)),
{
    let mut out: Vec<Option<i128>> = Vec::new();
    let n = os.len();
    for i in 0..n
        invariant
            n == os@.len(),
            out@ == times_at(os@.take(i as int), key_views(path@)),
    {
        let t = match opt_str(os[i].path(path)) {
            Some(s) => parse_rfc3339(s),
            None => None,
        };
        out.push(t);
        assert(out@ =~= times_at(os@.take(i + 1), key_views(path@)));
    }
    assert(os@.take(n as int) == os@);
    out
}

/// The CloudNativePG health signals of `clusters`, from their backups and
/// scheduled backups (each object as its full JSON document): the signals of
/// `cnpg_signals_at` with each `status.stoppedAt` and
/// `status.lastScheduleTime` parsed as RFC 3339.
pub fn summarize_cnpg_signals(clusters: &[Json], backups: &[Json], schedules: &[Json]) -> (r: Vec<
    ControllerHealthSignal,
>)
    ensures
        signal_views(r@) == spec_cnpg_signals(
            clusters@,
            backups@,
            times_at(backups@, seq!["status"@, "stoppedAt"@]),
            schedules@,
            times_at(schedules@, seq!["status"@, "lastScheduleTime"@]),
        ),
{
    let stopped = ["status", "stoppedAt"];
    assert(key_views(stopped@) =~= seq!["status"@, "stoppedAt"@]);
    let last = ["status", "lastScheduleTime"];
    assert(key_views(last@) =~= seq!["status"@, "lastScheduleTime"@]);
    let bt = parse_times(backups, &stopped);
    let st = parse_times(schedules, &last);
    cnpg_signals_at(clusters, backups, bt.as_slice(), schedules, st.as_slice())
}

} // verus!
