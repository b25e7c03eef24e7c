//! Resolving the Kubernetes objects an alert is about from its labels.
use vstd::prelude::*;

use crate::catalog::ResourceKind;
use crate::json::{json_array, json_get, json_path, json_str, key_views, opt_array, opt_str, Json};
use crate::matching::label_lookup;
use crate::sort::{lemma_lex_irreflexive, lemma_lex_total, lemma_lex_transitive, lex_lt, str_lt};
use crate::text::{ascii_lower, chars_of, contains_seq, owned, str_contains, is_ascii_alnum, is_ascii_alphanumeric, str_eq, string_of, to_ascii_lowercase};
use crate::tree::opt_view;

verus! {

/// Alert labels as (name, value) pairs.
pub type Labels = Vec<(String, String)>;

/// The value of label `name`: the first pair with that name.
pub open spec fn label_value(labels: Seq<(String, String)>, name: Seq<char>) -> Option<Seq<char>>
    decreases labels.len(),
{
    if labels.len() == 0 {
        None
    } else if labels[0].0@ == name {
        Some(labels[0].1@)
    } else {
        label_value(labels.drop_first(), name)
    }
}

/// The value of label `name` when it is present and not empty.
pub open spec fn spec_nonempty_label(labels: Seq<(String, String)>, name: Seq<char>) -> Option<Seq<char>> {
    match label_value(labels, name) {
        Some(v) => if v.len() > 0 { Some(v) } else { None },
        None => None,
    }
}

/// Looks up a label, treating an empty value as absent.
pub fn nonempty_label<'a>(labels: &'a [(String, String)], name: &str) -> (r: Option<&'a str>)
    ensures
        match r {
            Some(v) => spec_nonempty_label(labels@, name@) == Some(v@),
            None => spec_nonempty_label(labels@, name@) is None,
        },
{
    let n = labels.len();
    assert(labels@.skip(0) == labels@);
    for i in 0..n
        invariant
            n == labels@.len(),
            label_value(labels@, name@) == label_value(labels@.skip(i as int), name@),
    {
        assert(labels@.skip(i as int).drop_first() == labels@.skip(i + 1));
        if str_eq(labels[i].0.as_str(), name) {
            let v = labels[i].1.as_str();
            if v.is_empty() {
                return None;
            }
            return Some(v);
        }
    }
    assert(labels@.skip(n as int).len() == 0);
    None
}

/// Alert `workload_type` values (compared case-insensitively, ignoring anything
/// but letters and digits) and the group and kind they name.
pub open spec fn spec_workload_gvk(normalized: Seq<char>) -> Option<(Seq<char>, Seq<char>)> {
    if normalized == "pod"@ {
        Some((""@, "Pod"@))
    } else if normalized == "deployment"@ {
        Some(("apps"@, "Deployment"@))
    } else if normalized == "statefulset"@ {
        Some(("apps"@, "StatefulSet"@))
    } else if normalized == "daemonset"@ {
        Some(("apps"@, "DaemonSet"@))
    } else if normalized == "replicaset"@ {
        Some(("apps"@, "ReplicaSet"@))
    } else if normalized == "replicationcontroller"@ {
        Some((""@, "ReplicationController"@))
    } else if normalized == "cronjob"@ {
        Some(("batch"@, "CronJob"@))
    } else if normalized == "job"@ {
        Some(("batch"@, "Job"@))
    } else {
        None
    }
}

/// `kind` reduced to lower-case ASCII letters and digits.
pub open spec fn normalize_kind(kind: Seq<char>) -> Seq<char>
    decreases kind.len(),
{
    if kind.len() == 0 {
        Seq::empty()
    } else {
        let prev = normalize_kind(kind.drop_last());
        if is_ascii_alnum(kind.last()) {
            prev.push(ascii_lower(kind.last()))
        } else {
            prev
        }
    }
}

/// The (group, kind) of a workload type named in an alert label, such as
/// `stateful_set` or `StatefulSet`.
pub fn workload_gvk(kind: &str) -> (r: Option<(&'static str, &'static str)>)
    ensures
        match r {
            Some((g, k)) => spec_workload_gvk(normalize_kind(kind@)) == Some((g@, k@)),
            None => spec_workload_gvk(normalize_kind(kind@)) is None,
        },
{
    let chars = chars_of(kind);
    let mut norm: Vec<char> = Vec::new();
    let n = chars.len();
    for i in 0..n
        invariant
            n == chars@.len(),
            norm@ == normalize_kind(chars@.take(i as int)),
    {
        assert(chars@.take(i + 1).drop_last() == chars@.take(i as int));
        if is_ascii_alphanumeric(chars[i]) {
            norm.push(to_ascii_lowercase(chars[i]));
        }
    }
    assert(chars@.take(n as int) == chars@);
    let s = string_of(norm.as_slice());
    let s = s.as_str();
    if str_eq(s, "pod") {
        Some(("", "Pod"))
    } else if str_eq(s, "deployment") {
        Some(("apps", "Deployment"))
    } else if str_eq(s, "statefulset") {
        Some(("apps", "StatefulSet"))
    } else if str_eq(s, "daemonset") {
        Some(("apps", "DaemonSet"))
    } else if str_eq(s, "replicaset") {
        Some(("apps", "ReplicaSet"))
    } else if str_eq(s, "replicationcontroller") {
        Some(("", "ReplicationController"))
    } else if str_eq(s, "cronjob") {
        Some(("batch", "CronJob"))
    } else if str_eq(s, "job") {
        Some(("batch", "Job"))
    } else {
        None
    }
}


/// An object an alert is about, or the rule that defines an alert.
#[derive(Clone, Debug)]
pub struct AlertResourceTarget {
    /// The catalog key of the object's kind.
    pub key: String,
    pub kind: String,
    pub namespace: Option<String>,
    pub name: String,
}

/// A target as plain values: key, kind, namespace, name.
pub type TargetView = (Seq<char>, Seq<char>, Option<Seq<char>>, Seq<char>);

pub open spec fn target_view(t: AlertResourceTarget) -> TargetView {
    (t.key@, t.kind@, opt_view(t.namespace), t.name@)
}

pub open spec fn target_views(v: Seq<AlertResourceTarget>) -> Seq<TargetView> {
    v.map_values(|t: AlertResourceTarget| target_view(t))
}

/// Optional strings in order, no value first.
pub open spec fn opt_lt(a: Option<Seq<char>>, b: Option<Seq<char>>) -> bool {
    match (a, b) {
        (None, Some(_)) => true,
        (Some(x), Some(y)) => lex_lt(x, y),
        _ => false,
    }
}

/// The order of targets: by key, then kind, then namespace (none first),
/// then name, as the fields' derived order has it.
pub open spec fn target_lt(a: TargetView, b: TargetView) -> bool {
    ||| lex_lt(a.0, b.0)
    ||| a.0 == b.0 && lex_lt(a.1, b.1)
    ||| a.0 == b.0 && a.1 == b.1 && opt_lt(a.2, b.2)
    ||| a.0 == b.0 && a.1 == b.1 && a.2 == b.2 && lex_lt(a.3, b.3)
}

/// Each target sorts strictly before every later one: ascending, no repeats.
pub open spec fn strictly_sorted(s: Seq<TargetView>) -> bool {
    forall|i: int, j: int| 0 <= i < j < s.len() ==> target_lt(#[trigger] s[i], #[trigger] s[j])
}

/// No target sorts before itself.
pub proof fn lemma_target_irreflexive(a: TargetView)
    ensures
        !target_lt(a, a),
{
    lemma_lex_irreflexive(a.0);
    lemma_lex_irreflexive(a.1);
    lemma_lex_irreflexive(a.3);
    if let Some(x) = a.2 {
        lemma_lex_irreflexive(x);
    }
}

/// The order of targets is transitive.
pub proof fn lemma_target_transitive(a: TargetView, b: TargetView, c: TargetView)
    requires
        target_lt(a, b),
        target_lt(b, c),
    ensures
        target_lt(a, c),
{
    if lex_lt(a.0, b.0) && lex_lt(b.0, c.0) {
        lemma_lex_transitive(a.0, b.0, c.0);
    }
    if a.0 == b.0 && b.0 == c.0 {
        if lex_lt(a.1, b.1) && lex_lt(b.1, c.1) {
            lemma_lex_transitive(a.1, b.1, c.1);
        }
        if a.1 == b.1 && b.1 == c.1 {
            if let (Some(x), Some(y), Some(z)) = (a.2, b.2, c.2) {
                if lex_lt(x, y) && lex_lt(y, z) {
                    lemma_lex_transitive(x, y, z);
                }
            }
            if a.2 == b.2 && b.2 == c.2 && lex_lt(a.3, b.3) && lex_lt(b.3, c.3) {
                lemma_lex_transitive(a.3, b.3, c.3);
            }
        }
    }
}

/// Two different targets are ordered one way or the other.
pub proof fn lemma_target_total(a: TargetView, b: TargetView)
    requires
        a != b,
    ensures
        target_lt(a, b) || target_lt(b, a),
{
    if a.0 != b.0 {
        lemma_lex_total(a.0, b.0);
    } else if a.1 != b.1 {
        lemma_lex_total(a.1, b.1);
    } else if a.2 != b.2 {
        if let (Some(x), Some(y)) = (a.2, b.2) {
            lemma_lex_total(x, y);
        }
    } else {
        lemma_lex_total(a.3, b.3);
    }
}

/// Two strictly sorted sequences with the same targets are the same.
pub proof fn lemma_strictly_sorted_unique(a: Seq<TargetView>, b: Seq<TargetView>)
    requires
        strictly_sorted(a),
        strictly_sorted(b),
        a.to_set() == b.to_set(),
    ensures
        a == b,
    decreases a.len() + b.len(),
{
    if a.len() == 0 || b.len() == 0 {
        if a.len() > 0 {
            assert(a.to_set().contains(a[0]));
        }
        if b.len() > 0 {
            assert(b.to_set().contains(b[0]));
        }
        assert(a =~= b);
    } else {
        assert(a.to_set().contains(a[0]));
        assert(b.to_set().contains(b[0]));
        let k = choose|k: int| 0 <= k < b.len() && b[k] == a[0];
        let m = choose|m: int| 0 <= m < a.len() && a[m] == b[0];
        if a[0] != b[0] {
            assert(k > 0 && m > 0);
            assert(target_lt(b[0], b[k]));
            assert(target_lt(a[0], a[m]));
            lemma_target_transitive(a[0], b[0], a[0]);
            lemma_target_irreflexive(a[0]);
        }
        let a1 = a.drop_first();
        let b1 = b.drop_first();
        assert forall|x: TargetView| a1.to_set().contains(x) implies b1.to_set().contains(x) by {
            let i = choose|i: int| 0 <= i < a1.len() && a1[i] == x;
            assert(a[i + 1] == x);
            assert(target_lt(a[0], a[i + 1]));
            assert(a.to_set().contains(x));
            let j = choose|j: int| 0 <= j < b.len() && b[j] == x;
            if j == 0 {
                lemma_target_irreflexive(x);
            }
            assert(b1[j - 1] == x);
        }
        assert forall|x: TargetView| b1.to_set().contains(x) implies a1.to_set().contains(x) by {
            let i = choose|i: int| 0 <= i < b1.len() && b1[i] == x;
            assert(b[i + 1] == x);
            assert(target_lt(b[0], b[i + 1]));
            assert(b.to_set().contains(x));
            let j = choose|j: int| 0 <= j < a.len() && a[j] == x;
            if j == 0 {
                lemma_target_irreflexive(x);
            }
            assert(a1[j - 1] == x);
        }
        assert(a1.to_set() =~= b1.to_set());
        assert(strictly_sorted(a1)) by {
            assert forall|i: int, j: int| 0 <= i < j < a1.len() implies target_lt(#[trigger] a1[i], #[trigger] a1[j]) by {
                assert(a1[i] == a[i + 1] && a1[j] == a[j + 1]);
            }
        }
        assert(strictly_sorted(b1)) by {
            assert forall|i: int, j: int| 0 <= i < j < b1.len() implies target_lt(#[trigger] b1[i], #[trigger] b1[j]) by {
                assert(b1[i] == b[i + 1] && b1[j] == b[j + 1]);
            }
        }
        lemma_strictly_sorted_unique(a1, b1);
        assert(a1 == b1);
        assert(a.len() == b.len());
        assert forall|i: int| 0 <= i < a.len() implies a[i] == b[i] by {
            if i > 0 {
                assert(a[i] == a1[i - 1]);
                assert(b[i] == b1[i - 1]);
            }
        }
        assert(a =~= b);
    }
}

/// Whether `a` sorts strictly before `b`.
fn opt_str_lt(a: &Option<String>, b: &Option<String>) -> (r: bool)
    ensures
        r == opt_lt(opt_view(*a), opt_view(*b)),
{
    match (a, b) {
        (None, Some(_)) => true,
        (Some(x), Some(y)) => str_lt(x.as_str(), y.as_str()),
        _ => false,
    }
}

fn opt_str_eq(a: &Option<String>, b: &Option<String>) -> (r: bool)
    ensures
        r == (opt_view(*a) == opt_view(*b)),
{
    match (a, b) {
        (None, None) => true,
        (Some(x), Some(y)) => str_eq(x.as_str(), y.as_str()),
        _ => false,
    }
}

/// Whether target `a` sorts strictly before target `b`.
pub fn target_less(a: &AlertResourceTarget, b: &AlertResourceTarget) -> (r: bool)
    ensures
        r == target_lt(target_view(*a), target_view(*b)),
{
    if str_lt(a.key.as_str(), b.key.as_str()) {
        return true;
    }
    if !str_eq(a.key.as_str(), b.key.as_str()) {
        return false;
    }
    if str_lt(a.kind.as_str(), b.kind.as_str()) {
        return true;
    }
    if !str_eq(a.kind.as_str(), b.kind.as_str()) {
        return false;
    }
    if opt_str_lt(&a.namespace, &b.namespace) {
        return true;
    }
    if !opt_str_eq(&a.namespace, &b.namespace) {
        return false;
    }
    str_lt(a.name.as_str(), b.name.as_str())
}

/// Whether two targets are the same.
pub fn target_same(a: &AlertResourceTarget, b: &AlertResourceTarget) -> (r: bool)
    ensures
        r == (target_view(*a) == target_view(*b)),
{
    str_eq(a.key.as_str(), b.key.as_str()) && str_eq(a.kind.as_str(), b.kind.as_str())
        && opt_str_eq(&a.namespace, &b.namespace) && str_eq(a.name.as_str(), b.name.as_str())
}

/// Adds `t` to an ascending set of targets, keeping it ascending and without
/// repeats (`BTreeSet::insert`).
pub fn insert_target(out: &mut Vec<AlertResourceTarget>, t: AlertResourceTarget)
    requires
        strictly_sorted(target_views(old(out)@)),
    ensures
        strictly_sorted(target_views(final(out)@)),
        target_views(final(out)@).to_set() == target_views(old(out)@).to_set().insert(target_view(t)),
{
    let ghost tv = target_view(t);
    let ghost ov = target_views(out@);
    let mut p: usize = 0;
    while p < out.len() && target_less(&out[p], &t)
        invariant
            p <= out@.len(),
            ov == target_views(out@),
            tv == target_view(t),
            forall|k: int| 0 <= k < p ==> target_lt(#[trigger] ov[k], tv),
        decreases out@.len() - p,
    {
        p = p + 1;
    }
    if p < out.len() && target_same(&out[p], &t) {
        assert(ov[p as int] == tv);
        assert(ov.to_set().insert(tv) =~= ov.to_set());
        return;
    }
    proof {
        assert forall|k: int| p <= k < ov.len() implies target_lt(tv, #[trigger] ov[k]) by {
            let op = ov[p as int];
            assert(!target_lt(op, tv));
            assert(op != tv);
            lemma_target_total(op, tv);
            if k > p {
                assert(target_lt(ov[p as int], ov[k]));
                lemma_target_transitive(tv, op, ov[k]);
            }
        }
    }
    out.insert(p, t);
    proof {
        let nv = target_views(out@);
        assert(nv =~= ov.insert(p as int, tv));
        assert forall|i: int, j: int| 0 <= i < j < nv.len() implies target_lt(#[trigger] nv[i], #[trigger] nv[j]) by {
            if j < p {
                assert(nv[i] == ov[i] && nv[j] == ov[j]);
            } else if j == p {
                assert(nv[i] == ov[i]);
            } else if i < p {
                assert(nv[i] == ov[i] && nv[j] == ov[j - 1]);
                lemma_target_transitive(ov[i], tv, ov[j - 1]);
            } else if i == p {
                assert(nv[j] == ov[j - 1]);
            } else {
                assert(nv[i] == ov[i - 1] && nv[j] == ov[j - 1]);
            }
        }
        assert forall|x: TargetView| nv.to_set().contains(x) <==> ov.to_set().insert(tv).contains(x) by {
            if nv.to_set().contains(x) {
                let i = choose|i: int| 0 <= i < nv.len() && nv[i] == x;
                if i < p {
                    assert(ov[i] == x);
                } else if i > p {
                    assert(ov[i - 1] == x);
                }
            }
            if ov.to_set().contains(x) {
                let i = choose|i: int| 0 <= i < ov.len() && ov[i] == x;
                if i < p {
                    assert(nv[i] == x);
                } else {
                    assert(nv[i + 1] == x);
                }
            }
            if x == tv {
                assert(nv[p as int] == x);
            }
        }
        assert(nv.to_set() =~= ov.to_set().insert(tv));
    }
}


/// The first kind of `group` and `kind`, of `version` when one is given.
pub open spec fn first_kind(kinds: Seq<ResourceKind>, group: Seq<char>, kind: Seq<char>, version: Option<Seq<char>>) -> Option<ResourceKind>
    decreases kinds.len(),
{
    if kinds.len() == 0 {
        None
    } else if kinds[0].group@ == group && kinds[0].kind@ == kind && match version {
        Some(v) => kinds[0].version@ == v,
        None => true,
    } {
        Some(kinds[0])
    } else {
        first_kind(kinds.drop_first(), group, kind, version)
    }
}

/// The target named `name` of kind `group`/`kind`: the served version asked
/// for, else the first served version. A namespaced kind takes its namespace
/// from the `namespace` label and gives no target without one.
pub open spec fn spec_target_for(
    kinds: Seq<ResourceKind>,
    group: Seq<char>,
    version: Option<Seq<char>>,
    kind: Seq<char>,
    name: Seq<char>,
    labels: Seq<(String, String)>,
) -> Option<TargetView> {
    let found = match first_kind(kinds, group, kind, version) {
        Some(r) => Some(r),
        None => first_kind(kinds, group, kind, None),
    };
    match found {
        None => None,
        Some(r) => if r.namespaced {
            match spec_nonempty_label(labels, "namespace"@) {
                Some(ns) => Some((r.key@, r.kind@, Some(ns), name)),
                None => None,
            }
        } else {
            Some((r.key@, r.kind@, None, name))
        },
    }
}

fn find_kind<'a>(kinds: &'a [ResourceKind], group: &str, kind: &str, version: Option<&str>) -> (r: Option<&'a ResourceKind>)
    ensures
        match r {
            Some(k) => first_kind(kinds@, group@, kind@, some_view(version)) == Some(*k),
            None => first_kind(kinds@, group@, kind@, some_view(version)) is None,
        },
{
    let n = kinds.len();
    assert(kinds@.skip(0) == kinds@);
    for i in 0..n
        invariant
            n == kinds@.len(),
            first_kind(kinds@.skip(i as int), group@, kind@, some_view(version))
                == first_kind(kinds@, group@, kind@, some_view(version)),
    {
        assert(kinds@.skip(i as int).drop_first() == kinds@.skip(i + 1));
        assert(kinds@.skip(i as int)[0] == kinds@[i as int]);
        let k = &kinds[i];
        let version_ok = match version {
            Some(v) => str_eq(k.version.as_str(), v),
            None => true,
        };
        if str_eq(k.group.as_str(), group) && str_eq(k.kind.as_str(), kind) && version_ok {
            return Some(k);
        }
    }
    assert(kinds@.skip(n as int).len() == 0);
    None
}

/// The view of an optional borrowed string.
pub open spec fn some_view(o: Option<&str>) -> Option<Seq<char>> {
    match o {
        Some(s) => Some(s@),
        None => None,
    }
}

pub open spec fn opt_target_view(t: Option<AlertResourceTarget>) -> Option<TargetView> {
    match t {
        Some(x) => Some(target_view(x)),
        None => None,
    }
}

/// The target named `name` of kind `group`/`kind`, if the cluster serves the
/// kind and, for a namespaced kind, the labels give a namespace.
pub fn target_for(
    kinds: &[ResourceKind],
    group: &str,
    version: Option<&str>,
    kind: &str,
    name: &str,
    labels: &[(String, String)],
) -> (r: Option<AlertResourceTarget>)
    ensures
        opt_target_view(r) == spec_target_for(kinds@, group@, some_view(version), kind@, name@, labels@),
{
    let found = match find_kind(kinds, group, kind, version) {
        Some(r) => Some(r),
        None => find_kind(kinds, group, kind, None),
    };
    let resource = match found {
        Some(r) => r,
        None => return None,
    };
    let namespace = if resource.namespaced {
        match nonempty_label(labels, "namespace") {
            Some(ns) => Some(owned(ns)),
            None => return None,
        }
    } else {
        None
    };
    Some(AlertResourceTarget {
        key: owned(resource.key.as_str()),
        kind: owned(resource.kind.as_str()),
        namespace,
        name: owned(name),
    })
}

/// Labels that name an object directly, with the object's group and kind.
pub open spec fn standard_target_labels() -> Seq<(Seq<char>, Seq<char>, Seq<char>)> {
    seq![
        ("pod"@, ""@, "Pod"@),
        ("service"@, ""@, "Service"@),
        ("node"@, ""@, "Node"@),
        ("persistentvolumeclaim"@, ""@, "PersistentVolumeClaim"@),
        ("deployment"@, "apps"@, "Deployment"@),
        ("statefulset"@, "apps"@, "StatefulSet"@),
        ("daemonset"@, "apps"@, "DaemonSet"@),
        ("replicaset"@, "apps"@, "ReplicaSet"@),
        ("replicationcontroller"@, ""@, "ReplicationController"@),
        ("cronjob"@, "batch"@, "CronJob"@),
        ("job_name"@, "batch"@, "Job"@),
    ]
}

/// The target a standard label gives.
pub open spec fn standard_candidate(
    entry: (Seq<char>, Seq<char>, Seq<char>),
    labels: Seq<(String, String)>,
    kinds: Seq<ResourceKind>,
) -> Option<TargetView> {
    match spec_nonempty_label(labels, entry.0) {
        Some(name) => spec_target_for(kinds, entry.1, None, entry.2, name, labels),
        None => None,
    }
}

/// The first of two optional values that is present.
pub open spec fn or_else(a: Option<Seq<char>>, b: Option<Seq<char>>) -> Option<Seq<char>> {
    match a {
        Some(x) => Some(x),
        None => b,
    }
}

/// The target of the `workload` and `workload_type` (or `workload_kind`) labels.
pub open spec fn workload_candidate(labels: Seq<(String, String)>, kinds: Seq<ResourceKind>) -> Option<TargetView> {
    let kind = or_else(
        spec_nonempty_label(labels, "workload_type"@),
        spec_nonempty_label(labels, "workload_kind"@),
    );
    match (spec_nonempty_label(labels, "workload"@), kind) {
        (Some(name), Some(k)) => match spec_workload_gvk(normalize_kind(k)) {
            Some(gk) => spec_target_for(kinds, gk.0, None, gk.1, name, labels),
            None => None,
        },
        _ => None,
    }
}

/// The target of the `customresource_*` labels, named by `customresource`,
/// `customresource_name` or `name`.
pub open spec fn custom_candidate(labels: Seq<(String, String)>, kinds: Seq<ResourceKind>) -> Option<TargetView> {
    let name = or_else(
        spec_nonempty_label(labels, "customresource"@),
        or_else(
            spec_nonempty_label(labels, "customresource_name"@),
            spec_nonempty_label(labels, "name"@),
        ),
    );
    match (
        spec_nonempty_label(labels, "customresource_group"@),
        spec_nonempty_label(labels, "customresource_version"@),
        spec_nonempty_label(labels, "customresource_kind"@),
        name,
    ) {
        (Some(g), Some(v), Some(k), Some(n)) => spec_target_for(kinds, g, Some(v), k, n, labels),
        _ => None,
    }
}

/// Every target the labels give, by each convention in turn.
pub open spec fn target_candidates(labels: Seq<(String, String)>, kinds: Seq<ResourceKind>) -> Seq<Option<TargetView>> {
    standard_target_labels().map_values(|e: (Seq<char>, Seq<char>, Seq<char>)| standard_candidate(e, labels, kinds))
        .push(workload_candidate(labels, kinds)).push(custom_candidate(labels, kinds))
}

/// The targets present among candidates.
pub open spec fn present(cands: Seq<Option<TargetView>>) -> Set<TargetView> {
    Set::new(|t: TargetView| exists|i: int| 0 <= i < cands.len() && cands[i] == Some(t))
}

proof fn lemma_present_push(cands: Seq<Option<TargetView>>, c: Option<TargetView>)
    ensures
        present(cands.push(c)) == match c {
            Some(t) => present(cands).insert(t),
            None => present(cands),
        },
{
    let p = cands.push(c);
    let expected = match c {
        Some(t) => present(cands).insert(t),
        None => present(cands),
    };
    assert forall|t: TargetView| present(p).contains(t) <==> expected.contains(t) by {
        if present(p).contains(t) {
            let i = choose|i: int| 0 <= i < p.len() && p[i] == Some(t);
            if i < cands.len() {
                assert(cands[i] == Some(t));
            }
        }
        if present(cands).contains(t) {
            let i = choose|i: int| 0 <= i < cands.len() && cands[i] == Some(t);
            assert(p[i] == Some(t));
        }
        if c == Some(t) {
            assert(p[cands.len() as int] == Some(t));
        }
    }
    assert(present(p) =~= expected);
}

fn add_candidate(out: &mut Vec<AlertResourceTarget>, c: Option<AlertResourceTarget>, ghost_cands: Ghost<Seq<Option<TargetView>>>)
    requires
        strictly_sorted(target_views(old(out)@)),
        target_views(old(out)@).to_set() == present(ghost_cands@),
    ensures
        strictly_sorted(target_views(final(out)@)),
        target_views(final(out)@).to_set() == present(ghost_cands@.push(opt_target_view(c))),
{
    proof {
        lemma_present_push(ghost_cands@, opt_target_view(c));
    }
    if let Some(t) = c {
        insert_target(out, t);
    }
}

/// The objects an alert's labels name, ascending and without repeats: pods,
/// services, nodes, claims and workloads by their standard labels, workloads
/// by the `workload` convention, and custom resources by the
/// `customresource_*` convention; each only when the cluster serves its kind
/// and, when namespaced, the alert has a `namespace` label.
pub fn resolve_targets(labels: &[(String, String)], kinds: &[ResourceKind]) -> (r: Vec<AlertResourceTarget>)
    ensures
        strictly_sorted(target_views(r@)),
        target_views(r@).to_set() == present(target_candidates(labels@, kinds@)),
{
    let table: [(&str, &str, &str); 11] = [
        ("pod", "", "Pod"),
        ("service", "", "Service"),
        ("node", "", "Node"),
        ("persistentvolumeclaim", "", "PersistentVolumeClaim"),
        ("deployment", "apps", "Deployment"),
        ("statefulset", "apps", "StatefulSet"),
        ("daemonset", "apps", "DaemonSet"),
        ("replicaset", "apps", "ReplicaSet"),
        ("replicationcontroller", "", "ReplicationController"),
        ("cronjob", "batch", "CronJob"),
        ("job_name", "batch", "Job"),
    ];
    let ghost std_view = table@.map_values(|e: (&str, &str, &str)| (e.0@, e.1@, e.2@));
    assert(std_view =~= standard_target_labels());
    let ghost std_cands = standard_target_labels().map_values(
        |e: (Seq<char>, Seq<char>, Seq<char>)| standard_candidate(e, labels@, kinds@),
    );
    let mut out: Vec<AlertResourceTarget> = Vec::new();
    assert(target_views(out@).to_set() =~= present(std_cands.take(0)));
    for i in 0..11
        invariant
            std_view == standard_target_labels(),
            std_view == table@.map_values(|e: (&str, &str, &str)| (e.0@, e.1@, e.2@)),
            std_cands == standard_target_labels().map_values(
                |e: (Seq<char>, Seq<char>, Seq<char>)| standard_candidate(e, labels@, kinds@),
            ),
            strictly_sorted(target_views(out@)),
            target_views(out@).to_set() == present(std_cands.take(i as int)),
    {
        let (label, group, kind) = table[i];
        assert(std_view[i as int] == (label@, group@, kind@));
        let c = match nonempty_label(labels, label) {
            Some(name) => target_for(kinds, group, None, kind, name, labels),
            None => None,
        };
        assert(opt_target_view(c) == std_cands[i as int]);
        assert(std_cands.take(i + 1) == std_cands.take(i as int).push(std_cands[i as int]));
        add_candidate(&mut out, c, Ghost(std_cands.take(i as int)));
    }
    assert(std_cands.take(11) == std_cands);
    let wname = nonempty_label(labels, "workload");
    let wkind = match nonempty_label(labels, "workload_type") {
        Some(k) => Some(k),
        None => nonempty_label(labels, "workload_kind"),
    };
    let w = match (wname, wkind) {
        (Some(name), Some(k)) => match workload_gvk(k) {
            Some((g, kd)) => target_for(kinds, g, None, kd, name, labels),
            None => None,
        },
        _ => None,
    };
    assert(opt_target_view(w) == workload_candidate(labels@, kinds@));
    add_candidate(&mut out, w, Ghost(std_cands));
    let cname = match nonempty_label(labels, "customresource") {
        Some(n) => Some(n),
        None => match nonempty_label(labels, "customresource_name") {
            Some(n) => Some(n),
            None => nonempty_label(labels, "name"),
        },
    };
    let custom = match (
        nonempty_label(labels, "customresource_group"),
        nonempty_label(labels, "customresource_version"),
        nonempty_label(labels, "customresource_kind"),
        cname,
    ) {
        (Some(g), Some(v), Some(k), Some(n)) => target_for(kinds, g, Some(v), k, n, labels),
        _ => None,
    };
    assert(opt_target_view(custom) == custom_candidate(labels@, kinds@));
    add_candidate(&mut out, custom, Ghost(std_cands.push(workload_candidate(labels@, kinds@))));
    out
}


/// A copy of a target.
pub fn copy_target(t: &AlertResourceTarget) -> (r: AlertResourceTarget)
    ensures
        target_view(r) == target_view(*t),
{
    let namespace = match &t.namespace {
        Some(ns) => Some(owned(ns.as_str())),
        None => None,
    };
    AlertResourceTarget {
        key: owned(t.key.as_str()),
        kind: owned(t.kind.as_str()),
        namespace,
        name: owned(t.name.as_str()),
    }
}

/// An alerting rule of a `PrometheusRule`: the alert it raises, the rule
/// object that defines it, and the rule's static labels.
pub struct RuleDefinition {
    pub alert_name: String,
    pub target: AlertResourceTarget,
    pub labels: Vec<(String, String)>,
}

/// Label pairs as plain values.
pub type PairsView = Seq<(Seq<char>, Seq<char>)>;

pub open spec fn pair_views(v: Seq<(String, String)>) -> PairsView {
    v.map_values(|p: (String, String)| (p.0@, p.1@))
}

/// A rule definition as plain values.
pub type DefView = (Seq<char>, TargetView, PairsView);

pub open spec fn def_view(d: RuleDefinition) -> DefView {
    (d.alert_name@, target_view(d.target), pair_views(d.labels@))
}

pub open spec fn def_views(v: Seq<RuleDefinition>) -> Seq<DefView> {
    v.map_values(|d: RuleDefinition| def_view(d))
}

/// The members of an object whose values are strings, in order.
pub open spec fn string_members(entries: Seq<(String, Json)>) -> PairsView
    decreases entries.len(),
{
    if entries.len() == 0 {
        Seq::empty()
    } else {
        let prev = string_members(entries.drop_last());
        match entries.last().1 {
            Json::Str(v) => prev.push((entries.last().0@, v@)),
            _ => prev,
        }
    }
}

/// A rule's `labels` with string values; none when it has no label object.
pub open spec fn rule_labels(rule: Json) -> PairsView {
    match json_get(rule, "labels"@) {
        Some(Json::Object(entries)) => string_members(entries@),
        _ => Seq::empty(),
    }
}

/// The alerting rules among `rules` (those with an `alert` name), each
/// defined by `target`.
pub open spec fn rule_defs(rules: Seq<Json>, target: TargetView) -> Seq<DefView>
    decreases rules.len(),
{
    if rules.len() == 0 {
        Seq::empty()
    } else {
        let prev = rule_defs(rules.drop_last(), target);
        match json_str(json_get(rules.last(), "alert"@)) {
            Some(a) => prev.push((a, target, rule_labels(rules.last()))),
            None => prev,
        }
    }
}

/// The alerting rules of rule groups, group by group; a group without a
/// `rules` array has none.
pub open spec fn group_defs(groups: Seq<Json>, target: TargetView) -> Seq<DefView>
    decreases groups.len(),
{
    if groups.len() == 0 {
        Seq::empty()
    } else {
        let prev = group_defs(groups.drop_last(), target);
        match json_array(json_get(groups.last(), "rules"@)) {
            Some(rules) => prev + rule_defs(rules, target),
            None => prev,
        }
    }
}

/// The alerting rules of a `PrometheusRule` object with a name, a namespace
/// and a `spec.groups` array; none for any other object.
pub open spec fn object_defs(o: Json, key: Seq<char>, kind: Seq<char>) -> Seq<DefView> {
    match (
        json_str(json_path(o, seq!["metadata"@, "name"@])),
        json_str(json_path(o, seq!["metadata"@, "namespace"@])),
    ) {
        (Some(name), Some(ns)) => match json_array(json_path(o, seq!["spec"@, "groups"@])) {
            Some(groups) => group_defs(groups, (key, kind, Some(ns), name)),
            None => Seq::empty(),
        },
        _ => Seq::empty(),
    }
}

/// The alerting rules of `PrometheusRule` objects, object by object.
pub open spec fn spec_rule_definitions(objects: Seq<Json>, key: Seq<char>, kind: Seq<char>) -> Seq<DefView>
    decreases objects.len(),
{
    if objects.len() == 0 {
        Seq::empty()
    } else {
        spec_rule_definitions(objects.drop_last(), key, kind) + object_defs(objects.last(), key, kind)
    }
}

fn string_member_pairs(entries: &Vec<(String, Json)>) -> (r: Vec<(String, String)>)
    ensures
        pair_views(r@) == string_members(entries@),
{
    let mut out: Vec<(String, String)> = Vec::new();
    let n = entries.len();
    for i in 0..n
        invariant
            n == entries@.len(),
            pair_views(out@) == string_members(entries@.take(i as int)),
    {
        assert(entries@.take(i + 1).drop_last() == entries@.take(i as int));
        assert(entries@.take(i + 1).last() == entries@[i as int]);
        if let Json::Str(v) = &entries[i].1 {
            let ghost before = out@;
            out.push((owned(entries[i].0.as_str()), owned(v.as_str())));
            assert(pair_views(out@) =~= pair_views(before).push((entries@[i as int].0@, v@)));
        }
    }
    assert(entries@.take(n as int) == entries@);
    out
}

fn push_rule_defs(out: &mut Vec<RuleDefinition>, rules: &Vec<Json>, target: &AlertResourceTarget)
    ensures
        def_views(final(out)@) == def_views(old(out)@) + rule_defs(rules@, target_view(*target)),
{
    let ghost start = def_views(out@);
    let n = rules.len();
    for i in 0..n
        invariant
            n == rules@.len(),
            def_views(out@) == start + rule_defs(rules@.take(i as int), target_view(*target)),
    {
        assert(rules@.take(i + 1).drop_last() == rules@.take(i as int));
        assert(rules@.take(i + 1).last() == rules@[i as int]);
        let rule = &rules[i];
        if let Some(alert) = opt_str(rule.get("alert")) {
            let labels = match rule.get("labels") {
                Some(Json::Object(entries)) => string_member_pairs(entries),
                _ => Vec::new(),
            };
            let ghost before = def_views(out@);
            let d = RuleDefinition { alert_name: owned(alert), target: copy_target(target), labels };
            let ghost dv = def_view(d);
            assert(dv == (alert@, target_view(*target), rule_labels(rules@[i as int])));
            out.push(d);
            assert(def_views(out@) =~= before.push(dv));
            assert(rule_defs(rules@.take(i + 1), target_view(*target)) == rule_defs(
                rules@.take(i as int),
                target_view(*target),
            ).push(dv));
            assert(def_views(out@) =~= start + rule_defs(rules@.take(i + 1), target_view(*target)));
        } else {
            assert(rule_defs(rules@.take(i + 1), target_view(*target)) == rule_defs(
                rules@.take(i as int),
                target_view(*target),
            ));
        }
    }
    assert(rules@.take(n as int) == rules@);
}

/// The alerting rules that `PrometheusRule` objects define, each pointing at
/// the object as a target of `rule_kind`.
pub fn rule_definitions(objects: &[Json], rule_kind: &ResourceKind) -> (r: Vec<RuleDefinition>)
    ensures
        def_views(r@) == spec_rule_definitions(objects@, rule_kind.key@, rule_kind.kind@),
{
    let np = ["metadata", "name"];
    assert(key_views(np@) =~= seq!["metadata"@, "name"@]);
    let sp = ["metadata", "namespace"];
    assert(key_views(sp@) =~= seq!["metadata"@, "namespace"@]);
    let gp = ["spec", "groups"];
    assert(key_views(gp@) =~= seq!["spec"@, "groups"@]);
    let mut out: Vec<RuleDefinition> = Vec::new();
    let n = objects.len();
    for i in 0..n
        invariant
            n == objects@.len(),
            key_views(np@) == seq!["metadata"@, "name"@],
            key_views(sp@) == seq!["metadata"@, "namespace"@],
            key_views(gp@) == seq!["spec"@, "groups"@],
            def_views(out@) == spec_rule_definitions(objects@.take(i as int), rule_kind.key@, rule_kind.kind@),
    {
        assert(objects@.take(i + 1).drop_last() == objects@.take(i as int));
        assert(objects@.take(i + 1).last() == objects@[i as int]);
        let o = &objects[i];
        let ghost start = def_views(out@);
        if let (Some(name), Some(ns)) = (opt_str(o.path(&np)), opt_str(o.path(&sp))) {
            if let Some(groups) = opt_array(o.path(&gp)) {
                let target = AlertResourceTarget {
                    key: owned(rule_kind.key.as_str()),
                    kind: owned(rule_kind.kind.as_str()),
                    namespace: Some(owned(ns)),
                    name: owned(name),
                };
                let ghost tv = target_view(target);
                let m = groups.len();
                for j in 0..m
                    invariant
                        m == groups@.len(),
                        tv == target_view(target),
                        def_views(out@) == start + group_defs(groups@.take(j as int), tv),
                {
                    assert(groups@.take(j + 1).drop_last() == groups@.take(j as int));
                    assert(groups@.take(j + 1).last() == groups@[j as int]);
                    if let Some(rules) = opt_array(groups[j].get("rules")) {
                        let ghost mid = def_views(out@);
                        push_rule_defs(&mut out, rules, &target);
                        assert(def_views(out@) =~= start + group_defs(groups@.take(j + 1), tv));
                    }
                }
                assert(groups@.take(m as int) == groups@);
            }
        }
        assert(def_views(out@) =~= start + object_defs(objects@[i as int], rule_kind.key@, rule_kind.kind@));
    }
    assert(objects@.take(n as int) == objects@);
    out
}

/// The labels that are not templates (values without `{{`).
pub open spec fn concrete_labels(labels: PairsView) -> PairsView
    decreases labels.len(),
{
    if labels.len() == 0 {
        Seq::empty()
    } else {
        let prev = concrete_labels(labels.drop_last());
        if contains_seq(labels.last().1, "{{"@) {
            prev
        } else {
            prev.push(labels.last())
        }
    }
}

/// The alert carries each of `pairs` with the same value.
pub open spec fn carries_all(alert_labels: Seq<(String, String)>, pairs: PairsView) -> bool {
    forall|i: int| 0 <= i < pairs.len() ==> label_value(alert_labels, #[trigger] pairs[i].0) == Some(pairs[i].1)
}

/// The alert carries every non-template label of a rule with the same value.
pub open spec fn compatible(alert_labels: Seq<(String, String)>, rule: PairsView) -> bool {
    carries_all(alert_labels, concrete_labels(rule))
}

/// How specific a rule is: its number of non-template labels.
pub open spec fn specificity(rule: PairsView) -> nat {
    concrete_labels(rule).len()
}

/// The highest specificity among the compatible rules raising `alert_name`.
pub open spec fn best_specificity(defs: Seq<DefView>, alert_name: Seq<char>, alert_labels: Seq<(String, String)>) -> Option<nat>
    decreases defs.len(),
{
    if defs.len() == 0 {
        None
    } else {
        let prev = best_specificity(defs.drop_last(), alert_name, alert_labels);
        let d = defs.last();
        if d.0 == alert_name && compatible(alert_labels, d.2) {
            match prev {
                Some(m) => Some(if m >= specificity(d.2) { m } else { specificity(d.2) }),
                None => Some(specificity(d.2)),
            }
        } else {
            prev
        }
    }
}

/// A rule is chosen for an alert when it raises the alert and, if any such
/// rule is compatible with the alert's labels, it is a most specific
/// compatible one.
pub open spec fn chosen(d: DefView, alert_name: Seq<char>, alert_labels: Seq<(String, String)>, best: Option<nat>) -> bool {
    d.0 == alert_name && match best {
        Some(m) => compatible(alert_labels, d.2) && specificity(d.2) == m,
        None => true,
    }
}

/// The targets of the chosen rules among `defs`.
pub open spec fn chosen_targets(defs: Seq<DefView>, alert_name: Seq<char>, alert_labels: Seq<(String, String)>, best: Option<nat>) -> Set<TargetView> {
    Set::new(|t: TargetView| exists|i: int| 0 <= i < defs.len() && #[trigger] chosen(defs[i], alert_name, alert_labels, best) && defs[i].1 == t)
}

proof fn lemma_chosen_push(defs: Seq<DefView>, d: DefView, alert_name: Seq<char>, alert_labels: Seq<(String, String)>, best: Option<nat>)
    ensures
        chosen_targets(defs.push(d), alert_name, alert_labels, best) == if chosen(d, alert_name, alert_labels, best) {
            chosen_targets(defs, alert_name, alert_labels, best).insert(d.1)
        } else {
            chosen_targets(defs, alert_name, alert_labels, best)
        },
{
    let p = defs.push(d);
    let before = chosen_targets(defs, alert_name, alert_labels, best);
    let after = chosen_targets(p, alert_name, alert_labels, best);
    let expected = if chosen(d, alert_name, alert_labels, best) { before.insert(d.1) } else { before };
    assert forall|t: TargetView| after.contains(t) <==> expected.contains(t) by {
        if after.contains(t) {
            let i = choose|i: int| 0 <= i < p.len() && #[trigger] chosen(p[i], alert_name, alert_labels, best) && p[i].1 == t;
            if i < defs.len() {
                assert(p[i] == defs[i]);
            }
        }
        if before.contains(t) {
            let i = choose|i: int| 0 <= i < defs.len() && #[trigger] chosen(defs[i], alert_name, alert_labels, best) && defs[i].1 == t;
            assert(p[i] == defs[i]);
        }
        if chosen(d, alert_name, alert_labels, best) && d.1 == t {
            assert(p[defs.len() as int] == d);
        }
    }
    assert(after =~= expected);
}

/// Whether the alert carries every non-template label of a rule, and if so
/// how many such labels the rule has.
fn fit(alert_labels: &[(String, String)], rule: &Vec<(String, String)>) -> (r: Option<usize>)
    ensures
        match r {
            Some(k) => compatible(alert_labels@, pair_views(rule@)) && k == specificity(pair_views(rule@)),
            None => !compatible(alert_labels@, pair_views(rule@)),
        },
{
    let ghost rv = pair_views(rule@);
    let mut score: usize = 0;
    let n = rule.len();
    for i in 0..n
        invariant
            n == rule@.len(),
            rv == pair_views(rule@),
            score == concrete_labels(rv.take(i as int)).len(),
            score <= i,
            carries_all(alert_labels@, concrete_labels(rv.take(i as int))),
    {
        assert(rv.take(i + 1).drop_last() == rv.take(i as int));
        assert(rv.take(i + 1).last() == rv[i as int]);
        assert(rv[i as int] == (rule@[i as int].0@, rule@[i as int].1@));
        let (name, value) = (&rule[i].0, &rule[i].1);
        let ghost prev = concrete_labels(rv.take(i as int));
        if !str_contains(value.as_str(), "{{") {
            let found = label_lookup(alert_labels, name.as_str());
            let matches = match found {
                Some(v) => str_eq(v, value.as_str()),
                None => false,
            };
            assert(matches <==> label_value(alert_labels@, rv[i as int].0) == Some(rv[i as int].1));
            assert(concrete_labels(rv.take(i + 1)) == prev.push(rv[i as int]));
            if !matches {
                proof {
                    let c = concrete_labels(rv);
                    lemma_concrete_prefix(rv, i + 1);
                    let k = prev.len() as int;
                    assert(concrete_labels(rv.take(i + 1))[k] == rv[i as int]);
                    assert(c[k] == rv[i as int]);
                    assert(label_value(alert_labels@, c[k].0) != Some(c[k].1));
                }
                return None;
            }
            score = score + 1;
            proof {
                let cur = concrete_labels(rv.take(i + 1));
                assert forall|k: int| 0 <= k < cur.len() implies label_value(
                    alert_labels@,
                    #[trigger] cur[k].0,
                ) == Some(cur[k].1) by {
                    if k < prev.len() {
                        assert(cur[k] == prev[k]);
                    } else {
                        assert(cur[k] == rv[i as int]);
                    }
                }
            }
        } else {
            assert(concrete_labels(rv.take(i + 1)) == prev);
        }
    }
    assert(rv.take(n as int) == rv);
    Some(score)
}

/// The non-template labels of a prefix are a prefix of the non-template labels.
proof fn lemma_concrete_prefix(labels: PairsView, k: int)
    requires
        0 <= k <= labels.len(),
    ensures
        concrete_labels(labels.take(k)).len() <= concrete_labels(labels).len(),
        forall|i: int| 0 <= i < concrete_labels(labels.take(k)).len() ==> #[trigger] concrete_labels(labels)[i]
            == concrete_labels(labels.take(k))[i],
    decreases labels.len() - k,
{
    if k < labels.len() {
        lemma_concrete_prefix(labels, k + 1);
        assert(labels.take(k + 1).drop_last() == labels.take(k));
    } else {
        assert(labels.take(k) == labels);
    }
}

/// The rules that define an alert: among the rules raising it, the most
/// specific ones that are compatible with its labels, or all of them when
/// none is compatible; their targets ascending and without repeats.
pub fn matching_rule_targets(alert_name: &str, alert_labels: &[(String, String)], definitions: &[RuleDefinition]) -> (r: Vec<AlertResourceTarget>)
    ensures
        strictly_sorted(target_views(r@)),
        target_views(r@).to_set() == chosen_targets(
            def_views(definitions@),
            alert_name@,
            alert_labels@,
            best_specificity(def_views(definitions@), alert_name@, alert_labels@),
        ),
{
    let ghost dv = def_views(definitions@);
    let n = definitions.len();
    let mut best: Option<usize> = None;
    for i in 0..n
        invariant
            n == definitions@.len(),
            dv == def_views(definitions@),
            match best {
                Some(b) => best_specificity(dv.take(i as int), alert_name@, alert_labels@) == Some(b as nat),
                None => best_specificity(dv.take(i as int), alert_name@, alert_labels@) is None,
            },
    {
        assert(dv.take(i + 1).drop_last() == dv.take(i as int));
        assert(dv.take(i + 1).last() == dv[i as int]);
        let d = &definitions[i];
        if str_eq(d.alert_name.as_str(), alert_name) {
            if let Some(k) = fit(alert_labels, &d.labels) {
                best = match best {
                    Some(m) => Some(if m >= k { m } else { k }),
                    None => Some(k),
                };
            }
        }
    }
    assert(dv.take(n as int) == dv);
    let ghost bs = best_specificity(dv, alert_name@, alert_labels@);
    let mut out: Vec<AlertResourceTarget> = Vec::new();
    assert(target_views(out@).to_set() =~= chosen_targets(dv.take(0), alert_name@, alert_labels@, bs));
    for i in 0..n
        invariant
            n == definitions@.len(),
            dv == def_views(definitions@),
            bs == best_specificity(dv, alert_name@, alert_labels@),
            match best {
                Some(b) => bs == Some(b as nat),
                None => bs is None,
            },
            strictly_sorted(target_views(out@)),
            target_views(out@).to_set() == chosen_targets(dv.take(i as int), alert_name@, alert_labels@, bs),
    {
        assert(dv.take(i + 1) == dv.take(i as int).push(dv[i as int]));
        proof {
            lemma_chosen_push(dv.take(i as int), dv[i as int], alert_name@, alert_labels@, bs);
        }
        let d = &definitions[i];
        let take = if str_eq(d.alert_name.as_str(), alert_name) {
            match best {
                Some(m) => match fit(alert_labels, &d.labels) {
                    Some(k) => k == m,
                    None => false,
                },
                None => true,
            }
        } else {
            false
        };
        if take {
            insert_target(&mut out, copy_target(&d.target));
        }
    }
    assert(dv.take(n as int) == dv);
    out
}

} // verus!
