//! Label selectors against label sets, Kopiur policy children, and the nodes
//! a Tuppr upgrade reports.
use vstd::prelude::*;
use crate::alerts::label_value;
use crate::json::{json_get, json_path, json_str, key_views, opt_str, Json};
use crate::references::array_at;
use crate::references::array_at_path;
use crate::sort::{sort_strings, spec_sort};
use crate::text::{owned, str_eq, string_views};

verus! {

/// The value of label `name` (the first pair with that name).
pub fn label_lookup<'a>(labels: &'a [(String, String)], name: &str) -> (r: Option<&'a str>)
    ensures
        match r {
            Some(v) => label_value(labels@, name@) == Some(v@),
            None => label_value(labels@, name@) is None,
        },
{
    let n = labels.len();
    assert(labels@.skip(0) == labels@);
    for i in 0..n
        invariant
            n == labels@.len(),
            label_value(labels@, name@) == label_value(labels@.skip(i as int), name@),
    {
        assert(labels@.skip(i as int).drop_first() == labels@.skip(i + 1));
        if str_eq(labels[i].0.as_str(), name) {
            return Some(labels[i].1.as_str());
        }
    }
    None
}

/// Every `matchLabels` entry has a string value equal to that label's value.
pub open spec fn required_labels_hold(required: Seq<(String, Json)>, labels: Seq<(String, String)>) -> bool {
    forall|i: int| 0 <= i < required.len() ==> match #[trigger] required[i].1 {
        Json::Str(v) => label_value(labels, required[i].0@) == Some(v@),
        _ => false,
    }
}

/// The string elements of `vs`, in order.
pub open spec fn strings_in(vs: Seq<Json>) -> Seq<Seq<char>>
    decreases vs.len(),
{
    if vs.len() == 0 {
        Seq::empty()
    } else {
        let prev = strings_in(vs.drop_last());
        match vs.last() {
            Json::Str(s) => prev.push(s@),
            _ => prev,
        }
    }
}

/// One `matchExpressions` entry holds of the labels. It needs a string
/// `key`; `In` needs the label with one of the (string) `values`, `NotIn`
/// the label absent or with none of them, `Exists` the label present,
/// `DoesNotExist` it absent; any other operator fails.
pub open spec fn expression_holds(x: Json, labels: Seq<(String, String)>) -> bool {
    match json_str(json_get(x, "key"@)) {
        None => false,
        Some(key) => {
            let values = strings_in(array_at(x, seq!["values"@]));
            let actual = label_value(labels, key);
            match json_str(json_get(x, "operator"@)) {
                Some(op) => if op == "In"@ {
                    actual is Some && values.contains(actual->0)
                } else if op == "NotIn"@ {
                    actual is None || !values.contains(actual->0)
                } else if op == "Exists"@ {
                    actual is Some
                } else if op == "DoesNotExist"@ {
                    actual is None
                } else {
                    false
                },
                None => false,
            }
        },
    }
}

/// A label selector holds of `labels`: all its `matchLabels` (when an
/// object) and all its `matchExpressions` (when an array) hold.
pub open spec fn spec_label_selector_matches(selector: Json, labels: Seq<(String, String)>) -> bool {
    let labels_ok = match json_get(selector, "matchLabels"@) {
        Some(Json::Object(req)) => required_labels_hold(req@, labels),
        _ => true,
    };
    let exprs_ok = match json_get(selector, "matchExpressions"@) {
        Some(Json::Array(xs)) => all_expressions_hold(xs@, labels),
        _ => true,
    };
    labels_ok && exprs_ok
}

/// Every expression holds of the labels.
pub open spec fn all_expressions_hold(xs: Seq<Json>, labels: Seq<(String, String)>) -> bool {
    forall|i: int| 0 <= i < xs.len() ==> #[trigger] expression_holds(xs[i], labels)
}

fn strings_of(vs: &[Json]) -> (r: Vec<String>)
    ensures
        string_views(r@) == strings_in(vs@),
{
    let mut out: Vec<String> = Vec::new();
    assert(string_views(out@) =~= Seq::<Seq<char>>::empty());
    let n = vs.len();
    for i in 0..n
        invariant
            n == vs@.len(),
            string_views(out@) == strings_in(vs@.take(i as int)),
    {
        assert(vs@.take(i + 1).drop_last() == vs@.take(i as int));
        assert(vs@.take(i + 1).last() == vs@[i as int]);
        match &vs[i] {
            Json::Str(s) => {
                let ghost before = out@;
                out.push(owned(s.as_str()));
                assert(string_views(out@) =~= string_views(before).push(s@));
            },
            _ => {},
        }
    }
    assert(vs@.take(n as int) == vs@);
    out
}

fn contains_string(v: &[String], s: &str) -> (r: bool)
    ensures
        r == string_views(v@).contains(s@),
{
    let n = v.len();
    for i in 0..n
        invariant
            n == v@.len(),
            forall|k: int| 0 <= k < i ==> string_views(v@)[k] != s@,
    {
        if str_eq(v[i].as_str(), s) {
            assert(string_views(v@)[i as int] == s@);
            return true;
        }
    }
    false
}

fn expression_matches(x: &Json, labels: &[(String, String)]) -> (r: bool)
    ensures
        r == expression_holds(*x, labels@),
{
    let key = match opt_str(x.get("key")) {
        Some(k) => k,
        None => {
            return false;
        },
    };
    let vp = ["values"];
    assert(key_views(vp@) =~= seq!["values"@]);
    let values = strings_of(array_at_path(x, &vp));
    let actual = label_lookup(labels, key);
    let op = match opt_str(x.get("operator")) {
        Some(o) => o,
        None => {
            return false;
        },
    };
    if str_eq(op, "In") {
        match actual {
            Some(v) => contains_string(values.as_slice(), v),
            None => false,
        }
    } else if str_eq(op, "NotIn") {
        match actual {
            Some(v) => !contains_string(values.as_slice(), v),
            None => true,
        }
    } else if str_eq(op, "Exists") {
        actual.is_some()
    } else if str_eq(op, "DoesNotExist") {
        actual.is_none()
    } else {
        false
    }
}

/// Whether a label selector holds of a set of labels.
pub fn label_selector_matches(selector: &Json, labels: &[(String, String)]) -> (r: bool)
    ensures
        r == spec_label_selector_matches(*selector, labels@),
{
    match selector.get("matchLabels") {
        Some(Json::Object(req)) => {
            let n = req.len();
            for i in 0..n
                invariant
                    n == req@.len(),
                    json_get(*selector, "matchLabels"@) == Some(Json::Object(*req)),
                    forall|k: int| 0 <= k < i ==> match #[trigger] req@[k].1 {
                        Json::Str(v) => label_value(labels@, req@[k].0@) == Some(v@),
                        _ => false,
                    },
            {
                let ok = match &req[i].1 {
                    Json::Str(v) => match label_lookup(labels, req[i].0.as_str()) {
                        Some(actual) => str_eq(actual, v.as_str()),
                        None => false,
                    },
                    _ => false,
                };
                if !ok {
                    assert(!required_labels_hold(req@, labels@)) by {
                        let k = i as int;
                        assert(!match req@[k].1 {
                            Json::Str(v) => label_value(labels@, req@[k].0@) == Some(v@),
                            _ => false,
                        });
                    }
                    return false;
                }
            }
        },
        _ => {},
    }
    match selector.get("matchExpressions") {
        Some(Json::Array(xs)) => {
            let n = xs.len();
            for i in 0..n
                invariant
                    n == xs@.len(),
                    json_get(*selector, "matchExpressions"@) == Some(Json::Array(*xs)),
                    forall|k: int| 0 <= k < i ==> #[trigger] expression_holds(xs@[k], labels@),
            {
                if !expression_matches(&xs[i], labels) {
                    assert(!expression_holds(xs@[i as int], labels@));
                    assert(!(forall|k: int| 0 <= k < xs@.len() ==> #[trigger] expression_holds(xs@[k], labels@)));
                    assert(!all_expressions_hold(xs@, labels@));
                    return false;
                }
            }
            true
        },
        _ => true,
    }
}

/// Whether an object of Kopiur kind `kind` (as its JSON document) belongs to
/// the SnapshotPolicy named `policy_name` with labels `policy_labels`: a
/// SnapshotSchedule by `spec.policyRef.name` or a `spec.policySelector`
/// matching the policy's labels, a Snapshot by `spec.policyRef.name` or its
/// `kopiur.home-operations.com/config` label, a Restore by
/// `spec.source.fromPolicy.name`.
pub open spec fn spec_kopiur_child_matches_policy(
    kind: Seq<char>,
    policy_name: Seq<char>,
    policy_labels: Seq<(String, String)>,
    child: Json,
) -> bool {
    let by_ref = json_str(json_path(child, seq!["spec"@, "policyRef"@, "name"@])) == Some(policy_name);
    if kind == "SnapshotSchedule"@ {
        by_ref || match json_path(child, seq!["spec"@, "policySelector"@]) {
            Some(sel) => spec_label_selector_matches(sel, policy_labels),
            None => false,
        }
    } else if kind == "Snapshot"@ {
        by_ref || json_str(json_path(child, seq!["metadata"@, "labels"@, "kopiur.home-operations.com/config"@])) == Some(policy_name)
    } else if kind == "Restore"@ {
        json_str(json_path(child, seq!["spec"@, "source"@, "fromPolicy"@, "name"@])) == Some(policy_name)
    } else {
        false
    }
}

fn str_at_is(o: &Json, path: &[&str], expected: &str) -> (r: bool)
    ensures
        r == (json_str(json_path(*o, key_views(path@))) == Some(expected@)),
{
    match opt_str(o.path(path)) {
        Some(s) => str_eq(s, expected),
        None => false,
    }
}

/// Whether a Kopiur object belongs to a SnapshotPolicy.
pub fn kopiur_child_matches_policy(kind: &str, policy_name: &str, policy_labels: &[(String, String)], child: &Json) -> (r: bool)
    ensures
        r == spec_kopiur_child_matches_policy(kind@, policy_name@, policy_labels@, *child),
{
    let rp = ["spec", "policyRef", "name"];
    assert(key_views(rp@) =~= seq!["spec"@, "policyRef"@, "name"@]);
    if str_eq(kind, "SnapshotSchedule") {
        if str_at_is(child, &rp, policy_name) {
            return true;
        }
        let sp = ["spec", "policySelector"];
        assert(key_views(sp@) =~= seq!["spec"@, "policySelector"@]);
        match child.path(&sp) {
            Some(sel) => label_selector_matches(sel, policy_labels),
            None => false,
        }
    } else if str_eq(kind, "Snapshot") {
        let lp = ["metadata", "labels", "kopiur.home-operations.com/config"];
        assert(key_views(lp@) =~= seq!["metadata"@, "labels"@, "kopiur.home-operations.com/config"@]);
        str_at_is(child, &rp, policy_name) || str_at_is(child, &lp, policy_name)
    } else if str_eq(kind, "Restore") {
        let fp = ["spec", "source", "fromPolicy", "name"];
        assert(key_views(fp@) =~= seq!["spec"@, "source"@, "fromPolicy"@, "name"@]);
        str_at_is(child, &fp, policy_name)
    } else {
        false
    }
}

/// The `nodeName` strings of the elements of `vs`, in order.
pub open spec fn node_names_in(vs: Seq<Json>) -> Seq<Seq<char>>
    decreases vs.len(),
{
    if vs.len() == 0 {
        Seq::empty()
    } else {
        let prev = node_names_in(vs.drop_last());
        match json_str(json_get(vs.last(), "nodeName"@)) {
            Some(s) => prev.push(s),
            None => prev,
        }
    }
}

pub open spec fn opt_name(o: Option<Seq<char>>) -> Seq<Seq<char>> {
    match o {
        Some(s) => seq![s],
        None => Seq::empty(),
    }
}

/// Every node name a Tuppr upgrade reports, in report order: a
/// KubernetesUpgrade its `status.controllerNode`; a TalosUpgrade its
/// `currentNode`, `currentNodes`, `completedNodes`, then the `nodeName` of
/// each `failedNodes`, `prePulledNodes` and `rebootingNodes` entry.
pub open spec fn reported_nodes(kind: Seq<char>, data: Json) -> Seq<Seq<char>> {
    if kind == "KubernetesUpgrade"@ {
        opt_name(json_str(json_path(data, seq!["status"@, "controllerNode"@])))
    } else {
        opt_name(json_str(json_path(data, seq!["status"@, "currentNode"@])))
            + strings_in(array_at(data, seq!["status"@, "currentNodes"@]))
            + strings_in(array_at(data, seq!["status"@, "completedNodes"@]))
            + node_names_in(array_at(data, seq!["status"@, "failedNodes"@]))
            + node_names_in(array_at(data, seq!["status"@, "prePulledNodes"@]))
            + node_names_in(array_at(data, seq!["status"@, "rebootingNodes"@]))
    }
}

/// `s` with each run of equal neighbours kept once.
pub open spec fn dedup(s: Seq<Seq<char>>) -> Seq<Seq<char>>
    decreases s.len(),
{
    if s.len() == 0 {
        s
    } else {
        let prev = dedup(s.drop_last());
        if s.len() >= 2 && s[s.len() - 2] == s.last() {
            prev
        } else {
            prev.push(s.last())
        }
    }
}

/// The reported node names that are not empty, sorted, each once.
pub open spec fn spec_tuppr_node_names(kind: Seq<char>, data: Json) -> Seq<Seq<char>> {
    dedup(spec_sort(reported_nodes(kind, data).filter(|s: Seq<char>| s.len() > 0)))
}

fn node_names_of(vs: &[Json]) -> (r: Vec<String>)
    ensures
        string_views(r@) == node_names_in(vs@),
{
    let mut out: Vec<String> = Vec::new();
    assert(string_views(out@) =~= Seq::<Seq<char>>::empty());
    let n = vs.len();
    for i in 0..n
        invariant
            n == vs@.len(),
            string_views(out@) == node_names_in(vs@.take(i as int)),
    {
        assert(vs@.take(i + 1).drop_last() == vs@.take(i as int));
        assert(vs@.take(i + 1).last() == vs@[i as int]);
        match opt_str(vs[i].get("nodeName")) {
            Some(s) => {
                let ghost before = out@;
                out.push(owned(s));
                assert(string_views(out@) =~= string_views(before).push(s@));
            },
            None => {},
        }
    }
    assert(vs@.take(n as int) == vs@);
    out
}

fn append_strings(out: &mut Vec<String>, more: Vec<String>)
    ensures
        string_views(final(out)@) == string_views(old(out)@) + string_views(more@),
{
    let mut more = more;
    let ghost a = out@;
    let ghost b = more@;
    out.append(&mut more);
    assert(string_views(out@) =~= string_views(a) + string_views(b));
}

fn push_opt_str(out: &mut Vec<String>, s: Option<&str>)
    ensures
        string_views(final(out)@) == string_views(old(out)@) + opt_name(match s {
            Some(x) => Some(x@),
            None => None,
        }),
{
    let ghost a = out@;
    match s {
        Some(x) => {
            out.push(owned(x));
            assert(string_views(out@) =~= string_views(a) + seq![x@]);
        },
        None => {
            assert(string_views(out@) =~= string_views(a) + Seq::<Seq<char>>::empty());
        },
    }
}

/// The nodes a Tuppr KubernetesUpgrade or TalosUpgrade reports, sorted and
/// without empty names or repeats.
pub fn tuppr_node_names(kind: &str, data: &Json) -> (r: Vec<String>)
    ensures
        string_views(r@) == spec_tuppr_node_names(kind@, *data),
{
    let mut names: Vec<String> = Vec::new();
    assert(string_views(names@) =~= Seq::<Seq<char>>::empty());
    if str_eq(kind, "KubernetesUpgrade") {
        let p = ["status", "controllerNode"];
        assert(key_views(p@) =~= seq!["status"@, "controllerNode"@]);
        push_opt_str(&mut names, opt_str(data.path(&p)));
        assert(string_views(names@) =~= reported_nodes(kind@, *data));
    } else {
        let p0 = ["status", "currentNode"];
        assert(key_views(p0@) =~= seq!["status"@, "currentNode"@]);
        let p1 = ["status", "currentNodes"];
        assert(key_views(p1@) =~= seq!["status"@, "currentNodes"@]);
        let p2 = ["status", "completedNodes"];
        assert(key_views(p2@) =~= seq!["status"@, "completedNodes"@]);
        let p3 = ["status", "failedNodes"];
        assert(key_views(p3@) =~= seq!["status"@, "failedNodes"@]);
        let p4 = ["status", "prePulledNodes"];
        assert(key_views(p4@) =~= seq!["status"@, "prePulledNodes"@]);
        let p5 = ["status", "rebootingNodes"];
        assert(key_views(p5@) =~= seq!["status"@, "rebootingNodes"@]);
        push_opt_str(&mut names, opt_str(data.path(&p0)));
        append_strings(&mut names, strings_of(array_at_path(data, &p1)));
        append_strings(&mut names, strings_of(array_at_path(data, &p2)));
        append_strings(&mut names, node_names_of(array_at_path(data, &p3)));
        append_strings(&mut names, node_names_of(array_at_path(data, &p4)));
        append_strings(&mut names, node_names_of(array_at_path(data, &p5)));
        assert(string_views(names@) =~= reported_nodes(kind@, *data));
    }
    let ghost all = string_views(names@);
    let mut kept: Vec<String> = Vec::new();
    assert(string_views(kept@) =~= Seq::<Seq<char>>::empty());
    let n = names.len();
    for i in 0..n
        invariant
            n == names@.len(),
            all == string_views(names@),
            string_views(kept@) == all.take(i as int).filter(|s: Seq<char>| s.len() > 0),
    {
        assert(all.take(i + 1).drop_last() == all.take(i as int));
        assert(all.take(i + 1).last() == names@[i as int]@);
        reveal(Seq::filter);
        if !names[i].as_str().is_empty() {
            let ghost before = kept@;
            kept.push(owned(names[i].as_str()));
            assert(string_views(kept@) =~= string_views(before).push(names@[i as int]@));
        }
    }
    assert(all.take(n as int) == all);
    let sorted = sort_strings(kept);
    let ghost sv = string_views(sorted@);
    let mut out: Vec<String> = Vec::new();
    assert(string_views(out@) =~= Seq::<Seq<char>>::empty());
    let m = sorted.len();
    for i in 0..m
        invariant
            m == sorted@.len(),
            sv == string_views(sorted@),
            string_views(out@) == dedup(sv.take(i as int)),
    {
        let ghost pre = sv.take(i + 1);
        assert(pre.drop_last() == sv.take(i as int));
        assert(pre.last() == sv[i as int]);
        if i >= 1 {
            assert(pre[pre.len() - 2] == sv[i - 1]);
        }
        let repeat = i >= 1 && str_eq(sorted[i - 1].as_str(), sorted[i].as_str());
        if !repeat {
            let ghost before = out@;
            out.push(owned(sorted[i].as_str()));
            assert(string_views(out@) =~= string_views(before).push(sv[i as int]));
        }
    }
    assert(sv.take(m as int) == sv);
    out
}

} // verus!
