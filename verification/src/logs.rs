//! Log streaming decisions: the label selector that finds a workload's pods,
//! and how each container's log is reached.
use vstd::prelude::*;
use crate::json::{deref_opt, json_get, json_str, opt_str_is, Json};
use crate::sort::{sort_strings, spec_sort};
use crate::text::{
    chars_of, extend_chars, i64_to_string, join, join_strings, owned, signed_decimal, str_eq,
    string_of, string_views,
};

verus! {

pub const NO_SELECTOR: &'static str = "workload has no label selector";
pub const EMPTY_SELECTOR: &'static str = "workload label selector is empty";
pub const MISSING_KEY: &'static str = "workload selector expression is missing key";

/// A `Result` of strings, by views.
pub open spec fn res_view(r: Result<String, String>) -> Result<Seq<char>, Seq<char>> {
    match r {
        Ok(s) => Ok(s@),
        Err(e) => Err(e@),
    }
}

/// A `Result` of a list of strings, by views.
pub open spec fn res_views(r: Result<Vec<String>, String>) -> Result<Seq<Seq<char>>, Seq<char>> {
    match r {
        Ok(v) => Ok(string_views(v@)),
        Err(e) => Err(e@),
    }
}

/// `key=value` for each `matchLabels` entry, in order; the first entry whose
/// value is not a string refuses the selector.
pub open spec fn spec_label_reqs(entries: Seq<(String, Json)>) -> Result<Seq<Seq<char>>, Seq<char>>
    decreases entries.len(),
{
    if entries.len() == 0 {
        Ok(Seq::empty())
    } else {
        match spec_label_reqs(entries.drop_last()) {
            Err(e) => Err(e),
            Ok(prev) => {
                let key = entries.last().0@;
                match entries.last().1 {
                    Json::Str(v) => Ok(prev.push(key + "="@ + v@)),
                    _ => Err("workload selector label "@ + key + " is not a string"@),
                }
            },
        }
    }
}

/// The strings of `vs`, or `None` when one is not a string.
pub open spec fn spec_all_strs(vs: Seq<Json>) -> Option<Seq<Seq<char>>>
    decreases vs.len(),
{
    if vs.len() == 0 {
        Some(Seq::empty())
    } else {
        match (spec_all_strs(vs.drop_last()), vs.last()) {
            (Some(prev), Json::Str(s)) => Some(prev.push(s@)),
            _ => None,
        }
    }
}

/// The `values` of a selector expression: empty when absent or not an array.
pub open spec fn spec_expression_values(e: Json, key: Seq<char>) -> Result<Seq<Seq<char>>, Seq<char>> {
    match json_get(e, "values"@) {
        Some(Json::Array(vs)) => match spec_all_strs(vs@) {
            Some(v) => Ok(v),
            None => Err("workload selector expression for "@ + key + " has a non-string value"@),
        },
        _ => Ok(Seq::empty()),
    }
}

/// The selector requirement one `matchExpressions` entry stands for.
pub open spec fn spec_expression_req(e: Json) -> Result<Seq<char>, Seq<char>> {
    match json_get(e, "key"@) {
        Some(Json::Str(k)) => {
            let key = k@;
            match json_get(e, "operator"@) {
                Some(Json::Str(o)) => {
                    let op = o@;
                    match spec_expression_values(e, key) {
                        Err(err) => Err(err),
                        Ok(values) => if (op == "In"@ || op == "NotIn"@) && values.len() == 0 {
                            Err(
                                "workload selector expression "@ + op + " for "@ + key
                                    + " has no values"@,
                            )
                        } else if op == "In"@ {
                            Ok(key + " in ("@ + join(values, ","@) + ")"@)
                        } else if op == "NotIn"@ {
                            Ok(key + " notin ("@ + join(values, ","@) + ")"@)
                        } else if op == "Exists"@ {
                            Ok(key)
                        } else if op == "DoesNotExist"@ {
                            Ok("!"@ + key)
                        } else {
                            Err(
                                "workload selector expression for "@ + key
                                    + " has unsupported operator "@ + op,
                            )
                        },
                    }
                },
                _ => Err("workload selector expression for "@ + key + " is missing operator"@),
            }
        },
        _ => Err(MISSING_KEY@),
    }
}

/// The requirements of all `matchExpressions` entries, in order; the first
/// refused entry refuses the selector.
pub open spec fn spec_expression_reqs(xs: Seq<Json>) -> Result<Seq<Seq<char>>, Seq<char>>
    decreases xs.len(),
{
    if xs.len() == 0 {
        Ok(Seq::empty())
    } else {
        match spec_expression_reqs(xs.drop_last()) {
            Err(e) => Err(e),
            Ok(prev) => match spec_expression_req(xs.last()) {
                Err(e) => Err(e),
                Ok(r) => Ok(prev.push(r)),
            },
        }
    }
}

/// The requirements of a workload's `spec.selector`: its labels, then its
/// expressions (a `matchLabels` that is not an object, or a
/// `matchExpressions` that is not an array, counts as absent).
pub open spec fn spec_selector_reqs(data: Json) -> Result<Seq<Seq<char>>, Seq<char>> {
    let selector = match json_get(data, "spec"@) {
        Some(spec) => json_get(spec, "selector"@),
        None => None,
    };
    match selector {
        None => Err(NO_SELECTOR@),
        Some(sel) => {
            let labels = match json_get(sel, "matchLabels"@) {
                Some(Json::Object(es)) => spec_label_reqs(es@),
                _ => Ok(Seq::empty()),
            };
            match labels {
                Err(e) => Err(e),
                Ok(l) => {
                    let exprs = match json_get(sel, "matchExpressions"@) {
                        Some(Json::Array(xs)) => spec_expression_reqs(xs@),
                        _ => Ok(Seq::empty()),
                    };
                    match exprs {
                        Err(e) => Err(e),
                        Ok(x) => Ok(l + x),
                    }
                },
            }
        },
    }
}

/// The label selector (`kubectl`'s syntax) that finds a workload's pods.
pub open spec fn spec_workload_label_selector(data: Json) -> Result<Seq<char>, Seq<char>> {
    match spec_selector_reqs(data) {
        Err(e) => Err(e),
        Ok(reqs) => if reqs.len() == 0 {
            Err(EMPTY_SELECTOR@)
        } else {
            Ok(join(spec_sort(reqs), ","@))
        },
    }
}

fn cat(a: &str, b: &str, c: &str) -> (r: String)
    ensures
        r@ == a@ + b@ + c@,
{
    let mut out = chars_of(a);
    let bc = chars_of(b);
    let cc = chars_of(c);
    extend_chars(&mut out, bc.as_slice());
    extend_chars(&mut out, cc.as_slice());
    string_of(out.as_slice())
}

fn cat2(a: &str, b: &str) -> (r: String)
    ensures
        r@ == a@ + b@,
{
    let mut out = chars_of(a);
    let bc = chars_of(b);
    extend_chars(&mut out, bc.as_slice());
    string_of(out.as_slice())
}

/// When every `matchLabels` value is a string, the labels give one requirement
/// per entry, in the entries' order, each the entry's `key=value`.
pub proof fn lemma_label_reqs_each_entry(entries: Seq<(String, Json)>)
    requires
        forall|k: int| 0 <= k < entries.len() ==> #[trigger] entries[k].1 is Str,
    ensures
        spec_label_reqs(entries) is Ok,
        spec_label_reqs(entries)->Ok_0.len() == entries.len(),
        forall|k: int|
            #![trigger entries[k]]
            0 <= k < entries.len() ==> (entries[k].1 matches Json::Str(v)
                && spec_label_reqs(entries)->Ok_0[k] == entries[k].0@ + "="@ + v@),
    decreases entries.len(),
{
    if entries.len() > 0 {
        let pre = entries.drop_last();
        assert forall|k: int| 0 <= k < pre.len() implies #[trigger] pre[k].1 is Str by {
            assert(pre[k] == entries[k]);
        }
        lemma_label_reqs_each_entry(pre);
        let n = entries.len() - 1;
        assert(entries[n].1 is Str);
        assert forall|k: int| #![trigger entries[k]] 0 <= k < entries.len() implies (entries[k].1 matches Json::Str(v)
            && spec_label_reqs(entries)->Ok_0[k] == entries[k].0@ + "="@ + v@) by {
            if k < n {
                assert(pre[k] == entries[k]);
            }
        }
    }
}

/// When every `matchExpressions` entry is accepted, they give one requirement
/// per entry, in order, each the one that entry stands for.
pub proof fn lemma_expression_reqs_each_entry(xs: Seq<Json>)
    requires
        spec_expression_reqs(xs) is Ok,
    ensures
        spec_expression_reqs(xs)->Ok_0.len() == xs.len(),
        forall|k: int| #![trigger xs[k]] 0 <= k < xs.len() ==> spec_expression_req(xs[k]) is Ok
            && spec_expression_reqs(xs)->Ok_0[k] == spec_expression_req(xs[k])->Ok_0,
    decreases xs.len(),
{
    if xs.len() > 0 {
        let pre = xs.drop_last();
        lemma_expression_reqs_each_entry(pre);
        assert forall|k: int| #![trigger xs[k]] 0 <= k < xs.len() implies spec_expression_req(xs[k]) is Ok
            && spec_expression_reqs(xs)->Ok_0[k] == spec_expression_req(xs[k])->Ok_0 by {
            if k < xs.len() - 1 {
                assert(pre[k] == xs[k]);
            }
        }
    }
}

/// A workload's selector requirements, when its `matchLabels` values are all
/// strings and its `matchExpressions` entries are all accepted: `key=value`
/// for every `matchLabels` entry, in order (as many as there are entries),
/// then one per `matchExpressions` entry, in order.
pub proof fn lemma_selector_reqs_labels_then_expressions(
    data: Json,
    sel: Json,
    labels: Vec<(String, Json)>,
    exprs: Vec<Json>,
)
    requires
        json_get(data, "spec"@) matches Some(spec) && json_get(spec, "selector"@) == Some(sel),
        json_get(sel, "matchLabels"@) == Some(Json::Object(labels)),
        forall|k: int| 0 <= k < labels@.len() ==> #[trigger] labels@[k].1 is Str,
        json_get(sel, "matchExpressions"@) == Some(Json::Array(exprs))
            || (json_get(sel, "matchExpressions"@) is None && exprs@.len() == 0),
        spec_expression_reqs(exprs@) is Ok,
    ensures
        spec_selector_reqs(data) is Ok,
        ({
            let reqs = spec_selector_reqs(data)->Ok_0;
            &&& reqs.len() == labels@.len() + exprs@.len()
            &&& forall|k: int|
                #![trigger labels@[k]]
                0 <= k < labels@.len() ==> (labels@[k].1 matches Json::Str(v) && reqs[k]
                    == labels@[k].0@ + "="@ + v@)
            &&& forall|k: int|
                #![trigger exprs@[k]]
                0 <= k < exprs@.len() ==> reqs[labels@.len() + k] == spec_expression_req(
                    exprs@[k],
                )->Ok_0
        }),
{
    lemma_label_reqs_each_entry(labels@);
    lemma_expression_reqs_each_entry(exprs@);
    if json_get(sel, "matchExpressions"@) is None {
        assert(exprs@ == Seq::<Json>::empty());
    }
    let l = spec_label_reqs(labels@)->Ok_0;
    let x = spec_expression_reqs(exprs@)->Ok_0;
    let reqs = spec_selector_reqs(data)->Ok_0;
    assert(reqs == l + x);
    assert forall|k: int| #![trigger exprs@[k]] 0 <= k < exprs@.len() implies reqs[labels@.len() + k]
        == spec_expression_req(exprs@[k])->Ok_0 by {
        assert(reqs[l.len() + k] == x[k]);
    }
    assert forall|k: int| #![trigger labels@[k]] 0 <= k < labels@.len() implies (labels@[k].1 matches Json::Str(v)
        && reqs[k] == labels@[k].0@ + "="@ + v@) by {
        assert(reqs[k] == l[k]);
    }
}

/// The label selector a workload's pods are found by: every requirement of
/// its selector, sorted and joined by commas; so, when its `matchLabels` values
/// are all strings and its `matchExpressions` entries all accepted, it lists
/// `key=value` for each `matchLabels` entry and one requirement per
/// expression, as many as there are entries, and is refused as empty exactly
/// when there are none.
pub proof fn lemma_workload_selector_lists_labels(
    data: Json,
    sel: Json,
    labels: Vec<(String, Json)>,
    exprs: Vec<Json>,
)
    requires
        json_get(data, "spec"@) matches Some(spec) && json_get(spec, "selector"@) == Some(sel),
        json_get(sel, "matchLabels"@) == Some(Json::Object(labels)),
        forall|k: int| 0 <= k < labels@.len() ==> #[trigger] labels@[k].1 is Str,
        json_get(sel, "matchExpressions"@) == Some(Json::Array(exprs))
            || (json_get(sel, "matchExpressions"@) is None && exprs@.len() == 0),
        spec_expression_reqs(exprs@) is Ok,
    ensures
        labels@.len() + exprs@.len() == 0 ==> spec_workload_label_selector(data) == Err::<Seq<char>, Seq<char>>(EMPTY_SELECTOR@),
        labels@.len() + exprs@.len() > 0 ==> ({
            let listed = spec_sort(spec_selector_reqs(data)->Ok_0);
            &&& spec_workload_label_selector(data) == Ok::<Seq<char>, Seq<char>>(join(listed, ","@))
            &&& listed.len() == labels@.len() + exprs@.len()
            &&& forall|k: int|
                #![trigger labels@[k]]
                0 <= k < labels@.len() ==> (labels@[k].1 matches Json::Str(v) && listed.contains(
                    labels@[k].0@ + "="@ + v@,
                ))
            &&& forall|k: int|
                #![trigger exprs@[k]]
                0 <= k < exprs@.len() ==> listed.contains(spec_expression_req(exprs@[k])->Ok_0)
        }),
{
    broadcast use vstd::seq_lib::group_to_multiset_ensures;
    lemma_selector_reqs_labels_then_expressions(data, sel, labels, exprs);
    let reqs = spec_selector_reqs(data)->Ok_0;
    let listed = spec_sort(reqs);
    crate::sort::lemma_spec_sort_permutes(reqs);
    assert forall|x: Seq<char>| reqs.contains(x) implies listed.contains(x) by {
        assert(reqs.to_multiset().count(x) > 0);
        assert(listed.to_multiset().count(x) > 0);
    }
    assert forall|k: int| #![trigger labels@[k]] 0 <= k < labels@.len() implies (labels@[k].1 matches Json::Str(v)
        && listed.contains(labels@[k].0@ + "="@ + v@)) by {
        assert(reqs.contains(reqs[k]));
    }
    assert forall|k: int| #![trigger exprs@[k]] 0 <= k < exprs@.len() implies listed.contains(
        spec_expression_req(exprs@[k])->Ok_0) by {
        assert(reqs.contains(reqs[labels@.len() + k]));
    }
}

proof fn lemma_label_err_persists(s: Seq<(String, Json)>, i: int)
    requires
        0 <= i <= s.len(),
        spec_label_reqs(s.take(i)) is Err,
    ensures
        spec_label_reqs(s) == spec_label_reqs(s.take(i)),
    decreases s.len() - i,
{
    if i < s.len() {
        assert(s.drop_last().take(i) == s.take(i));
        lemma_label_err_persists(s.drop_last(), i);
    } else {
        assert(s.take(i) == s);
    }
}

proof fn lemma_strs_none_persists(s: Seq<Json>, i: int)
    requires
        0 <= i <= s.len(),
        spec_all_strs(s.take(i)) is None,
    ensures
        spec_all_strs(s) is None,
    decreases s.len() - i,
{
    if i < s.len() {
        assert(s.drop_last().take(i) == s.take(i));
        lemma_strs_none_persists(s.drop_last(), i);
    } else {
        assert(s.take(i) == s);
    }
}

proof fn lemma_expr_err_persists(s: Seq<Json>, i: int)
    requires
        0 <= i <= s.len(),
        spec_expression_reqs(s.take(i)) is Err,
    ensures
        spec_expression_reqs(s) == spec_expression_reqs(s.take(i)),
    decreases s.len() - i,
{
    if i < s.len() {
        assert(s.drop_last().take(i) == s.take(i));
        lemma_expr_err_persists(s.drop_last(), i);
    } else {
        assert(s.take(i) == s);
    }
}

fn label_requirements(entries: &Vec<(String, Json)>) -> (r: Result<Vec<String>, String>)
    ensures
        res_views(r) == spec_label_reqs(entries@),
{
    let mut out: Vec<String> = Vec::new();
    let n = entries.len();
    assert(entries@.take(0) =~= Seq::empty());
    assert(string_views(out@) =~= Seq::<Seq<char>>::empty());
    for i in 0..n
        invariant
            n == entries@.len(),
            spec_label_reqs(entries@.take(i as int)) == Ok::<Seq<Seq<char>>, Seq<char>>(string_views(out@)),
    {
        let ghost pre = entries@.take(i + 1);
        assert(pre.drop_last() == entries@.take(i as int));
        assert(pre.last() == entries@[i as int]);
        let key = entries[i].0.as_str();
        match &entries[i].1 {
            Json::Str(v) => {
                let req = cat(key, "=", v.as_str());
                let ghost old_out = out@;
                out.push(req);
                assert(string_views(out@) =~= string_views(old_out).push(req@));
                assert(spec_label_reqs(pre) == Ok::<Seq<Seq<char>>, Seq<char>>(string_views(old_out).push(req@)));
            },
            _ => {
                proof {
                    lemma_label_err_persists(entries@, i + 1);
                }
                return Err(cat("workload selector label ", key, " is not a string"));
            },
        }
    }
    assert(entries@.take(n as int) == entries@);
    Ok(out)
}

fn all_strs(vs: &Vec<Json>) -> (r: Option<Vec<String>>)
    ensures
        match r {
            Some(v) => spec_all_strs(vs@) == Some(string_views(v@)),
            None => spec_all_strs(vs@) is None,
        },
{
    let mut out: Vec<String> = Vec::new();
    let n = vs.len();
    assert(vs@.take(0) =~= Seq::empty());
    assert(string_views(out@) =~= Seq::<Seq<char>>::empty());
    for i in 0..n
        invariant
            n == vs@.len(),
            spec_all_strs(vs@.take(i as int)) == Some(string_views(out@)),
    {
        let ghost pre = vs@.take(i + 1);
        assert(pre.drop_last() == vs@.take(i as int));
        assert(pre.last() == vs@[i as int]);
        match &vs[i] {
            Json::Str(s) => {
                out.push(s.clone());
                assert(string_views(out@) =~= string_views(out@.drop_last()).push(s@));
            },
            _ => {
                proof {
                    lemma_strs_none_persists(vs@, i + 1);
                }
                return None;
            },
        }
    }
    assert(vs@.take(n as int) == vs@);
    Some(out)
}

fn expression_values(e: &Json, key: &str) -> (r: Result<Vec<String>, String>)
    ensures
        res_views(r) == spec_expression_values(*e, key@),
{
    match e.get("values") {
        Some(Json::Array(vs)) => match all_strs(vs) {
            Some(v) => Ok(v),
            None => Err(cat("workload selector expression for ", key, " has a non-string value")),
        },
        _ => {
            let v: Vec<String> = Vec::new();
            assert(string_views(v@) =~= Seq::<Seq<char>>::empty());
            Ok(v)
        },
    }
}

fn expression_requirement(e: &Json) -> (r: Result<String, String>)
    ensures
        res_view(r) == spec_expression_req(*e),
{
    let key = match e.get("key") {
        Some(Json::Str(k)) => k.as_str(),
        _ => {
            return Err(owned(MISSING_KEY));
        },
    };
    let op = match e.get("operator") {
        Some(Json::Str(o)) => o.as_str(),
        _ => {
            return Err(cat("workload selector expression for ", key, " is missing operator"));
        },
    };
    let values = match expression_values(e, key) {
        Ok(v) => v,
        Err(err) => {
            return Err(err);
        },
    };
    let is_in = str_eq(op, "In");
    let is_not_in = str_eq(op, "NotIn");
    if (is_in || is_not_in) && values.len() == 0 {
        let head = cat("workload selector expression ", op, " for ");
        return Err(cat(head.as_str(), key, " has no values"));
    }
    if is_in {
        let joined = join_strings(values.as_slice(), ",");
        let head = cat(key, " in (", joined.as_str());
        Ok(cat2(head.as_str(), ")"))
    } else if is_not_in {
        let joined = join_strings(values.as_slice(), ",");
        let head = cat(key, " notin (", joined.as_str());
        Ok(cat2(head.as_str(), ")"))
    } else if str_eq(op, "Exists") {
        Ok(owned(key))
    } else if str_eq(op, "DoesNotExist") {
        Ok(cat2("!", key))
    } else {
        let head = cat("workload selector expression for ", key, " has unsupported operator ");
        Err(cat2(head.as_str(), op))
    }
}

fn expression_requirements(xs: &Vec<Json>) -> (r: Result<Vec<String>, String>)
    ensures
        res_views(r) == spec_expression_reqs(xs@),
{
    let mut out: Vec<String> = Vec::new();
    let n = xs.len();
    assert(xs@.take(0) =~= Seq::empty());
    assert(string_views(out@) =~= Seq::<Seq<char>>::empty());
    for i in 0..n
        invariant
            n == xs@.len(),
            spec_expression_reqs(xs@.take(i as int)) == Ok::<Seq<Seq<char>>, Seq<char>>(string_views(out@)),
    {
        let ghost pre = xs@.take(i + 1);
        assert(pre.drop_last() == xs@.take(i as int));
        assert(pre.last() == xs@[i as int]);
        match expression_requirement(&xs[i]) {
            Ok(req) => {
                let ghost old_out = out@;
                out.push(req);
                assert(string_views(out@) =~= string_views(old_out).push(req@));
                assert(spec_expression_reqs(pre) == Ok::<Seq<Seq<char>>, Seq<char>>(string_views(old_out).push(req@)));
            },
            Err(e) => {
                proof {
                    lemma_expr_err_persists(xs@, i + 1);
                }
                return Err(e);
            },
        }
    }
    assert(xs@.take(n as int) == xs@);
    Ok(out)
}

/// The label selector that finds a workload's pods, from its `spec.selector`.
///
/// Each `matchLabels` entry gives `key=value`; each `matchExpressions` entry
/// gives `key in (a,b)`, `key notin (a,b)`, `key` or `!key` for `In`,
/// `NotIn`, `Exists` and `DoesNotExist`. The requirements are sorted and joined
/// with commas. A missing selector, a non-string label or value, an expression
/// without key or operator, an `In`/`NotIn` without values, another operator,
/// or no requirement at all is refused with a message.
pub fn workload_label_selector(data: &Json) -> (r: Result<String, String>)
    ensures
        res_view(r) == spec_workload_label_selector(*data),
{
    let selector = match data.get("spec") {
        Some(spec) => spec.get("selector"),
        None => None,
    };
    let sel = match selector {
        Some(s) => s,
        None => {
            return Err(owned(NO_SELECTOR));
        },
    };
    let labels = match sel.get("matchLabels") {
        Some(Json::Object(es)) => label_requirements(es),
        _ => Ok(Vec::new()),
    };
    let mut reqs = match labels {
        Ok(l) => l,
        Err(e) => {
            return Err(e);
        },
    };
    let exprs = match sel.get("matchExpressions") {
        Some(Json::Array(xs)) => expression_requirements(xs),
        _ => Ok(Vec::new()),
    };
    let ghost lv = string_views(reqs@);
    match exprs {
        Ok(x) => {
            let ghost xv = string_views(x@);
            let mut x = x;
            reqs.append(&mut x);
            assert(string_views(reqs@) =~= lv + xv);
        },
        Err(e) => {
            return Err(e);
        },
    }
    if reqs.len() == 0 {
        return Err(owned(EMPTY_SELECTOR));
    }
    let sorted = sort_strings(reqs);
    Ok(join_strings(sorted.as_slice(), ","))
}

} // verus!

verus! {

/// How a container's log is reached, given its status.
pub enum LogPlan {
    /// It has not run yet: nothing to show, and nothing to report.
    Skip,
    /// It is running: stream it live.
    Live,
    /// A finished attempt, reached through `previous` when the container has
    /// already moved on to waiting for a restart; `signature` identifies the
    /// attempt.
    Static { previous: bool, signature: String },
}

/// `exitCode@finishedAt` of a terminated state; the code is `-1` and the time
/// empty when missing.
pub open spec fn spec_attempt_signature(terminated: Json) -> Seq<char> {
    let code: int = match json_get(terminated, "exitCode"@) {
        Some(Json::Number(_, Some(c))) => c as int,
        _ => -1,
    };
    let at = match json_get(terminated, "finishedAt"@) {
        Some(Json::Str(s)) => s@,
        _ => Seq::empty(),
    };
    signed_decimal(code) + "@"@ + at
}

/// A fingerprint of one container attempt: exit code and time it ended.
pub fn attempt_signature(terminated: &Json) -> (r: String)
    ensures
        r@ == spec_attempt_signature(*terminated),
{
    let code: i64 = match terminated.get("exitCode") {
        Some(Json::Number(_, Some(c))) => *c,
        _ => -1,
    };
    let at = match terminated.get("finishedAt") {
        Some(Json::Str(s)) => owned(s.as_str()),
        _ => String::new(),
    };
    let cs = i64_to_string(code);
    cat(cs.as_str(), "@", at.as_str())
}

/// The first status entry named `name` among `statuses`.
pub open spec fn named_status(statuses: Seq<Json>, name: Seq<char>) -> Option<Json>
    decreases statuses.len(),
{
    if statuses.len() == 0 {
        None
    } else if json_str(json_get(statuses[0], "name"@)) == Some(name) {
        Some(statuses[0])
    } else {
        named_status(statuses.drop_first(), name)
    }
}

/// The status of container `name` in the pod's `status.<field>` list.
pub open spec fn status_in(pod: Json, field: Seq<char>, name: Seq<char>) -> Option<Json> {
    match json_get(pod, "status"@) {
        Some(st) => match json_get(st, field) {
            Some(Json::Array(a)) => named_status(a@, name),
            _ => None,
        },
        None => None,
    }
}

/// The status of container `name`: init containers are searched first.
pub open spec fn container_status(pod: Json, name: Seq<char>) -> Option<Json> {
    match status_in(pod, "initContainerStatuses"@, name) {
        Some(s) => Some(s),
        None => status_in(pod, "containerStatuses"@, name),
    }
}

/// The plan, as `None` for `Skip`, `Some(None)` for `Live` and
/// `Some(Some((previous, signature)))` for `Static`.
pub open spec fn spec_log_plan(pod: Json, name: Seq<char>) -> Option<Option<(bool, Seq<char>)>> {
    match container_status(pod, name) {
        None => None,
        Some(status) => {
            let state = json_get(status, "state"@);
            let running = match state {
                Some(st) => json_get(st, "running"@),
                None => None,
            };
            let terminated = match state {
                Some(st) => json_get(st, "terminated"@),
                None => None,
            };
            let last = match json_get(status, "lastState"@) {
                Some(ls) => json_get(ls, "terminated"@),
                None => None,
            };
            if running is Some {
                Some(None)
            } else if terminated is Some {
                Some(Some((false, spec_attempt_signature(terminated->0))))
            } else {
                match last {
                    Some(t) => Some(Some((true, spec_attempt_signature(t)))),
                    None => None,
                }
            }
        },
    }
}

pub open spec fn plan_view(p: LogPlan) -> Option<Option<(bool, Seq<char>)>> {
    match p {
        LogPlan::Skip => None,
        LogPlan::Live => Some(None),
        LogPlan::Static { previous, signature } => Some(Some((previous, signature@))),
    }
}

fn find_named<'a>(statuses: &'a Vec<Json>, name: &str) -> (r: Option<&'a Json>)
    ensures
        deref_opt(r) == named_status(statuses@, name@),
{
    let n = statuses.len();
    assert(statuses@.skip(0) == statuses@);
    for i in 0..n
        invariant
            n == statuses@.len(),
            named_status(statuses@.skip(i as int), name@) == named_status(statuses@, name@),
    {
        assert(statuses@.skip(i as int).drop_first() == statuses@.skip(i + 1));
        assert(statuses@.skip(i as int)[0] == statuses@[i as int]);
        if opt_str_is(statuses[i].get("name"), name) {
            return Some(&statuses[i]);
        }
    }
    None
}

fn find_status<'a>(pod: &'a Json, field: &str, name: &str) -> (r: Option<&'a Json>)
    ensures
        deref_opt(r) == status_in(*pod, field@, name@),
{
    match pod.get("status") {
        Some(st) => match st.get(field) {
            Some(Json::Array(a)) => find_named(a, name),
            _ => None,
        },
        None => None,
    }
}

fn get_in<'a>(v: Option<&'a Json>, key: &str) -> (r: Option<&'a Json>)
    ensures
        deref_opt(r) == match deref_opt(v) {
            Some(j) => json_get(j, key@),
            None => None,
        },
{
    match v {
        Some(j) => j.get(key),
        None => None,
    }
}

/// How to reach the log of container `name` of a pod: skip it when it has no
/// status or has never finished a run, stream it when running, else show its
/// terminated attempt (the last one, through `previous`, while it waits).
pub fn container_log_plan(pod: &Json, name: &str) -> (r: LogPlan)
    ensures
        plan_view(r) == spec_log_plan(*pod, name@),
{
    let status = match find_status(pod, "initContainerStatuses", name) {
        Some(s) => s,
        None => match find_status(pod, "containerStatuses", name) {
            Some(s) => s,
            None => {
                return LogPlan::Skip;
            },
        },
    };
    let state = status.get("state");
    if get_in(state, "running").is_some() {
        return LogPlan::Live;
    }
    match get_in(state, "terminated") {
        Some(t) => {
            return LogPlan::Static { previous: false, signature: attempt_signature(t) };
        },
        None => {},
    }
    match get_in(status.get("lastState"), "terminated") {
        Some(t) => LogPlan::Static { previous: true, signature: attempt_signature(t) },
        None => LogPlan::Skip,
    }
}

/// A container of a pod: (namespace, pod, container).
pub type ContainerKey = (Seq<char>, Seq<char>, Seq<char>);

/// The container an entry of `LogSeen` records.
pub open spec fn seen_key(e: (String, String, String, String)) -> ContainerKey {
    (e.0@, e.1@, e.2@)
}

/// The attempts whose static output was already streamed, by container: the
/// signature of the last one reported for each.
pub struct LogSeen {
    entries: Vec<(String, String, String, String)>,
}

impl LogSeen {
    /// No container is recorded twice.
    pub closed spec fn wf(self) -> bool {
        forall|i: int, j: int|
            0 <= i < j < self.entries@.len() ==> seen_key(#[trigger] self.entries@[i]) != seen_key(
                #[trigger] self.entries@[j],
            )
    }

    /// The signature last reported for each container.
    pub closed spec fn view(self) -> Map<ContainerKey, Seq<char>> {
        Map::new(
            |k: ContainerKey| exists|i: int| 0 <= i < self.entries@.len() && seen_key(#[trigger] self.entries@[i]) == k,
            |k: ContainerKey| {
                let i = choose|i: int| 0 <= i < self.entries@.len() && seen_key(#[trigger] self.entries@[i]) == k;
                self.entries@[i].3@
            },
        )
    }

    /// Nothing reported yet.
    pub fn new() -> (r: LogSeen)
        ensures
            r.wf(),
            r.view() == Map::<ContainerKey, Seq<char>>::empty(),
    {
        let r = LogSeen { entries: Vec::new() };
        assert(r.view() =~= Map::<ContainerKey, Seq<char>>::empty());
        r
    }

    /// Whether `signature` is what was last reported for the container; if
    /// not, it is remembered as reported now.
    pub fn already_reported(&mut self, namespace: &str, pod: &str, container: &str, signature: &str) -> (r: bool)
        requires
            old(self).wf(),
        ensures
            final(self).wf(),
            r == spec_already_reported(old(self).view(), (namespace@, pod@, container@), signature@),
            final(self).view() == old(self).view().insert((namespace@, pod@, container@), signature@),
    {
        let ghost k = (namespace@, pod@, container@);
        let ghost m = self.view();
        let n = self.entries.len();
        let mut i: usize = 0;
        while i < n
            invariant
                n == self.entries@.len(),
                i <= n,
                self.wf(),
                m == self.view(),
                m == old(self).view(),
                k == (namespace@, pod@, container@),
                forall|t: int| 0 <= t < i ==> seen_key(#[trigger] self.entries@[t]) != k,
            decreases n - i,
        {
            let ghost ei = self.entries@[i as int];
            let s0 = str_eq(self.entries[i].0.as_str(), namespace);
            let s1 = str_eq(self.entries[i].1.as_str(), pod);
            let s2 = str_eq(self.entries[i].2.as_str(), container);
            assert(s0 == (ei.0@ == namespace@));
            assert(s1 == (ei.1@ == pod@));
            assert(s2 == (ei.2@ == container@));
            assert((s0 && s1 && s2) == (seen_key(ei) == k));
            if s0 && s1 && s2 {
                assert(seen_key(self.entries@[i as int]) == k);
                proof {
                    assert(m.contains_key(k));
                    let c = choose|c: int| 0 <= c < self.entries@.len() && seen_key(#[trigger] self.entries@[c]) == k;
                    if c != i {
                        if c < i {
                            assert(seen_key(self.entries@[c]) != seen_key(self.entries@[i as int]));
                        } else {
                            assert(seen_key(self.entries@[i as int]) != seen_key(self.entries@[c]));
                        }
                    }
                    assert(m[k] == self.entries@[i as int].3@);
                }
                if str_eq(self.entries[i].3.as_str(), signature) {
                    proof {
                        assert(m.insert(k, signature@) =~= m);
                    }
                    return true;
                }
                let ghost before = self.entries@;
                let (a, b, c, _) = self.entries.remove(i);
                self.entries.insert(i, (a, b, c, owned(signature)));
                proof {
                    let e = self.entries@;
                    assert forall|x: int| 0 <= x < e.len() && x != i implies e[x] == before[x] by {}
                    assert forall|x: int, y: int| 0 <= x < y < e.len() implies seen_key(#[trigger] e[x]) != seen_key(#[trigger] e[y]) by {
                        assert(seen_key(e[x]) == seen_key(before[x]));
                        assert(seen_key(e[y]) == seen_key(before[y]));
                    }
                    assert forall|kk: ContainerKey| #[trigger] self.view().contains_key(kk) <==> m.insert(k, signature@).contains_key(kk) by {
                        if m.insert(k, signature@).contains_key(kk) && kk != k {
                            let c = choose|c: int| 0 <= c < before.len() && seen_key(#[trigger] before[c]) == kk;
                            assert(seen_key(e[c]) == kk);
                        }
                        if self.view().contains_key(kk) {
                            let c = choose|c: int| 0 <= c < e.len() && seen_key(#[trigger] e[c]) == kk;
                            assert(seen_key(before[c]) == kk);
                        }
                        if kk == k {
                            assert(seen_key(e[i as int]) == k);
                        }
                    }
                    assert forall|kk: ContainerKey| #[trigger] self.view().contains_key(kk) implies self.view()[kk] == m.insert(k, signature@)[kk] by {
                        let c = choose|c: int| 0 <= c < e.len() && seen_key(#[trigger] e[c]) == kk;
                        assert(seen_key(before[c]) == kk);
                        if kk != k {
                            let c2 = choose|c2: int| 0 <= c2 < before.len() && seen_key(#[trigger] before[c2]) == kk;
                            if c2 != c {
                                if c2 < c {
                                    assert(seen_key(before[c2]) != seen_key(before[c]));
                                } else {
                                    assert(seen_key(before[c]) != seen_key(before[c2]));
                                }
                            }
                        } else {
                            if c != i {
                                if c < i {
                                    assert(seen_key(e[c]) != seen_key(e[i as int]));
                                } else {
                                    assert(seen_key(e[i as int]) != seen_key(e[c]));
                                }
                            }
                        }
                    }
                    assert(self.view() =~= m.insert(k, signature@));
                }
                return false;
            }
            i = i + 1;
        }
        proof {
            assert(!m.contains_key(k)) by {
                if m.contains_key(k) {
                    let c = choose|c: int| 0 <= c < self.entries@.len() && seen_key(#[trigger] self.entries@[c]) == k;
                    assert(seen_key(self.entries@[c]) != k);
                }
            }
        }
        let ghost before = self.entries@;
        self.entries.push((owned(namespace), owned(pod), owned(container), owned(signature)));
        proof {
            let e = self.entries@;
            assert(seen_key(e[n as int]) == k);
            assert forall|x: int, y: int| 0 <= x < y < e.len() implies seen_key(#[trigger] e[x]) != seen_key(#[trigger] e[y]) by {
                if y == n {
                    assert(e[x] == before[x]);
                } else {
                    assert(e[x] == before[x] && e[y] == before[y]);
                }
            }
            assert forall|kk: ContainerKey| #[trigger] self.view().contains_key(kk) <==> m.insert(k, signature@).contains_key(kk) by {
                if m.insert(k, signature@).contains_key(kk) && kk != k {
                    let c = choose|c: int| 0 <= c < before.len() && seen_key(#[trigger] before[c]) == kk;
                    assert(e[c] == before[c]);
                }
                if self.view().contains_key(kk) && kk != k {
                    let c = choose|c: int| 0 <= c < e.len() && seen_key(#[trigger] e[c]) == kk;
                    assert(c != n);
                    assert(e[c] == before[c]);
                }
            }
            assert forall|kk: ContainerKey| #[trigger] self.view().contains_key(kk) implies self.view()[kk] == m.insert(k, signature@)[kk] by {
                let c = choose|c: int| 0 <= c < e.len() && seen_key(#[trigger] e[c]) == kk;
                if kk != k {
                    assert(c != n);
                    assert(e[c] == before[c]);
                    let c2 = choose|c2: int| 0 <= c2 < before.len() && seen_key(#[trigger] before[c2]) == kk;
                    if c2 != c {
                        if c2 < c {
                            assert(seen_key(before[c2]) != seen_key(before[c]));
                        } else {
                            assert(seen_key(before[c]) != seen_key(before[c2]));
                        }
                    }
                } else {
                    if c != n {
                        assert(e[c] == before[c]);
                    }
                }
            }
            assert(self.view() =~= m.insert(k, signature@));
        }
        false
    }
}

/// A signature counts as reported when it is the last one recorded for the
/// container.
pub open spec fn spec_already_reported(m: Map<ContainerKey, Seq<char>>, k: ContainerKey, sig: Seq<char>) -> bool {
    m.contains_key(k) && m[k] == sig
}

/// Once an attempt is reported, asking again for the same attempt finds it
/// reported: a static log is streamed once until the container's attempt
/// changes.
pub proof fn lemma_reported_once(m: Map<ContainerKey, Seq<char>>, k: ContainerKey, sig: Seq<char>)
    ensures
        spec_already_reported(m.insert(k, sig), k, sig),
        m.insert(k, sig).insert(k, sig) == m.insert(k, sig),
{
    assert(m.insert(k, sig).insert(k, sig) =~= m.insert(k, sig));
}

/// The names of a pod's containers under `spec.<field>`, skipping entries
/// without a string name.
pub open spec fn names_in(pod: Json, field: Seq<char>) -> Seq<Seq<char>> {
    match json_get(pod, "spec"@) {
        Some(sp) => match json_get(sp, field) {
            Some(Json::Array(a)) => named(a@),
            _ => Seq::empty(),
        },
        None => Seq::empty(),
    }
}

/// The string `name`s of a list of containers, in order.
pub open spec fn named(cs: Seq<Json>) -> Seq<Seq<char>>
    decreases cs.len(),
{
    if cs.len() == 0 {
        Seq::empty()
    } else {
        let rest = named(cs.drop_last());
        match json_str(json_get(cs.last(), "name"@)) {
            Some(n) => rest.push(n),
            None => rest,
        }
    }
}

/// A pod's containers in the order it runs them: init containers, then the
/// main ones.
pub open spec fn pod_container_names(pod: Json) -> Seq<Seq<char>> {
    names_in(pod, "initContainers"@) + names_in(pod, "containers"@)
}

/// Which of `names` to stream and whether through `previous`, and what is
/// remembered as reported after: running containers are streamed live; a
/// finished attempt is streamed unless it was the last one reported for its
/// container; containers that have not run are skipped.
pub open spec fn spec_log_containers(
    pod: Json,
    namespace: Seq<char>,
    pod_name: Seq<char>,
    names: Seq<Seq<char>>,
    seen: Map<ContainerKey, Seq<char>>,
) -> (Seq<(Seq<char>, bool)>, Map<ContainerKey, Seq<char>>)
    decreases names.len(),
{
    if names.len() == 0 {
        (Seq::empty(), seen)
    } else {
        let (out, m) = spec_log_containers(pod, namespace, pod_name, names.drop_last(), seen);
        let name = names.last();
        match spec_log_plan(pod, name) {
            None => (out, m),
            Some(None) => (out.push((name, false)), m),
            Some(Some((previous, sig))) => {
                let k = (namespace, pod_name, name);
                if spec_already_reported(m, k, sig) {
                    (out, m)
                } else {
                    (out.push((name, previous)), m.insert(k, sig))
                }
            },
        }
    }
}

fn names_of(pod: &Json, field: &str) -> (r: Vec<String>)
    ensures
        string_views(r@) == names_in(*pod, field@),
{
    let mut out: Vec<String> = Vec::new();
    let arr = match pod.get("spec") {
        Some(sp) => match sp.get(field) {
            Some(Json::Array(a)) => a,
            _ => {
                assert(string_views(out@) =~= Seq::<Seq<char>>::empty());
                return out;
            },
        },
        None => {
            assert(string_views(out@) =~= Seq::<Seq<char>>::empty());
            return out;
        },
    };
    let n = arr.len();
    assert(string_views(out@) =~= named(arr@.take(0)));
    for i in 0..n
        invariant
            n == arr@.len(),
            string_views(out@) == named(arr@.take(i as int)),
    {
        proof {
            assert(arr@.take(i + 1).drop_last() =~= arr@.take(i as int));
            assert(arr@.take(i + 1).last() == arr@[i as int]);
        }
        match crate::json::opt_str(arr[i].get("name")) {
            Some(nm) => {
                let ghost before = string_views(out@);
                out.push(owned(nm));
                assert(string_views(out@) =~= before.push(nm@));
            },
            None => {},
        }
    }
    assert(arr@.take(n as int) =~= arr@);
    out
}

/// The containers of a pod to stream logs for, in the order the pod runs
/// them, each with whether its output is reached through `previous`; the
/// finished attempts streamed are remembered in `seen`.
pub fn log_containers(pod: &Json, namespace: &str, pod_name: &str, seen: &mut LogSeen) -> (r: Vec<(String, bool)>)
    requires
        old(seen).wf(),
    ensures
        final(seen).wf(),
        ({
            let (out, m) = spec_log_containers(*pod, namespace@, pod_name@, pod_container_names(*pod), old(seen).view());
            &&& r@.map_values(|p: (String, bool)| (p.0@, p.1)) == out
            &&& final(seen).view() == m
        }),
{
    let mut names = names_of(pod, "initContainers");
    let mut main = names_of(pod, "containers");
    let ghost nv = string_views(names@) + string_views(main@);
    names.append(&mut main);
    assert(string_views(names@) =~= nv);
    let ghost start = seen.view();
    let mut out: Vec<(String, bool)> = Vec::new();
    let n = names.len();
    for i in 0..n
        invariant
            n == names@.len(),
            nv == string_views(names@),
            nv == pod_container_names(*pod),
            seen.wf(),
            ({
                let (o, m) = spec_log_containers(*pod, namespace@, pod_name@, nv.take(i as int), start);
                &&& out@.map_values(|p: (String, bool)| (p.0@, p.1)) == o
                &&& seen.view() == m
            }),
    {
        proof {
            assert(nv.take(i + 1).drop_last() =~= nv.take(i as int));
            assert(nv.take(i + 1).last() == names@[i as int]@);
        }
        let ghost before = out@.map_values(|p: (String, bool)| (p.0@, p.1));
        let name = &names[i];
        match container_log_plan(pod, name.as_str()) {
            LogPlan::Skip => {},
            LogPlan::Live => {
                out.push((owned(name.as_str()), false));
                assert(out@.map_values(|p: (String, bool)| (p.0@, p.1)) =~= before.push((name@, false)));
            },
            LogPlan::Static { previous, signature } => {
                if !seen.already_reported(namespace, pod_name, name.as_str(), signature.as_str()) {
                    out.push((owned(name.as_str()), previous));
                    assert(out@.map_values(|p: (String, bool)| (p.0@, p.1)) =~= before.push((name@, previous)));
                }
            },
        }
    }
    assert(nv.take(n as int) =~= nv);
    out
}

/// The marker that separates a prefix from a log line.
pub const LOG_SEPARATOR: &'static str = " │ ";

/// The prefix of a container's lines when several are merged: its name and
/// the separator; none for a single container.
pub fn container_log_prefix(name: &str, merged: usize) -> (r: String)
    ensures
        r@ == if merged > 1 { name@ + LOG_SEPARATOR@ } else { Seq::empty() },
{
    if merged > 1 {
        let mut out = chars_of(name);
        let sep = chars_of(LOG_SEPARATOR);
        extend_chars(&mut out, sep.as_slice());
        string_of(out.as_slice())
    } else {
        String::new()
    }
}

/// The line shown when a log stream cannot be opened.
pub fn log_failure_line(prefix: &str, message: &str) -> (r: String)
    ensures
        r@ == prefix@ + "[roder] failed to stream logs: "@ + message@,
{
    let mut out = chars_of(prefix);
    let mid = chars_of("[roder] failed to stream logs: ");
    extend_chars(&mut out, mid.as_slice());
    let m = chars_of(message);
    extend_chars(&mut out, m.as_slice());
    string_of(out.as_slice())
}

/// Which container of a workload's pod to stream: the first when the pod
/// has several, else the pod's only one (left to the API).
pub open spec fn spec_workload_container(pod: Json) -> Option<Seq<char>> {
    match json_get(pod, "spec"@) {
        Some(sp) => match json_get(sp, "containers"@) {
            Some(Json::Array(cs)) => if cs.len() > 1 {
                json_str(json_get(cs[0], "name"@))
            } else {
                None
            },
            _ => None,
        },
        None => None,
    }
}

/// The container of a workload's pod whose log is streamed.
pub fn workload_container(pod: &Json) -> (r: Option<String>)
    ensures
        match r {
            Some(s) => spec_workload_container(*pod) == Some(s@),
            None => spec_workload_container(*pod) is None,
        },
{
    match pod.get("spec") {
        Some(sp) => match sp.get("containers") {
            Some(Json::Array(cs)) => if cs.len() > 1 {
                match crate::json::opt_str(cs[0].get("name")) {
                    Some(n) => Some(owned(n)),
                    None => None,
                }
            } else {
                None
            },
            _ => None,
        },
        None => None,
    }
}

/// A pod is active (its log is followed) unless its phase is `Succeeded` or
/// `Failed`; a pod that is not known is taken as active.
pub open spec fn spec_pod_active(pod: Option<Json>) -> bool {
    match pod {
        Some(p) => {
            let phase = match json_get(p, "status"@) {
                Some(st) => json_str(json_get(st, "phase"@)),
                None => None,
            };
            !(phase == Some("Succeeded"@) || phase == Some("Failed"@))
        },
        None => true,
    }
}

/// Whether a pod's log is followed.
pub fn pod_active(pod: Option<&Json>) -> (r: bool)
    ensures
        r == spec_pod_active(deref_opt(pod)),
{
    match pod {
        Some(p) => {
            let phase = match p.get("status") {
                Some(st) => crate::json::opt_str(st.get("phase")),
                None => None,
            };
            match phase {
                Some(ph) => !(str_eq(ph, "Succeeded") || str_eq(ph, "Failed")),
                None => true,
            }
        },
        None => true,
    }
}

} // verus!
