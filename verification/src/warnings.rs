//! The dashboard's recent warnings: cluster Warning events, newest first.
use vstd::prelude::*;

use crate::alerts::opt_lt;
use crate::json::{json_path, json_str, key_views, opt_str, Json};
use crate::sort::{
    in_order, insert_index, lemma_in_order_take, lemma_lex_irreflexive, lemma_lex_transitive,
    lemma_sort_by_in_order, lemma_sort_by_permutes, sort_by, str_lt, strict_order,
};
use crate::text::owned;
use crate::tree::opt_view;

verus! {

/// How many warnings the dashboard shows.
pub const MAX_WARNINGS: usize = 8;

/// A Warning event as the dashboard shows it.
pub struct OverviewWarning {
    pub event_name: String,
    pub namespace: Option<String>,
    pub involved_kind: String,
    pub involved_name: String,
    pub reason: String,
    pub message: String,
    /// The component that reported it.
    pub source: String,
    /// When it was last seen.
    pub timestamp: Option<String>,
    /// How often it was seen (at least once).
    pub count: u32,
}

/// A warning as plain values, in field order.
pub type WarningView = (
    Seq<char>,
    Option<Seq<char>>,
    Seq<char>,
    Seq<char>,
    Seq<char>,
    Seq<char>,
    Seq<char>,
    Option<Seq<char>>,
    u32,
);

pub open spec fn warning_view(w: OverviewWarning) -> WarningView {
    (
        w.event_name@,
        opt_view(w.namespace),
        w.involved_kind@,
        w.involved_name@,
        w.reason@,
        w.message@,
        w.source@,
        opt_view(w.timestamp),
        w.count,
    )
}

pub open spec fn warning_views(v: Seq<OverviewWarning>) -> Seq<WarningView> {
    v.map_values(|w: OverviewWarning| warning_view(w))
}

/// The string at `path` of an event, if any.
pub open spec fn field(e: Json, path: Seq<Seq<char>>) -> Option<Seq<char>> {
    json_str(json_path(e, path))
}

/// The string at `path`, or empty.
pub open spec fn field_or_empty(e: Json, path: Seq<Seq<char>>) -> Seq<char> {
    match field(e, path) {
        Some(s) => s,
        None => Seq::empty(),
    }
}

/// The first of two optional strings that is present.
pub open spec fn either(a: Option<Seq<char>>, b: Option<Seq<char>>) -> Option<Seq<char>> {
    match a {
        Some(x) => Some(x),
        None => b,
    }
}

/// The integer at `path` of an event, if any.
pub open spec fn int_field(e: Json, path: Seq<Seq<char>>) -> Option<i64> {
    match json_path(e, path) {
        Some(Json::Number(_, v)) => v,
        _ => None,
    }
}

/// A count read as at least one; counts beyond 32 bits saturate.
pub open spec fn count_of(c: Option<i64>) -> u32 {
    match c {
        Some(v) => if v < 1 {
            1
        } else if v > u32::MAX {
            u32::MAX
        } else {
            v as u32
        },
        None => 1,
    }
}

/// The dashboard's view of a Warning event (as its JSON document): when it
/// was last seen by its series, else its event time, else its last
/// timestamp; how often by its series, else its own count; reported by its
/// reporting component, else its source component; in its own namespace,
/// else its object's.
pub open spec fn spec_event_warning(e: Json) -> WarningView {
    let series_count = int_field(e, seq!["series"@, "count"@]);
    (
        field_or_empty(e, seq!["metadata"@, "name"@]),
        either(field(e, seq!["metadata"@, "namespace"@]), field(e, seq!["involvedObject"@, "namespace"@])),
        field_or_empty(e, seq!["involvedObject"@, "kind"@]),
        field_or_empty(e, seq!["involvedObject"@, "name"@]),
        field_or_empty(e, seq!["reason"@]),
        field_or_empty(e, seq!["message"@]),
        match either(field(e, seq!["reportingComponent"@]), field(e, seq!["source"@, "component"@])) {
            Some(s) => s,
            None => Seq::empty(),
        },
        either(
            field(e, seq!["series"@, "lastObservedTime"@]),
            either(field(e, seq!["eventTime"@]), field(e, seq!["lastTimestamp"@])),
        ),
        count_of(
            match series_count {
                Some(c) => Some(c),
                None => int_field(e, seq!["count"@]),
            },
        ),
    )
}

fn string_at(e: &Json, path: &[&str]) -> (r: Option<String>)
    ensures
        opt_view(r) == field(*e, key_views(path@)),
{
    match opt_str(e.path(path)) {
        Some(s) => Some(owned(s)),
        None => None,
    }
}

fn string_or_empty(e: &Json, path: &[&str]) -> (r: String)
    ensures
        r@ == field_or_empty(*e, key_views(path@)),
{
    match opt_str(e.path(path)) {
        Some(s) => owned(s),
        None => {
            proof {
                reveal_strlit("");
                assert(""@ =~= Seq::<char>::empty());
            }
            owned("")
        },
    }
}

fn int_at(e: &Json, path: &[&str]) -> (r: Option<i64>)
    ensures
        r == int_field(*e, key_views(path@)),
{
    match e.path(path) {
        Some(Json::Number(_, v)) => *v,
        _ => None,
    }
}

fn or_else(a: Option<String>, b: Option<String>) -> (r: Option<String>)
    ensures
        opt_view(r) == either(opt_view(a), opt_view(b)),
{
    match a {
        Some(x) => Some(x),
        None => b,
    }
}

/// The dashboard's view of a Warning event.
pub fn event_warning(e: &Json) -> (r: OverviewWarning)
    ensures
        warning_view(r) == spec_event_warning(*e),
{
    let name_p = ["metadata", "name"];
    assert(key_views(name_p@) =~= seq!["metadata"@, "name"@]);
    let ns_p = ["metadata", "namespace"];
    assert(key_views(ns_p@) =~= seq!["metadata"@, "namespace"@]);
    let ins_p = ["involvedObject", "namespace"];
    assert(key_views(ins_p@) =~= seq!["involvedObject"@, "namespace"@]);
    let ik_p = ["involvedObject", "kind"];
    assert(key_views(ik_p@) =~= seq!["involvedObject"@, "kind"@]);
    let in_p = ["involvedObject", "name"];
    assert(key_views(in_p@) =~= seq!["involvedObject"@, "name"@]);
    let reason_p = ["reason"];
    assert(key_views(reason_p@) =~= seq!["reason"@]);
    let message_p = ["message"];
    assert(key_views(message_p@) =~= seq!["message"@]);
    let rc_p = ["reportingComponent"];
    assert(key_views(rc_p@) =~= seq!["reportingComponent"@]);
    let sc_p = ["source", "component"];
    assert(key_views(sc_p@) =~= seq!["source"@, "component"@]);
    let lo_p = ["series", "lastObservedTime"];
    assert(key_views(lo_p@) =~= seq!["series"@, "lastObservedTime"@]);
    let et_p = ["eventTime"];
    assert(key_views(et_p@) =~= seq!["eventTime"@]);
    let lt_p = ["lastTimestamp"];
    assert(key_views(lt_p@) =~= seq!["lastTimestamp"@]);
    let scount_p = ["series", "count"];
    assert(key_views(scount_p@) =~= seq!["series"@, "count"@]);
    let count_p = ["count"];
    assert(key_views(count_p@) =~= seq!["count"@]);
    let source = match or_else(string_at(e, &rc_p), string_at(e, &sc_p)) {
        Some(s) => s,
        None => {
            proof {
                reveal_strlit("");
                assert(""@ =~= Seq::<char>::empty());
            }
            owned("")
        },
    };
    let raw_count = match int_at(e, &scount_p) {
        Some(c) => Some(c),
        None => int_at(e, &count_p),
    };
    let count: u32 = match raw_count {
        Some(v) => if v < 1 {
            1
        } else if v > u32::MAX as i64 {
            u32::MAX
        } else {
            v as u32
        },
        None => 1,
    };
    OverviewWarning {
        event_name: string_or_empty(e, &name_p),
        namespace: or_else(string_at(e, &ns_p), string_at(e, &ins_p)),
        involved_kind: string_or_empty(e, &ik_p),
        involved_name: string_or_empty(e, &in_p),
        reason: string_or_empty(e, &reason_p),
        message: string_or_empty(e, &message_p),
        source,
        timestamp: or_else(string_at(e, &lo_p), or_else(string_at(e, &et_p), string_at(e, &lt_p))),
        count,
    }
}

/// One warning was seen later than another; one without a timestamp is
/// the oldest.
pub open spec fn newer() -> spec_fn(WarningView, WarningView) -> bool {
    |a: WarningView, b: WarningView| opt_lt(b.7, a.7)
}

/// Warnings newest first, keeping the order of those seen at the same time
/// (a stable sort on the timestamp, descending; no timestamp is oldest).
pub open spec fn newest_first(s: Seq<WarningView>) -> Seq<WarningView> {
    sort_by(s, newer())
}

/// The dashboard's warnings of a list of Warning events: the newest
/// `MAX_WARNINGS`, newest first.
pub open spec fn spec_recent_warnings(events: Seq<Json>) -> Seq<WarningView> {
    let sorted = newest_first(events.map_values(|e: Json| spec_event_warning(e)));
    if sorted.len() > MAX_WARNINGS {
        sorted.take(MAX_WARNINGS as int)
    } else {
        sorted
    }
}

fn opt_string_lt(a: &Option<String>, b: &Option<String>) -> (r: bool)
    ensures
        r == opt_lt(opt_view(*a), opt_view(*b)),
{
    match (a, b) {
        (None, Some(_)) => true,
        (Some(x), Some(y)) => str_lt(x.as_str(), y.as_str()),
        _ => false,
    }
}

/// The dashboard's recent warnings.
pub fn recent_warnings(events: &[Json]) -> (r: Vec<OverviewWarning>)
    ensures
        warning_views(r@) == spec_recent_warnings(events@),
{
    let ghost all = events@.map_values(|e: Json| spec_event_warning(e));
    let mut out: Vec<OverviewWarning> = Vec::new();
    assert(warning_views(out@) =~= newest_first(all.take(0)));
    let n = events.len();
    for k in 0..n
        invariant
            n == events@.len(),
            all == events@.map_values(|e: Json| spec_event_warning(e)),
            warning_views(out@) == newest_first(all.take(k as int)),
    {
        let item = event_warning(&events[k]);
        let ghost iv = warning_view(item);
        assert(iv == all[k as int]);
        let ghost ov = warning_views(out@);
        let mut p: usize = 0;
        assert(ov.skip(0) == ov);
        while p < out.len() && !opt_string_lt(&out[p].timestamp, &item.timestamp)
            invariant
                p <= out@.len(),
                ov == warning_views(out@),
                iv == warning_view(item),
                insert_index(ov, iv, newer()) == p + insert_index(ov.skip(p as int), iv, newer()),
            decreases out@.len() - p,
        {
            assert(ov.skip(p as int).drop_first() =~= ov.skip(p + 1));
            assert(ov.skip(p as int)[0] == ov[p as int]);
            p = p + 1;
        }
        proof {
            if p < out.len() {
                assert(ov.skip(p as int)[0] == ov[p as int]);
            }
        }
        out.insert(p, item);
        proof {
            assert(all.take(k + 1).drop_last() =~= all.take(k as int));
            assert(all.take(k + 1).last() == iv);
            assert(warning_views(out@) =~= ov.insert(p as int, iv));
        }
    }
    assert(all.take(n as int) =~= all);
    if out.len() > MAX_WARNINGS {
        out.truncate(MAX_WARNINGS);
        proof {
            assert(warning_views(out@) =~= newest_first(all).take(MAX_WARNINGS as int));
        }
    }
    out
}

/// Seeing later is a strict order on warnings.
pub proof fn lemma_newer_is_strict()
    ensures
        strict_order(newer()),
{
    assert forall|a: WarningView| !#[trigger] newer()(a, a) by {
        if let Some(t) = a.7 {
            lemma_lex_irreflexive(t);
        }
    }
    assert forall|a: WarningView, b: WarningView, c: WarningView|
        #[trigger] newer()(a, b) && #[trigger] newer()(b, c) implies newer()(a, c) by {
        if let (Some(x), Some(y), Some(z)) = (c.7, b.7, a.7) {
            lemma_lex_transitive(x, y, z);
        }
    }
}

/// The dashboard's recent warnings are newest first, at most
/// `MAX_WARNINGS` of them, and each is the warning of one of the events.
pub proof fn lemma_recent_warnings_newest_first(events: Seq<Json>)
    ensures
        in_order(spec_recent_warnings(events), newer()),
        spec_recent_warnings(events).len() <= MAX_WARNINGS,
        spec_recent_warnings(events).len() == if events.len() > MAX_WARNINGS { MAX_WARNINGS as int } else { events.len() as int },
        forall|i: int| 0 <= i < spec_recent_warnings(events).len() ==> exists|k: int|
            0 <= k < events.len() && #[trigger] spec_recent_warnings(events)[i] == spec_event_warning(events[k]),
{
    broadcast use vstd::seq_lib::group_to_multiset_ensures;
    let all = events.map_values(|e: Json| spec_event_warning(e));
    let sorted = newest_first(all);
    lemma_newer_is_strict();
    lemma_sort_by_in_order(all, newer());
    lemma_sort_by_permutes(all, newer());
    let r = spec_recent_warnings(events);
    if sorted.len() > MAX_WARNINGS {
        lemma_in_order_take(sorted, MAX_WARNINGS as int, newer());
    }
    assert forall|i: int| 0 <= i < r.len() implies exists|k: int|
        0 <= k < events.len() && #[trigger] r[i] == spec_event_warning(events[k]) by {
        assert(r[i] == sorted[i]);
        assert(sorted.to_multiset().count(sorted[i]) > 0);
        assert(all.contains(sorted[i]));
        let k = choose|k: int| 0 <= k < all.len() && all[k] == sorted[i];
        assert(all[k] == spec_event_warning(events[k]));
    }
}

} // verus!
