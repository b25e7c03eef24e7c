//! Flux: resolving the source a Kustomization or HelmRelease reconciles against.
use vstd::prelude::*;

use crate::catalog::ResourceKind;
use crate::discovery::Category;
use crate::error::{api_err, is_api_error, K8sError};
use crate::json::{
    json_get, json_path, json_str, jv, jvm, key_views, lemma_jvm, member, opt_str, str_value, Json, JsonV,
    MembersV,
};
use crate::mutations::now_rfc3339;
use crate::text::{chars_of, ends_with, extend_chars, owned, str_ends_with, str_eq, string_of};

verus! {

/// A Flux source reference read from a reconciling object's spec.
pub struct SourceRef {
    pub kind: String,
    pub name: String,
    pub namespace: Option<String>,
}

/// A source reference as (kind, name, namespace).
pub open spec fn source_view(r: SourceRef) -> (Seq<char>, Seq<char>, Option<Seq<char>>) {
    (
        r.kind@,
        r.name@,
        match r.namespace {
            Some(n) => Some(n@),
            None => None,
        },
    )
}

/// The reference at `path` when it names both a kind and a name.
pub open spec fn source_ref_at(spec: Json, path: Seq<Seq<char>>) -> Option<
    (Seq<char>, Seq<char>, Option<Seq<char>>),
> {
    match json_path(spec, path) {
        Some(c) => match (json_str(json_get(c, "kind"@)), json_str(json_get(c, "name"@))) {
            (Some(k), Some(n)) => Some((k, n, json_str(json_get(c, "namespace"@)))),
            _ => None,
        },
        None => None,
    }
}

/// The first complete reference among `spec.sourceRef` (Kustomization),
/// `spec.chart.spec.sourceRef` (templated HelmRelease chart) and `spec.chartRef`
/// (HelmRelease chart reference), in that order.
pub open spec fn spec_extract_source_ref(spec: Json) -> Option<
    (Seq<char>, Seq<char>, Option<Seq<char>>),
> {
    if source_ref_at(spec, seq!["sourceRef"@]) is Some {
        source_ref_at(spec, seq!["sourceRef"@])
    } else if source_ref_at(spec, seq!["chart"@, "spec"@, "sourceRef"@]) is Some {
        source_ref_at(spec, seq!["chart"@, "spec"@, "sourceRef"@])
    } else {
        source_ref_at(spec, seq!["chartRef"@])
    }
}

fn source_ref_at_path(spec: &Json, path: &[&str]) -> (r: Option<SourceRef>)
    ensures
        match r {
            Some(s) => source_ref_at(*spec, key_views(path@)) == Some(source_view(s)),
            None => source_ref_at(*spec, key_views(path@)) is None,
        },
{
    let cur = match spec.path(path) {
        Some(c) => c,
        None => return None,
    };
    let kind = opt_str(cur.get("kind"));
    let name = opt_str(cur.get("name"));
    match (kind, name) {
        (Some(k), Some(n)) => {
            let namespace = match opt_str(cur.get("namespace")) {
                Some(ns) => Some(owned(ns)),
                None => None,
            };
            Some(SourceRef { kind: owned(k), name: owned(n), namespace })
        },
        _ => None,
    }
}

/// Finds the source reference a Flux object reconciles against.
pub fn extract_source_ref(spec: &Json) -> (r: Option<SourceRef>)
    ensures
        match r {
            Some(s) => spec_extract_source_ref(*spec) == Some(source_view(s)),
            None => spec_extract_source_ref(*spec) is None,
        },
{
    let p1: [&str; 1] = ["sourceRef"];
    let p2: [&str; 3] = ["chart", "spec", "sourceRef"];
    let p3: [&str; 1] = ["chartRef"];
    assert(key_views(p1@) =~= seq!["sourceRef"@]);
    assert(key_views(p2@) =~= seq!["chart"@, "spec"@, "sourceRef"@]);
    assert(key_views(p3@) =~= seq!["chartRef"@]);
    if let Some(r) = source_ref_at_path(spec, &p1) {
        return Some(r);
    }
    if let Some(r) = source_ref_at_path(spec, &p2) {
        return Some(r);
    }
    source_ref_at_path(spec, &p3)
}

/// The annotation that asks Flux to reconcile an object.
pub const REQUESTED_AT: &'static str = "reconcile.fluxcd.io/requestedAt";

/// The annotation that asks Flux for a one-off forced install or upgrade.
pub const FORCE_AT: &'static str = "reconcile.fluxcd.io/forceAt";

/// The annotation that asks Flux to reset a release's failure count.
pub const RESET_AT: &'static str = "reconcile.fluxcd.io/resetAt";

/// The annotations of a reconcile request made at `ts`: `requestedAt`
/// always, `forceAt` and `resetAt` as asked, each set to `ts` and in key
/// order.
pub open spec fn reconcile_annotations(ts: Seq<char>, force: bool, reset: bool) -> MembersV {
    let requested = seq![(REQUESTED_AT@, JsonV::Str(ts))];
    let forced = if force {
        seq![(FORCE_AT@, JsonV::Str(ts))] + requested
    } else {
        requested
    };
    if reset {
        forced.push((RESET_AT@, JsonV::Str(ts)))
    } else {
        forced
    }
}

/// A reconcile request always asks for a reconcile at `ts`, asks for a forced
/// run exactly when `force` is set and for a reset exactly when `reset` is,
/// each at `ts`, and sets nothing else.
pub proof fn lemma_reconcile_annotations_as_asked(ts: Seq<char>, force: bool, reset: bool)
    ensures
        member(reconcile_annotations(ts, force, reset), REQUESTED_AT@) == Some(JsonV::Str(ts)),
        member(reconcile_annotations(ts, force, reset), FORCE_AT@) == (if force { Some(JsonV::Str(ts)) } else { None }),
        member(reconcile_annotations(ts, force, reset), RESET_AT@) == (if reset { Some(JsonV::Str(ts)) } else { None }),
        reconcile_annotations(ts, force, reset).len() == 1 + (if force { 1int } else { 0 }) + (if reset { 1int } else { 0 }),
{
    reveal_strlit("reconcile.fluxcd.io/requestedAt");
    reveal_strlit("reconcile.fluxcd.io/forceAt");
    reveal_strlit("reconcile.fluxcd.io/resetAt");
    assert(REQUESTED_AT@[20] != FORCE_AT@[20]);
    assert(RESET_AT@[20] != FORCE_AT@[20]);
    assert(REQUESTED_AT@[22] != RESET_AT@[22]);
    let a = reconcile_annotations(ts, force, reset);
    let keys = seq![REQUESTED_AT@, FORCE_AT@, RESET_AT@];
    let a1 = a.drop_first();
    let a2 = a1.drop_first();
    let a3 = a2.drop_first();
    assert forall|j: int| 0 <= j < 3 implies member(Seq::<(Seq<char>, JsonV)>::empty(), #[trigger] keys[j]) is None by {}
    if a.len() > 2 {
        assert(a3.len() == 0);
    }
    assert forall|j: int| 0 <= j < 3 implies member(a, #[trigger] keys[j]) == (if a[0].0 == keys[j] {
        Some(a[0].1)
    } else if a.len() > 1 && a1[0].0 == keys[j] {
        Some(a1[0].1)
    } else if a.len() > 2 && a2[0].0 == keys[j] {
        Some(a2[0].1)
    } else {
        None
    }) by {
        if a.len() > 1 && a[0].0 != keys[j] {
            assert(member(a, keys[j]) == member(a1, keys[j]));
            if a.len() > 2 && a1[0].0 != keys[j] {
                assert(member(a1, keys[j]) == member(a2, keys[j]));
                if a2[0].0 != keys[j] {
                    assert(member(a2, keys[j]) == member(a3, keys[j]));
                }
            } else if a.len() == 2 && a1[0].0 != keys[j] {
                assert(member(a1, keys[j]) == member(a2, keys[j]));
                assert(a2.len() == 0);
            }
        } else if a.len() == 1 && a[0].0 != keys[j] {
            assert(member(a, keys[j]) == member(a1, keys[j]));
            assert(a1.len() == 0);
        }
    }
    assert(keys[0] == REQUESTED_AT@ && keys[1] == FORCE_AT@ && keys[2] == RESET_AT@);
}

/// The merge patch of a reconcile request made at `ts`: only
/// `metadata.annotations`.
pub open spec fn spec_reconcile_patch(ts: Seq<char>, force: bool, reset: bool) -> JsonV {
    JsonV::Object(
        seq![("metadata"@, JsonV::Object(seq![("annotations"@, JsonV::Object(reconcile_annotations(ts, force, reset)))]))],
    )
}

/// The merge patch that asks Flux to reconcile an object at `ts`
/// (`flux reconcile [--force] [--reset]`).
pub fn reconcile_patch_at(ts: &str, force: bool, reset: bool) -> (r: Json)
    ensures
        jv(r) == spec_reconcile_patch(ts@, force, reset),
{
    let mut annotations: Vec<(String, Json)> = Vec::new();
    if force {
        annotations.push((owned(FORCE_AT), str_value(ts)));
    }
    annotations.push((owned(REQUESTED_AT), str_value(ts)));
    if reset {
        annotations.push((owned(RESET_AT), str_value(ts)));
    }
    proof {
        lemma_jvm(annotations@);
        assert(jvm(annotations@) =~= reconcile_annotations(ts@, force, reset));
    }
    let metadata = vec![(owned("annotations"), Json::Object(annotations))];
    proof {
        lemma_jvm(metadata@);
    }
    let patch = vec![(owned("metadata"), Json::Object(metadata))];
    proof {
        lemma_jvm(patch@);
        assert(jvm(metadata@) =~= seq![("annotations"@, JsonV::Object(reconcile_annotations(ts@, force, reset)))]);
        assert(jvm(patch@) =~= seq![("metadata"@, JsonV::Object(jvm(metadata@)))]);
    }
    Json::Object(patch)
}

/// The merge patch that asks Flux to reconcile an object now: the patch of a
/// request at the clock's current RFC 3339 time.
pub fn reconcile_patch(force: bool, reset: bool) -> (r: Json)
    ensures
        exists|ts: Seq<char>| jv(r) == #[trigger] spec_reconcile_patch(ts, force, reset),
{
    let ts = now_rfc3339();
    let r = reconcile_patch_at(ts.as_str(), force, reset);
    assert(jv(r) == spec_reconcile_patch(ts@, force, reset));
    r
}

/// The first catalog kind of a Flux group (one ending in `fluxcd.io`) named
/// `kind`.
pub open spec fn flux_kind_index(catalog: Seq<ResourceKind>, kind: Seq<char>) -> Option<int>
    decreases catalog.len(),
{
    if catalog.len() == 0 {
        None
    } else if ends_with(catalog[0].group@, "fluxcd.io"@) && catalog[0].kind@ == kind {
        Some(0)
    } else {
        match flux_kind_index(catalog.drop_first(), kind) {
            Some(i) => Some(i + 1),
            None => None,
        }
    }
}

proof fn lemma_flux_kind_index_bounds(catalog: Seq<ResourceKind>, kind: Seq<char>)
    ensures
        match flux_kind_index(catalog, kind) {
            Some(i) => 0 <= i < catalog.len() && catalog[i].kind@ == kind,
            None => true,
        },
    decreases catalog.len(),
{
    if catalog.len() > 0 && !(ends_with(catalog[0].group@, "fluxcd.io"@) && catalog[0].kind@ == kind) {
        lemma_flux_kind_index_bounds(catalog.drop_first(), kind);
    }
}

/// Resolves a source's kind to the catalog's Flux kind of that name, as
/// Flux's controllers do without an `apiVersion`.
pub fn flux_kind_by_name(catalog: &[ResourceKind], kind: &str) -> (r: Option<usize>)
    ensures
        match r {
            Some(i) => flux_kind_index(catalog@, kind@) == Some(i as int),
            None => flux_kind_index(catalog@, kind@) is None,
        },
{
    let n = catalog.len();
    assert(catalog@.skip(0) =~= catalog@);
    proof {
        reveal_strlit("fluxcd.io");
    }
    for i in 0..n
        invariant
            n == catalog@.len(),
            flux_kind_index(catalog@, kind@) == match flux_kind_index(catalog@.skip(i as int), kind@) {
                Some(j) => Some(j + i),
                None => None,
            },
    {
        assert(catalog@.skip(i as int).drop_first() =~= catalog@.skip(i + 1));
        assert(catalog@.skip(i as int)[0] == catalog@[i as int]);
        if str_ends_with(catalog[i].group.as_str(), "fluxcd.io") && str_eq(catalog[i].kind.as_str(), kind) {
            return Some(i);
        }
    }
    None
}

/// The object `flux reconcile --with-source` reconciles first, as (catalog
/// key, namespace, name): the source the object's spec references, resolved
/// by kind among the Flux kinds, in the source's own namespace or else the
/// object's.
pub open spec fn spec_source_target(
    catalog: Seq<ResourceKind>,
    object: Json,
    namespace: Option<Seq<char>>,
) -> Result<(Seq<char>, Option<Seq<char>>, Seq<char>), Seq<char>> {
    match json_get(object, "spec"@) {
        None => Err("resource has no spec"@),
        Some(spec) => match spec_extract_source_ref(spec) {
            None => Err("resource has no sourceRef to reconcile"@),
            Some((kind, name, source_ns)) => match flux_kind_index(catalog, kind) {
                None => Err("no Flux source kind found: "@ + kind),
                Some(i) => Ok((
                    catalog[i].key@,
                    match source_ns {
                        Some(n) => Some(n),
                        None => namespace,
                    },
                    name,
                )),
            },
        },
    }
}

pub open spec fn target_outcome(
    r: Result<(String, Option<String>, String), K8sError>,
    s: Result<(Seq<char>, Option<Seq<char>>, Seq<char>), Seq<char>>,
) -> bool {
    match r {
        Ok((key, ns, name)) => s == Ok::<(Seq<char>, Option<Seq<char>>, Seq<char>), Seq<char>>((
            key@,
            match ns {
                Some(n) => Some(n@),
                None => None,
            },
            name@,
        )),
        Err(e) => s is Err && is_api_error(e, s->Err_0),
    }
}

fn concat(a: &str, b: &str) -> (r: String)
    ensures
        r@ == a@ + b@,
{
    let mut out = chars_of(a);
    let bc = chars_of(b);
    extend_chars(&mut out, bc.as_slice());
    string_of(out.as_slice())
}

/// The source `flux reconcile --with-source` reconciles before the object
/// itself, from the object as read from the cluster.
pub fn source_target(catalog: &[ResourceKind], object: &Json, namespace: Option<&str>) -> (r: Result<
    (String, Option<String>, String),
    K8sError,
>)
    ensures
        target_outcome(
            r,
            spec_source_target(
                catalog@,
                *object,
                match namespace {
                    Some(n) => Some(n@),
                    None => None,
                },
            ),
        ),
{
    let spec = match object.get("spec") {
        Some(s) => s,
        None => return Err(api_err("resource has no spec")),
    };
    let source = match extract_source_ref(spec) {
        Some(s) => s,
        None => return Err(api_err("resource has no sourceRef to reconcile")),
    };
    proof {
        lemma_flux_kind_index_bounds(catalog@, source.kind@);
    }
    let i = match flux_kind_by_name(catalog, source.kind.as_str()) {
        Some(i) => i,
        None => {
            let msg = concat("no Flux source kind found: ", source.kind.as_str());
            return Err(K8sError::Api(msg));
        },
    };
    let ns = match source.namespace {
        Some(n) => Some(n),
        None => match namespace {
            Some(n) => Some(owned(n)),
            None => None,
        },
    };
    Ok((owned(catalog[i].key.as_str()), ns, source.name))
}

/// The positions of the catalog's Flux kinds, in catalog order: what
/// `flux reconcile --all` annotates.
pub fn flux_kinds(catalog: &[ResourceKind]) -> (r: Vec<usize>)
    ensures
        r@ == Seq::new(catalog@.len(), |i: int| i).filter(|i: int| catalog@[i].category is Flux).map_values(|i: int| i as usize),
{
    let n = catalog.len();
    let ghost all = Seq::new(catalog@.len(), |i: int| i);
    let ghost keep = |i: int| catalog@[i].category is Flux;
    let mut out: Vec<usize> = Vec::new();
    for i in 0..n
        invariant
            n == catalog@.len(),
            all == Seq::new(catalog@.len(), |i: int| i),
            keep == (|i: int| catalog@[i].category is Flux),
            out@ == all.take(i as int).filter(keep).map_values(|i: int| i as usize),
    {
        proof {
            assert(all.take(i + 1).drop_last() =~= all.take(i as int));
            assert(all.take(i + 1).last() == i as int);
            all.take(i as int).lemma_filter_push(i as int, keep);
            assert(all.take(i + 1) =~= all.take(i as int).push(i as int));
        }
        if matches!(catalog[i].category, Category::Flux) {
            out.push(i);
            assert(out@ =~= all.take(i + 1).filter(keep).map_values(|i: int| i as usize));
        } else {
            assert(out@ =~= all.take(i + 1).filter(keep).map_values(|i: int| i as usize));
        }
    }
    assert(all.take(n as int) =~= all);
    out
}

} // verus!
