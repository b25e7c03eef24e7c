//! References from one resource to others, read from the resource's JSON.
use vstd::prelude::*;

use crate::json::{
    deref_opt, json_array, json_get, json_nonempty_str, json_path, json_str, key_views,
    opt_array, opt_nonempty_str, opt_str, Json,
};
use crate::text::{owned, str_eq};
use crate::tree::{opt_view, spec_flux_group, flux_group, ResourceRef, ResourceTreeRelation};

verus! {

/// A reference to another object by group, kind, name and namespace.
pub struct NamedReference {
    pub group: String,
    pub kind: String,
    pub name: String,
    pub namespace: Option<String>,
}

/// A reference as (group, kind, name, namespace).
pub type RefView = (Seq<char>, Seq<char>, Seq<char>, Option<Seq<char>>);

/// The view of a reference.
pub open spec fn ref_view(r: NamedReference) -> RefView {
    (r.group@, r.kind@, r.name@, opt_view(r.namespace))
}

/// The views of references.
pub open spec fn ref_views(v: Seq<NamedReference>) -> Seq<RefView> {
    v.map_values(|r: NamedReference| ref_view(r))
}

/// `{name, group?, kind?, namespace?}` with defaults for what is missing: a missing
/// group takes `default_group`, an empty or missing kind `default_kind`, an empty or
/// missing namespace `default_namespace`. No reference without a non-empty name.
pub open spec fn spec_named_reference(
    value: Json,
    default_group: Seq<char>,
    default_kind: Seq<char>,
    default_namespace: Option<Seq<char>>,
) -> Option<RefView> {
    match json_nonempty_str(json_get(value, "name"@)) {
        None => None,
        Some(name) => Some(
            (
                match json_str(json_get(value, "group"@)) {
                    Some(g) => g,
                    None => default_group,
                },
                match json_nonempty_str(json_get(value, "kind"@)) {
                    Some(k) => k,
                    None => default_kind,
                },
                name,
                match json_nonempty_str(json_get(value, "namespace"@)) {
                    Some(n) => Some(n),
                    None => default_namespace,
                },
            ),
        ),
    }
}

/// Copies an optional string.
pub fn opt_owned(o: Option<&str>) -> (r: Option<String>)
    ensures
        opt_view(r) == match o {
            Some(s) => Some(s@),
            None => None::<Seq<char>>,
        },
{
    match o {
        Some(s) => Some(owned(s)),
        None => None,
    }
}

/// Reads a reference object, applying the given defaults.
pub fn named_reference(
    value: &Json,
    default_group: &str,
    default_kind: &str,
    default_namespace: Option<&str>,
) -> (r: Option<NamedReference>)
    ensures
        match r {
            Some(x) => spec_named_reference(
                *value,
                default_group@,
                default_kind@,
                match default_namespace {
                    Some(n) => Some(n@),
                    None => None,
                },
            ) == Some(ref_view(x)),
            None => spec_named_reference(
                *value,
                default_group@,
                default_kind@,
                match default_namespace {
                    Some(n) => Some(n@),
                    None => None,
                },
            ) is None,
        },
{
    let name = match opt_nonempty_str(value.get("name")) {
        Some(n) => n,
        None => return None,
    };
    let group = match opt_str(value.get("group")) {
        Some(g) => g,
        None => default_group,
    };
    let kind = match opt_nonempty_str(value.get("kind")) {
        Some(k) => k,
        None => default_kind,
    };
    let namespace = match opt_nonempty_str(value.get("namespace")) {
        Some(n) => Some(owned(n)),
        None => opt_owned(default_namespace),
    };
    Some(NamedReference { group: owned(group), kind: owned(kind), name: owned(name), namespace })
}

/// The references read from each element of `items`, skipping elements without a name.
pub open spec fn refs_from(
    items: Seq<Json>,
    dg: Seq<char>,
    dk: Seq<char>,
    dns: Option<Seq<char>>,
) -> Seq<RefView>
    decreases items.len(),
{
    if items.len() == 0 {
        Seq::empty()
    } else {
        let prev = refs_from(items.drop_last(), dg, dk, dns);
        match spec_named_reference(items.last(), dg, dk, dns) {
            Some(r) => prev.push(r),
            None => prev,
        }
    }
}

/// Some element of `items` reads as reference `r`.
pub open spec fn read_from_some_item(items: Seq<Json>, dg: Seq<char>, dk: Seq<char>, dns: Option<Seq<char>>, r: RefView) -> bool {
    exists|i: int| 0 <= i < items.len() && spec_named_reference(#[trigger] items[i], dg, dk, dns) == Some(r)
}

/// Reading a list of reference objects keeps exactly the ones that name
/// something: every element with a non-empty name gives its reference, every
/// reference comes from an element and has a non-empty name, and there are
/// never more references than elements.
pub proof fn lemma_refs_from_items(items: Seq<Json>, dg: Seq<char>, dk: Seq<char>, dns: Option<Seq<char>>)
    ensures
        refs_from(items, dg, dk, dns).len() <= items.len(),
        forall|i: int| 0 <= i < items.len() && (#[trigger] spec_named_reference(items[i], dg, dk, dns)) is Some
            ==> refs_from(items, dg, dk, dns).contains(spec_named_reference(items[i], dg, dk, dns)->0),
        forall|k: int| 0 <= k < refs_from(items, dg, dk, dns).len() ==> (#[trigger] refs_from(items, dg, dk, dns)[k]).2.len() > 0
            && read_from_some_item(items, dg, dk, dns, refs_from(items, dg, dk, dns)[k]),
    decreases items.len(),
{
    if items.len() > 0 {
        let pre = items.drop_last();
        lemma_refs_from_items(pre, dg, dk, dns);
        let prev = refs_from(pre, dg, dk, dns);
        let cur = refs_from(items, dg, dk, dns);
        let n = items.len() - 1;
        assert forall|i: int| 0 <= i < n implies #[trigger] items[i] == pre[i] by {}
        assert forall|i: int| 0 <= i < items.len() && (#[trigger] spec_named_reference(items[i], dg, dk, dns)) is Some
            implies cur.contains(spec_named_reference(items[i], dg, dk, dns)->0) by {
            let x = spec_named_reference(items[i], dg, dk, dns)->0;
            if i < n {
                assert(spec_named_reference(pre[i], dg, dk, dns) is Some);
                let j = choose|j: int| 0 <= j < prev.len() && prev[j] == x;
                assert(cur[j] == x);
            } else {
                assert(cur[cur.len() - 1] == x);
            }
        }
        assert forall|k: int| 0 <= k < cur.len() implies (#[trigger] cur[k]).2.len() > 0
            && read_from_some_item(items, dg, dk, dns, cur[k]) by {
            if k < prev.len() {
                assert(cur[k] == prev[k]);
                assert(read_from_some_item(pre, dg, dk, dns, prev[k]));
                let i = choose|i: int| 0 <= i < pre.len() && spec_named_reference(#[trigger] pre[i], dg, dk, dns) == Some(prev[k]);
                assert(items[i] == pre[i]);
            } else {
                assert(spec_named_reference(items[n], dg, dk, dns) == Some(cur[k]));
            }
        }
    }
}

/// The namespace of a resource as a view.
pub open spec fn ns_view(resource: ResourceRef) -> Option<Seq<char>> {
    opt_view(resource.namespace)
}

/// The elements of the array at `path`, or none.
pub open spec fn array_at(data: Json, path: Seq<Seq<char>>) -> Seq<Json> {
    match json_array(json_path(data, path)) {
        Some(a) => a,
        None => Seq::empty(),
    }
}

/// Appends the references read from `items`.
pub fn push_refs(
    out: &mut Vec<NamedReference>,
    items: &[Json],
    dg: &str,
    dk: &str,
    dns: Option<&str>,
)
    ensures
        ref_views(final(out)@) == ref_views(old(out)@) + refs_from(
            items@,
            dg@,
            dk@,
            match dns {
                Some(n) => Some(n@),
                None => None,
            },
        ),
{
    let ghost dnv = match dns {
        Some(n) => Some(n@),
        None => None::<Seq<char>>,
    };
    let n = items.len();
    for i in 0..n
        invariant
            n == items@.len(),
            dnv == match dns {
                Some(n) => Some(n@),
                None => None::<Seq<char>>,
            },
            ref_views(out@) == ref_views(old(out)@) + refs_from(items@.take(i as int), dg@, dk@, dnv),
    {
        assert(items@.take(i + 1).drop_last() == items@.take(i as int));
        if let Some(r) = named_reference(&items[i], dg, dk, dns) {
            let ghost before = out@;
            let ghost rv = ref_view(r);
            out.push(r);
            assert(ref_views(out@) =~= ref_views(before).push(rv));
        }
    }
    assert(items@.take(n as int) == items@);
}

/// The elements of the array at `path` in `data`.
pub fn array_at_path<'a>(data: &'a Json, path: &[&str]) -> (r: &'a [Json])
    ensures
        r@ == array_at(*data, key_views(path@)),
{
    match opt_array(data.path(path)) {
        Some(a) => a.as_slice(),
        None => &[],
    }
}

/// References of an ObjectBucketClaim: the Secret and ConfigMap it generates
/// (same name and namespace) and the bound ObjectBucket.
pub open spec fn spec_object_bucket_claim_references(resource: ResourceRef, data: Json) -> Seq<RefView> {
    let generated = seq![
        (Seq::<char>::empty(), "Secret"@, resource.name@, ns_view(resource)),
        (Seq::<char>::empty(), "ConfigMap"@, resource.name@, ns_view(resource)),
    ];
    match json_nonempty_str(json_path(data, seq!["spec"@, "objectBucketName"@])) {
        Some(n) => generated.push(("objectbucket.io"@, "ObjectBucket"@, n, None)),
        None => generated,
    }
}

/// Copies a reference.
fn copy_ns(resource: &ResourceRef) -> (r: Option<String>)
    ensures
        opt_view(r) == ns_view(*resource),
{
    match &resource.namespace {
        Some(n) => Some(owned(n.as_str())),
        None => None,
    }
}

/// References of an ObjectBucketClaim.
pub fn object_bucket_claim_references(resource: &ResourceRef, data: &Json) -> (r: Vec<NamedReference>)
    ensures
        ref_views(r@) == spec_object_bucket_claim_references(*resource, *data),
{
    let mut out: Vec<NamedReference> = Vec::new();
    out.push(NamedReference { group: String::new(), kind: owned("Secret"), name: owned(resource.name.as_str()), namespace: copy_ns(resource) });
    out.push(NamedReference { group: String::new(), kind: owned("ConfigMap"), name: owned(resource.name.as_str()), namespace: copy_ns(resource) });
    let path: [&str; 2] = ["spec", "objectBucketName"];
    assert(key_views(path@) =~= seq!["spec"@, "objectBucketName"@]);
    if let Some(n) = opt_nonempty_str(data.path(&path)) {
        out.push(NamedReference { group: owned("objectbucket.io"), kind: owned("ObjectBucket"), name: owned(n), namespace: None });
    }
    assert(ref_views(out@) =~= spec_object_bucket_claim_references(*resource, *data));
    out
}

/// The issuer a Certificate or CertificateRequest names in `spec.issuerRef`
/// (an Issuer in its own namespace unless it says ClusterIssuer).
pub open spec fn spec_issuer_reference(resource: ResourceRef, data: Json) -> Option<RefView> {
    match json_path(data, seq!["spec"@, "issuerRef"@]) {
        None => None,
        Some(v) => match spec_named_reference(v, "cert-manager.io"@, "Issuer"@, ns_view(resource)) {
            None => None,
            Some(r) => if r.1 == "ClusterIssuer"@ {
                Some((r.0, r.1, r.2, None))
            } else {
                Some(r)
            },
        },
    }
}

/// Reads the issuer reference of a Certificate or CertificateRequest.
pub fn issuer_reference(resource: &ResourceRef, data: &Json) -> (r: Option<NamedReference>)
    ensures
        match r {
            Some(x) => spec_issuer_reference(*resource, *data) == Some(ref_view(x)),
            None => spec_issuer_reference(*resource, *data) is None,
        },
{
    let path: [&str; 2] = ["spec", "issuerRef"];
    assert(key_views(path@) =~= seq!["spec"@, "issuerRef"@]);
    let v = match data.path(&path) {
        Some(v) => v,
        None => return None,
    };
    let ns = match &resource.namespace {
        Some(n) => Some(n.as_str()),
        None => None,
    };
    let mut r = match named_reference(v, "cert-manager.io", "Issuer", ns) {
        Some(r) => r,
        None => return None,
    };
    if str_eq(r.kind.as_str(), "ClusterIssuer") {
        r.namespace = None;
    }
    Some(r)
}

/// References of a Certificate: its issuer and the Secret named by `spec.secretName`.
pub open spec fn spec_certificate_references(resource: ResourceRef, data: Json) -> Seq<RefView> {
    let issuer = match spec_issuer_reference(resource, data) {
        Some(r) => seq![r],
        None => Seq::empty(),
    };
    match json_nonempty_str(json_path(data, seq!["spec"@, "secretName"@])) {
        Some(n) => issuer.push((Seq::<char>::empty(), "Secret"@, n, ns_view(resource))),
        None => issuer,
    }
}

/// References of a Certificate.
pub fn certificate_references(resource: &ResourceRef, data: &Json) -> (r: Vec<NamedReference>)
    ensures
        ref_views(r@) == spec_certificate_references(*resource, *data),
{
    let mut out: Vec<NamedReference> = Vec::new();
    if let Some(i) = issuer_reference(resource, data) {
        out.push(i);
    }
    let path: [&str; 2] = ["spec", "secretName"];
    assert(key_views(path@) =~= seq!["spec"@, "secretName"@]);
    if let Some(n) = opt_nonempty_str(data.path(&path)) {
        out.push(NamedReference { group: String::new(), kind: owned("Secret"), name: owned(n), namespace: copy_ns(resource) });
    }
    assert(ref_views(out@) =~= spec_certificate_references(*resource, *data));
    out
}

} // verus!

verus! {

/// A reference read with defaults, made cluster-scoped (no namespace) when its
/// kind is `cluster_kind`.
pub open spec fn spec_scoped_reference(
    value: Json,
    dg: Seq<char>,
    dk: Seq<char>,
    dns: Option<Seq<char>>,
    cluster_kind: Seq<char>,
) -> Option<RefView> {
    match spec_named_reference(value, dg, dk, dns) {
        Some(r) => if r.1 == cluster_kind {
            Some((r.0, r.1, r.2, None))
        } else {
            Some(r)
        },
        None => None,
    }
}

/// The scoped references read from each of `items`, skipping those without a name.
pub open spec fn scoped_refs_from(
    items: Seq<Json>,
    dg: Seq<char>,
    dk: Seq<char>,
    dns: Option<Seq<char>>,
    cluster_kind: Seq<char>,
) -> Seq<RefView>
    decreases items.len(),
{
    if items.len() == 0 {
        Seq::empty()
    } else {
        let prev = scoped_refs_from(items.drop_last(), dg, dk, dns, cluster_kind);
        match spec_scoped_reference(items.last(), dg, dk, dns, cluster_kind) {
            Some(r) => prev.push(r),
            None => prev,
        }
    }
}

pub open spec fn opt_ref(o: Option<RefView>) -> Seq<RefView> {
    match o {
        Some(r) => seq![r],
        None => Seq::empty(),
    }
}

pub open spec fn opt_json(o: Option<Json>) -> Seq<Json> {
    match o {
        Some(j) => seq![j],
        None => Seq::empty(),
    }
}

fn ns_str(resource: &ResourceRef) -> (r: Option<&str>)
    ensures
        match r {
            Some(s) => ns_view(*resource) == Some(s@),
            None => ns_view(*resource) is None,
        },
{
    match &resource.namespace {
        Some(n) => Some(n.as_str()),
        None => None,
    }
}

/// Reads a reference with defaults, dropping the namespace of `cluster_kind`.
fn scoped_reference(value: &Json, dg: &str, dk: &str, dns: Option<&str>, cluster_kind: &str) -> (r: Option<NamedReference>)
    ensures
        match r {
            Some(x) => spec_scoped_reference(*value, dg@, dk@, match dns {
                Some(n) => Some(n@),
                None => None,
            }, cluster_kind@) == Some(ref_view(x)),
            None => spec_scoped_reference(*value, dg@, dk@, match dns {
                Some(n) => Some(n@),
                None => None,
            }, cluster_kind@) is None,
        },
{
    let mut r = match named_reference(value, dg, dk, dns) {
        Some(r) => r,
        None => {
            return None;
        },
    };
    if str_eq(r.kind.as_str(), cluster_kind) {
        r.namespace = None;
    }
    Some(r)
}

/// Appends the scoped references read from `items`.
fn push_scoped_refs(out: &mut Vec<NamedReference>, items: &[Json], dg: &str, dk: &str, dns: Option<&str>, cluster_kind: &str)
    ensures
        ref_views(final(out)@) == ref_views(old(out)@) + scoped_refs_from(items@, dg@, dk@, match dns {
            Some(n) => Some(n@),
            None => None,
        }, cluster_kind@),
{
    let ghost dnv = match dns {
        Some(n) => Some(n@),
        None => None::<Seq<char>>,
    };
    let n = items.len();
    for i in 0..n
        invariant
            n == items@.len(),
            dnv == match dns {
                Some(n) => Some(n@),
                None => None::<Seq<char>>,
            },
            ref_views(out@) == ref_views(old(out)@) + scoped_refs_from(items@.take(i as int), dg@, dk@, dnv, cluster_kind@),
    {
        assert(items@.take(i + 1).drop_last() == items@.take(i as int));
        if let Some(r) = scoped_reference(&items[i], dg, dk, dns, cluster_kind) {
            let ghost before = out@;
            let ghost rv = ref_view(r);
            out.push(r);
            assert(ref_views(out@) =~= ref_views(before).push(rv));
        }
    }
    assert(items@.take(n as int) == items@);
}

/// References of an ExternalSecret: its secret store (cluster-scoped for a
/// ClusterSecretStore), then the Secret it generates, named by
/// `spec.target.name` or else after the ExternalSecret.
pub open spec fn spec_external_secret_references(resource: ResourceRef, data: Json) -> Seq<(RefView, ResourceTreeRelation)> {
    let store = match json_path(data, seq!["spec"@, "secretStoreRef"@]) {
        Some(v) => spec_scoped_reference(v, "external-secrets.io"@, "SecretStore"@, ns_view(resource), "ClusterSecretStore"@),
        None => None,
    };
    let target = match json_nonempty_str(json_path(data, seq!["spec"@, "target"@, "name"@])) {
        Some(n) => n,
        None => resource.name@,
    };
    let generated = ((Seq::<char>::empty(), "Secret"@, target, ns_view(resource)), ResourceTreeRelation::GeneratedResource);
    match store {
        Some(s) => seq![(s, ResourceTreeRelation::ReferencedResource), generated],
        None => seq![generated],
    }
}

pub open spec fn related_views(v: Seq<(NamedReference, ResourceTreeRelation)>) -> Seq<(RefView, ResourceTreeRelation)> {
    v.map_values(|p: (NamedReference, ResourceTreeRelation)| (ref_view(p.0), p.1))
}

/// References of an ExternalSecret, each with how it relates.
pub fn external_secret_references(resource: &ResourceRef, data: &Json) -> (r: Vec<(NamedReference, ResourceTreeRelation)>)
    ensures
        related_views(r@) == spec_external_secret_references(*resource, *data),
{
    let mut out: Vec<(NamedReference, ResourceTreeRelation)> = Vec::new();
    let sp = ["spec", "secretStoreRef"];
    assert(key_views(sp@) =~= seq!["spec"@, "secretStoreRef"@]);
    let ns = ns_str(resource);
    if let Some(v) = data.path(&sp) {
        if let Some(s) = scoped_reference(v, "external-secrets.io", "SecretStore", ns, "ClusterSecretStore") {
            out.push((s, ResourceTreeRelation::ReferencedResource));
        }
    }
    let tp = ["spec", "target", "name"];
    assert(key_views(tp@) =~= seq!["spec"@, "target"@, "name"@]);
    let target = match opt_nonempty_str(data.path(&tp)) {
        Some(n) => owned(n),
        None => owned(resource.name.as_str()),
    };
    out.push((NamedReference { group: String::new(), kind: owned("Secret"), name: target, namespace: copy_ns(resource) }, ResourceTreeRelation::GeneratedResource));
    assert(related_views(out@) =~= spec_external_secret_references(*resource, *data));
    out
}

/// The ExternalSecret name of a ClusterExternalSecret: `status.externalSecretName`
/// when that member exists, else `spec.externalSecretName`; the resource's own
/// name when the member found is not a non-empty string.
pub open spec fn cluster_external_secret_name(resource: ResourceRef, data: Json) -> Seq<char> {
    let v = match json_path(data, seq!["status"@, "externalSecretName"@]) {
        Some(v) => Some(v),
        None => json_path(data, seq!["spec"@, "externalSecretName"@]),
    };
    match json_nonempty_str(v) {
        Some(n) => n,
        None => resource.name@,
    }
}

/// One ExternalSecret per non-empty namespace string in `namespaces`.
pub open spec fn provisioned_refs(namespaces: Seq<Json>, name: Seq<char>) -> Seq<RefView>
    decreases namespaces.len(),
{
    if namespaces.len() == 0 {
        Seq::empty()
    } else {
        let prev = provisioned_refs(namespaces.drop_last(), name);
        match json_nonempty_str(Some(namespaces.last())) {
            Some(ns) => prev.push(("external-secrets.io"@, "ExternalSecret"@, name, Some(ns))),
            None => prev,
        }
    }
}

/// The ExternalSecrets a ClusterExternalSecret provisions, one per namespace
/// in `status.provisionedNamespaces`.
pub open spec fn spec_cluster_external_secret_references(resource: ResourceRef, data: Json) -> Seq<RefView> {
    provisioned_refs(array_at(data, seq!["status"@, "provisionedNamespaces"@]), cluster_external_secret_name(resource, data))
}

/// References of a ClusterExternalSecret.
pub fn cluster_external_secret_references(resource: &ResourceRef, data: &Json) -> (r: Vec<NamedReference>)
    ensures
        ref_views(r@) == spec_cluster_external_secret_references(*resource, *data),
{
    let stp = ["status", "externalSecretName"];
    assert(key_views(stp@) =~= seq!["status"@, "externalSecretName"@]);
    let spp = ["spec", "externalSecretName"];
    assert(key_views(spp@) =~= seq!["spec"@, "externalSecretName"@]);
    let found = match data.path(&stp) {
        Some(v) => Some(v),
        None => data.path(&spp),
    };
    let name = match opt_nonempty_str(found) {
        Some(n) => owned(n),
        None => owned(resource.name.as_str()),
    };
    let np = ["status", "provisionedNamespaces"];
    assert(key_views(np@) =~= seq!["status"@, "provisionedNamespaces"@]);
    let items = array_at_path(data, &np);
    let mut out: Vec<NamedReference> = Vec::new();
    let n = items.len();
    for i in 0..n
        invariant
            n == items@.len(),
            ref_views(out@) == provisioned_refs(items@.take(i as int), name@),
    {
        assert(items@.take(i + 1).drop_last() == items@.take(i as int));
        assert(items@.take(i + 1).last() == items@[i as int]);
        if let Some(ns) = opt_nonempty_str(Some(&items[i])) {
            let ghost before = out@;
            out.push(NamedReference {
                group: owned("external-secrets.io"),
                kind: owned("ExternalSecret"),
                name: owned(name.as_str()),
                namespace: Some(owned(ns)),
            });
            assert(ref_views(out@) =~= ref_views(before).push(ref_view(out@.last())));
        }
    }
    assert(items@.take(n as int) == items@);
    out
}

/// A Flux source reference: read with its own kind and that kind's Flux group.
pub open spec fn flux_source_ref(v: Option<Json>, ns: Option<Seq<char>>) -> Option<RefView> {
    match v {
        Some(val) => match json_str(json_get(val, "kind"@)) {
            Some(k) => spec_named_reference(val, spec_flux_group(k), k, ns),
            None => None,
        },
        None => None,
    }
}

/// References of a Flux object: `spec.sourceRef`, `spec.chart.spec.sourceRef`
/// and `spec.chartRef`, then each `spec.dependsOn` entry (of the object's own
/// group and kind by default).
pub open spec fn spec_flux_references(resource: ResourceRef, data: Json) -> Seq<RefView> {
    let ns = ns_view(resource);
    opt_ref(flux_source_ref(json_path(data, seq!["spec"@, "sourceRef"@]), ns))
        + opt_ref(flux_source_ref(json_path(data, seq!["spec"@, "chart"@, "spec"@, "sourceRef"@]), ns))
        + opt_ref(flux_source_ref(json_path(data, seq!["spec"@, "chartRef"@]), ns))
        + refs_from(array_at(data, seq!["spec"@, "dependsOn"@]), resource.group@, resource.kind@, ns)
}

fn push_flux_source(out: &mut Vec<NamedReference>, v: Option<&Json>, ns: Option<&str>)
    ensures
        ref_views(final(out)@) == ref_views(old(out)@) + opt_ref(flux_source_ref(deref_opt(v), match ns {
            Some(n) => Some(n@),
            None => None,
        })),
{
    if let Some(val) = v {
        if let Some(k) = opt_str(val.get("kind")) {
            if let Some(r) = named_reference(val, flux_group(k), k, ns) {
                let ghost before = out@;
                out.push(r);
                assert(ref_views(out@) =~= ref_views(before).push(ref_view(out@.last())));
                return;
            }
        }
    }
    assert(ref_views(out@) =~= ref_views(old(out)@) + Seq::<RefView>::empty());
}

/// References of a Flux Kustomization or HelmRelease.
pub fn flux_references(resource: &ResourceRef, data: &Json) -> (r: Vec<NamedReference>)
    ensures
        ref_views(r@) == spec_flux_references(*resource, *data),
{
    let ns = ns_str(resource);
    let mut out: Vec<NamedReference> = Vec::new();
    let p1 = ["spec", "sourceRef"];
    assert(key_views(p1@) =~= seq!["spec"@, "sourceRef"@]);
    let p2 = ["spec", "chart", "spec", "sourceRef"];
    assert(key_views(p2@) =~= seq!["spec"@, "chart"@, "spec"@, "sourceRef"@]);
    let p3 = ["spec", "chartRef"];
    assert(key_views(p3@) =~= seq!["spec"@, "chartRef"@]);
    let p4 = ["spec", "dependsOn"];
    assert(key_views(p4@) =~= seq!["spec"@, "dependsOn"@]);
    assert(ref_views(out@) =~= Seq::<RefView>::empty());
    push_flux_source(&mut out, data.path(&p1), ns);
    push_flux_source(&mut out, data.path(&p2), ns);
    push_flux_source(&mut out, data.path(&p3), ns);
    push_refs(&mut out, array_at_path(data, &p4), resource.group.as_str(), resource.kind.as_str(), ns);
    assert(ref_views(out@) =~= spec_flux_references(*resource, *data));
    out
}

/// Repositories of a Kopiur SnapshotPolicy: `spec.repository`, then each of
/// `spec.repositories`; a ClusterRepository is cluster-scoped.
pub open spec fn spec_kopiur_repository_references(resource: ResourceRef, data: Json) -> Seq<RefView> {
    let dg = "kopiur.home-operations.com"@;
    let dk = "Repository"@;
    let ck = "ClusterRepository"@;
    opt_ref(match json_path(data, seq!["spec"@, "repository"@]) {
        Some(v) => spec_scoped_reference(v, dg, dk, ns_view(resource), ck),
        None => None,
    }) + scoped_refs_from(array_at(data, seq!["spec"@, "repositories"@]), dg, dk, ns_view(resource), ck)
}

/// Repositories of a Kopiur SnapshotPolicy.
pub fn kopiur_repository_references(resource: &ResourceRef, data: &Json) -> (r: Vec<NamedReference>)
    ensures
        ref_views(r@) == spec_kopiur_repository_references(*resource, *data),
{
    let ns = ns_str(resource);
    let mut out: Vec<NamedReference> = Vec::new();
    assert(ref_views(out@) =~= Seq::<RefView>::empty());
    let p1 = ["spec", "repository"];
    assert(key_views(p1@) =~= seq!["spec"@, "repository"@]);
    let p2 = ["spec", "repositories"];
    assert(key_views(p2@) =~= seq!["spec"@, "repositories"@]);
    match data.path(&p1) {
        Some(v) => match scoped_reference(v, "kopiur.home-operations.com", "Repository", ns, "ClusterRepository") {
            Some(r) => {
                out.push(r);
            },
            None => {},
        },
        None => {},
    }
    let ghost first = ref_views(out@);
    assert(first =~= opt_ref(match json_path(*data, seq!["spec"@, "repository"@]) {
        Some(v) => spec_scoped_reference(v, "kopiur.home-operations.com"@, "Repository"@, ns_view(*resource), "ClusterRepository"@),
        None => None,
    }));
    push_scoped_refs(&mut out, array_at_path(data, &p2), "kopiur.home-operations.com", "Repository", ns, "ClusterRepository");
    assert(ref_views(out@) =~= spec_kopiur_repository_references(*resource, *data));
    out
}

} // verus!

verus! {

/// The Service (by default) references of each rule's `backendRefs`, rule by rule.
pub open spec fn rule_backend_refs(rules: Seq<Json>, ns: Option<Seq<char>>) -> Seq<RefView>
    decreases rules.len(),
{
    if rules.len() == 0 {
        Seq::empty()
    } else {
        rule_backend_refs(rules.drop_last(), ns) + refs_from(array_at(rules.last(), seq!["backendRefs"@]), ""@, "Service"@, ns)
    }
}

/// References of a Gateway API route: its parent Gateways, then the backends
/// of every rule (Services unless they say otherwise).
pub open spec fn spec_gateway_route_references(resource: ResourceRef, data: Json) -> Seq<RefView> {
    refs_from(array_at(data, seq!["spec"@, "parentRefs"@]), "gateway.networking.k8s.io"@, "Gateway"@, ns_view(resource))
        + rule_backend_refs(array_at(data, seq!["spec"@, "rules"@]), ns_view(resource))
}

/// References of a Gateway API route.
pub fn gateway_route_references(resource: &ResourceRef, data: &Json) -> (r: Vec<NamedReference>)
    ensures
        ref_views(r@) == spec_gateway_route_references(*resource, *data),
{
    let ns = ns_str(resource);
    let mut out: Vec<NamedReference> = Vec::new();
    assert(ref_views(out@) =~= Seq::<RefView>::empty());
    let pp = ["spec", "parentRefs"];
    assert(key_views(pp@) =~= seq!["spec"@, "parentRefs"@]);
    let rp = ["spec", "rules"];
    assert(key_views(rp@) =~= seq!["spec"@, "rules"@]);
    let bp = ["backendRefs"];
    assert(key_views(bp@) =~= seq!["backendRefs"@]);
    push_refs(&mut out, array_at_path(data, &pp), "gateway.networking.k8s.io", "Gateway", ns);
    let ghost parents = ref_views(out@);
    let rules = array_at_path(data, &rp);
    let n = rules.len();
    for i in 0..n
        invariant
            n == rules@.len(),
            key_views(bp@) == seq!["backendRefs"@],
            ns_view(*resource) == match ns {
                Some(s) => Some(s@),
                None => None::<Seq<char>>,
            },
            ref_views(out@) == parents + rule_backend_refs(rules@.take(i as int), ns_view(*resource)),
    {
        assert(rules@.take(i + 1).drop_last() == rules@.take(i as int));
        assert(rules@.take(i + 1).last() == rules@[i as int]);
        push_refs(&mut out, array_at_path(&rules[i], &bp), "", "Service", ns);
    }
    assert(rules@.take(n as int) == rules@);
    out
}

/// References of an Envoy Gateway policy: `spec.targetRef`, then each of
/// `spec.targetRefs` (Gateways unless they say otherwise).
pub open spec fn spec_envoy_policy_references(resource: ResourceRef, data: Json) -> Seq<RefView> {
    let dg = "gateway.networking.k8s.io"@;
    let dk = "Gateway"@;
    opt_ref(match json_path(data, seq!["spec"@, "targetRef"@]) {
        Some(v) => spec_named_reference(v, dg, dk, ns_view(resource)),
        None => None,
    }) + refs_from(array_at(data, seq!["spec"@, "targetRefs"@]), dg, dk, ns_view(resource))
}

/// References of an Envoy Gateway policy.
pub fn envoy_policy_references(resource: &ResourceRef, data: &Json) -> (r: Vec<NamedReference>)
    ensures
        ref_views(r@) == spec_envoy_policy_references(*resource, *data),
{
    let ns = ns_str(resource);
    let mut out: Vec<NamedReference> = Vec::new();
    let p1 = ["spec", "targetRef"];
    assert(key_views(p1@) =~= seq!["spec"@, "targetRef"@]);
    let p2 = ["spec", "targetRefs"];
    assert(key_views(p2@) =~= seq!["spec"@, "targetRefs"@]);
    match data.path(&p1) {
        Some(v) => match named_reference(v, "gateway.networking.k8s.io", "Gateway", ns) {
            Some(r) => {
                out.push(r);
            },
            None => {},
        },
        None => {},
    }
    let ghost first = ref_views(out@);
    assert(first =~= opt_ref(match json_path(*data, seq!["spec"@, "targetRef"@]) {
        Some(v) => spec_named_reference(v, "gateway.networking.k8s.io"@, "Gateway"@, ns_view(*resource)),
        None => None,
    }));
    push_refs(&mut out, array_at_path(data, &p2), "gateway.networking.k8s.io", "Gateway", ns);
    out
}

/// The named targets of a ReferenceGrant's `spec.to` (entries with a `name`
/// member), Services in the grant's namespace unless they say otherwise.
pub open spec fn grant_named(items: Seq<Json>, ns: Option<Seq<char>>) -> Seq<RefView>
    decreases items.len(),
{
    if items.len() == 0 {
        Seq::empty()
    } else {
        let prev = grant_named(items.drop_last(), ns);
        if json_get(items.last(), "name"@) is Some {
            match spec_named_reference(items.last(), ""@, "Service"@, ns) {
                Some(r) => prev.push(r),
                None => prev,
            }
        } else {
            prev
        }
    }
}

pub open spec fn spec_reference_grant_named_targets(resource: ResourceRef, data: Json) -> Seq<RefView> {
    grant_named(array_at(data, seq!["spec"@, "to"@]), ns_view(resource))
}

/// The objects a ReferenceGrant names in `spec.to`.
pub fn reference_grant_named_targets(resource: &ResourceRef, data: &Json) -> (r: Vec<NamedReference>)
    ensures
        ref_views(r@) == spec_reference_grant_named_targets(*resource, *data),
{
    let ns = ns_str(resource);
    let tp = ["spec", "to"];
    assert(key_views(tp@) =~= seq!["spec"@, "to"@]);
    let items = array_at_path(data, &tp);
    let mut out: Vec<NamedReference> = Vec::new();
    assert(ref_views(out@) =~= Seq::<RefView>::empty());
    let n = items.len();
    for i in 0..n
        invariant
            n == items@.len(),
            ns_view(*resource) == match ns {
                Some(s) => Some(s@),
                None => None::<Seq<char>>,
            },
            ref_views(out@) == grant_named(items@.take(i as int), ns_view(*resource)),
    {
        assert(items@.take(i + 1).drop_last() == items@.take(i as int));
        assert(items@.take(i + 1).last() == items@[i as int]);
        if items[i].get("name").is_some() {
            if let Some(r) = named_reference(&items[i], "", "Service", ns) {
                let ghost before = out@;
                out.push(r);
                assert(ref_views(out@) =~= ref_views(before).push(ref_view(out@.last())));
            }
        }
    }
    assert(items@.take(n as int) == items@);
    out
}

/// A (group, kind, namespace) triple by views.
pub type KindScope = (Seq<char>, Seq<char>, Option<Seq<char>>);

pub open spec fn scope_views(v: Seq<(String, String, Option<String>)>) -> Seq<KindScope> {
    v.map_values(|t: (String, String, Option<String>)| (t.0@, t.1@, opt_view(t.2)))
}

/// The kind-wide targets of a ReferenceGrant: `spec.to` entries without a
/// `name`, with string `group` and `kind`, in the grant's namespace.
pub open spec fn grant_listed(items: Seq<Json>, ns: Option<Seq<char>>) -> Seq<KindScope>
    decreases items.len(),
{
    if items.len() == 0 {
        Seq::empty()
    } else {
        let prev = grant_listed(items.drop_last(), ns);
        let v = items.last();
        match (json_get(v, "name"@), json_str(json_get(v, "group"@)), json_str(json_get(v, "kind"@))) {
            (None, Some(g), Some(k)) => prev.push((g, k, ns)),
            _ => prev,
        }
    }
}

pub open spec fn spec_reference_grant_list_targets(resource: ResourceRef, data: Json) -> Seq<KindScope> {
    grant_listed(array_at(data, seq!["spec"@, "to"@]), ns_view(resource))
}

/// The kinds a ReferenceGrant opens as a whole.
pub fn reference_grant_list_targets(resource: &ResourceRef, data: &Json) -> (r: Vec<(String, String, Option<String>)>)
    ensures
        scope_views(r@) == spec_reference_grant_list_targets(*resource, *data),
{
    let tp = ["spec", "to"];
    assert(key_views(tp@) =~= seq!["spec"@, "to"@]);
    let items = array_at_path(data, &tp);
    let mut out: Vec<(String, String, Option<String>)> = Vec::new();
    assert(scope_views(out@) =~= Seq::<KindScope>::empty());
    let n = items.len();
    for i in 0..n
        invariant
            n == items@.len(),
            scope_views(out@) == grant_listed(items@.take(i as int), ns_view(*resource)),
    {
        assert(items@.take(i + 1).drop_last() == items@.take(i as int));
        assert(items@.take(i + 1).last() == items@[i as int]);
        let v = &items[i];
        if v.get("name").is_none() {
            match (opt_str(v.get("group")), opt_str(v.get("kind"))) {
                (Some(g), Some(k)) => {
                    let ghost before = out@;
                    out.push((owned(g), owned(k), copy_ns(resource)));
                    assert(scope_views(out@) =~= scope_views(before).push((g@, k@, ns_view(*resource))));
                },
                _ => {},
            }
        }
    }
    assert(items@.take(n as int) == items@);
    out
}

/// The sources a ReferenceGrant admits: `spec.from` entries with string
/// `group`, `kind` and `namespace`.
pub open spec fn grant_from(items: Seq<Json>) -> Seq<KindScope>
    decreases items.len(),
{
    if items.len() == 0 {
        Seq::empty()
    } else {
        let prev = grant_from(items.drop_last());
        let v = items.last();
        match (json_str(json_get(v, "group"@)), json_str(json_get(v, "kind"@)), json_str(json_get(v, "namespace"@))) {
            (Some(g), Some(k), Some(n)) => prev.push((g, k, Some(n))),
            _ => prev,
        }
    }
}

pub open spec fn spec_reference_grant_sources(data: Json) -> Seq<KindScope> {
    grant_from(array_at(data, seq!["spec"@, "from"@]))
}

/// The sources a ReferenceGrant admits.
pub fn reference_grant_sources(data: &Json) -> (r: Vec<(String, String, Option<String>)>)
    ensures
        scope_views(r@) == spec_reference_grant_sources(*data),
{
    let fp = ["spec", "from"];
    assert(key_views(fp@) =~= seq!["spec"@, "from"@]);
    let items = array_at_path(data, &fp);
    let mut out: Vec<(String, String, Option<String>)> = Vec::new();
    assert(scope_views(out@) =~= Seq::<KindScope>::empty());
    let n = items.len();
    for i in 0..n
        invariant
            n == items@.len(),
            scope_views(out@) == grant_from(items@.take(i as int)),
    {
        assert(items@.take(i + 1).drop_last() == items@.take(i as int));
        assert(items@.take(i + 1).last() == items@[i as int]);
        let v = &items[i];
        match (opt_str(v.get("group")), opt_str(v.get("kind")), opt_str(v.get("namespace"))) {
            (Some(g), Some(k), Some(ns)) => {
                let ghost before = out@;
                out.push((owned(g), owned(k), Some(owned(ns))));
                assert(scope_views(out@) =~= scope_views(before).push((g@, k@, Some(ns@))));
            },
            _ => {},
        }
    }
    assert(items@.take(n as int) == items@);
    out
}

/// A target of a ReferenceGrant: a group and kind, and a name when it names
/// one object.
pub struct ReferenceGrantTarget {
    pub group: String,
    pub kind: String,
    pub name: Option<String>,
}

pub type TargetView = (Seq<char>, Seq<char>, Option<Seq<char>>);

pub open spec fn target_views(v: Seq<ReferenceGrantTarget>) -> Seq<TargetView> {
    v.map_values(|t: ReferenceGrantTarget| (t.group@, t.kind@, opt_view(t.name)))
}

/// The `spec.to` entries with string `group` and `kind`; the name is kept
/// when it is a string.
pub open spec fn grant_to(items: Seq<Json>) -> Seq<TargetView>
    decreases items.len(),
{
    if items.len() == 0 {
        Seq::empty()
    } else {
        let prev = grant_to(items.drop_last());
        let v = items.last();
        match (json_str(json_get(v, "group"@)), json_str(json_get(v, "kind"@))) {
            (Some(g), Some(k)) => prev.push((g, k, json_str(json_get(v, "name"@)))),
            _ => prev,
        }
    }
}

pub open spec fn spec_reference_grant_targets(data: Json) -> Seq<TargetView> {
    grant_to(array_at(data, seq!["spec"@, "to"@]))
}

/// The targets a ReferenceGrant opens.
pub fn reference_grant_targets(data: &Json) -> (r: Vec<ReferenceGrantTarget>)
    ensures
        target_views(r@) == spec_reference_grant_targets(*data),
{
    let tp = ["spec", "to"];
    assert(key_views(tp@) =~= seq!["spec"@, "to"@]);
    let items = array_at_path(data, &tp);
    let mut out: Vec<ReferenceGrantTarget> = Vec::new();
    assert(target_views(out@) =~= Seq::<TargetView>::empty());
    let n = items.len();
    for i in 0..n
        invariant
            n == items@.len(),
            target_views(out@) == grant_to(items@.take(i as int)),
    {
        assert(items@.take(i + 1).drop_last() == items@.take(i as int));
        assert(items@.take(i + 1).last() == items@[i as int]);
        let v = &items[i];
        match (opt_str(v.get("group")), opt_str(v.get("kind"))) {
            (Some(g), Some(k)) => {
                let name = opt_owned(opt_str(v.get("name")));
                let ghost before = out@;
                out.push(ReferenceGrantTarget { group: owned(g), kind: owned(k), name });
                assert(target_views(out@) =~= target_views(before).push((g@, k@, json_str(json_get(*v, "name"@)))));
            },
            _ => {},
        }
    }
    assert(items@.take(n as int) == items@);
    out
}

} // verus!

verus! {

/// A target admits an object of this group and kind, of this name when the
/// target names one.
pub open spec fn target_admits(t: TargetView, group: Seq<char>, kind: Seq<char>, name: Seq<char>) -> bool {
    t.0 == group && t.1 == kind && match t.2 {
        Some(n) => n == name,
        None => true,
    }
}

/// Some target admits an object of this group, kind and name.
pub open spec fn any_admits(targets: Seq<TargetView>, group: Seq<char>, kind: Seq<char>, name: Seq<char>) -> bool {
    exists|i: int| 0 <= i < targets.len() && target_admits(#[trigger] targets[i], group, kind, name)
}

/// An object refers to a granted target in namespace `ns` by its own members:
/// a string `namespace` equal to `ns`, a string `name`, and a target admitting
/// its `group` (empty by default) and `kind` (`Service` by default).
pub open spec fn object_references_target(o: Json, ns: Seq<char>, targets: Seq<TargetView>) -> bool {
    json_str(json_get(o, "namespace"@)) == Some(ns) && match json_str(json_get(o, "name"@)) {
        Some(name) => {
            let g = match json_str(json_get(o, "group"@)) {
                Some(g) => g,
                None => Seq::empty(),
            };
            let k = match json_str(json_get(o, "kind"@)) {
                Some(k) => k,
                None => "Service"@,
            };
            any_admits(targets, g, k, name)
        },
        None => false,
    }
}

/// Whether some object anywhere inside `v` refers to a granted target in
/// namespace `ns`: an array through its elements, an object itself or
/// through its member values.
pub open spec fn value_references(v: Json, ns: Seq<char>, targets: Seq<TargetView>) -> bool
    decreases v,
{
    match v {
        Json::Array(vs) => {
            proof {
                assert(decreases_to!(v => vs));
            }
            values_reference(vs@, ns, targets)
        },
        Json::Object(es) => {
            proof {
                assert(decreases_to!(v => es));
            }
            object_references_target(v, ns, targets) || members_reference(es@, ns, targets)
        },
        _ => false,
    }
}

/// Whether some element of `vs` refers to a granted target.
pub open spec fn values_reference(vs: Seq<Json>, ns: Seq<char>, targets: Seq<TargetView>) -> bool
    decreases vs,
{
    if vs.len() == 0 {
        false
    } else {
        values_reference(vs.drop_last(), ns, targets) || value_references(vs.last(), ns, targets)
    }
}

/// Whether some member value of `es` refers to a granted target.
pub open spec fn members_reference(es: Seq<(String, Json)>, ns: Seq<char>, targets: Seq<TargetView>) -> bool
    decreases es,
{
    if es.len() == 0 {
        false
    } else {
        members_reference(es.drop_last(), ns, targets) || value_references(es.last().1, ns, targets)
    }
}

} // verus!

verus! {

fn any_target_admits(targets: &[ReferenceGrantTarget], group: &str, kind: &str, name: &str) -> (r: bool)
    ensures
        r == any_admits(target_views(targets@), group@, kind@, name@),
{
    let ghost tv = target_views(targets@);
    let n = targets.len();
    for i in 0..n
        invariant
            n == targets@.len(),
            tv == target_views(targets@),
            forall|k: int| 0 <= k < i ==> !target_admits(#[trigger] tv[k], group@, kind@, name@),
    {
        let t = &targets[i];
        let name_ok = match &t.name {
            Some(tn) => str_eq(tn.as_str(), name),
            None => true,
        };
        if str_eq(t.group.as_str(), group) && str_eq(t.kind.as_str(), kind) && name_ok {
            assert(target_admits(tv[i as int], group@, kind@, name@));
            return true;
        }
    }
    false
}

fn object_matches(o: &Json, ns: &str, targets: &[ReferenceGrantTarget]) -> (r: bool)
    ensures
        r == object_references_target(*o, ns@, target_views(targets@)),
{
    let ns_ok = match opt_str(o.get("namespace")) {
        Some(n) => str_eq(n, ns),
        None => false,
    };
    if !ns_ok {
        return false;
    }
    let name = match opt_str(o.get("name")) {
        Some(n) => n,
        None => {
            return false;
        },
    };
    let group = match opt_str(o.get("group")) {
        Some(g) => g,
        None => "",
    };
    let kind = match opt_str(o.get("kind")) {
        Some(k) => k,
        None => "Service",
    };
    proof {
        reveal_strlit("");
        assert(""@ =~= Seq::<char>::empty());
    }
    any_target_admits(targets, group, kind, name)
}

/// Whether some object anywhere inside `value` (itself, an array element, or
/// a member value, at any depth) refers to a target the grant opens in
/// `target_namespace`.
pub fn value_references_grant_target(value: &Json, target_namespace: &str, targets: &[ReferenceGrantTarget]) -> (r: bool)
    ensures
        r == value_references(*value, target_namespace@, target_views(targets@)),
    decreases value,
{
    let ghost tv = target_views(targets@);
    match value {
        Json::Array(vs) => {
            let n = vs.len();
            assert(vs@.take(0) =~= Seq::<Json>::empty());
            for i in 0..n
                invariant
                    n == vs@.len(),
                    *value == Json::Array(*vs),
                    tv == target_views(targets@),
                    !values_reference(vs@.take(i as int), target_namespace@, tv),
            {
                proof {
                    assert(value->Array_0 == *vs);
                    assert(decreases_to!(*value => value->Array_0));
                    vstd::std_specs::vec::axiom_vec_index_decreases(*vs, i as int);
                    assert(decreases_to!(*vs => vs[i as int]));
                }
                assert(vs@.take(i + 1).drop_last() == vs@.take(i as int));
                assert(vs@.take(i + 1).last() == vs@[i as int]);
                if value_references_grant_target(&vs[i], target_namespace, targets) {
                    proof {
                        lemma_values_reference_extends(vs@, i + 1, target_namespace@, tv);
                    }
                    return true;
                }
            }
            assert(vs@.take(n as int) == vs@);
            false
        },
        Json::Object(es) => {
            if object_matches(value, target_namespace, targets) {
                return true;
            }
            let n = es.len();
            assert(es@.take(0) =~= Seq::<(String, Json)>::empty());
            for i in 0..n
                invariant
                    n == es@.len(),
                    *value == Json::Object(*es),
                    tv == target_views(targets@),
                    !object_references_target(*value, target_namespace@, tv),
                    !members_reference(es@.take(i as int), target_namespace@, tv),
            {
                proof {
                    assert(value->Object_0 == *es);
                    assert(decreases_to!(*value => value->Object_0));
                    vstd::std_specs::vec::axiom_vec_index_decreases(*es, i as int);
                    assert(decreases_to!(*es => es[i as int]));
                    assert(decreases_to!(es[i as int] => es[i as int].1));
                }
                assert(es@.take(i + 1).drop_last() == es@.take(i as int));
                assert(es@.take(i + 1).last() == es@[i as int]);
                if value_references_grant_target(&es[i].1, target_namespace, targets) {
                    proof {
                        lemma_members_reference_extends(es@, i + 1, target_namespace@, tv);
                    }
                    return true;
                }
            }
            assert(es@.take(n as int) == es@);
            false
        },
        _ => false,
    }
}

proof fn lemma_values_reference_extends(vs: Seq<Json>, i: int, ns: Seq<char>, t: Seq<TargetView>)
    requires
        0 <= i <= vs.len(),
        values_reference(vs.take(i), ns, t),
    ensures
        values_reference(vs, ns, t),
    decreases vs.len() - i,
{
    if i < vs.len() {
        assert(vs.take(i + 1).drop_last() == vs.take(i));
        lemma_values_reference_extends(vs, i + 1, ns, t);
    } else {
        assert(vs.take(i) == vs);
    }
}

proof fn lemma_members_reference_extends(es: Seq<(String, Json)>, i: int, ns: Seq<char>, t: Seq<TargetView>)
    requires
        0 <= i <= es.len(),
        members_reference(es.take(i), ns, t),
    ensures
        members_reference(es, ns, t),
    decreases es.len() - i,
{
    if i < es.len() {
        assert(es.take(i + 1).drop_last() == es.take(i));
        lemma_members_reference_extends(es, i + 1, ns, t);
    } else {
        assert(es.take(i) == es);
    }
}

/// A source object (as its JSON document) uses a grant when the grant's
/// namespace is known and the source's `spec` refers to a granted target there.
pub open spec fn spec_reference_grant_source_matches(source: Json, target_namespace: Option<Seq<char>>, targets: Seq<TargetView>) -> bool {
    match target_namespace {
        None => false,
        Some(ns) => match json_get(source, "spec"@) {
            Some(spec) => value_references(spec, ns, targets),
            None => false,
        },
    }
}

/// Whether a source object's `spec` refers to one of the grant's targets in
/// the grant's namespace.
pub fn reference_grant_source_matches(source: &Json, target_namespace: Option<&str>, targets: &[ReferenceGrantTarget]) -> (r: bool)
    ensures
        r == spec_reference_grant_source_matches(*source, match target_namespace {
            Some(n) => Some(n@),
            None => None,
        }, target_views(targets@)),
{
    let ns = match target_namespace {
        Some(n) => n,
        None => {
            return false;
        },
    };
    match source.get("spec") {
        Some(spec) => value_references_grant_target(spec, ns, targets),
        None => false,
    }
}

} // verus!
