//! The catalog of resource kinds a cluster serves, and how a reference found
//! in an object becomes a node of a relationship tree.
use vstd::prelude::*;
use crate::discovery::Category;
use crate::text::{chars_of, extend_chars, owned, str_eq, string_of};
use crate::tree::{opt_view, spec_reference_is_expandable, reference_is_expandable, ResourceRef, ResourceTreeRelation};

verus! {

/// A kind the cluster serves.
pub struct ResourceKind {
    /// `group/version/kind`.
    pub key: String,
    pub group: String,
    pub version: String,
    pub kind: String,
    pub plural: String,
    pub namespaced: bool,
    pub category: Category,
}

/// The catalog key of a kind: `group/version/kind` (the core group is empty).
pub open spec fn spec_make_key(group: Seq<char>, version: Seq<char>, kind: Seq<char>) -> Seq<char> {
    group + "/"@ + version + "/"@ + kind
}

/// Catalog keys tell kinds apart: for groups and versions without `/`, two
/// kinds share a key only when their group, version and kind all agree.
pub proof fn lemma_make_key_injective(
    g1: Seq<char>,
    v1: Seq<char>,
    k1: Seq<char>,
    g2: Seq<char>,
    v2: Seq<char>,
    k2: Seq<char>,
)
    requires
        forall|i: int| 0 <= i < g1.len() ==> g1[i] != '/',
        forall|i: int| 0 <= i < g2.len() ==> g2[i] != '/',
        forall|i: int| 0 <= i < v1.len() ==> v1[i] != '/',
        forall|i: int| 0 <= i < v2.len() ==> v2[i] != '/',
    ensures
        spec_make_key(g1, v1, k1) == spec_make_key(g2, v2, k2) ==> g1 == g2 && v1 == v2 && k1 == k2,
{
    reveal_strlit("/");
    let a = spec_make_key(g1, v1, k1);
    let b = spec_make_key(g2, v2, k2);
    if a == b {
        crate::text::lemma_first_index(a, '/', g1.len() as int);
        crate::text::lemma_first_index(b, '/', g2.len() as int);
        assert(a.take(g1.len() as int) == g1);
        assert(b.take(g2.len() as int) == g2);
        let ra = a.skip(g1.len() as int + 1);
        let rb = b.skip(g2.len() as int + 1);
        assert(ra == v1 + "/"@ + k1);
        assert(rb == v2 + "/"@ + k2);
        crate::text::lemma_first_index(ra, '/', v1.len() as int);
        crate::text::lemma_first_index(rb, '/', v2.len() as int);
        assert(ra.take(v1.len() as int) == v1);
        assert(rb.take(v2.len() as int) == v2);
        assert(ra.skip(v1.len() as int + 1) == k1);
        assert(rb.skip(v2.len() as int + 1) == k2);
    }
}

/// The catalog key of a kind.
pub fn make_key(group: &str, version: &str, kind: &str) -> (r: String)
    ensures
        r@ == spec_make_key(group@, version@, kind@),
{
    proof {
        reveal_strlit("/");
    }
    let mut out = chars_of(group);
    let v = chars_of(version);
    let k = chars_of(kind);
    out.push('/');
    extend_chars(&mut out, v.as_slice());
    out.push('/');
    extend_chars(&mut out, k.as_slice());
    assert(out@ =~= spec_make_key(group@, version@, kind@));
    string_of(out.as_slice())
}

/// The position of the first kind with this key.
pub open spec fn index_by_key(catalog: Seq<ResourceKind>, key: Seq<char>) -> Option<int>
    decreases catalog.len(),
{
    if catalog.len() == 0 {
        None
    } else if catalog[0].key@ == key {
        Some(0)
    } else {
        match index_by_key(catalog.drop_first(), key) {
            Some(i) => Some(i + 1),
            None => None,
        }
    }
}

/// The position of the first kind of this group and kind name.
pub open spec fn index_by_kind(catalog: Seq<ResourceKind>, group: Seq<char>, kind: Seq<char>) -> Option<int>
    decreases catalog.len(),
{
    if catalog.len() == 0 {
        None
    } else if catalog[0].group@ == group && catalog[0].kind@ == kind {
        Some(0)
    } else {
        match index_by_kind(catalog.drop_first(), group, kind) {
            Some(i) => Some(i + 1),
            None => None,
        }
    }
}

/// The catalog entry for a kind: by its key when a version is given and the
/// catalog has that key, else the first entry of that group and kind.
pub open spec fn spec_catalog_index(catalog: Seq<ResourceKind>, group: Seq<char>, version: Option<Seq<char>>, kind: Seq<char>) -> Option<int> {
    let by_key = match version {
        Some(v) => index_by_key(catalog, spec_make_key(group, v, kind)),
        None => None,
    };
    match by_key {
        Some(i) => Some(i),
        None => index_by_kind(catalog, group, kind),
    }
}

proof fn lemma_index_by_key_bounds(catalog: Seq<ResourceKind>, key: Seq<char>)
    ensures
        match index_by_key(catalog, key) {
            Some(i) => 0 <= i < catalog.len() && catalog[i].key@ == key,
            None => true,
        },
    decreases catalog.len(),
{
    if catalog.len() > 0 && catalog[0].key@ != key {
        lemma_index_by_key_bounds(catalog.drop_first(), key);
    }
}

proof fn lemma_index_by_kind_bounds(catalog: Seq<ResourceKind>, group: Seq<char>, kind: Seq<char>)
    ensures
        match index_by_kind(catalog, group, kind) {
            Some(i) => 0 <= i < catalog.len() && catalog[i].group@ == group && catalog[i].kind@ == kind,
            None => true,
        },
    decreases catalog.len(),
{
    if catalog.len() > 0 && !(catalog[0].group@ == group && catalog[0].kind@ == kind) {
        lemma_index_by_kind_bounds(catalog.drop_first(), group, kind);
    }
}

fn find_by_key(catalog: &[ResourceKind], key: &str) -> (r: Option<usize>)
    ensures
        match r {
            Some(i) => index_by_key(catalog@, key@) == Some(i as int),
            None => index_by_key(catalog@, key@) is None,
        },
{
    let n = catalog.len();
    assert(catalog@.skip(0) =~= catalog@);
    for i in 0..n
        invariant
            n == catalog@.len(),
            index_by_key(catalog@, key@) == match index_by_key(catalog@.skip(i as int), key@) {
                Some(j) => Some(j + i),
                None => None,
            },
    {
        assert(catalog@.skip(i as int).drop_first() =~= catalog@.skip(i + 1));
        assert(catalog@.skip(i as int)[0] == catalog@[i as int]);
        if str_eq(catalog[i].key.as_str(), key) {
            return Some(i);
        }
    }
    None
}

fn find_by_kind(catalog: &[ResourceKind], group: &str, kind: &str) -> (r: Option<usize>)
    ensures
        match r {
            Some(i) => index_by_kind(catalog@, group@, kind@) == Some(i as int),
            None => index_by_kind(catalog@, group@, kind@) is None,
        },
{
    let n = catalog.len();
    assert(catalog@.skip(0) =~= catalog@);
    for i in 0..n
        invariant
            n == catalog@.len(),
            index_by_kind(catalog@, group@, kind@) == match index_by_kind(catalog@.skip(i as int), group@, kind@) {
                Some(j) => Some(j + i),
                None => None,
            },
    {
        assert(catalog@.skip(i as int).drop_first() =~= catalog@.skip(i + 1));
        assert(catalog@.skip(i as int)[0] == catalog@[i as int]);
        if str_eq(catalog[i].group.as_str(), group) && str_eq(catalog[i].kind.as_str(), kind) {
            return Some(i);
        }
    }
    None
}

/// The position of the catalog entry for a kind.
pub fn catalog_index(catalog: &[ResourceKind], group: &str, version: Option<&str>, kind: &str) -> (r: Option<usize>)
    ensures
        match r {
            Some(i) => spec_catalog_index(catalog@, group@, match version {
                Some(v) => Some(v@),
                None => None,
            }, kind@) == Some(i as int) && i < catalog@.len(),
            None => spec_catalog_index(catalog@, group@, match version {
                Some(v) => Some(v@),
                None => None,
            }, kind@) is None,
        },
{
    proof {
        lemma_index_by_kind_bounds(catalog@, group@, kind@);
    }
    match version {
        Some(v) => {
            let key = make_key(group, v, kind);
            proof {
                lemma_index_by_key_bounds(catalog@, key@);
            }
            match find_by_key(catalog, key.as_str()) {
                Some(i) => {
                    return Some(i);
                },
                None => {},
            }
        },
        None => {},
    }
    find_by_kind(catalog, group, kind)
}

/// A copy of a category.
pub fn copy_category(c: &Category) -> (r: Category)
    ensures
        r == *c,
{
    match c {
        Category::Workloads => Category::Workloads,
        Category::Config => Category::Config,
        Category::Network => Category::Network,
        Category::Storage => Category::Storage,
        Category::Rbac => Category::Rbac,
        Category::Cluster => Category::Cluster,
        Category::Flux => Category::Flux,
        Category::ExternalSecrets => Category::ExternalSecrets,
        Category::CertManager => Category::CertManager,
        Category::Rook => Category::Rook,
        Category::CloudNativePg => Category::CloudNativePg,
        Category::Custom(s) => Category::Custom(s.clone()),
    }
}

/// A tree resource by views: group, version, kind, name, namespace, key,
/// category, relation, expandable.
pub type RefNodeView = (
    Seq<char>,
    Seq<char>,
    Seq<char>,
    Seq<char>,
    Option<Seq<char>>,
    Option<Seq<char>>,
    Option<Category>,
    Option<ResourceTreeRelation>,
    bool,
);

pub open spec fn resource_view(r: ResourceRef) -> RefNodeView {
    (r.group@, r.version@, r.kind@, r.name@, opt_view(r.namespace), opt_view(r.key), r.category, r.relation, r.expandable)
}

pub open spec fn resource_views(v: Seq<ResourceRef>) -> Seq<RefNodeView> {
    v.map_values(|r: ResourceRef| resource_view(r))
}

/// A referenced object as a tree resource: its catalog entry (by key for a
/// non-empty version, else by group and kind) gives its key and category, and
/// makes it cluster-scoped when the kind is; whether it expands follows from
/// how it relates.
pub open spec fn spec_resolve_resource(
    catalog: Seq<ResourceKind>,
    group: Seq<char>,
    version: Seq<char>,
    kind: Seq<char>,
    name: Seq<char>,
    namespace: Option<Seq<char>>,
    relation: Option<ResourceTreeRelation>,
) -> RefNodeView {
    let entry = spec_catalog_index(catalog, group, if version.len() == 0 { None } else { Some(version) }, kind);
    let expandable = spec_reference_is_expandable(relation, group, kind);
    match entry {
        Some(i) => (
            group,
            version,
            kind,
            name,
            if catalog[i].namespaced { namespace } else { None },
            Some(catalog[i].key@),
            Some(catalog[i].category),
            relation,
            expandable,
        ),
        None => (group, version, kind, name, namespace, None, None, relation, expandable),
    }
}

/// Resolves a referenced object against the catalog.
pub fn resolve_resource(
    catalog: &[ResourceKind],
    group: String,
    version: String,
    kind: String,
    name: String,
    namespace: Option<String>,
    relation: Option<ResourceTreeRelation>,
) -> (r: ResourceRef)
    ensures
        resource_view(r) == spec_resolve_resource(catalog@, group@, version@, kind@, name@, opt_view(namespace), relation),
{
    let v = if version.as_str().is_empty() {
        None
    } else {
        Some(version.as_str())
    };
    let entry = catalog_index(catalog, group.as_str(), v, kind.as_str());
    let expandable = reference_is_expandable(relation, group.as_str(), kind.as_str());
    match entry {
        Some(i) => {
            let namespace = if catalog[i].namespaced {
                namespace
            } else {
                None
            };
            ResourceRef {
                group,
                version,
                kind,
                name,
                namespace,
                key: Some(owned(catalog[i].key.as_str())),
                category: Some(copy_category(&catalog[i].category)),
                relation,
                expandable,
            }
        },
        None => ResourceRef {
            group,
            version,
            kind,
            name,
            namespace,
            key: None,
            category: None,
            relation,
            expandable,
        },
    }
}

} // verus!
