//! Resource relationship trees: which kinds expand, and how references are read.
use vstd::prelude::*;

use crate::discovery::Category;
use crate::json::{json_nonempty_str, json_path, key_views, opt_nonempty_str, Json};
use crate::sort::{sort_strings, spec_sort};
use crate::text::{
    chars_of, extend_chars, join, join_strings, owned, split_once, split_once_chars, str_eq,
    string_of, string_views,
};

verus! {

/// Depth limit of a resource tree.
pub const MAX_DEPTH: usize = 12;

/// Node budget of a resource tree.
pub const MAX_NODES: usize = 500;

/// How a node of a resource tree relates to its parent.
#[derive(PartialEq, Eq, Structural, Clone, Copy, Debug)]
pub enum ResourceTreeRelation {
    Owner,
    OwnedResource,
    SelectedPod,
    ScaleTarget,
    EndpointSlice,
    FluxInventory,
    HelmManifest,
    ReferencedResource,
    GeneratedResource,
    StorageBackend,
    ClusterResource,
    VolumeAttachment,
}

/// A resource in a relationship tree.
pub struct ResourceRef {
    pub group: String,
    pub version: String,
    pub kind: String,
    pub name: String,
    pub namespace: Option<String>,
    /// Catalog key, when the kind is in the catalog.
    pub key: Option<String>,
    pub category: Option<Category>,
    pub relation: Option<ResourceTreeRelation>,
    pub expandable: bool,
}

/// The view of an optional string.
pub open spec fn opt_view(o: Option<String>) -> Option<Seq<char>> {
    match o {
        Some(s) => Some(s@),
        None => None,
    }
}

/// `apiVersion` split into group and version; the core group is empty.
pub open spec fn spec_split_api_version(api_version: Seq<char>) -> (Seq<char>, Seq<char>) {
    match split_once(api_version, '/') {
        Some((g, v)) => (g, v),
        None => (Seq::empty(), api_version),
    }
}

/// Splits an `apiVersion` such as `apps/v1` into (`apps`, `v1`), and `v1` into (``, `v1`).
pub fn split_api_version(api_version: &str) -> (r: (String, String))
    ensures
        (r.0@, r.1@) == spec_split_api_version(api_version@),
{
    let chars = chars_of(api_version);
    match split_once_chars(chars.as_slice(), '/') {
        Some((g, v)) => (string_of(g.as_slice()), string_of(v.as_slice())),
        None => (String::new(), string_of(chars.as_slice())),
    }
}

/// The Flux API group of a Flux kind.
pub open spec fn spec_flux_group(kind: Seq<char>) -> Seq<char> {
    if kind == "Kustomization"@ {
        "kustomize.toolkit.fluxcd.io"@
    } else if kind == "HelmRelease"@ {
        "helm.toolkit.fluxcd.io"@
    } else if kind == "ImageRepository"@ || kind == "ImagePolicy"@ || kind
        == "ImageUpdateAutomation"@ {
        "image.toolkit.fluxcd.io"@
    } else if kind == "Alert"@ || kind == "Provider"@ || kind == "Receiver"@ {
        "notification.toolkit.fluxcd.io"@
    } else {
        "source.toolkit.fluxcd.io"@
    }
}

/// The Flux API group of a Flux kind; unknown kinds are taken to be sources.
pub fn flux_group(kind: &str) -> (r: &'static str)
    ensures
        r@ == spec_flux_group(kind@),
{
    if str_eq(kind, "Kustomization") {
        "kustomize.toolkit.fluxcd.io"
    } else if str_eq(kind, "HelmRelease") {
        "helm.toolkit.fluxcd.io"
    } else if str_eq(kind, "ImageRepository") || str_eq(kind, "ImagePolicy") || str_eq(
        kind,
        "ImageUpdateAutomation",
    ) {
        "image.toolkit.fluxcd.io"
    } else if str_eq(kind, "Alert") || str_eq(kind, "Provider") || str_eq(kind, "Receiver") {
        "notification.toolkit.fluxcd.io"
    } else {
        "source.toolkit.fluxcd.io"
    }
}

/// Flux Kustomizations and HelmReleases own the objects they apply.
pub open spec fn spec_is_flux_owner(group: Seq<char>, kind: Seq<char>) -> bool {
    (group == "kustomize.toolkit.fluxcd.io"@ && kind == "Kustomization"@) || (group
        == "helm.toolkit.fluxcd.io"@ && kind == "HelmRelease"@)
}

/// Whether (group, kind) is a Flux Kustomization or HelmRelease.
pub fn is_flux_owner(group: &str, kind: &str) -> (r: bool)
    ensures
        r == spec_is_flux_owner(group@, kind@),
{
    (str_eq(group, "kustomize.toolkit.fluxcd.io") && str_eq(kind, "Kustomization")) || (str_eq(
        group,
        "helm.toolkit.fluxcd.io",
    ) && str_eq(kind, "HelmRelease"))
}

/// The workload kinds whose pods are found through their selector.
pub open spec fn spec_is_workload(group: Seq<char>, kind: Seq<char>) -> bool {
    (group == "apps"@ && (kind == "Deployment"@ || kind == "StatefulSet"@ || kind == "DaemonSet"@
        || kind == "ReplicaSet"@)) || (group == "batch"@ && kind == "Job"@)
}

/// Whether (group, kind) is a Deployment, StatefulSet, DaemonSet, ReplicaSet or Job.
pub fn is_workload(group: &str, kind: &str) -> (r: bool)
    ensures
        r == spec_is_workload(group@, kind@),
{
    (str_eq(group, "apps") && (str_eq(kind, "Deployment") || str_eq(kind, "StatefulSet")
        || str_eq(kind, "DaemonSet") || str_eq(kind, "ReplicaSet"))) || (str_eq(group, "batch")
        && str_eq(kind, "Job"))
}

/// Gateway API route kinds.
pub open spec fn is_route_kind(kind: Seq<char>) -> bool {
    kind == "HTTPRoute"@ || kind == "GRPCRoute"@ || kind == "TLSRoute"@ || kind == "TCPRoute"@
        || kind == "UDPRoute"@
}

/// Kinds whose tree node can be expanded to show descendants.
pub open spec fn spec_is_expandable_kind(group: Seq<char>, kind: Seq<char>) -> bool {
    spec_is_flux_owner(group, kind) || spec_is_workload(group, kind) || (group == "batch"@ && kind
        == "CronJob"@) || (group.len() == 0 && kind == "Service"@) || (group
        == "acme.cert-manager.io"@ && kind == "Order"@) || (group == "external-secrets.io"@ && kind
        == "ExternalSecret"@) || (group == "gateway.networking.k8s.io"@ && is_route_kind(kind))
}

/// Whether a node of (group, kind) can be expanded to show descendants.
pub fn is_expandable_kind(group: &str, kind: &str) -> (r: bool)
    ensures
        r == spec_is_expandable_kind(group@, kind@),
{
    is_flux_owner(group, kind) || is_workload(group, kind) || (str_eq(group, "batch") && str_eq(
        kind,
        "CronJob",
    )) || (group.is_empty() && str_eq(kind, "Service")) || (str_eq(group, "acme.cert-manager.io")
        && str_eq(kind, "Order")) || (str_eq(group, "external-secrets.io") && str_eq(
        kind,
        "ExternalSecret",
    )) || (str_eq(group, "gateway.networking.k8s.io") && (str_eq(kind, "HTTPRoute") || str_eq(
        kind,
        "GRPCRoute",
    ) || str_eq(kind, "TLSRoute") || str_eq(kind, "TCPRoute") || str_eq(kind, "UDPRoute")))
}

/// Whether a referenced node can be expanded, given how it was reached.
pub open spec fn spec_reference_is_expandable(
    relation: Option<ResourceTreeRelation>,
    group: Seq<char>,
    kind: Seq<char>,
) -> bool {
    relation == Some(ResourceTreeRelation::Owner) || spec_is_flux_owner(group, kind) || (
    relation.is_some() && relation != Some(ResourceTreeRelation::FluxInventory)
        && spec_is_expandable_kind(group, kind)) || (relation == Some(
        ResourceTreeRelation::ReferencedResource,
    ) && group.len() == 0 && (kind == "PersistentVolumeClaim"@ || kind == "PersistentVolume"@)) || (
    group.len() == 0 && kind == "Pod"@ && relation.is_some())
}

/// Whether a node reached through `relation` can be expanded: owners always,
/// Flux inventory entries only when they are Flux owners themselves.
pub fn reference_is_expandable(
    relation: Option<ResourceTreeRelation>,
    group: &str,
    kind: &str,
) -> (r: bool)
    ensures
        r == spec_reference_is_expandable(relation, group@, kind@),
{
    relation == Some(ResourceTreeRelation::Owner) || is_flux_owner(group, kind) || (
    relation.is_some() && relation != Some(ResourceTreeRelation::FluxInventory)
        && is_expandable_kind(group, kind)) || (relation == Some(
        ResourceTreeRelation::ReferencedResource,
    ) && group.is_empty() && (str_eq(kind, "PersistentVolumeClaim") || str_eq(
        kind,
        "PersistentVolume",
    ))) || (group.is_empty() && str_eq(kind, "Pod") && relation.is_some())
}

/// The kind a known controller creates and owns.
pub open spec fn spec_owned_child_kind(group: Seq<char>, kind: Seq<char>) -> Option<
    (Seq<char>, Seq<char>),
> {
    if group == "apps"@ && kind == "Deployment"@ {
        Some(("apps"@, "ReplicaSet"@))
    } else if group == "apps"@ && (kind == "ReplicaSet"@ || kind == "StatefulSet"@ || kind
        == "DaemonSet"@) {
        Some((""@, "Pod"@))
    } else if group == "batch"@ && kind == "CronJob"@ {
        Some(("batch"@, "Job"@))
    } else if group == "batch"@ && kind == "Job"@ {
        Some((""@, "Pod"@))
    } else {
        None
    }
}

/// The (group, kind) a known controller owns: Deployment → ReplicaSet → Pod,
/// StatefulSet and DaemonSet → Pod, CronJob → Job → Pod.
pub fn owned_child_kind(group: &str, kind: &str) -> (r: Option<(&'static str, &'static str)>)
    ensures
        match r {
            Some((g, k)) => spec_owned_child_kind(group@, kind@) == Some((g@, k@)),
            None => spec_owned_child_kind(group@, kind@) is None,
        },
{
    if str_eq(group, "apps") && str_eq(kind, "Deployment") {
        Some(("apps", "ReplicaSet"))
    } else if str_eq(group, "apps") && (str_eq(kind, "ReplicaSet") || str_eq(kind, "StatefulSet")
        || str_eq(kind, "DaemonSet")) {
        Some(("", "Pod"))
    } else if str_eq(group, "batch") && str_eq(kind, "CronJob") {
        Some(("batch", "Job"))
    } else if str_eq(group, "batch") && str_eq(kind, "Job") {
        Some(("", "Pod"))
    } else {
        None
    }
}

/// Slots granted to a request for `requested` nodes when `current` are in use.
pub open spec fn granted_slots(current: int, requested: int) -> int {
    let free = if current < MAX_NODES {
        MAX_NODES - current
    } else {
        0
    };
    if requested < free {
        requested
    } else {
        free
    }
}

/// Reserves up to `requested` node slots from the tree's budget and returns how
/// many were granted; the count never passes the budget.
pub fn reserve_node_slots(count: &mut usize, requested: usize) -> (granted: usize)
    ensures
        granted == granted_slots(*old(count) as int, requested as int),
        *final(count) == *old(count) + granted,
        *old(count) <= MAX_NODES ==> *final(count) <= MAX_NODES,
{
    let free = if *count < MAX_NODES {
        MAX_NODES - *count
    } else {
        0
    };
    let granted = if requested < free {
        requested
    } else {
        free
    };
    *count = *count + granted;
    granted
}

/// Whether the node budget has room for more descendants.
pub fn descendant_capacity_available(count: usize) -> (r: bool)
    ensures
        r == (count < MAX_NODES),
{
    count < MAX_NODES
}

/// A Flux inventory id `<namespace>_<name>_<group>_<kind>` (the kind keeps any
/// further `_`), with an empty namespace meaning cluster-scoped.
pub open spec fn spec_parse_inventory_id(id: Seq<char>) -> Option<
    (Option<Seq<char>>, Seq<char>, Seq<char>, Seq<char>),
> {
    match split_once(id, '_') {
        None => None,
        Some((ns, r1)) => match split_once(r1, '_') {
            None => None,
            Some((name, r2)) => match split_once(r2, '_') {
                None => None,
                Some((group, kind)) => if name.len() == 0 || kind.len() == 0 {
                    None
                } else {
                    Some(
                        (
                            if ns.len() == 0 {
                                None
                            } else {
                                Some(ns)
                            },
                            name,
                            group,
                            kind,
                        ),
                    )
                },
            },
        },
    }
}

proof fn lemma_split_once_at(a: Seq<char>, b: Seq<char>, c: char)
    requires
        forall|k: int| 0 <= k < a.len() ==> a[k] != c,
    ensures
        split_once(a + seq![c] + b, c) == Some((a, b)),
{
    let s = a + seq![c] + b;
    crate::text::lemma_first_index(s, c, a.len() as int);
    assert(s.take(a.len() as int) == a);
    assert(s.skip(a.len() as int + 1) == b);
}

/// Reading an inventory id gives back what it was written from: the id
/// `<namespace>_<name>_<group>_<kind>` of a name and a kind that are not empty,
/// with namespace, name and group free of `_`, reads as that namespace (none
/// when empty), name, group and kind.
pub proof fn lemma_inventory_id_round_trip(ns: Seq<char>, name: Seq<char>, group: Seq<char>, kind: Seq<char>)
    requires
        forall|k: int| 0 <= k < ns.len() ==> ns[k] != '_',
        forall|k: int| 0 <= k < name.len() ==> name[k] != '_',
        forall|k: int| 0 <= k < group.len() ==> group[k] != '_',
        name.len() > 0,
        kind.len() > 0,
    ensures
        spec_parse_inventory_id(ns + seq!['_'] + name + seq!['_'] + group + seq!['_'] + kind) == Some(
            (if ns.len() == 0 { None } else { Some(ns) }, name, group, kind),
        ),
{
    let r2 = group + seq!['_'] + kind;
    let r1 = name + seq!['_'] + r2;
    assert(ns + seq!['_'] + name + seq!['_'] + group + seq!['_'] + kind == ns + seq!['_'] + r1);
    lemma_split_once_at(ns, r1, '_');
    lemma_split_once_at(name, r2, '_');
    lemma_split_once_at(group, kind, '_');
}

/// Views of a parsed inventory id.
pub open spec fn inventory_view(r: (Option<String>, String, String, String)) -> (
    Option<Seq<char>>,
    Seq<char>,
    Seq<char>,
    Seq<char>,
) {
    (
        match r.0 {
            Some(ns) => Some(ns@),
            None => None,
        },
        r.1@,
        r.2@,
        r.3@,
    )
}

/// Parses a Flux inventory id into (namespace, name, group, kind).
pub fn parse_inventory_id(id: &str) -> (r: Option<(Option<String>, String, String, String)>)
    ensures
        match r {
            Some(p) => spec_parse_inventory_id(id@) == Some(inventory_view(p)),
            None => spec_parse_inventory_id(id@) is None,
        },
{
    let chars = chars_of(id);
    let (ns, r1) = match split_once_chars(chars.as_slice(), '_') {
        Some(p) => p,
        None => return None,
    };
    let (name, r2) = match split_once_chars(r1.as_slice(), '_') {
        Some(p) => p,
        None => return None,
    };
    let (group, kind) = match split_once_chars(r2.as_slice(), '_') {
        Some(p) => p,
        None => return None,
    };
    if name.len() == 0 || kind.len() == 0 {
        return None;
    }
    let namespace = if ns.len() == 0 {
        None
    } else {
        Some(string_of(ns.as_slice()))
    };
    Some((namespace, string_of(name.as_slice()), string_of(group.as_slice()), string_of(kind.as_slice())))
}

} // verus!

verus! {

/// `key=value` for each selector entry whose value is a string, in order.
pub open spec fn selector_pairs(entries: Seq<(String, Json)>) -> Seq<Seq<char>>
    decreases entries.len(),
{
    if entries.len() == 0 {
        Seq::empty()
    } else {
        let prev = selector_pairs(entries.drop_last());
        match entries.last().1 {
            Json::Str(v) => prev.push(entries.last().0@ + "="@ + v@),
            _ => prev,
        }
    }
}

/// A Service's `spec.selector` as a sorted, comma-separated label selector;
/// none when it is missing, not an object, or has no string values.
pub open spec fn spec_service_selector(data: Json) -> Option<Seq<char>> {
    match json_path(data, seq!["spec"@, "selector"@]) {
        Some(Json::Object(es)) => {
            let pairs = selector_pairs(es@);
            if pairs.len() == 0 {
                None
            } else {
                Some(join(spec_sort(pairs), ","@))
            }
        },
        _ => None,
    }
}

/// A Service whose selector values are all strings selects its pods by
/// `key=value` for every selector entry, sorted and joined by commas, and by
/// nothing else; one with an empty selector selects none.
pub proof fn lemma_service_selector_lists_entries(data: Json, es: Vec<(String, Json)>)
    requires
        json_path(data, seq!["spec"@, "selector"@]) == Some(Json::Object(es)),
        forall|k: int| 0 <= k < es@.len() ==> #[trigger] es@[k].1 is Str,
    ensures
        es@.len() == 0 ==> spec_service_selector(data) is None,
        es@.len() > 0 ==> ({
            let listed = spec_sort(selector_pairs(es@));
            &&& spec_service_selector(data) == Some(join(listed, ","@))
            &&& listed.len() == es@.len()
            &&& forall|k: int|
                #![trigger es@[k]]
                0 <= k < es@.len() ==> (es@[k].1 matches Json::Str(v) && listed.contains(es@[k].0@ + "="@ + v@))
        }),
{
    broadcast use vstd::seq_lib::group_to_multiset_ensures;
    lemma_selector_pairs_each(es@);
    let pairs = selector_pairs(es@);
    crate::sort::lemma_spec_sort_permutes(pairs);
    let listed = spec_sort(pairs);
    assert forall|x: Seq<char>| pairs.contains(x) implies listed.contains(x) by {
        assert(pairs.to_multiset().count(x) > 0);
        assert(listed.to_multiset().count(x) > 0);
    }
    assert forall|k: int| #![trigger es@[k]] 0 <= k < es@.len() implies (es@[k].1 matches Json::Str(v)
        && listed.contains(es@[k].0@ + "="@ + v@)) by {
        assert(pairs.contains(pairs[k]));
    }
}

proof fn lemma_selector_pairs_each(entries: Seq<(String, Json)>)
    requires
        forall|k: int| 0 <= k < entries.len() ==> #[trigger] entries[k].1 is Str,
    ensures
        selector_pairs(entries).len() == entries.len(),
        forall|k: int|
            #![trigger entries[k]]
            0 <= k < entries.len() ==> (entries[k].1 matches Json::Str(v) && selector_pairs(entries)[k]
                == entries[k].0@ + "="@ + v@),
    decreases entries.len(),
{
    if entries.len() > 0 {
        let pre = entries.drop_last();
        assert forall|k: int| 0 <= k < pre.len() implies #[trigger] pre[k].1 is Str by {
            assert(pre[k] == entries[k]);
        }
        lemma_selector_pairs_each(pre);
        let n = entries.len() - 1;
        assert(entries[n].1 is Str);
        assert forall|k: int| #![trigger entries[k]] 0 <= k < entries.len() implies (entries[k].1 matches Json::Str(v)
            && selector_pairs(entries)[k] == entries[k].0@ + "="@ + v@) by {
            if k < n {
                assert(pre[k] == entries[k]);
            }
        }
    }
}

/// The label selector of a Service's pods.
pub fn service_selector(data: &Json) -> (r: Option<String>)
    ensures
        match r {
            Some(s) => spec_service_selector(*data) == Some(s@),
            None => spec_service_selector(*data) is None,
        },
{
    let path = ["spec", "selector"];
    assert(key_views(path@) =~= seq!["spec"@, "selector"@]);
    let entries = match data.path(&path) {
        Some(Json::Object(es)) => es,
        _ => {
            return None;
        },
    };
    let mut pairs: Vec<String> = Vec::new();
    let n = entries.len();
    for i in 0..n
        invariant
            n == entries@.len(),
            string_views(pairs@) == selector_pairs(entries@.take(i as int)),
    {
        assert(entries@.take(i + 1).drop_last() == entries@.take(i as int));
        assert(entries@.take(i + 1).last() == entries@[i as int]);
        match &entries[i].1 {
            Json::Str(v) => {
                let mut out = chars_of(entries[i].0.as_str());
                out.push('=');
                let vc = chars_of(v.as_str());
                extend_chars(&mut out, vc.as_slice());
                let pair = string_of(out.as_slice());
                assert(pair@ =~= entries@[i as int].0@ + "="@ + v@) by {
                    reveal_strlit("=");
                }
                let ghost before = pairs@;
                pairs.push(pair);
                assert(string_views(pairs@) =~= string_views(before).push(pair@));
            },
            _ => {},
        }
    }
    assert(entries@.take(n as int) == entries@);
    if pairs.len() == 0 {
        return None;
    }
    let sorted = sort_strings(pairs);
    Some(join_strings(sorted.as_slice(), ","))
}

/// The Service an EndpointSlice belongs to: its non-empty
/// `kubernetes.io/service-name` label.
pub open spec fn spec_endpoint_slice_service_name(data: Json) -> Option<Seq<char>> {
    json_nonempty_str(json_path(data, seq!["metadata"@, "labels"@, "kubernetes.io/service-name"@]))
}

/// The name of the Service an EndpointSlice belongs to.
pub fn endpoint_slice_service_name(data: &Json) -> (r: Option<&str>)
    ensures
        match r {
            Some(s) => spec_endpoint_slice_service_name(*data) == Some(s@),
            None => spec_endpoint_slice_service_name(*data) is None,
        },
{
    let path = ["metadata", "labels", "kubernetes.io/service-name"];
    assert(key_views(path@) =~= seq!["metadata"@, "labels"@, "kubernetes.io/service-name"@]);
    opt_nonempty_str(data.path(&path))
}

/// The workload an HPA scales, as (group, version, kind, name), when its
/// `spec.scaleTargetRef` has a non-empty `apiVersion`, `kind` and `name`.
pub open spec fn spec_hpa_scale_target(data: Json) -> Option<(Seq<char>, Seq<char>, Seq<char>, Seq<char>)> {
    let av = json_nonempty_str(json_path(data, seq!["spec"@, "scaleTargetRef"@, "apiVersion"@]));
    let k = json_nonempty_str(json_path(data, seq!["spec"@, "scaleTargetRef"@, "kind"@]));
    let n = json_nonempty_str(json_path(data, seq!["spec"@, "scaleTargetRef"@, "name"@]));
    match (av, k, n) {
        (Some(a), Some(k), Some(n)) => {
            let gv = spec_split_api_version(a);
            Some((gv.0, gv.1, k, n))
        },
        _ => None,
    }
}

/// The scale target of a HorizontalPodAutoscaler.
pub fn hpa_scale_target(data: &Json) -> (r: Option<(String, String, String, String)>)
    ensures
        match r {
            Some(t) => spec_hpa_scale_target(*data) == Some((t.0@, t.1@, t.2@, t.3@)),
            None => spec_hpa_scale_target(*data) is None,
        },
{
    let ap = ["spec", "scaleTargetRef", "apiVersion"];
    assert(key_views(ap@) =~= seq!["spec"@, "scaleTargetRef"@, "apiVersion"@]);
    let kp = ["spec", "scaleTargetRef", "kind"];
    assert(key_views(kp@) =~= seq!["spec"@, "scaleTargetRef"@, "kind"@]);
    let np = ["spec", "scaleTargetRef", "name"];
    assert(key_views(np@) =~= seq!["spec"@, "scaleTargetRef"@, "name"@]);
    let a = match opt_nonempty_str(data.path(&ap)) {
        Some(a) => a,
        None => {
            return None;
        },
    };
    let k = match opt_nonempty_str(data.path(&kp)) {
        Some(k) => k,
        None => {
            return None;
        },
    };
    let n = match opt_nonempty_str(data.path(&np)) {
        Some(n) => n,
        None => {
            return None;
        },
    };
    let (g, v) = split_api_version(a);
    Some((g, v, owned(k), owned(n)))
}

/// `group/version/kind/namespace/name`, the namespace empty when missing.
pub open spec fn spec_identity(r: ResourceRef) -> Seq<char> {
    let ns = match r.namespace {
        Some(n) => n@,
        None => Seq::empty(),
    };
    r.group@ + "/"@ + r.version@ + "/"@ + r.kind@ + "/"@ + ns + "/"@ + r.name@
}

impl ResourceRef {
    /// The identity that tells resources apart within a tree.
    pub fn identity(&self) -> (r: String)
        ensures
            r@ == spec_identity(*self),
    {
        proof {
            reveal_strlit("/");
            reveal_strlit("");
        }
        let ns: &str = match &self.namespace {
            Some(n) => n.as_str(),
            None => "",
        };
        let mut out = chars_of(self.group.as_str());
        let v = chars_of(self.version.as_str());
        let k = chars_of(self.kind.as_str());
        let nc = chars_of(ns);
        let nm = chars_of(self.name.as_str());
        out.push('/');
        extend_chars(&mut out, v.as_slice());
        out.push('/');
        extend_chars(&mut out, k.as_slice());
        out.push('/');
        extend_chars(&mut out, nc.as_slice());
        out.push('/');
        extend_chars(&mut out, nm.as_slice());
        assert(out@ =~= spec_identity(*self));
        string_of(out.as_slice())
    }
}

/// The nodes in use after reserving slots for each request in turn.
pub open spec fn after_reservations(count: int, requests: Seq<nat>) -> int
    decreases requests.len(),
{
    if requests.len() == 0 {
        count
    } else {
        let before = after_reservations(count, requests.drop_last());
        before + granted_slots(before, requests.last() as int)
    }
}

/// However many nodes are requested, in whatever order, a tree that starts
/// within its budget never holds more than `MAX_NODES` nodes, and a request
/// is granted in full while the budget lasts.
pub proof fn lemma_node_budget(count: int, requests: Seq<nat>)
    requires
        0 <= count <= MAX_NODES,
    ensures
        count <= after_reservations(count, requests) <= MAX_NODES,
        requests.len() > 0 && after_reservations(count, requests.drop_last()) + requests.last() <= MAX_NODES
            ==> after_reservations(count, requests) == after_reservations(count, requests.drop_last()) + requests.last(),
    decreases requests.len(),
{
    if requests.len() > 0 {
        lemma_node_budget(count, requests.drop_last());
    }
}

} // verus!
