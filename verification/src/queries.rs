//! Relationships found by listing the cluster: which lists a relationship
//! provider needs, which listed objects it keeps, and how they become tree
//! resources.
use vstd::prelude::*;

use crate::catalog::{
    copy_category, index_by_kind, resolve_resource, resource_view, resource_views, spec_resolve_resource,
    RefNodeView, ResourceKind,
};
use crate::json::json_nonempty_str;
use crate::helm::{ref_views as helm_ref_views, ManifestObjectRef, RefView as HelmRefView};
use crate::logs::{spec_workload_label_selector, workload_label_selector};
use crate::matching::{spec_tuppr_node_names, tuppr_node_names};
use crate::references::{
    cluster_external_secret_references, issuer_reference, kopiur_repository_references,
    reference_grant_list_targets, reference_grant_named_targets, reference_grant_sources,
    reference_grant_targets, spec_cluster_external_secret_references, spec_issuer_reference,
    spec_kopiur_repository_references, spec_reference_grant_list_targets,
    spec_reference_grant_named_targets, spec_reference_grant_sources, spec_reference_grant_targets,
    KindScope,
};
use crate::registry::RelationshipProvider;
use crate::relations::{copy_opt, push_resolved, resolved_refs, spec_static_relationships, static_relationships};
use crate::json::{json_path, json_str, key_views, opt_str, opt_str_is, Json};
use crate::matching::{kopiur_child_matches_policy, spec_kopiur_child_matches_policy};
use crate::references::{
    reference_grant_source_matches, spec_reference_grant_source_matches, target_views,
    ReferenceGrantTarget, TargetView,
};
use crate::relations::{child_namespace, owned_by, spec_child_namespace, spec_owned_by};
use crate::storage::{attaches, spec_attaches};
use crate::text::{chars_of, contains_seq, ends_with, extend_chars, owned, str_contains, str_ends_with, str_eq, string_of, string_views};
use crate::tree::{
    service_selector, spec_service_selector, spec_owned_child_kind, owned_child_kind, is_expandable_kind, opt_view, reference_is_expandable, spec_is_expandable_kind,
    spec_reference_is_expandable, ResourceRef, ResourceTreeRelation,
};

verus! {

/// Which listed objects a query keeps.
pub enum QueryFilter {
    /// All of them.
    Every,
    /// Those with an owner reference to this uid.
    OwnedBy(String),
    /// Those whose `spec.cluster.name` is this name.
    ClusterNamed(String),
    /// Backups a schedule made: owned by its uid (when it has one) or
    /// labelled `cnpg.io/scheduled-backup` with its name.
    ScheduledBackupOf { uid: String, schedule: String },
    /// Volume attachments of the volume or node of this group, kind and name.
    AttachmentOf { group: String, kind: String, name: String },
    /// Kopiur objects of kind `kind` that belong to the policy `policy`
    /// with these labels.
    KopiurChild { kind: String, policy: String, labels: Vec<(String, String)> },
    /// Objects of `namespace` whose spec refers to one of these granted targets.
    GrantSource { namespace: Option<String>, targets: Vec<ReferenceGrantTarget> },
}

/// A list a relationship provider needs.
pub struct ClusterQuery {
    pub group: String,
    pub kind: String,
    /// The namespace listed; all namespaces without one.
    pub namespace: Option<String>,
    /// The label selector the server applies, if any.
    pub selector: Option<String>,
    pub filter: QueryFilter,
    pub relation: ResourceTreeRelation,
    /// Whether the listed objects are owned children, which expand by their
    /// kind rather than by how they relate.
    pub owned: bool,
    /// How a failure of this list is reported: `<label>: <error>`.
    pub label: String,
}

/// A filter as mathematical values.
pub enum FilterView {
    Every,
    OwnedBy(Seq<char>),
    ClusterNamed(Seq<char>),
    ScheduledBackupOf(Seq<char>, Seq<char>),
    AttachmentOf(Seq<char>, Seq<char>, Seq<char>),
    KopiurChild(Seq<char>, Seq<char>, Seq<(String, String)>),
    GrantSource(Option<Seq<char>>, Seq<TargetView>),
}

pub open spec fn filter_view(f: QueryFilter) -> FilterView {
    match f {
        QueryFilter::Every => FilterView::Every,
        QueryFilter::OwnedBy(u) => FilterView::OwnedBy(u@),
        QueryFilter::ClusterNamed(n) => FilterView::ClusterNamed(n@),
        QueryFilter::ScheduledBackupOf { uid, schedule } => FilterView::ScheduledBackupOf(uid@, schedule@),
        QueryFilter::AttachmentOf { group, kind, name } => FilterView::AttachmentOf(group@, kind@, name@),
        QueryFilter::KopiurChild { kind, policy, labels } => FilterView::KopiurChild(kind@, policy@, labels@),
        QueryFilter::GrantSource { namespace, targets } => FilterView::GrantSource(
            opt_view(namespace),
            target_views(targets@),
        ),
    }
}

/// A query as mathematical values: group, kind, namespace, selector, filter,
/// relation, owned, label.
pub type QueryView = (
    Seq<char>,
    Seq<char>,
    Option<Seq<char>>,
    Option<Seq<char>>,
    FilterView,
    ResourceTreeRelation,
    bool,
    Seq<char>,
);

pub open spec fn query_view(q: ClusterQuery) -> QueryView {
    (q.group@, q.kind@, opt_view(q.namespace), opt_view(q.selector), filter_view(q.filter), q.relation, q.owned, q.label@)
}

pub open spec fn query_views(v: Seq<ClusterQuery>) -> Seq<QueryView> {
    v.map_values(|q: ClusterQuery| query_view(q))
}

/// Whether a filter keeps a listed object.
pub open spec fn spec_filter_keeps(f: FilterView, object: Json) -> bool {
    match f {
        FilterView::Every => true,
        FilterView::OwnedBy(uid) => spec_owned_by(object, uid),
        FilterView::ClusterNamed(name) => json_str(json_path(object, seq!["spec"@, "cluster"@, "name"@])) == Some(name),
        FilterView::ScheduledBackupOf(uid, schedule) => (uid.len() > 0 && spec_owned_by(object, uid)) || json_str(
            json_path(object, seq!["metadata"@, "labels"@, "cnpg.io/scheduled-backup"@]),
        ) == Some(schedule),
        FilterView::AttachmentOf(group, kind, name) => spec_attaches(group, kind, name, object),
        FilterView::KopiurChild(kind, policy, labels) => spec_kopiur_child_matches_policy(kind, policy, labels, object),
        FilterView::GrantSource(ns, targets) => spec_reference_grant_source_matches(object, ns, targets),
    }
}

/// Whether a query keeps a listed object.
pub fn filter_keeps(f: &QueryFilter, object: &Json) -> (r: bool)
    ensures
        r == spec_filter_keeps(filter_view(*f), *object),
{
    match f {
        QueryFilter::Every => true,
        QueryFilter::OwnedBy(uid) => owned_by(object, uid.as_str()),
        QueryFilter::ClusterNamed(name) => {
            let p = ["spec", "cluster", "name"];
            assert(key_views(p@) =~= seq!["spec"@, "cluster"@, "name"@]);
            opt_str_is(object.path(&p), name.as_str())
        },
        QueryFilter::ScheduledBackupOf { uid, schedule } => {
            if !uid.as_str().is_empty() && owned_by(object, uid.as_str()) {
                return true;
            }
            let p = ["metadata", "labels", "cnpg.io/scheduled-backup"];
            assert(key_views(p@) =~= seq!["metadata"@, "labels"@, "cnpg.io/scheduled-backup"@]);
            opt_str_is(object.path(&p), schedule.as_str())
        },
        QueryFilter::AttachmentOf { group, kind, name } => attaches(
            group.as_str(),
            kind.as_str(),
            name.as_str(),
            object,
        ),
        QueryFilter::KopiurChild { kind, policy, labels } => kopiur_child_matches_policy(
            kind.as_str(),
            policy.as_str(),
            labels.as_slice(),
            object,
        ),
        QueryFilter::GrantSource { namespace, targets } => {
            let ns = match namespace {
                Some(n) => Some(n.as_str()),
                None => None,
            };
            reference_grant_source_matches(object, ns, targets.as_slice())
        },
    }
}

/// The tree resource a kept object becomes: the query's catalog entry, the
/// object's name, and its namespace (the query's when it has none).
pub open spec fn query_child(q: QueryView, entry: ResourceKind, object: Json) -> Option<RefNodeView> {
    match json_str(json_path(object, seq!["metadata"@, "name"@])) {
        Some(name) => Some(
            (
                entry.group@,
                entry.version@,
                entry.kind@,
                name,
                spec_child_namespace(object, q.2, entry.namespaced),
                Some(entry.key@),
                Some(entry.category),
                Some(q.5),
                if q.6 {
                    spec_is_expandable_kind(entry.group@, entry.kind@)
                } else {
                    spec_reference_is_expandable(Some(q.5), q.0, q.1)
                },
            ),
        ),
        None => None,
    }
}

/// The tree resources of listed objects a query keeps, in order.
pub open spec fn kept_children(q: QueryView, entry: ResourceKind, listed: Seq<Json>) -> Seq<RefNodeView>
    decreases listed.len(),
{
    if listed.len() == 0 {
        Seq::empty()
    } else {
        let prev = kept_children(q, entry, listed.drop_last());
        if spec_filter_keeps(q.4, listed.last()) {
            match query_child(q, entry, listed.last()) {
                Some(c) => prev.push(c),
                None => prev,
            }
        } else {
            prev
        }
    }
}

/// Some listed object that the query's filter keeps becomes `c`.
pub open spec fn kept_from_some(q: QueryView, entry: ResourceKind, listed: Seq<Json>, c: RefNodeView) -> bool {
    exists|i: int|
        0 <= i < listed.len() && spec_filter_keeps(q.4, #[trigger] listed[i]) && query_child(q, entry, listed[i]) == Some(c)
}

/// A query finds exactly the named objects its filter keeps, in order: each
/// of them is found, each found resource is one of them and of the queried
/// kind, and never more than were listed.
pub proof fn lemma_query_finds_kept_objects(q: QueryView, entry: ResourceKind, listed: Seq<Json>)
    ensures
        kept_children(q, entry, listed).len() <= listed.len(),
        forall|i: int| 0 <= i < listed.len() && spec_filter_keeps(q.4, #[trigger] listed[i])
            && query_child(q, entry, listed[i]) is Some
            ==> kept_children(q, entry, listed).contains(query_child(q, entry, listed[i])->0),
        forall|k: int| 0 <= k < kept_children(q, entry, listed).len() ==> kept_from_some(
            q,
            entry,
            listed,
            #[trigger] kept_children(q, entry, listed)[k],
        ) && kept_children(q, entry, listed)[k].0 == entry.group@ && kept_children(q, entry, listed)[k].2
            == entry.kind@,
    decreases listed.len(),
{
    if listed.len() > 0 {
        let pre = listed.drop_last();
        let n = listed.len() - 1;
        lemma_query_finds_kept_objects(q, entry, pre);
        let prev = kept_children(q, entry, pre);
        let cur = kept_children(q, entry, listed);
        assert forall|i: int| 0 <= i < n implies #[trigger] listed[i] == pre[i] by {}
        assert forall|i: int| 0 <= i < listed.len() && spec_filter_keeps(q.4, #[trigger] listed[i])
            && query_child(q, entry, listed[i]) is Some
            implies cur.contains(query_child(q, entry, listed[i])->0) by {
            let x = query_child(q, entry, listed[i])->0;
            if i < n {
                assert(spec_filter_keeps(q.4, pre[i]));
                let j = choose|j: int| 0 <= j < prev.len() && prev[j] == x;
                assert(cur[j] == x);
            } else {
                assert(cur[cur.len() - 1] == x);
            }
        }
        assert forall|k: int| 0 <= k < cur.len() implies kept_from_some(q, entry, listed, #[trigger] cur[k])
            && cur[k].0 == entry.group@ && cur[k].2 == entry.kind@ by {
            if k < prev.len() {
                assert(cur[k] == prev[k]);
                assert(kept_from_some(q, entry, pre, prev[k]));
                let i = choose|i: int|
                    0 <= i < pre.len() && spec_filter_keeps(q.4, #[trigger] pre[i]) && query_child(q, entry, pre[i]) == Some(prev[k]);
                assert(listed[i] == pre[i]);
            } else {
                assert(spec_filter_keeps(q.4, listed[n]));
            }
        }
    }
}

/// What a query finds among listed objects: nothing when the catalog does
/// not serve its kind (and nothing is listed then), else the kept objects.
pub open spec fn spec_query_children(catalog: Seq<ResourceKind>, q: QueryView, listed: Seq<Json>) -> Seq<RefNodeView> {
    match index_by_kind(catalog, q.0, q.1) {
        Some(i) => kept_children(q, catalog[i], listed),
        None => Seq::empty(),
    }
}

proof fn lemma_index_by_kind(catalog: Seq<ResourceKind>, group: Seq<char>, kind: Seq<char>)
    ensures
        match index_by_kind(catalog, group, kind) {
            Some(i) => 0 <= i < catalog.len() && catalog[i].group@ == group && catalog[i].kind@ == kind,
            None => true,
        },
    decreases catalog.len(),
{
    if catalog.len() > 0 && !(catalog[0].group@ == group && catalog[0].kind@ == kind) {
        lemma_index_by_kind(catalog.drop_first(), group, kind);
    }
}

/// The catalog entry a query lists, if the cluster serves its kind.
pub fn query_kind<'a>(catalog: &'a [ResourceKind], q: &ClusterQuery) -> (r: Option<&'a ResourceKind>)
    ensures
        match r {
            Some(k) => match index_by_kind(catalog@, q.group@, q.kind@) {
                Some(i) => catalog@[i] == *k,
                None => false,
            },
            None => index_by_kind(catalog@, q.group@, q.kind@) is None,
        },
{
    proof {
        lemma_index_by_kind(catalog@, q.group@, q.kind@);
    }
    let n = catalog.len();
    assert(catalog@.skip(0) == catalog@);
    for i in 0..n
        invariant
            n == catalog@.len(),
            match index_by_kind(catalog@.skip(i as int), q.group@, q.kind@) {
                Some(j) => index_by_kind(catalog@, q.group@, q.kind@) == Some(j + i),
                None => index_by_kind(catalog@, q.group@, q.kind@) is None,
            },
    {
        assert(catalog@.skip(i as int).drop_first() == catalog@.skip(i + 1));
        assert(catalog@.skip(i as int)[0] == catalog@[i as int]);
        if str_eq(catalog[i].group.as_str(), q.group.as_str()) && str_eq(catalog[i].kind.as_str(), q.kind.as_str()) {
            return Some(&catalog[i]);
        }
    }
    assert(catalog@.skip(n as int).len() == 0);
    None
}

/// The tree resources a query finds among the objects listed for it.
pub fn query_children(catalog: &[ResourceKind], q: &ClusterQuery, listed: &[Json]) -> (r: Vec<ResourceRef>)
    ensures
        resource_views(r@) == spec_query_children(catalog@, query_view(*q), listed@),
{
    let mut out: Vec<ResourceRef> = Vec::new();
    let entry = match query_kind(catalog, q) {
        Some(e) => e,
        None => return out,
    };
    let ghost qv = query_view(*q);
    let np = ["metadata", "name"];
    assert(key_views(np@) =~= seq!["metadata"@, "name"@]);
    let ns = match &q.namespace {
        Some(n) => Some(n.as_str()),
        None => None,
    };
    let expandable = if q.owned {
        is_expandable_kind(entry.group.as_str(), entry.kind.as_str())
    } else {
        reference_is_expandable(Some(q.relation), q.group.as_str(), q.kind.as_str())
    };
    let n = listed.len();
    for i in 0..n
        invariant
            n == listed@.len(),
            qv == query_view(*q),
            key_views(np@) == seq!["metadata"@, "name"@],
            (match ns {
                Some(s) => Some(s@),
                None => None,
            }) == qv.2,
            expandable == if qv.6 {
                spec_is_expandable_kind(entry.group@, entry.kind@)
            } else {
                spec_reference_is_expandable(Some(qv.5), qv.0, qv.1)
            },
            resource_views(out@) == kept_children(qv, *entry, listed@.take(i as int)),
    {
        assert(listed@.take(i + 1).drop_last() == listed@.take(i as int));
        assert(listed@.take(i + 1).last() == listed@[i as int]);
        let object = &listed[i];
        if filter_keeps(&q.filter, object) {
            if let Some(name) = opt_str(object.path(&np)) {
                let child = ResourceRef {
                    group: owned(entry.group.as_str()),
                    version: owned(entry.version.as_str()),
                    kind: owned(entry.kind.as_str()),
                    name: owned(name),
                    namespace: child_namespace(object, ns, entry.namespaced),
                    key: Some(owned(entry.key.as_str())),
                    category: Some(copy_category(&entry.category)),
                    relation: Some(q.relation),
                    expandable,
                };
                let ghost before = out@;
                let ghost cv = resource_view(child);
                out.push(child);
                assert(resource_views(out@) =~= resource_views(before).push(cv));
            }
        }
    }
    assert(listed@.take(n as int) == listed@);
    out
}

/// How a failed list is reported.
pub fn query_error(q: &ClusterQuery, error: &str) -> (r: String)
    ensures
        r@ == q.label@ + ": "@ + error@,
{
    let mut out = chars_of(q.label.as_str());
    let sep = chars_of(": ");
    extend_chars(&mut out, sep.as_slice());
    let e = chars_of(error);
    extend_chars(&mut out, e.as_slice());
    string_of(out.as_slice())
}


/// A query as mathematical values, from its parts.
pub open spec fn qv(
    group: Seq<char>,
    kind: Seq<char>,
    namespace: Option<Seq<char>>,
    selector: Option<Seq<char>>,
    filter: FilterView,
    relation: ResourceTreeRelation,
    owned: bool,
    label: Seq<char>,
) -> QueryView {
    (group, kind, namespace, selector, filter, relation, owned, label)
}

fn query(
    group: &str,
    kind: &str,
    namespace: Option<String>,
    selector: Option<String>,
    filter: QueryFilter,
    relation: ResourceTreeRelation,
    owned: bool,
    label: String,
) -> (r: ClusterQuery)
    ensures
        query_view(r) == qv(group@, kind@, opt_view(namespace), opt_view(selector), filter_view(filter), relation, owned, label@),
{
    ClusterQuery { group: crate::text::owned(group), kind: crate::text::owned(kind), namespace, selector, filter, relation, owned, label }
}

/// `a` followed by `b`.
fn concat(a: &str, b: &str) -> (r: String)
    ensures
        r@ == a@ + b@,
{
    let mut out = chars_of(a);
    let bc = chars_of(b);
    extend_chars(&mut out, bc.as_slice());
    string_of(out.as_slice())
}

/// The uid of an object, or empty.
pub open spec fn uid_of(object: Json) -> Seq<char> {
    match json_str(json_path(object, seq!["metadata"@, "uid"@])) {
        Some(u) => u,
        None => Seq::empty(),
    }
}

fn object_uid(object: &Json) -> (r: String)
    ensures
        r@ == uid_of(*object),
{
    let p = ["metadata", "uid"];
    assert(key_views(p@) =~= seq!["metadata"@, "uid"@]);
    match opt_str(object.path(&p)) {
        Some(u) => owned(u),
        None => {
            proof {
                reveal_strlit("");
                assert(""@ =~= Seq::<char>::empty());
            }
            owned("")
        },
    }
}

/// The lists that find the owned children of `resource`, the object with
/// uid `uid`: one list of the kind it owns when it is a known controller
/// with a uid.
pub open spec fn owned_query(resource: ResourceRef, uid: Seq<char>) -> Seq<QueryView> {
    match spec_owned_child_kind(resource.group@, resource.kind@) {
        Some(gk) => if uid.len() == 0 {
            Seq::empty()
        } else {
            seq![
                qv(gk.0, gk.1, opt_view(resource.namespace), None, FilterView::OwnedBy(uid),
                    ResourceTreeRelation::OwnedResource, true, "owned resources"@),
            ]
        },
        None => Seq::empty(),
    }
}

/// The list of the owned children of kind `group`/`kind`, labelled `label`,
/// when the owner has a uid.
pub open spec fn owned_kind_query(
    resource: ResourceRef,
    uid: Seq<char>,
    group: Seq<char>,
    kind: Seq<char>,
    relation: ResourceTreeRelation,
    label: Seq<char>,
) -> Seq<QueryView> {
    if uid.len() == 0 {
        Seq::empty()
    } else {
        seq![qv(group, kind, opt_view(resource.namespace), None, FilterView::OwnedBy(uid), relation, true, label)]
    }
}

/// The lists that find a CNPG cluster's resources: its pods, claims and
/// services by the `cnpg.io/cluster` label, and its backups, databases,
/// roles and poolers by `spec.cluster.name`.
pub open spec fn cnpg_cluster_queries(resource: ResourceRef) -> Seq<QueryView> {
    let ns = opt_view(resource.namespace);
    let sel = Some("cnpg.io/cluster="@ + resource.name@);
    let named = FilterView::ClusterNamed(resource.name@);
    let rel = ResourceTreeRelation::ClusterResource;
    seq![
        qv(""@, "Pod"@, ns, sel, FilterView::Every, rel, false, "Pod resources"@),
        qv(""@, "PersistentVolumeClaim"@, ns, sel, FilterView::Every, rel, false, "PersistentVolumeClaim resources"@),
        qv(""@, "Service"@, ns, sel, FilterView::Every, rel, false, "Service resources"@),
        qv("postgresql.cnpg.io"@, "Backup"@, ns, None, named, rel, false, "Backup resources"@),
        qv("postgresql.cnpg.io"@, "Database"@, ns, None, named, rel, false, "Database resources"@),
        qv("postgresql.cnpg.io"@, "DatabaseRole"@, ns, None, named, rel, false, "DatabaseRole resources"@),
        qv("postgresql.cnpg.io"@, "Pooler"@, ns, None, named, rel, false, "Pooler resources"@),
    ]
}

/// The lists that find a Rook CephCluster's resources: its pools,
/// filesystems and object stores, and the workloads labelled with its
/// namespace, and the operator.
pub open spec fn rook_cluster_queries(resource: ResourceRef) -> Seq<QueryView> {
    let ns = opt_view(resource.namespace);
    let cluster = Some("rook_cluster="@ + match ns { Some(n) => n, None => Seq::empty() });
    let rel = ResourceTreeRelation::ClusterResource;
    seq![
        qv("ceph.rook.io"@, "CephBlockPool"@, ns, None, FilterView::Every, rel, false, "CephBlockPool resources"@),
        qv("ceph.rook.io"@, "CephFilesystem"@, ns, None, FilterView::Every, rel, false, "CephFilesystem resources"@),
        qv("ceph.rook.io"@, "CephObjectStore"@, ns, None, FilterView::Every, rel, false, "CephObjectStore resources"@),
        qv("apps"@, "Deployment"@, ns, cluster, FilterView::Every, rel, false, "Rook Deployment resources"@),
        qv("apps"@, "StatefulSet"@, ns, cluster, FilterView::Every, rel, false, "Rook StatefulSet resources"@),
        qv("apps"@, "DaemonSet"@, ns, cluster, FilterView::Every, rel, false, "Rook DaemonSet resources"@),
        qv("apps"@, "Deployment"@, ns, Some("app=rook-ceph-operator"@), FilterView::Every, rel, false, "Rook Deployment resources"@),
    ]
}


/// The lists a Kopiur SnapshotPolicy's schedules, snapshots and restores
/// come from; only schedules are matched against the policy's labels.
pub open spec fn kopiur_queries(resource: ResourceRef, labels: Seq<(String, String)>) -> Seq<QueryView> {
    let ns = opt_view(resource.namespace);
    let name = resource.name@;
    let rel = ResourceTreeRelation::GeneratedResource;
    seq![
        qv("kopiur.home-operations.com"@, "SnapshotSchedule"@, ns, None,
            FilterView::KopiurChild("SnapshotSchedule"@, name, labels), rel, false, "SnapshotSchedule resources"@),
        qv("kopiur.home-operations.com"@, "Snapshot"@, ns, None,
            FilterView::KopiurChild("Snapshot"@, name, Seq::empty()), rel, false, "Snapshot resources"@),
        qv("kopiur.home-operations.com"@, "Restore"@, ns, None,
            FilterView::KopiurChild("Restore"@, name, Seq::empty()), rel, false, "Restore resources"@),
    ]
}

/// The lists of the kinds a ReferenceGrant permits.
pub open spec fn grant_target_queries(scopes: Seq<KindScope>) -> Seq<QueryView> {
    scopes.map_values(|s: KindScope| qv(s.0, s.1, s.2, None, FilterView::Every,
        ResourceTreeRelation::ReferencedResource, false, "permitted "@ + s.1 + " resources"@))
}

/// The lists of the objects a ReferenceGrant lets refer to its namespace.
pub open spec fn grant_source_queries(scopes: Seq<KindScope>, ns: Option<Seq<char>>, targets: Seq<TargetView>) -> Seq<QueryView> {
    scopes.map_values(|s: KindScope| qv(s.0, s.1, s.2, None, FilterView::GrantSource(ns, targets),
        ResourceTreeRelation::ReferencedResource, false, "permitted "@ + s.1 + " sources"@))
}

/// The Nodes a Tuppr upgrade names.
pub open spec fn node_children(catalog: Seq<ResourceKind>, names: Seq<Seq<char>>) -> Seq<RefNodeView> {
    names.map_values(|n: Seq<char>| spec_resolve_resource(catalog, Seq::empty(), "v1"@, "Node"@, n, None,
        Some(ResourceTreeRelation::ClusterResource)))
}

/// A Rook storage class's children: its pool and filesystem, and the lists
/// of its Ceph cluster, when it is provisioned by Rook for a cluster.
pub open spec fn rook_storage_plan(catalog: Seq<ResourceKind>, data: Json) -> (Seq<RefNodeView>, Seq<QueryView>) {
    let provisioner = match json_str(json_path(data, seq!["provisioner"@])) {
        Some(p) => p,
        None => Seq::empty(),
    };
    if !contains_seq(provisioner, "rook-ceph"@) && !ends_with(provisioner, ".ceph.com"@) {
        (Seq::empty(), Seq::empty())
    } else {
        match json_nonempty_str(json_path(data, seq!["parameters"@, "clusterID"@])) {
            None => (Seq::empty(), Seq::empty()),
            Some(cluster) => {
                let backend = Some(ResourceTreeRelation::StorageBackend);
                let pool = match json_nonempty_str(json_path(data, seq!["parameters"@, "pool"@])) {
                    Some(p) => seq![spec_resolve_resource(catalog, "ceph.rook.io"@, Seq::empty(), "CephBlockPool"@, p, Some(cluster), backend)],
                    None => Seq::empty(),
                };
                let fs = match json_nonempty_str(json_path(data, seq!["parameters"@, "fsName"@])) {
                    Some(f) => seq![spec_resolve_resource(catalog, "ceph.rook.io"@, Seq::empty(), "CephFilesystem"@, f, Some(cluster), backend)],
                    None => Seq::empty(),
                };
                (
                    pool + fs,
                    seq![qv("ceph.rook.io"@, "CephCluster"@, Some(cluster), None, FilterView::Every,
                        ResourceTreeRelation::StorageBackend, false, "CephCluster resources"@)],
                )
            },
        }
    }
}

/// What a relationship plan holds: the children found in the object, the
/// errors found there, and the lists still to make.
pub type PlanView = (Seq<RefNodeView>, Seq<Seq<char>>, Seq<QueryView>);

/// What a provider finds of `object` (the resource's document), and which
/// lists it still needs; `policy_labels` are the object's labels.
pub open spec fn spec_relationship_plan(
    provider: RelationshipProvider,
    catalog: Seq<ResourceKind>,
    resource: ResourceRef,
    object: Json,
    policy_labels: Seq<(String, String)>,
) -> PlanView {
    match spec_static_relationships(provider, catalog, resource, object) {
        Some(found) => (found.0, found.1, Seq::empty()),
        None => {
            let ns = opt_view(resource.namespace);
            let uid = uid_of(object);
            match provider {
                RelationshipProvider::OwnedChildren => (Seq::empty(), Seq::empty(), owned_query(resource, uid)),
                RelationshipProvider::WorkloadPods => match spec_workload_label_selector(object) {
                    Err(e) => (Seq::empty(), seq![e], Seq::empty()),
                    Ok(sel) => (Seq::empty(), Seq::empty(), seq![qv(""@, "Pod"@, ns, Some(sel), FilterView::Every,
                        ResourceTreeRelation::SelectedPod, false, "selected pods"@)]),
                },
                RelationshipProvider::ServiceTargets => {
                    let pods = match spec_service_selector(object) {
                        Some(sel) => seq![qv(""@, "Pod"@, ns, Some(sel), FilterView::Every,
                            ResourceTreeRelation::SelectedPod, false, "selected pods"@)],
                        None => Seq::empty(),
                    };
                    (Seq::empty(), Seq::empty(), pods.push(qv("discovery.k8s.io"@, "EndpointSlice"@, ns,
                        Some("kubernetes.io/service-name="@ + resource.name@), FilterView::Every,
                        ResourceTreeRelation::EndpointSlice, false, "endpoint slices"@)))
                },
                RelationshipProvider::CnpgCluster => (Seq::empty(), Seq::empty(), cnpg_cluster_queries(resource)),
                RelationshipProvider::CnpgScheduledBackup => (Seq::empty(), Seq::empty(), seq![qv("postgresql.cnpg.io"@,
                    "Backup"@, ns, None, FilterView::ScheduledBackupOf(uid, resource.name@),
                    ResourceTreeRelation::GeneratedResource, false, "generated backups"@)]),
                RelationshipProvider::VolumeAttachments => (Seq::empty(), Seq::empty(), seq![qv("storage.k8s.io"@,
                    "VolumeAttachment"@, None, None, FilterView::AttachmentOf(resource.group@, resource.kind@, resource.name@),
                    ResourceTreeRelation::VolumeAttachment, false, "volume attachments"@)]),
                RelationshipProvider::RookStorageClass => {
                    let p = rook_storage_plan(catalog, object);
                    (p.0, Seq::empty(), p.1)
                },
                RelationshipProvider::RookCephCluster => (Seq::empty(), Seq::empty(), rook_cluster_queries(resource)),
                RelationshipProvider::CertificateRequest => (
                    match spec_issuer_reference(resource, object) {
                        Some(r) => resolved_refs(catalog, seq![r], ResourceTreeRelation::ReferencedResource),
                        None => Seq::empty(),
                    },
                    Seq::empty(),
                    owned_kind_query(resource, uid, "acme.cert-manager.io"@, "Order"@, ResourceTreeRelation::OwnedResource, "owned Orders"@),
                ),
                RelationshipProvider::CertManagerOrder => (Seq::empty(), Seq::empty(), owned_kind_query(resource, uid,
                    "acme.cert-manager.io"@, "Challenge"@, ResourceTreeRelation::OwnedResource, "owned Challenges"@)),
                RelationshipProvider::ClusterExternalSecret => (
                    resolved_refs(catalog, spec_cluster_external_secret_references(resource, object), ResourceTreeRelation::GeneratedResource),
                    Seq::empty(),
                    owned_kind_query(resource, uid, "external-secrets.io"@, "ExternalSecret"@,
                        ResourceTreeRelation::GeneratedResource, "generated ExternalSecrets"@),
                ),
                RelationshipProvider::KopiurPolicy => (
                    resolved_refs(catalog, spec_kopiur_repository_references(resource, object), ResourceTreeRelation::ReferencedResource),
                    Seq::empty(),
                    kopiur_queries(resource, policy_labels),
                ),
                RelationshipProvider::TupprUpgrade => (
                    node_children(catalog, spec_tuppr_node_names(resource.kind@, object)),
                    Seq::empty(),
                    if resource.kind@ == "KubernetesUpgrade"@ {
                        seq![qv(""@, "Node"@, None, None, FilterView::Every, ResourceTreeRelation::ClusterResource, false, "affected Nodes"@)]
                    } else {
                        Seq::empty()
                    },
                ),
                RelationshipProvider::ReferenceGrant => (
                    resolved_refs(catalog, spec_reference_grant_named_targets(resource, object), ResourceTreeRelation::ReferencedResource),
                    Seq::empty(),
                    grant_target_queries(spec_reference_grant_list_targets(resource, object)) + grant_source_queries(
                        spec_reference_grant_sources(object),
                        ns,
                        spec_reference_grant_targets(object),
                    ),
                ),
                _ => (Seq::empty(), Seq::empty(), Seq::empty()),
            }
        },
    }
}

/// What a provider finds in an object, and the lists it still needs.
pub struct RelationshipPlan {
    pub children: Vec<ResourceRef>,
    pub errors: Vec<String>,
    pub queries: Vec<ClusterQuery>,
}

pub open spec fn plan_view(p: RelationshipPlan) -> PlanView {
    (resource_views(p.children@), string_views(p.errors@), query_views(p.queries@))
}

fn push_query(out: &mut Vec<ClusterQuery>, q: ClusterQuery)
    ensures
        query_views(final(out)@) == query_views(old(out)@).push(query_view(q)),
{
    let ghost qv0 = query_view(q);
    out.push(q);
    assert(query_views(out@) =~= query_views(old(out)@).push(qv0));
}


fn ns_copy(resource: &ResourceRef) -> (r: Option<String>)
    ensures
        opt_view(r) == opt_view(resource.namespace),
{
    copy_opt(&resource.namespace)
}

fn push_owned_kind(
    out: &mut Vec<ClusterQuery>,
    resource: &ResourceRef,
    uid: &String,
    group: &str,
    kind: &str,
    relation: ResourceTreeRelation,
    label: &str,
)
    ensures
        query_views(final(out)@) == query_views(old(out)@) + owned_kind_query(*resource, uid@, group@, kind@, relation, label@),
{
    if uid.as_str().is_empty() {
        assert(query_views(out@) =~= query_views(old(out)@) + Seq::<QueryView>::empty());
        return;
    }
    let q = query(group, kind, ns_copy(resource), None, QueryFilter::OwnedBy(owned(uid.as_str())), relation, true, owned(label));
    push_query(out, q);
    assert(query_views(out@) =~= query_views(old(out)@) + owned_kind_query(*resource, uid@, group@, kind@, relation, label@));
}

fn cnpg_cluster_query_list(resource: &ResourceRef) -> (r: Vec<ClusterQuery>)
    ensures
        query_views(r@) == cnpg_cluster_queries(*resource),
{
    let rel = ResourceTreeRelation::ClusterResource;
    let name = resource.name.as_str();
    let out = vec![
        query("", "Pod", ns_copy(resource), Some(concat("cnpg.io/cluster=", name)), QueryFilter::Every, rel, false,
            owned("Pod resources")),
        query("", "PersistentVolumeClaim", ns_copy(resource), Some(concat("cnpg.io/cluster=", name)), QueryFilter::Every, rel,
            false, owned("PersistentVolumeClaim resources")),
        query("", "Service", ns_copy(resource), Some(concat("cnpg.io/cluster=", name)), QueryFilter::Every, rel, false,
            owned("Service resources")),
        query("postgresql.cnpg.io", "Backup", ns_copy(resource), None, QueryFilter::ClusterNamed(owned(name)), rel, false,
            owned("Backup resources")),
        query("postgresql.cnpg.io", "Database", ns_copy(resource), None, QueryFilter::ClusterNamed(owned(name)), rel, false,
            owned("Database resources")),
        query("postgresql.cnpg.io", "DatabaseRole", ns_copy(resource), None, QueryFilter::ClusterNamed(owned(name)), rel,
            false, owned("DatabaseRole resources")),
        query("postgresql.cnpg.io", "Pooler", ns_copy(resource), None, QueryFilter::ClusterNamed(owned(name)), rel, false,
            owned("Pooler resources")),
    ];
    assert(query_views(out@) =~= cnpg_cluster_queries(*resource));
    out
}

fn rook_cluster_query_list(resource: &ResourceRef) -> (r: Vec<ClusterQuery>)
    ensures
        query_views(r@) == rook_cluster_queries(*resource),
{
    let rel = ResourceTreeRelation::ClusterResource;
    let ns_name: &str = match &resource.namespace {
        Some(n) => n.as_str(),
        None => "",
    };
    proof {
        reveal_strlit("");
        assert(""@ =~= Seq::<char>::empty());
    }
    let out = vec![
        query("ceph.rook.io", "CephBlockPool", ns_copy(resource), None, QueryFilter::Every, rel, false,
            owned("CephBlockPool resources")),
        query("ceph.rook.io", "CephFilesystem", ns_copy(resource), None, QueryFilter::Every, rel, false,
            owned("CephFilesystem resources")),
        query("ceph.rook.io", "CephObjectStore", ns_copy(resource), None, QueryFilter::Every, rel, false,
            owned("CephObjectStore resources")),
        query("apps", "Deployment", ns_copy(resource), Some(concat("rook_cluster=", ns_name)), QueryFilter::Every, rel, false,
            owned("Rook Deployment resources")),
        query("apps", "StatefulSet", ns_copy(resource), Some(concat("rook_cluster=", ns_name)), QueryFilter::Every, rel, false,
            owned("Rook StatefulSet resources")),
        query("apps", "DaemonSet", ns_copy(resource), Some(concat("rook_cluster=", ns_name)), QueryFilter::Every, rel, false,
            owned("Rook DaemonSet resources")),
        query("apps", "Deployment", ns_copy(resource), Some(owned("app=rook-ceph-operator")), QueryFilter::Every, rel, false,
            owned("Rook Deployment resources")),
    ];
    assert(query_views(out@) =~= rook_cluster_queries(*resource));
    out
}

fn kopiur_query_list(resource: &ResourceRef, labels: Vec<(String, String)>) -> (r: Vec<ClusterQuery>)
    ensures
        query_views(r@) == kopiur_queries(*resource, labels@),
{
    let rel = ResourceTreeRelation::GeneratedResource;
    let group = "kopiur.home-operations.com";
    let ghost lv = labels@;
    let schedules = query(group, "SnapshotSchedule", ns_copy(resource), None, QueryFilter::KopiurChild {
        kind: owned("SnapshotSchedule"),
        policy: owned(resource.name.as_str()),
        labels,
    }, rel, false, owned("SnapshotSchedule resources"));
    let snapshots = query(group, "Snapshot", ns_copy(resource), None, QueryFilter::KopiurChild {
        kind: owned("Snapshot"),
        policy: owned(resource.name.as_str()),
        labels: Vec::new(),
    }, rel, false, owned("Snapshot resources"));
    let restores = query(group, "Restore", ns_copy(resource), None, QueryFilter::KopiurChild {
        kind: owned("Restore"),
        policy: owned(resource.name.as_str()),
        labels: Vec::new(),
    }, rel, false, owned("Restore resources"));
    let out = vec![schedules, snapshots, restores];
    assert(query_views(out@) =~= kopiur_queries(*resource, lv));
    out
}

fn push_grant_queries(out: &mut Vec<ClusterQuery>, resource: &ResourceRef, object: &Json)
    ensures
        query_views(final(out)@) == query_views(old(out)@) + grant_target_queries(spec_reference_grant_list_targets(*resource, *object))
            + grant_source_queries(spec_reference_grant_sources(*object), opt_view(resource.namespace), spec_reference_grant_targets(*object)),
{
    let ghost start = query_views(out@);
    let listed = reference_grant_list_targets(resource, object);
    let ghost lv = crate::references::scope_views(listed@);
    let n = listed.len();
    for i in 0..n
        invariant
            n == listed@.len(),
            lv == crate::references::scope_views(listed@),
            lv == spec_reference_grant_list_targets(*resource, *object),
            query_views(out@) == start + grant_target_queries(lv.take(i as int)),
    {
        let (g, k, ns) = (&listed[i].0, &listed[i].1, &listed[i].2);
        let q = query(g.as_str(), k.as_str(), copy_opt(ns), None, QueryFilter::Every, ResourceTreeRelation::ReferencedResource, false,
            concat(concat("permitted ", k.as_str()).as_str(), " resources"));
        push_query(out, q);
        assert(lv.take(i + 1) =~= lv.take(i as int).push(lv[i as int]));
        assert(query_views(out@) =~= start + grant_target_queries(lv.take(i + 1)));
    }
    assert(lv.take(n as int) =~= lv);
    let ghost mid = query_views(out@);
    let sources = reference_grant_sources(object);
    let ghost sv = crate::references::scope_views(sources@);
    let ghost tv = spec_reference_grant_targets(*object);
    let m = sources.len();
    for i in 0..m
        invariant
            m == sources@.len(),
            sv == crate::references::scope_views(sources@),
            sv == spec_reference_grant_sources(*object),
            tv == spec_reference_grant_targets(*object),
            query_views(out@) == mid + grant_source_queries(sv.take(i as int), opt_view(resource.namespace), tv),
    {
        let (g, k, ns) = (&sources[i].0, &sources[i].1, &sources[i].2);
        let filter = QueryFilter::GrantSource { namespace: ns_copy(resource), targets: reference_grant_targets(object) };
        let q = query(g.as_str(), k.as_str(), copy_opt(ns), None, filter, ResourceTreeRelation::ReferencedResource, false,
            concat(concat("permitted ", k.as_str()).as_str(), " sources"));
        push_query(out, q);
        assert(sv.take(i + 1) =~= sv.take(i as int).push(sv[i as int]));
        assert(query_views(out@) =~= mid + grant_source_queries(sv.take(i + 1), opt_view(resource.namespace), tv));
    }
    assert(sv.take(m as int) =~= sv);
}

fn push_node_children(out: &mut Vec<ResourceRef>, catalog: &[ResourceKind], names: Vec<String>)
    ensures
        resource_views(final(out)@) == resource_views(old(out)@) + node_children(catalog@, string_views(names@)),
{
    let ghost nv = string_views(names@);
    let n = names.len();
    for i in 0..n
        invariant
            n == names@.len(),
            nv == string_views(names@),
            resource_views(out@) == resource_views(old(out)@) + node_children(catalog@, nv.take(i as int)),
    {
        let child = resolve_resource(catalog, String::new(), owned("v1"), owned("Node"), owned(names[i].as_str()), None,
            Some(ResourceTreeRelation::ClusterResource));
        let ghost before = out@;
        out.push(child);
        assert(nv.take(i + 1) =~= nv.take(i as int).push(nv[i as int]));
        assert(resource_views(out@) =~= resource_views(before).push(resource_view(child)));
        assert(node_children(catalog@, nv.take(i + 1)) =~= node_children(catalog@, nv.take(i as int)).push(resource_view(child)));
    }
    assert(nv.take(n as int) =~= nv);
}

fn rook_storage_parts(catalog: &[ResourceKind], data: &Json) -> (r: (Vec<ResourceRef>, Vec<ClusterQuery>))
    ensures
        (resource_views(r.0@), query_views(r.1@)) == rook_storage_plan(catalog@, *data),
{
    let mut children: Vec<ResourceRef> = Vec::new();
    let mut queries: Vec<ClusterQuery> = Vec::new();
    let pp = ["provisioner"];
    assert(key_views(pp@) =~= seq!["provisioner"@]);
    let provisioner: &str = match opt_str(data.path(&pp)) {
        Some(p) => p,
        None => "",
    };
    proof {
        reveal_strlit("");
        assert(""@ =~= Seq::<char>::empty());
    }
    if !str_contains(provisioner, "rook-ceph") && !str_ends_with(provisioner, ".ceph.com") {
        assert(resource_views(children@) =~= Seq::<RefNodeView>::empty());
        assert(query_views(queries@) =~= Seq::<QueryView>::empty());
        return (children, queries);
    }
    let cp = ["parameters", "clusterID"];
    assert(key_views(cp@) =~= seq!["parameters"@, "clusterID"@]);
    let cluster = match crate::json::opt_nonempty_str(data.path(&cp)) {
        Some(c) => c,
        None => {
            assert(resource_views(children@) =~= Seq::<RefNodeView>::empty());
            assert(query_views(queries@) =~= Seq::<QueryView>::empty());
            return (children, queries);
        },
    };
    let backend = Some(ResourceTreeRelation::StorageBackend);
    let pool_path = ["parameters", "pool"];
    assert(key_views(pool_path@) =~= seq!["parameters"@, "pool"@]);
    let fs_path = ["parameters", "fsName"];
    assert(key_views(fs_path@) =~= seq!["parameters"@, "fsName"@]);
    let ghost pool_part: Seq<RefNodeView> = Seq::empty();
    if let Some(pool) = crate::json::opt_nonempty_str(data.path(&pool_path)) {
        let c = resolve_resource(catalog, owned("ceph.rook.io"), String::new(), owned("CephBlockPool"), owned(pool), Some(owned(cluster)), backend);
        proof {
            pool_part = seq![resource_view(c)];
        }
        children.push(c);
    }
    assert(resource_views(children@) =~= pool_part);
    let ghost fs_part: Seq<RefNodeView> = Seq::empty();
    if let Some(fs) = crate::json::opt_nonempty_str(data.path(&fs_path)) {
        let c = resolve_resource(catalog, owned("ceph.rook.io"), String::new(), owned("CephFilesystem"), owned(fs), Some(owned(cluster)), backend);
        proof {
            fs_part = seq![resource_view(c)];
        }
        let ghost before = children@;
        children.push(c);
        assert(resource_views(children@) =~= resource_views(before).push(resource_view(c)));
    }
    assert(resource_views(children@) =~= pool_part + fs_part);
    let q = query("ceph.rook.io", "CephCluster", Some(owned(cluster)), None, QueryFilter::Every, ResourceTreeRelation::StorageBackend, false,
        owned("CephCluster resources"));
    push_query(&mut queries, q);
    assert(query_views(queries@) =~= seq![qv("ceph.rook.io"@, "CephCluster"@, Some(cluster@), None, FilterView::Every,
        ResourceTreeRelation::StorageBackend, false, "CephCluster resources"@)]);
    (children, queries)
}


/// What a relationship provider finds of an object (its document), and the
/// lists it still needs; `policy_labels` are the object's labels.
pub fn relationship_plan(
    provider: RelationshipProvider,
    catalog: &[ResourceKind],
    resource: &ResourceRef,
    object: &Json,
    policy_labels: Vec<(String, String)>,
) -> (r: RelationshipPlan)
    ensures
        plan_view(r) == spec_relationship_plan(provider, catalog@, *resource, *object, policy_labels@),
{
    let ghost lv = policy_labels@;
    if let Some((children, errors)) = static_relationships(provider, catalog, resource, object) {
        let queries: Vec<ClusterQuery> = Vec::new();
        assert(query_views(queries@) =~= Seq::<QueryView>::empty());
        return RelationshipPlan { children, errors, queries };
    }
    let mut children: Vec<ResourceRef> = Vec::new();
    let mut errors: Vec<String> = Vec::new();
    let mut queries: Vec<ClusterQuery> = Vec::new();
    assert(resource_views(children@) =~= Seq::<RefNodeView>::empty());
    assert(string_views(errors@) =~= Seq::<Seq<char>>::empty());
    assert(query_views(queries@) =~= Seq::<QueryView>::empty());
    let uid = object_uid(object);
    match provider {
        RelationshipProvider::OwnedChildren => {
            if let Some((g, k)) = owned_child_kind(resource.group.as_str(), resource.kind.as_str()) {
                push_owned_kind(&mut queries, resource, &uid, g, k, ResourceTreeRelation::OwnedResource, "owned resources");
            }
            assert(query_views(queries@) =~= owned_query(*resource, uid@));
        },
        RelationshipProvider::WorkloadPods => {
            match workload_label_selector(object) {
                Err(e) => {
                    errors.push(e);
                    assert(string_views(errors@) =~= seq![errors@[0]@]);
                },
                Ok(sel) => {
                    let q = query("", "Pod", ns_copy(resource), Some(sel), QueryFilter::Every, ResourceTreeRelation::SelectedPod,
                        false, owned("selected pods"));
                    push_query(&mut queries, q);
                },
            }
        },
        RelationshipProvider::ServiceTargets => {
            if let Some(sel) = service_selector(object) {
                let q = query("", "Pod", ns_copy(resource), Some(sel), QueryFilter::Every, ResourceTreeRelation::SelectedPod,
                    false, owned("selected pods"));
                push_query(&mut queries, q);
            }
            let q = query("discovery.k8s.io", "EndpointSlice", ns_copy(resource),
                Some(concat("kubernetes.io/service-name=", resource.name.as_str())), QueryFilter::Every,
                ResourceTreeRelation::EndpointSlice, false, owned("endpoint slices"));
            push_query(&mut queries, q);
        },
        RelationshipProvider::CnpgCluster => {
            queries = cnpg_cluster_query_list(resource);
        },
        RelationshipProvider::CnpgScheduledBackup => {
            let q = query("postgresql.cnpg.io", "Backup", ns_copy(resource), None,
                QueryFilter::ScheduledBackupOf { uid: owned(uid.as_str()), schedule: owned(resource.name.as_str()) },
                ResourceTreeRelation::GeneratedResource, false, owned("generated backups"));
            push_query(&mut queries, q);
        },
        RelationshipProvider::VolumeAttachments => {
            let filter = QueryFilter::AttachmentOf {
                group: owned(resource.group.as_str()),
                kind: owned(resource.kind.as_str()),
                name: owned(resource.name.as_str()),
            };
            let q = query("storage.k8s.io", "VolumeAttachment", None, None, filter, ResourceTreeRelation::VolumeAttachment,
                false, owned("volume attachments"));
            push_query(&mut queries, q);
        },
        RelationshipProvider::RookStorageClass => {
            let (c, q) = rook_storage_parts(catalog, object);
            children = c;
            queries = q;
        },
        RelationshipProvider::RookCephCluster => {
            queries = rook_cluster_query_list(resource);
        },
        RelationshipProvider::CertificateRequest => {
            let mut refs = Vec::new();
            if let Some(r) = issuer_reference(resource, object) {
                refs.push(r);
            }
            assert(crate::references::ref_views(refs@) =~= match spec_issuer_reference(*resource, *object) {
                Some(r) => seq![r],
                None => Seq::empty(),
            });
            push_resolved(&mut children, catalog, refs, ResourceTreeRelation::ReferencedResource);
            push_owned_kind(&mut queries, resource, &uid, "acme.cert-manager.io", "Order", ResourceTreeRelation::OwnedResource,
                "owned Orders");
            assert(resource_views(children@) =~= match spec_issuer_reference(*resource, *object) {
                Some(r) => resolved_refs(catalog@, seq![r], ResourceTreeRelation::ReferencedResource),
                None => Seq::empty(),
            });
            assert(query_views(queries@) =~= owned_kind_query(*resource, uid@, "acme.cert-manager.io"@, "Order"@,
                ResourceTreeRelation::OwnedResource, "owned Orders"@));
        },
        RelationshipProvider::CertManagerOrder => {
            push_owned_kind(&mut queries, resource, &uid, "acme.cert-manager.io", "Challenge",
                ResourceTreeRelation::OwnedResource, "owned Challenges");
            assert(query_views(queries@) =~= owned_kind_query(*resource, uid@, "acme.cert-manager.io"@, "Challenge"@,
                ResourceTreeRelation::OwnedResource, "owned Challenges"@));
        },
        RelationshipProvider::ClusterExternalSecret => {
            push_resolved(&mut children, catalog, cluster_external_secret_references(resource, object),
                ResourceTreeRelation::GeneratedResource);
            push_owned_kind(&mut queries, resource, &uid, "external-secrets.io", "ExternalSecret",
                ResourceTreeRelation::GeneratedResource, "generated ExternalSecrets");
            assert(resource_views(children@) =~= resolved_refs(catalog@,
                spec_cluster_external_secret_references(*resource, *object), ResourceTreeRelation::GeneratedResource));
            assert(query_views(queries@) =~= owned_kind_query(*resource, uid@, "external-secrets.io"@, "ExternalSecret"@,
                ResourceTreeRelation::GeneratedResource, "generated ExternalSecrets"@));
        },
        RelationshipProvider::KopiurPolicy => {
            push_resolved(&mut children, catalog, kopiur_repository_references(resource, object),
                ResourceTreeRelation::ReferencedResource);
            assert(resource_views(children@) =~= resolved_refs(catalog@,
                spec_kopiur_repository_references(*resource, *object), ResourceTreeRelation::ReferencedResource));
            queries = kopiur_query_list(resource, policy_labels);
        },
        RelationshipProvider::TupprUpgrade => {
            push_node_children(&mut children, catalog, tuppr_node_names(resource.kind.as_str(), object));
            assert(resource_views(children@) =~= node_children(catalog@, spec_tuppr_node_names(resource.kind@, *object)));
            if str_eq(resource.kind.as_str(), "KubernetesUpgrade") {
                let q = query("", "Node", None, None, QueryFilter::Every, ResourceTreeRelation::ClusterResource, false,
                    owned("affected Nodes"));
                push_query(&mut queries, q);
            }
        },
        RelationshipProvider::ReferenceGrant => {
            push_resolved(&mut children, catalog, reference_grant_named_targets(resource, object),
                ResourceTreeRelation::ReferencedResource);
            assert(resource_views(children@) =~= resolved_refs(catalog@,
                spec_reference_grant_named_targets(*resource, *object), ResourceTreeRelation::ReferencedResource));
            push_grant_queries(&mut queries, resource, object);
            assert(query_views(queries@) =~= grant_target_queries(spec_reference_grant_list_targets(*resource, *object))
                + grant_source_queries(spec_reference_grant_sources(*object), opt_view(resource.namespace),
                spec_reference_grant_targets(*object)));
        },
        _ => {},
    }
    RelationshipPlan { children, errors, queries }
}


/// What a list gave: the listed objects, or the error's message.
pub open spec fn listing_views(v: Seq<Result<Vec<Json>, String>>) -> Seq<Result<Seq<Json>, Seq<char>>> {
    v.map_values(|r: Result<Vec<Json>, String>| match r {
        Ok(objects) => Ok(objects@),
        Err(e) => Err(e@),
    })
}

/// The children and errors the lists of a plan give, query by query: the
/// kept objects of a successful list, the labelled error of a failed one.
pub open spec fn spec_listing_outcome(
    catalog: Seq<ResourceKind>,
    queries: Seq<QueryView>,
    listings: Seq<Result<Seq<Json>, Seq<char>>>,
) -> (Seq<RefNodeView>, Seq<Seq<char>>)
    decreases listings.len(),
{
    if listings.len() == 0 || queries.len() == 0 {
        (Seq::empty(), Seq::empty())
    } else {
        let prev = spec_listing_outcome(catalog, queries.drop_last(), listings.drop_last());
        match listings.last() {
            Ok(objects) => (prev.0 + spec_query_children(catalog, queries.last(), objects), prev.1),
            Err(e) => (prev.0, prev.1.push(queries.last().7 + ": "@ + e)),
        }
    }
}

/// A provider's children and errors once its lists are made: what it found
/// in the object, then what each list gave, in order. `listings` holds what
/// each query's list gave (an empty list for a kind the cluster does not
/// serve).
pub fn finish_plan(
    catalog: &[ResourceKind],
    plan: RelationshipPlan,
    listings: Vec<Result<Vec<Json>, String>>,
) -> (r: (Vec<ResourceRef>, Vec<String>))
    requires
        listings@.len() == plan.queries@.len(),
    ensures
        ({
            let outcome = spec_listing_outcome(catalog@, query_views(plan.queries@), listing_views(listings@));
            &&& resource_views(r.0@) == resource_views(plan.children@) + outcome.0
            &&& string_views(r.1@) == string_views(plan.errors@) + outcome.1
        }),
{
    let ghost qv = query_views(plan.queries@);
    let ghost lv = listing_views(listings@);
    let RelationshipPlan { mut children, mut errors, queries } = plan;
    let ghost c0 = resource_views(children@);
    let ghost e0 = string_views(errors@);
    let n = listings.len();
    for i in 0..n
        invariant
            n == listings@.len(),
            n == queries@.len(),
            qv == query_views(queries@),
            lv == listing_views(listings@),
            resource_views(children@) == c0 + spec_listing_outcome(catalog@, qv.take(i as int), lv.take(i as int)).0,
            string_views(errors@) == e0 + spec_listing_outcome(catalog@, qv.take(i as int), lv.take(i as int)).1,
    {
        assert(qv.take(i + 1).drop_last() == qv.take(i as int));
        assert(lv.take(i + 1).drop_last() == lv.take(i as int));
        assert(qv.take(i + 1).last() == query_view(queries@[i as int]));
        let ghost before_c = resource_views(children@);
        let ghost before_e = string_views(errors@);
        match &listings[i] {
            Ok(objects) => {
                assert(lv.take(i + 1).last() == Ok::<Seq<Json>, Seq<char>>(objects@));
                let found = query_children(catalog, &queries[i], objects.as_slice());
                let ghost fv = resource_views(found@);
                let mut found = found;
                children.append(&mut found);
                assert(resource_views(children@) =~= before_c + fv);
            },
            Err(e) => {
                assert(lv.take(i + 1).last() == Err::<Seq<Json>, Seq<char>>(e@));
                let m = query_error(&queries[i], e.as_str());
                let ghost mv = m@;
                errors.push(m);
                assert(string_views(errors@) =~= before_e.push(mv));
            },
        }
    }
    assert(qv.take(n as int) == qv);
    assert(lv.take(n as int) == lv);
    (children, errors)
}


/// The objects of a Helm release's manifest as tree resources.
pub open spec fn helm_children(catalog: Seq<ResourceKind>, refs: Seq<HelmRefView>) -> Seq<RefNodeView> {
    refs.map_values(|r: HelmRefView| spec_resolve_resource(catalog, r.0, r.1, r.2, r.3, r.4,
        Some(ResourceTreeRelation::HelmManifest)))
}

/// Resolves the objects of a Helm release's manifest against the catalog.
pub fn helm_manifest_children(catalog: &[ResourceKind], refs: Vec<ManifestObjectRef>) -> (r: Vec<ResourceRef>)
    ensures
        resource_views(r@) == helm_children(catalog@, helm_ref_views(refs@)),
{
    let ghost rv = helm_ref_views(refs@);
    let mut out: Vec<ResourceRef> = Vec::new();
    let n = refs.len();
    for i in 0..n
        invariant
            n == refs@.len(),
            rv == helm_ref_views(refs@),
            resource_views(out@) == helm_children(catalog@, rv.take(i as int)),
    {
        let r = &refs[i];
        let child = resolve_resource(catalog, owned(r.group.as_str()), owned(r.version.as_str()), owned(r.kind.as_str()),
            owned(r.name.as_str()), copy_opt(&r.namespace), Some(ResourceTreeRelation::HelmManifest));
        let ghost before = out@;
        out.push(child);
        assert(rv.take(i + 1) =~= rv.take(i as int).push(rv[i as int]));
        assert(resource_views(out@) =~= resource_views(before).push(resource_view(child)));
        assert(helm_children(catalog@, rv.take(i + 1)) =~= helm_children(catalog@, rv.take(i as int)).push(resource_view(child)));
    }
    assert(rv.take(n as int) =~= rv);
    out
}

/// What the providers of a resource found together: their children one
/// provider after another, and their errors likewise.
pub open spec fn combined(outcomes: Seq<(Vec<ResourceRef>, Vec<String>)>) -> (Seq<ResourceRef>, Seq<String>)
    decreases outcomes.len(),
{
    if outcomes.len() == 0 {
        (Seq::empty(), Seq::empty())
    } else {
        let prev = combined(outcomes.drop_last());
        (prev.0 + outcomes.last().0@, prev.1 + outcomes.last().1@)
    }
}

/// Puts together what each of a resource's providers found, in provider
/// order.
pub fn combine_relationships(outcomes: Vec<(Vec<ResourceRef>, Vec<String>)>) -> (r: (Vec<ResourceRef>, Vec<String>))
    ensures
        (r.0@, r.1@) == combined(outcomes@),
{
    let ghost all = outcomes@;
    let mut outcomes = outcomes;
    let mut children: Vec<ResourceRef> = Vec::new();
    let mut errors: Vec<String> = Vec::new();
    let n = outcomes.len();
    let mut k: usize = 0;
    assert(all.skip(0) =~= all);
    while k < n
        invariant
            k <= n,
            n == all.len(),
            outcomes@ == all.skip(k as int),
            (children@, errors@) == combined(all.take(k as int)),
        decreases n - k,
    {
        let (mut c, mut e) = outcomes.remove(0);
        proof {
            assert((c, e) == all[k as int]);
            assert(all.take(k + 1).drop_last() =~= all.take(k as int));
            assert(all.take(k + 1).last() == all[k as int]);
            assert(all.skip(k as int).drop_first() =~= all.skip(k + 1));
        }
        children.append(&mut c);
        errors.append(&mut e);
        k = k + 1;
    }
    assert(all.take(n as int) =~= all);
    (children, errors)
}

} // verus!
