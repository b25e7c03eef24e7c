//! Building a relationship tree: the checks that stop a node, the node budget,
//! how children are expanded, and the children read from an object alone.
use vstd::prelude::*;
use crate::catalog::{resolve_resource, resource_view, resource_views, spec_resolve_resource, RefNodeView, ResourceKind};
use crate::discovery::Category;
use crate::json::{json_get, json_path, json_str, key_views, opt_str, Json};
use crate::overview::RowStatus;
use crate::references::{
    array_at, array_at_path, certificate_references, envoy_policy_references,
    external_secret_references, flux_references, gateway_route_references,
    object_bucket_claim_references, ref_view, ref_views, related_views, spec_certificate_references,
    spec_envoy_policy_references, spec_external_secret_references, spec_flux_references,
    spec_gateway_route_references, spec_object_bucket_claim_references, NamedReference, RefView,
};
use crate::registry::RelationshipProvider;
use crate::storage::{
    spec_storage_reference_targets, storage_reference_targets, storage_view, storage_views,
    StorageReference, StorageView,
};
use crate::alerts::opt_lt;
use crate::sort::{
    in_order, insert_index, lemma_lex_irreflexive, lemma_lex_total, lemma_lex_transitive,
    lemma_sort_by_in_order, lemma_sort_by_permutes, lex_lt, sort_by, str_lt, strict_order,
};
use crate::text::{join, join_strings, owned, str_eq, string_views};
use crate::tree::{
    endpoint_slice_service_name, hpa_scale_target, opt_view, parse_inventory_id,
    reserve_node_slots, granted_slots, spec_endpoint_slice_service_name, spec_hpa_scale_target,
    spec_identity, spec_parse_inventory_id, ResourceRef, ResourceTreeRelation, MAX_DEPTH, MAX_NODES,
};

verus! {

/// Which way a node of the tree expands.
#[derive(PartialEq, Eq, Structural, Clone, Copy, Debug)]
pub enum Direction {
    All,
    Owners,
    Descendants,
}

/// A node of a relationship tree.
pub struct ResourceTreeNode {
    pub kind: String,
    pub group: String,
    pub name: String,
    pub namespace: Option<String>,
    pub key: Option<String>,
    pub category: Option<Category>,
    pub status: Option<RowStatus>,
    pub relation: Option<ResourceTreeRelation>,
    pub expandable: bool,
    pub children: Vec<ResourceTreeNode>,
    pub error: Option<String>,
}

/// A node by views, without its children: kind, group, name, namespace, key,
/// category, status, relation, expandable, child count, error.
pub type NodeView = (
    Seq<char>,
    Seq<char>,
    Seq<char>,
    Option<Seq<char>>,
    Option<Seq<char>>,
    Option<Category>,
    Option<RowStatus>,
    Option<ResourceTreeRelation>,
    bool,
    nat,
    Option<Seq<char>>,
);

pub open spec fn node_view(n: ResourceTreeNode) -> NodeView {
    (
        n.kind@,
        n.group@,
        n.name@,
        opt_view(n.namespace),
        opt_view(n.key),
        n.category,
        n.status,
        n.relation,
        n.expandable,
        n.children@.len(),
        opt_view(n.error),
    )
}

impl ResourceRef {
    /// This resource as a node that is not expanded.
    pub fn leaf(self) -> (r: ResourceTreeNode)
        ensures
            node_view(r) == (self.kind@, self.group@, self.name@, opt_view(self.namespace), opt_view(self.key),
                self.category, None::<RowStatus>, self.relation, false, 0nat, None::<Seq<char>>),
    {
        ResourceTreeNode {
            kind: self.kind,
            group: self.group,
            name: self.name,
            namespace: self.namespace,
            key: self.key,
            category: self.category,
            status: None,
            relation: self.relation,
            expandable: false,
            children: Vec::new(),
            error: None,
        }
    }
}

/// This resource as a node that could not be expanded, and why.
pub fn error_node(resource: ResourceRef, error: String) -> (r: ResourceTreeNode)
    ensures
        node_view(r) == (resource.kind@, resource.group@, resource.name@, opt_view(resource.namespace),
            opt_view(resource.key), resource.category, None::<RowStatus>, resource.relation, resource.expandable,
            0nat, Some(error@)),
{
    ResourceTreeNode {
        kind: resource.kind,
        group: resource.group,
        name: resource.name,
        namespace: resource.namespace,
        key: resource.key,
        category: resource.category,
        status: None,
        relation: resource.relation,
        expandable: resource.expandable,
        children: Vec::new(),
        error: Some(error),
    }
}

pub const CYCLE: &'static str = "relationship cycle detected";
pub const TOO_DEEP: &'static str = "maximum relationship depth (12) reached";
pub const NOT_IN_CATALOG: &'static str = "kind not found in this cluster's catalog";
pub const TOO_MANY: &'static str = "relationship tree limited to 500 resources";

/// Why a node is not expanded, checked in order: it already occurs among its
/// ancestors, it is too deep, or its kind is not in the catalog.
pub open spec fn spec_node_precheck(resource: ResourceRef, ancestry: Seq<Seq<char>>, depth: int) -> Option<Seq<char>> {
    if ancestry.contains(spec_identity(resource)) {
        Some(CYCLE@)
    } else if depth >= MAX_DEPTH {
        Some(TOO_DEEP@)
    } else if resource.key is None {
        Some(NOT_IN_CATALOG@)
    } else {
        None
    }
}

/// Expansion never loops and never runs past the depth limit: a node is
/// expanded only when it is not among its ancestors, lies above the maximum
/// depth and has a kind in the catalog; and once a node is recorded among the
/// ancestors, any node below it with the same identity is reported as a cycle.
pub proof fn lemma_precheck_stops_cycles(
    resource: ResourceRef,
    ancestry: Seq<Seq<char>>,
    depth: int,
    later: ResourceRef,
    later_depth: int,
)
    ensures
        spec_node_precheck(resource, ancestry, depth) is None ==> !ancestry.contains(spec_identity(resource))
            && depth < MAX_DEPTH && resource.key is Some,
        ancestry.contains(spec_identity(resource)) ==> spec_node_precheck(resource, ancestry, depth) == Some(CYCLE@),
        spec_identity(later) == spec_identity(resource) ==> spec_node_precheck(
            later,
            if ancestry.contains(spec_identity(resource)) { ancestry } else { ancestry.push(spec_identity(resource)) },
            later_depth,
        ) == Some(CYCLE@),
{
    let pushed = ancestry.push(spec_identity(resource));
    assert(pushed[ancestry.len() as int] == spec_identity(resource));
}

/// Checks whether a node may be expanded, recording it among the ancestors of
/// its children unless it closes a cycle.
pub fn node_precheck(resource: &ResourceRef, ancestry: &mut Vec<String>, depth: usize) -> (r: Option<String>)
    ensures
        opt_view(r) == spec_node_precheck(*resource, string_views(old(ancestry)@), depth as int),
        string_views(final(ancestry)@) == if string_views(old(ancestry)@).contains(spec_identity(*resource)) {
            string_views(old(ancestry)@)
        } else {
            string_views(old(ancestry)@).push(spec_identity(*resource))
        },
{
    let identity = resource.identity();
    let n = ancestry.len();
    for i in 0..n
        invariant
            n == ancestry@.len(),
            ancestry@ == old(ancestry)@,
            identity@ == spec_identity(*resource),
            forall|k: int| 0 <= k < i ==> string_views(ancestry@)[k] != identity@,
    {
        if str_eq(ancestry[i].as_str(), identity.as_str()) {
            assert(string_views(ancestry@)[i as int] == identity@);
            return Some(owned(CYCLE));
        }
    }
    let ghost before = ancestry@;
    ancestry.push(identity);
    assert(string_views(ancestry@) =~= string_views(before).push(spec_identity(*resource)));
    if depth >= MAX_DEPTH {
        return Some(owned(TOO_DEEP));
    }
    if resource.key.is_none() {
        return Some(owned(NOT_IN_CATALOG));
    }
    None
}

/// An owner expands towards its own owners; anything else towards its
/// descendants.
pub fn child_direction(child: &ResourceRef) -> (r: Direction)
    ensures
        r == if child.relation == Some(ResourceTreeRelation::Owner) {
            Direction::Owners
        } else {
            Direction::Descendants
        },
{
    match child.relation {
        Some(ResourceTreeRelation::Owner) => Direction::Owners,
        _ => Direction::Descendants,
    }
}

/// Whether a node expanding in `direction` looks for its owners.
pub fn looks_for_owners(direction: Direction) -> (r: bool)
    ensures
        r == (direction == Direction::All || direction == Direction::Owners),
{
    match direction {
        Direction::All | Direction::Owners => true,
        Direction::Descendants => false,
    }
}

/// Whether a node expanding in `direction` looks for its descendants.
pub fn looks_for_descendants(direction: Direction) -> (r: bool)
    ensures
        r == (direction == Direction::All || direction == Direction::Descendants),
{
    match direction {
        Direction::All | Direction::Descendants => true,
        Direction::Owners => false,
    }
}

/// Keeps as many children as the node budget still grants, in order, and
/// reports when some had to be dropped.
pub fn budget_children(children: &mut Vec<ResourceRef>, node_count: &mut usize) -> (r: Option<String>)
    ensures
        final(children)@ == old(children)@.take(granted_slots(*old(node_count) as int, old(children)@.len() as int)),
        *final(node_count) == *old(node_count) + granted_slots(*old(node_count) as int, old(children)@.len() as int),
        *old(node_count) <= MAX_NODES ==> *final(node_count) <= MAX_NODES,
        opt_view(r) == if granted_slots(*old(node_count) as int, old(children)@.len() as int) < old(children)@.len() {
            Some(TOO_MANY@)
        } else {
            None::<Seq<char>>
        },
{
    let requested = children.len();
    let granted = reserve_node_slots(node_count, requested);
    children.truncate(granted);
    if granted < requested {
        Some(owned(TOO_MANY))
    } else {
        None
    }
}

/// A node's error: its errors joined with `; `, none when there are none.
pub fn join_errors(errors: &[String]) -> (r: Option<String>)
    ensures
        opt_view(r) == if errors@.len() == 0 {
            None
        } else {
            Some(join(string_views(errors@), "; "@))
        },
{
    if errors.len() == 0 {
        None
    } else {
        Some(join_strings(errors, "; "))
    }
}

/// A reference resolved against the catalog, reached through `relation`.
pub open spec fn resolved_refs(catalog: Seq<ResourceKind>, refs: Seq<RefView>, relation: ResourceTreeRelation) -> Seq<RefNodeView> {
    refs.map_values(|r: RefView| spec_resolve_resource(catalog, r.0, Seq::empty(), r.1, r.2, r.3, Some(relation)))
}

pub(crate) fn copy_opt(o: &Option<String>) -> (r: Option<String>)
    ensures
        opt_view(r) == opt_view(*o),
{
    match o {
        Some(s) => Some(owned(s.as_str())),
        None => None,
    }
}

/// Resolves references against the catalog and appends them.
pub(crate) fn push_resolved(out: &mut Vec<ResourceRef>, catalog: &[ResourceKind], refs: Vec<NamedReference>, relation: ResourceTreeRelation)
    ensures
        resource_views(final(out)@) == resource_views(old(out)@) + resolved_refs(catalog@, ref_views(refs@), relation),
{
    let n = refs.len();
    for i in 0..n
        invariant
            n == refs@.len(),
            resource_views(out@) == resource_views(old(out)@) + resolved_refs(catalog@, ref_views(refs@.take(i as int)), relation),
    {
        let r = &refs[i];
        let child = resolve_resource(
            catalog,
            owned(r.group.as_str()),
            String::new(),
            owned(r.kind.as_str()),
            owned(r.name.as_str()),
            copy_opt(&r.namespace),
            Some(relation),
        );
        let ghost before = out@;
        out.push(child);
        proof {
            assert(ref_views(refs@.take(i + 1)) =~= ref_views(refs@.take(i as int)).push(ref_view(refs@[i as int])));
            assert(resolved_refs(catalog@, ref_views(refs@.take(i + 1)), relation)
                =~= resolved_refs(catalog@, ref_views(refs@.take(i as int)), relation).push(resource_view(child)));
            assert(resource_views(out@) =~= resource_views(before).push(resource_view(child)));
        }
    }
    assert(refs@.take(n as int) =~= refs@);
}

/// The Kustomization inventory entries (`status.inventory.entries`) whose
/// `id` parses, as Flux inventory children; an error without an inventory.
pub open spec fn inventory_children(catalog: Seq<ResourceKind>, entries: Seq<Json>) -> Seq<RefNodeView>
    decreases entries.len(),
{
    if entries.len() == 0 {
        Seq::empty()
    } else {
        let prev = inventory_children(catalog, entries.drop_last());
        match json_str(json_get(entries.last(), "id"@)) {
            Some(id) => match spec_parse_inventory_id(id) {
                Some((ns, name, group, kind)) => prev.push(
                    spec_resolve_resource(catalog, group, Seq::empty(), kind, name, ns, Some(ResourceTreeRelation::FluxInventory)),
                ),
                None => prev,
            },
            None => prev,
        }
    }
}

pub const NO_INVENTORY: &'static str = "Kustomization has no inventory yet";

pub open spec fn spec_kustomization_children(catalog: Seq<ResourceKind>, data: Json) -> Result<Seq<RefNodeView>, Seq<char>> {
    match json_path(data, seq!["status"@, "inventory"@, "entries"@]) {
        Some(Json::Array(es)) => Ok(inventory_children(catalog, es@)),
        _ => Err(NO_INVENTORY@),
    }
}

/// The objects a Kustomization's inventory lists.
pub fn kustomization_children(catalog: &[ResourceKind], data: &Json) -> (r: Result<Vec<ResourceRef>, String>)
    ensures
        match r {
            Ok(v) => spec_kustomization_children(catalog@, *data) == Ok::<Seq<RefNodeView>, Seq<char>>(resource_views(v@)),
            Err(e) => spec_kustomization_children(catalog@, *data) == Err::<Seq<RefNodeView>, Seq<char>>(e@),
        },
{
    let path = ["status", "inventory", "entries"];
    assert(key_views(path@) =~= seq!["status"@, "inventory"@, "entries"@]);
    let entries = match data.path(&path) {
        Some(Json::Array(es)) => es,
        _ => {
            return Err(owned(NO_INVENTORY));
        },
    };
    let mut out: Vec<ResourceRef> = Vec::new();
    assert(resource_views(out@) =~= Seq::<RefNodeView>::empty());
    let n = entries.len();
    for i in 0..n
        invariant
            n == entries@.len(),
            resource_views(out@) == inventory_children(catalog@, entries@.take(i as int)),
    {
        assert(entries@.take(i + 1).drop_last() == entries@.take(i as int));
        assert(entries@.take(i + 1).last() == entries@[i as int]);
        if let Some(id) = opt_str(entries[i].get("id")) {
            if let Some((ns, name, group, kind)) = parse_inventory_id(id) {
                let child = resolve_resource(catalog, group, String::new(), kind, name, ns, Some(ResourceTreeRelation::FluxInventory));
                let ghost before = out@;
                out.push(child);
                assert(resource_views(out@) =~= resource_views(before).push(resource_view(child)));
            }
        }
    }
    assert(entries@.take(n as int) == entries@);
    Ok(out)
}

/// A resolved storage target; one reached from a VolumeAttachment does not
/// expand, since it would lead straight back.
pub open spec fn storage_child(catalog: Seq<ResourceKind>, t: StorageView, from_attachment: bool) -> RefNodeView {
    let r = spec_resolve_resource(catalog, t.0, t.1, t.2, t.3, t.4, Some(ResourceTreeRelation::ReferencedResource));
    if from_attachment {
        (r.0, r.1, r.2, r.3, r.4, r.5, r.6, r.7, false)
    } else {
        r
    }
}

pub open spec fn storage_children(catalog: Seq<ResourceKind>, ts: Seq<StorageView>, from_attachment: bool) -> Seq<RefNodeView> {
    ts.map_values(|t: StorageView| storage_child(catalog, t, from_attachment))
}

/// A reference and how it relates, resolved against the catalog.
pub open spec fn resolve_related(catalog: Seq<ResourceKind>, p: (RefView, ResourceTreeRelation)) -> RefNodeView {
    let r = p.0;
    spec_resolve_resource(catalog, r.0, Seq::empty(), r.1, r.2, r.3, Some(p.1))
}

/// The children a provider finds in the object itself, with the errors it
/// reports; `None` for providers that must query the cluster.
pub open spec fn spec_static_relationships(
    provider: RelationshipProvider,
    catalog: Seq<ResourceKind>,
    resource: ResourceRef,
    data: Json,
) -> Option<(Seq<RefNodeView>, Seq<Seq<char>>)> {
    let ns = opt_view(resource.namespace);
    match provider {
        RelationshipProvider::FluxKustomization => match spec_kustomization_children(catalog, data) {
            Ok(v) => Some((v, Seq::empty())),
            Err(e) => Some((Seq::empty(), seq![e])),
        },
        RelationshipProvider::FluxReferences => Some((
            resolved_refs(catalog, spec_flux_references(resource, data), ResourceTreeRelation::ReferencedResource),
            Seq::empty(),
        )),
        RelationshipProvider::HpaScaleTarget => Some((
            match spec_hpa_scale_target(data) {
                Some((g, v, k, n)) => seq![spec_resolve_resource(catalog, g, v, k, n, ns, Some(ResourceTreeRelation::ScaleTarget))],
                None => Seq::empty(),
            },
            Seq::empty(),
        )),
        RelationshipProvider::EndpointSliceService => Some((
            match spec_endpoint_slice_service_name(data) {
                Some(s) => {
                    let r = spec_resolve_resource(catalog, Seq::empty(), "v1"@, "Service"@, s, ns, Some(ResourceTreeRelation::ReferencedResource));
                    seq![(r.0, r.1, r.2, r.3, r.4, r.5, r.6, r.7, false)]
                },
                None => Seq::empty(),
            },
            Seq::empty(),
        )),
        RelationshipProvider::CnpgClusterReference => Some((
            match json_str(json_path(data, seq!["spec"@, "cluster"@, "name"@])) {
                Some(c) => seq![spec_resolve_resource(catalog, "postgresql.cnpg.io"@, Seq::empty(), "Cluster"@, c, ns, Some(ResourceTreeRelation::ReferencedResource))],
                None => Seq::empty(),
            },
            Seq::empty(),
        )),
        RelationshipProvider::KubernetesStorage => Some((
            storage_children(catalog, spec_storage_reference_targets(resource, data),
                resource.group@ == "storage.k8s.io"@ && resource.kind@ == "VolumeAttachment"@),
            Seq::empty(),
        )),
        RelationshipProvider::ObjectBucketClaim => Some((
            resolved_refs(catalog, spec_object_bucket_claim_references(resource, data), ResourceTreeRelation::GeneratedResource),
            Seq::empty(),
        )),
        RelationshipProvider::Certificate => Some((
            resolved_refs(catalog, spec_certificate_references(resource, data), ResourceTreeRelation::ReferencedResource),
            Seq::empty(),
        )),
        RelationshipProvider::ExternalSecret => Some((
            spec_external_secret_references(resource, data).map_values(
                |p: (RefView, ResourceTreeRelation)| resolve_related(catalog, p),
            ),
            Seq::empty(),
        )),
        RelationshipProvider::GatewayRoute => Some((
            resolved_refs(catalog, spec_gateway_route_references(resource, data), ResourceTreeRelation::ReferencedResource),
            Seq::empty(),
        )),
        RelationshipProvider::EnvoyPolicy => Some((
            resolved_refs(catalog, spec_envoy_policy_references(resource, data), ResourceTreeRelation::ReferencedResource),
            Seq::empty(),
        )),
        _ => None,
    }
}

} // verus!

verus! {

fn push_storage(out: &mut Vec<ResourceRef>, catalog: &[ResourceKind], targets: Vec<StorageReference>, from_attachment: bool)
    ensures
        resource_views(final(out)@) == resource_views(old(out)@) + storage_children(catalog@, storage_views(targets@), from_attachment),
{
    let n = targets.len();
    for i in 0..n
        invariant
            n == targets@.len(),
            resource_views(out@) == resource_views(old(out)@) + storage_children(catalog@, storage_views(targets@.take(i as int)), from_attachment),
    {
        let t = &targets[i];
        let mut child = resolve_resource(
            catalog,
            owned(t.group),
            owned(t.version),
            owned(t.kind),
            owned(t.name.as_str()),
            copy_opt(&t.namespace),
            Some(ResourceTreeRelation::ReferencedResource),
        );
        if from_attachment {
            child.expandable = false;
        }
        let ghost before = out@;
        out.push(child);
        proof {
            assert(storage_views(targets@.take(i + 1)) =~= storage_views(targets@.take(i as int)).push(storage_view(targets@[i as int])));
            assert(storage_children(catalog@, storage_views(targets@.take(i + 1)), from_attachment)
                =~= storage_children(catalog@, storage_views(targets@.take(i as int)), from_attachment).push(resource_view(child)));
            assert(resource_views(out@) =~= resource_views(before).push(resource_view(child)));
        }
    }
    assert(targets@.take(n as int) =~= targets@);
}

fn copy_ns(resource: &ResourceRef) -> (r: Option<String>)
    ensures
        opt_view(r) == opt_view(resource.namespace),
{
    copy_opt(&resource.namespace)
}

/// The children a provider reads from the object alone, with its errors;
/// `None` when the provider must query the cluster.
pub fn static_relationships(
    provider: RelationshipProvider,
    catalog: &[ResourceKind],
    resource: &ResourceRef,
    data: &Json,
) -> (r: Option<(Vec<ResourceRef>, Vec<String>)>)
    ensures
        match r {
            Some((children, errors)) => spec_static_relationships(provider, catalog@, *resource, *data)
                == Some((resource_views(children@), string_views(errors@))),
            None => spec_static_relationships(provider, catalog@, *resource, *data) is None,
        },
{
    let mut children: Vec<ResourceRef> = Vec::new();
    let mut errors: Vec<String> = Vec::new();
    assert(resource_views(children@) =~= Seq::<RefNodeView>::empty());
    assert(string_views(errors@) =~= Seq::<Seq<char>>::empty());
    proof {
        reveal_strlit("");
    }
    match provider {
        RelationshipProvider::FluxKustomization => {
            match kustomization_children(catalog, data) {
                Ok(v) => {
                    children = v;
                },
                Err(e) => {
                    errors.push(e);
                    assert(string_views(errors@) =~= seq![errors@[0]@]);
                },
            }
        },
        RelationshipProvider::FluxReferences => {
            push_resolved(&mut children, catalog, flux_references(resource, data), ResourceTreeRelation::ReferencedResource);
        },
        RelationshipProvider::HpaScaleTarget => {
            if let Some((g, v, k, n)) = hpa_scale_target(data) {
                let child = resolve_resource(catalog, g, v, k, n, copy_ns(resource), Some(ResourceTreeRelation::ScaleTarget));
                children.push(child);
                assert(resource_views(children@) =~= seq![resource_view(child)]);
            }
        },
        RelationshipProvider::EndpointSliceService => {
            if let Some(s) = endpoint_slice_service_name(data) {
                let mut child = resolve_resource(
                    catalog,
                    String::new(),
                    owned("v1"),
                    owned("Service"),
                    owned(s),
                    copy_ns(resource),
                    Some(ResourceTreeRelation::ReferencedResource),
                );
                child.expandable = false;
                children.push(child);
                assert(resource_views(children@) =~= seq![resource_view(child)]);
            }
        },
        RelationshipProvider::CnpgClusterReference => {
            let path = ["spec", "cluster", "name"];
            assert(key_views(path@) =~= seq!["spec"@, "cluster"@, "name"@]);
            if let Some(c) = opt_str(data.path(&path)) {
                let child = resolve_resource(
                    catalog,
                    owned("postgresql.cnpg.io"),
                    String::new(),
                    owned("Cluster"),
                    owned(c),
                    copy_ns(resource),
                    Some(ResourceTreeRelation::ReferencedResource),
                );
                children.push(child);
                assert(resource_views(children@) =~= seq![resource_view(child)]);
            }
        },
        RelationshipProvider::KubernetesStorage => {
            let attachment = str_eq(resource.group.as_str(), "storage.k8s.io") && str_eq(resource.kind.as_str(), "VolumeAttachment");
            push_storage(&mut children, catalog, storage_reference_targets(resource, data), attachment);
        },
        RelationshipProvider::ObjectBucketClaim => {
            push_resolved(&mut children, catalog, object_bucket_claim_references(resource, data), ResourceTreeRelation::GeneratedResource);
        },
        RelationshipProvider::Certificate => {
            push_resolved(&mut children, catalog, certificate_references(resource, data), ResourceTreeRelation::ReferencedResource);
        },
        RelationshipProvider::ExternalSecret => {
            let refs = external_secret_references(resource, data);
            let ghost rv = related_views(refs@);
            let n = refs.len();
            for i in 0..n
                invariant
                    n == refs@.len(),
                    rv == related_views(refs@),
                    resource_views(children@) == rv.take(i as int).map_values(
                        |p: (RefView, ResourceTreeRelation)| resolve_related(catalog@, p),
                    ),
            {
                let (r, relation) = (&refs[i].0, refs[i].1);
                let child = resolve_resource(
                    catalog,
                    owned(r.group.as_str()),
                    String::new(),
                    owned(r.kind.as_str()),
                    owned(r.name.as_str()),
                    copy_opt(&r.namespace),
                    Some(relation),
                );
                let ghost before = children@;
                children.push(child);
                proof {
                    reveal_strlit("");
                    assert(rv.take(i + 1) =~= rv.take(i as int).push(rv[i as int]));
                    assert(resource_views(children@) =~= resource_views(before).push(resource_view(child)));
                    assert(resource_views(children@) =~= rv.take(i + 1).map_values(
                        |p: (RefView, ResourceTreeRelation)| resolve_related(catalog@, p),
                    ));
                }
            }
            assert(rv.take(n as int) =~= rv);
        },
        RelationshipProvider::GatewayRoute => {
            push_resolved(&mut children, catalog, gateway_route_references(resource, data), ResourceTreeRelation::ReferencedResource);
        },
        RelationshipProvider::EnvoyPolicy => {
            push_resolved(&mut children, catalog, envoy_policy_references(resource, data), ResourceTreeRelation::ReferencedResource);
        },
        _ => {
            return None;
        },
    }
    Some((children, errors))
}

} // verus!

verus! {

/// The string at `key` of `o`, or empty.
pub open spec fn str_or_empty(o: Json, key: Seq<char>) -> Seq<char> {
    match json_str(json_get(o, key)) {
        Some(s) => s,
        None => Seq::empty(),
    }
}

/// The owners of an object (its JSON document), from
/// `metadata.ownerReferences`, in the namespace of the child.
pub open spec fn owner_children(catalog: Seq<ResourceKind>, owners: Seq<Json>, ns: Option<Seq<char>>) -> Seq<RefNodeView>
    decreases owners.len(),
{
    if owners.len() == 0 {
        Seq::empty()
    } else {
        let o = owners.last();
        let gv = crate::tree::spec_split_api_version(str_or_empty(o, "apiVersion"@));
        owner_children(catalog, owners.drop_last(), ns).push(
            spec_resolve_resource(catalog, gv.0, gv.1, str_or_empty(o, "kind"@), str_or_empty(o, "name"@), ns, Some(ResourceTreeRelation::Owner)),
        )
    }
}

fn str_member(o: &Json, key: &str) -> (r: String)
    ensures
        r@ == str_or_empty(*o, key@),
{
    match opt_str(o.get(key)) {
        Some(s) => owned(s),
        None => String::new(),
    }
}

/// The owners of `object`, resolved against the catalog, as owners of `child`.
pub fn owner_relationships(catalog: &[ResourceKind], object: &Json, child: &ResourceRef) -> (r: Vec<ResourceRef>)
    ensures
        resource_views(r@) == owner_children(catalog@, array_at(*object, seq!["metadata"@, "ownerReferences"@]), opt_view(child.namespace)),
{
    let path = ["metadata", "ownerReferences"];
    assert(key_views(path@) =~= seq!["metadata"@, "ownerReferences"@]);
    let owners = array_at_path(object, &path);
    let mut out: Vec<ResourceRef> = Vec::new();
    assert(resource_views(out@) =~= Seq::<RefNodeView>::empty());
    let n = owners.len();
    for i in 0..n
        invariant
            n == owners@.len(),
            resource_views(out@) == owner_children(catalog@, owners@.take(i as int), opt_view(child.namespace)),
    {
        assert(owners@.take(i + 1).drop_last() == owners@.take(i as int));
        assert(owners@.take(i + 1).last() == owners@[i as int]);
        let o = &owners[i];
        let av = str_member(o, "apiVersion");
        let (group, version) = crate::tree::split_api_version(av.as_str());
        let r = resolve_resource(catalog, group, version, str_member(o, "kind"), str_member(o, "name"), copy_ns(child), Some(ResourceTreeRelation::Owner));
        let ghost before = out@;
        out.push(r);
        assert(resource_views(out@) =~= resource_views(before).push(resource_view(r)));
    }
    assert(owners@.take(n as int) == owners@);
    out
}

/// The namespace a listed child is placed in: none for a cluster-scoped kind,
/// else its own, or the parent's when it has none.
pub open spec fn spec_child_namespace(object: Json, fallback: Option<Seq<char>>, namespaced: bool) -> Option<Seq<char>> {
    if !namespaced {
        None
    } else {
        match json_str(json_path(object, seq!["metadata"@, "namespace"@])) {
            Some(ns) => Some(ns),
            None => fallback,
        }
    }
}

/// The namespace of a listed child.
pub fn child_namespace(object: &Json, fallback: Option<&str>, namespaced: bool) -> (r: Option<String>)
    ensures
        opt_view(r) == spec_child_namespace(*object, match fallback {
            Some(f) => Some(f@),
            None => None,
        }, namespaced),
{
    if !namespaced {
        return None;
    }
    let path = ["metadata", "namespace"];
    assert(key_views(path@) =~= seq!["metadata"@, "namespace"@]);
    match opt_str(object.path(&path)) {
        Some(ns) => Some(owned(ns)),
        None => match fallback {
            Some(f) => Some(owned(f)),
            None => None,
        },
    }
}

/// Whether some owner reference of `object` has this uid.
pub open spec fn spec_owned_by(object: Json, uid: Seq<char>) -> bool {
    let owners = array_at(object, seq!["metadata"@, "ownerReferences"@]);
    exists|i: int| 0 <= i < owners.len() && json_str(json_get(#[trigger] owners[i], "uid"@)) == Some(uid)
}

/// Whether `object` names `uid` among its owners.
pub fn owned_by(object: &Json, uid: &str) -> (r: bool)
    ensures
        r == spec_owned_by(*object, uid@),
{
    let path = ["metadata", "ownerReferences"];
    assert(key_views(path@) =~= seq!["metadata"@, "ownerReferences"@]);
    let owners = array_at_path(object, &path);
    let n = owners.len();
    for i in 0..n
        invariant
            n == owners@.len(),
            owners@ == array_at(*object, seq!["metadata"@, "ownerReferences"@]),
            forall|k: int| 0 <= k < i ==> json_str(json_get(#[trigger] owners@[k], "uid"@)) != Some(uid@),
    {
        if let Some(u) = opt_str(owners[i].get("uid")) {
            if str_eq(u, uid) {
                return true;
            }
        }
    }
    false
}

/// The label a relation is shown with.
pub open spec fn spec_relation_label(r: ResourceTreeRelation) -> Seq<char> {
    match r {
        ResourceTreeRelation::Owner => "owner"@,
        ResourceTreeRelation::OwnedResource => "owns"@,
        ResourceTreeRelation::SelectedPod => "selects"@,
        ResourceTreeRelation::ScaleTarget => "scales"@,
        ResourceTreeRelation::EndpointSlice => "endpoints"@,
        ResourceTreeRelation::FluxInventory => "applies"@,
        ResourceTreeRelation::HelmManifest => "installs"@,
        ResourceTreeRelation::ReferencedResource => "references"@,
        ResourceTreeRelation::GeneratedResource => "generates"@,
        ResourceTreeRelation::StorageBackend => "stored on"@,
        ResourceTreeRelation::ClusterResource => "cluster"@,
        ResourceTreeRelation::VolumeAttachment => "attached"@,
    }
}

/// The label a relation is shown with.
pub fn relation_label(r: ResourceTreeRelation) -> (s: &'static str)
    ensures
        s@ == spec_relation_label(r),
{
    match r {
        ResourceTreeRelation::Owner => "owner",
        ResourceTreeRelation::OwnedResource => "owns",
        ResourceTreeRelation::SelectedPod => "selects",
        ResourceTreeRelation::ScaleTarget => "scales",
        ResourceTreeRelation::EndpointSlice => "endpoints",
        ResourceTreeRelation::FluxInventory => "applies",
        ResourceTreeRelation::HelmManifest => "installs",
        ResourceTreeRelation::ReferencedResource => "references",
        ResourceTreeRelation::GeneratedResource => "generates",
        ResourceTreeRelation::StorageBackend => "stored on",
        ResourceTreeRelation::ClusterResource => "cluster",
        ResourceTreeRelation::VolumeAttachment => "attached",
    }
}

/// The label of an optional relation.
pub open spec fn opt_label(r: Option<ResourceTreeRelation>) -> Option<Seq<char>> {
    match r {
        Some(x) => Some(spec_relation_label(x)),
        None => None,
    }
}

/// The order of a node's relationships: by relation label (none first),
/// then kind, then namespace (none first), then name.
pub open spec fn edge_lt(a: ResourceRef, b: ResourceRef) -> bool {
    let (la, lb) = (opt_label(a.relation), opt_label(b.relation));
    let (na, nb) = (opt_view(a.namespace), opt_view(b.namespace));
    ||| opt_lt(la, lb)
    ||| la == lb && lex_lt(a.kind@, b.kind@)
    ||| la == lb && a.kind@ == b.kind@ && opt_lt(na, nb)
    ||| la == lb && a.kind@ == b.kind@ && na == nb && lex_lt(a.name@, b.name@)
}

/// The order of a node's relationships, as a relation.
pub open spec fn edge_order() -> spec_fn(ResourceRef, ResourceRef) -> bool {
    |a: ResourceRef, b: ResourceRef| edge_lt(a, b)
}

/// Relationships stably sorted by `edge_lt`.
pub open spec fn sort_edges(s: Seq<ResourceRef>) -> Seq<ResourceRef> {
    sort_by(s, edge_order())
}

/// Two relationships are the same edge: the same relation to the same resource.
pub open spec fn same_edge(a: ResourceRef, b: ResourceRef) -> bool {
    a.relation == b.relation && spec_identity(a) == spec_identity(b)
}

/// The first relationship of each edge, in order.
pub open spec fn first_edges(s: Seq<ResourceRef>) -> Seq<ResourceRef>
    decreases s.len(),
{
    if s.len() == 0 {
        s
    } else {
        let d = first_edges(s.drop_last());
        if exists|j: int| 0 <= j < d.len() && same_edge(d[j], s.last()) {
            d
        } else {
            d.push(s.last())
        }
    }
}

proof fn lemma_opt_lt_irreflexive(a: Option<Seq<char>>)
    ensures
        !opt_lt(a, a),
{
    if let Some(x) = a {
        lemma_lex_irreflexive(x);
    }
}

proof fn lemma_opt_lt_total(a: Option<Seq<char>>, b: Option<Seq<char>>)
    ensures
        opt_lt(a, b) || a == b || opt_lt(b, a),
{
    if let (Some(x), Some(y)) = (a, b) {
        if x != y {
            lemma_lex_total(x, y);
        }
    }
}

fn opt_str_lt(a: Option<&str>, b: Option<&str>) -> (r: bool)
    ensures
        r == opt_lt(
            match a {
                Some(x) => Some(x@),
                None => None,
            },
            match b {
                Some(x) => Some(x@),
                None => None,
            },
        ),
{
    match (a, b) {
        (None, Some(_)) => true,
        (Some(x), Some(y)) => str_lt(x, y),
        _ => false,
    }
}

fn opt_label_of(r: Option<ResourceTreeRelation>) -> (s: Option<&'static str>)
    ensures
        match s {
            Some(x) => opt_label(r) == Some(x@),
            None => opt_label(r) is None,
        },
{
    match r {
        Some(x) => Some(relation_label(x)),
        None => None,
    }
}

fn opt_string_ref(o: &Option<String>) -> (r: Option<&str>)
    ensures
        match r {
            Some(x) => opt_view(*o) == Some(x@),
            None => opt_view(*o) is None,
        },
{
    match o {
        Some(s) => Some(s.as_str()),
        None => None,
    }
}

fn edge_less(a: &ResourceRef, b: &ResourceRef) -> (r: bool)
    ensures
        r == edge_lt(*a, *b),
{
    let la = opt_label_of(a.relation);
    let lb = opt_label_of(b.relation);
    if opt_str_lt(la, lb) {
        return true;
    }
    if opt_str_lt(lb, la) {
        proof {
            lemma_opt_lt_irreflexive(opt_label(a.relation));
        }
        return false;
    }
    proof {
        lemma_opt_lt_total(opt_label(a.relation), opt_label(b.relation));
    }
    if str_lt(a.kind.as_str(), b.kind.as_str()) {
        return true;
    }
    if !str_eq(a.kind.as_str(), b.kind.as_str()) {
        return false;
    }
    let na = opt_string_ref(&a.namespace);
    let nb = opt_string_ref(&b.namespace);
    if opt_str_lt(na, nb) {
        return true;
    }
    if opt_str_lt(nb, na) {
        proof {
            lemma_opt_lt_irreflexive(opt_view(a.namespace));
        }
        return false;
    }
    proof {
        lemma_opt_lt_total(opt_view(a.namespace), opt_view(b.namespace));
    }
    str_lt(a.name.as_str(), b.name.as_str())
}

fn same_relation(a: Option<ResourceTreeRelation>, b: Option<ResourceTreeRelation>) -> (r: bool)
    ensures
        r == (a == b),
{
    match (a, b) {
        (None, None) => true,
        (Some(x), Some(y)) => x == y,
        _ => false,
    }
}

/// Sorts a node's relationships and keeps the first of each edge: a resource
/// reached twice by the same relation is listed once, by two relations twice.
#[verifier::spinoff_prover]
pub fn deduplicate_and_sort(resources: &mut Vec<ResourceRef>)
    ensures
        final(resources)@ == first_edges(sort_edges(old(resources)@)),
{
    let mut src: Vec<ResourceRef> = Vec::new();
    std::mem::swap(&mut src, resources);
    let ghost orig = src@;
    let mut sorted: Vec<ResourceRef> = Vec::new();
    let n = src.len();
    let mut k: usize = 0;
    assert(orig.skip(0) =~= orig);
    while k < n
        invariant
            k <= n,
            n == orig.len(),
            src@ == orig.skip(k as int),
            sorted@ == sort_edges(orig.take(k as int)),
        decreases n - k,
    {
        let item = src.remove(0);
        assert(item == orig[k as int]);
        let ghost before = sorted@;
        let mut p: usize = 0;
        assert(before.skip(0) == before);
        while p < sorted.len() && !edge_less(&item, &sorted[p])
            invariant
                p <= sorted@.len(),
                before == sorted@,
                insert_index(before, item, edge_order()) == p + insert_index(before.skip(p as int), item, edge_order()),
            decreases sorted@.len() - p,
        {
            assert(before.skip(p as int).drop_first() =~= before.skip(p + 1));
            assert(before.skip(p as int)[0] == before[p as int]);
            p = p + 1;
        }
        proof {
            if p < sorted.len() {
                assert(before.skip(p as int)[0] == before[p as int]);
            }
        }
        sorted.insert(p, item);
        proof {
            assert(orig.take(k + 1).drop_last() =~= orig.take(k as int));
            assert(orig.take(k + 1).last() == item);
            assert(orig.skip(k as int).drop_first() =~= orig.skip(k + 1));
        }
        k = k + 1;
    }
    assert(orig.take(n as int) =~= orig);
    let ghost all = sorted@;
    let mut out: Vec<ResourceRef> = Vec::new();
    let mut edges: Vec<(Option<ResourceTreeRelation>, String)> = Vec::new();
    let m = sorted.len();
    let mut i: usize = 0;
    assert(all.skip(0) =~= all);
    while i < m
        invariant
            i <= m,
            m == all.len(),
            sorted@ == all.skip(i as int),
            out@ == first_edges(all.take(i as int)),
            edges@.len() == out@.len(),
            forall|j: int|
                0 <= j < out@.len() ==> #[trigger] edges@[j].0 == out@[j].relation && edges@[j].1@
                    == spec_identity(out@[j]),
        decreases m - i,
    {
        let item = sorted.remove(0);
        assert(item == all[i as int]);
        let id = item.identity();
        let mut seen = false;
        let mut j: usize = 0;
        while j < edges.len()
            invariant
                j <= edges@.len(),
                edges@.len() == out@.len(),
                id@ == spec_identity(item),
                forall|t: int|
                    0 <= t < out@.len() ==> #[trigger] edges@[t].0 == out@[t].relation && edges@[t].1@
                        == spec_identity(out@[t]),
                seen <==> exists|t: int| 0 <= t < j && same_edge(out@[t], item),
            decreases edges@.len() - j,
        {
            if same_relation(edges[j].0, item.relation) && str_eq(edges[j].1.as_str(), id.as_str()) {
                assert(same_edge(out@[j as int], item));
                seen = true;
            } else {
                assert(edges@[j as int].0 == out@[j as int].relation);
                assert(!same_edge(out@[j as int], item));
            }
            j = j + 1;
            assert(seen <==> exists|t: int| 0 <= t < j && same_edge(out@[t], item));
        }
        proof {
            assert(all.take(i + 1).drop_last() =~= all.take(i as int));
            assert(all.take(i + 1).last() == item);
            assert(all.skip(i as int).drop_first() =~= all.skip(i + 1));
        }
        let ghost prefix = all.take(i as int);
        let ghost iv = item;
        proof {
            assert(first_edges(all.take(i + 1)) == if exists|t: int| 0 <= t < out@.len() && same_edge(out@[t], iv) {
                out@
            } else {
                out@.push(iv)
            });
        }
        if !seen {
            let rel = item.relation;
            let ghost oo = out@;
            let ghost oe = edges@;
            let ghost idv = id@;
            out.push(item);
            edges.push((rel, id));
            proof {
                assert(out@ == oo.push(iv));
                assert(edges@ == oe.push((rel, id)));
                assert forall|j: int| 0 <= j < out@.len() implies #[trigger] edges@[j].0 == out@[j].relation
                    && edges@[j].1@ == spec_identity(out@[j]) by {
                    if j < oo.len() {
                        assert(out@[j] == oo[j]);
                        assert(edges@[j] == oe[j]);
                    } else {
                        assert(out@[j] == iv);
                        assert(edges@[j].0 == rel);
                        assert(edges@[j].1@ == idv);
                    }
                }
                assert(out@ == first_edges(all.take(i + 1)));
            }
        } else {
            assert(out@ == first_edges(all.take(i + 1)));
        }
        i = i + 1;
    }
    assert(all.take(m as int) =~= all);
    *resources = out;
}

/// No two relationships that survive deduplication are the same edge.
pub proof fn lemma_first_edges_distinct(s: Seq<ResourceRef>)
    ensures
        forall|i: int, j: int|
            0 <= i < j < first_edges(s).len() ==> !same_edge(#[trigger] first_edges(s)[i], #[trigger] first_edges(s)[j]),
    decreases s.len(),
{
    if s.len() > 0 {
        lemma_first_edges_distinct(s.drop_last());
        let d = first_edges(s.drop_last());
        if !(exists|j: int| 0 <= j < d.len() && same_edge(d[j], s.last())) {
            assert forall|i: int, j: int| 0 <= i < j < first_edges(s).len() implies !same_edge(
                #[trigger] first_edges(s)[i],
                #[trigger] first_edges(s)[j],
            ) by {
                if j == d.len() {
                    assert(first_edges(s)[j] == s.last());
                    assert(first_edges(s)[i] == d[i]);
                    if same_edge(d[i], s.last()) {
                        assert(0 <= i < d.len() && same_edge(d[i], s.last()));
                    }
                } else {
                    assert(first_edges(s)[i] == d[i]);
                    assert(first_edges(s)[j] == d[j]);
                }
            }
        }
    }
}

/// Every relationship given to deduplication keeps its edge: one of the same
/// relation to the same resource survives, and each survivor was given.
#[verifier::spinoff_prover]
#[verifier::rlimit(40)]
pub proof fn lemma_first_edges_cover(s: Seq<ResourceRef>)
    ensures
        forall|i: int| 0 <= i < s.len() ==> exists|j: int| 0 <= j < first_edges(s).len() && same_edge(#[trigger] first_edges(s)[j], #[trigger] s[i]),
        forall|j: int| 0 <= j < first_edges(s).len() ==> s.contains(#[trigger] first_edges(s)[j]),
    decreases s.len(),
{
    if s.len() > 0 {
        let p = s.drop_last();
        lemma_first_edges_cover(p);
        let d = first_edges(p);
        let f = first_edges(s);
        assert forall|i: int| 0 <= i < s.len() implies exists|j: int| 0 <= j < f.len() && same_edge(#[trigger] f[j], #[trigger] s[i]) by {
            if i < p.len() {
                assert(s[i] == p[i]);
                let j = choose|j: int| 0 <= j < d.len() && same_edge(#[trigger] d[j], #[trigger] p[i]);
                assert(f[j] == d[j]);
            } else if exists|j: int| 0 <= j < d.len() && same_edge(d[j], s.last()) {
                let j = choose|j: int| 0 <= j < d.len() && same_edge(d[j], s.last());
                assert(f[j] == d[j]);
            } else {
                assert(f[d.len() as int] == s.last());
            }
        }
        assert forall|j: int| 0 <= j < f.len() implies s.contains(#[trigger] f[j]) by {
            if j < d.len() {
                assert(f[j] == d[j]);
                assert(p.contains(d[j]));
                let k = choose|k: int| 0 <= k < p.len() && p[k] == d[j];
                assert(s[k] == p[k]);
            } else {
                assert(f[j] == s.last());
                assert(s[s.len() - 1] == s.last());
            }
        }
    }
}

proof fn lemma_opt_lt_transitive(a: Option<Seq<char>>, b: Option<Seq<char>>, c: Option<Seq<char>>)
    requires
        opt_lt(a, b),
        opt_lt(b, c),
    ensures
        opt_lt(a, c),
{
    if let (Some(x), Some(y), Some(z)) = (a, b, c) {
        lemma_lex_transitive(x, y, z);
    }
}

/// The order of relationships is a strict order.
pub proof fn lemma_edge_order_is_strict()
    ensures
        strict_order(edge_order()),
{
    assert forall|a: ResourceRef| !#[trigger] edge_order()(a, a) by {
        lemma_opt_lt_irreflexive(opt_label(a.relation));
        lemma_lex_irreflexive(a.kind@);
        lemma_opt_lt_irreflexive(opt_view(a.namespace));
        lemma_lex_irreflexive(a.name@);
    }
    assert forall|a: ResourceRef, b: ResourceRef, c: ResourceRef|
        #[trigger] edge_order()(a, b) && #[trigger] edge_order()(b, c) implies edge_order()(a, c) by {
        let (la, lb, lc) = (opt_label(a.relation), opt_label(b.relation), opt_label(c.relation));
        let (na, nb, nc) = (opt_view(a.namespace), opt_view(b.namespace), opt_view(c.namespace));
        if opt_lt(la, lb) && opt_lt(lb, lc) {
            lemma_opt_lt_transitive(la, lb, lc);
        }
        if la == lb && lb == lc {
            if lex_lt(a.kind@, b.kind@) && lex_lt(b.kind@, c.kind@) {
                lemma_lex_transitive(a.kind@, b.kind@, c.kind@);
            }
            if a.kind@ == b.kind@ && b.kind@ == c.kind@ {
                if opt_lt(na, nb) && opt_lt(nb, nc) {
                    lemma_opt_lt_transitive(na, nb, nc);
                }
                if na == nb && nb == nc && lex_lt(a.name@, b.name@) && lex_lt(b.name@, c.name@) {
                    lemma_lex_transitive(a.name@, b.name@, c.name@);
                }
            }
        }
    }
}

/// First edges of a sequence in order are in order.
proof fn lemma_first_edges_in_order(t: Seq<ResourceRef>, lt: spec_fn(ResourceRef, ResourceRef) -> bool)
    requires
        in_order(t, lt),
    ensures
        in_order(first_edges(t), lt),
    decreases t.len(),
{
    if t.len() > 0 {
        let p = t.drop_last();
        assert(in_order(p, lt)) by {
            assert forall|i: int, j: int| 0 <= i < j < p.len() implies !lt(#[trigger] p[j], #[trigger] p[i]) by {
                assert(p[i] == t[i] && p[j] == t[j]);
            }
        }
        lemma_first_edges_in_order(p, lt);
        lemma_first_edges_cover(p);
        let d = first_edges(p);
        let f = first_edges(t);
        assert forall|i: int, j: int| 0 <= i < j < f.len() implies !lt(#[trigger] f[j], #[trigger] f[i]) by {
            if j < d.len() {
                assert(f[i] == d[i] && f[j] == d[j]);
            } else {
                assert(f[j] == t.last());
                assert(f[i] == d[i]);
                assert(p.contains(d[i]));
                let k = choose|k: int| 0 <= k < p.len() && p[k] == d[i];
                assert(t[k] == p[k]);
                assert(t[t.len() - 1] == t.last());
            }
        }
    }
}

/// A node's relationships, once deduplicated, are in the order of
/// `edge_lt`, name each edge once, and keep every edge they were given.
pub proof fn lemma_deduplicated_edges(s: Seq<ResourceRef>)
    ensures
        in_order(first_edges(sort_edges(s)), edge_order()),
        forall|i: int, j: int|
            0 <= i < j < first_edges(sort_edges(s)).len() ==> !same_edge(
                #[trigger] first_edges(sort_edges(s))[i],
                #[trigger] first_edges(sort_edges(s))[j],
            ),
        forall|i: int| 0 <= i < s.len() ==> exists|j: int|
            0 <= j < first_edges(sort_edges(s)).len() && same_edge(#[trigger] first_edges(sort_edges(s))[j], #[trigger] s[i]),
        forall|j: int| 0 <= j < first_edges(sort_edges(s)).len() ==> s.contains(#[trigger] first_edges(sort_edges(s))[j]),
{
    broadcast use vstd::seq_lib::group_to_multiset_ensures;
    let t = sort_edges(s);
    lemma_edge_order_is_strict();
    lemma_sort_by_in_order(s, edge_order());
    lemma_sort_by_permutes(s, edge_order());
    lemma_first_edges_in_order(t, edge_order());
    lemma_first_edges_distinct(t);
    lemma_first_edges_cover(t);
    let f = first_edges(t);
    assert forall|i: int| 0 <= i < s.len() implies exists|j: int|
        0 <= j < f.len() && same_edge(#[trigger] f[j], #[trigger] s[i]) by {
        assert(s.to_multiset().count(s[i]) > 0);
        assert(t.contains(s[i]));
        let k = choose|k: int| 0 <= k < t.len() && t[k] == s[i];
        let j = choose|j: int| 0 <= j < f.len() && same_edge(#[trigger] f[j], #[trigger] t[k]);
        assert(same_edge(f[j], s[i]));
    }
    assert forall|j: int| 0 <= j < f.len() implies s.contains(#[trigger] f[j]) by {
        assert(t.contains(f[j]));
        let k = choose|k: int| 0 <= k < t.len() && t[k] == f[j];
        assert(t.to_multiset().count(t[k]) > 0);
    }
}

/// An expanded node: the resource, the nodes of its children in the order
/// given, and the errors met while expanding it joined as `join_errors`
/// joins them.
pub fn expanded_node(resource: ResourceRef, children: Vec<ResourceTreeNode>, errors: &[String]) -> (r: ResourceTreeNode)
    ensures
        node_view(r) == (resource.kind@, resource.group@, resource.name@, opt_view(resource.namespace),
            opt_view(resource.key), resource.category, None::<RowStatus>, resource.relation, resource.expandable,
            children@.len(), opt_view(r.error)),
        r.children@ == children@,
        opt_view(r.error) == if errors@.len() == 0 {
            None
        } else {
            Some(join(string_views(errors@), "; "@))
        },
{
    let error = join_errors(errors);
    ResourceTreeNode {
        kind: resource.kind,
        group: resource.group,
        name: resource.name,
        namespace: resource.namespace,
        key: resource.key,
        category: resource.category,
        status: None,
        relation: resource.relation,
        expandable: resource.expandable,
        children,
        error,
    }
}

} // verus!
