//! What a resource-recommendation scan reads of a workload: its containers
//! with their declared requests and limits (as quantity text), and whether an
//! autoscaler targets it.
use vstd::prelude::*;
use crate::json::{json_get, json_path, json_str, key_views, opt_str, Json};
use crate::references::{array_at, array_at_path};
use crate::text::{owned, str_eq};
use crate::tree::opt_view;

verus! {

/// The workload kinds a scan covers.
#[derive(PartialEq, Eq, Structural, Clone, Copy, Debug)]
pub enum WorkloadKind {
    Deployment,
    StatefulSet,
    DaemonSet,
    CronJob,
}

/// The Kubernetes kind name of a workload kind.
pub open spec fn spec_kind_label(k: WorkloadKind) -> Seq<char> {
    match k {
        WorkloadKind::Deployment => "Deployment"@,
        WorkloadKind::StatefulSet => "StatefulSet"@,
        WorkloadKind::DaemonSet => "DaemonSet"@,
        WorkloadKind::CronJob => "CronJob"@,
    }
}

impl WorkloadKind {
    /// The Kubernetes kind name.
    pub fn label(&self) -> (r: &'static str)
        ensures
            r@ == spec_kind_label(*self),
    {
        match self {
            WorkloadKind::Deployment => "Deployment",
            WorkloadKind::StatefulSet => "StatefulSet",
            WorkloadKind::DaemonSet => "DaemonSet",
            WorkloadKind::CronJob => "CronJob",
        }
    }
}

/// A container's declared quantities, as written in its `resources` block.
pub struct ContainerQuantities {
    pub name: String,
    pub cpu_request: Option<String>,
    pub cpu_limit: Option<String>,
    pub memory_request: Option<String>,
    pub memory_limit: Option<String>,
}

pub type QuantitiesView = (Seq<char>, Option<Seq<char>>, Option<Seq<char>>, Option<Seq<char>>, Option<Seq<char>>);

pub open spec fn quantities_view(c: ContainerQuantities) -> QuantitiesView {
    (c.name@, opt_view(c.cpu_request), opt_view(c.cpu_limit), opt_view(c.memory_request), opt_view(c.memory_limit))
}

pub open spec fn quantities_views(v: Seq<ContainerQuantities>) -> Seq<QuantitiesView> {
    v.map_values(|c: ContainerQuantities| quantities_view(c))
}

/// The string at `resources.<kind>.<key>` of a container.
pub open spec fn quantity(container: Json, kind: Seq<char>, key: Seq<char>) -> Option<Seq<char>> {
    json_str(json_path(container, seq!["resources"@, kind, key]))
}

/// A named container's quantities; containers without a string `name` are
/// left out.
pub open spec fn spec_container_quantities(container: Json) -> Option<QuantitiesView> {
    match json_str(json_get(container, "name"@)) {
        Some(n) => Some((
            n,
            quantity(container, "requests"@, "cpu"@),
            quantity(container, "limits"@, "cpu"@),
            quantity(container, "requests"@, "memory"@),
            quantity(container, "limits"@, "memory"@),
        )),
        None => None,
    }
}

pub open spec fn quantities_of(cs: Seq<Json>) -> Seq<QuantitiesView>
    decreases cs.len(),
{
    if cs.len() == 0 {
        Seq::empty()
    } else {
        let prev = quantities_of(cs.drop_last());
        match spec_container_quantities(cs.last()) {
            Some(q) => prev.push(q),
            None => prev,
        }
    }
}

/// The containers of the pod template at `template` (a key path), init
/// containers left out; none when the path is missing.
pub open spec fn spec_template_containers(data: Json, template: Seq<Seq<char>>) -> Seq<QuantitiesView> {
    match json_path(data, template) {
        Some(t) => quantities_of(array_at(t, seq!["containers"@])),
        None => Seq::empty(),
    }
}

fn quantity_at(container: &Json, kind: &str, key: &str) -> (r: Option<String>)
    ensures
        opt_view(r) == quantity(*container, kind@, key@),
{
    let path = ["resources", kind, key];
    assert(key_views(path@) =~= seq!["resources"@, kind@, key@]);
    match opt_str(container.path(&path)) {
        Some(s) => Some(owned(s)),
        None => None,
    }
}

/// The quantities a container declares.
pub fn container_resources(container: &Json) -> (r: Option<ContainerQuantities>)
    ensures
        match r {
            Some(q) => spec_container_quantities(*container) == Some(quantities_view(q)),
            None => spec_container_quantities(*container) is None,
        },
{
    let name = match opt_str(container.get("name")) {
        Some(n) => owned(n),
        None => {
            return None;
        },
    };
    Some(ContainerQuantities {
        name,
        cpu_request: quantity_at(container, "requests", "cpu"),
        cpu_limit: quantity_at(container, "limits", "cpu"),
        memory_request: quantity_at(container, "requests", "memory"),
        memory_limit: quantity_at(container, "limits", "memory"),
    })
}

/// Every named container of the pod template at `template`.
pub fn template_containers(data: &Json, template: &[&str]) -> (r: Vec<ContainerQuantities>)
    ensures
        quantities_views(r@) == spec_template_containers(*data, key_views(template@)),
{
    let mut out: Vec<ContainerQuantities> = Vec::new();
    assert(quantities_views(out@) =~= Seq::<QuantitiesView>::empty());
    let t = match data.path(template) {
        Some(t) => t,
        None => {
            return out;
        },
    };
    let cp = ["containers"];
    assert(key_views(cp@) =~= seq!["containers"@]);
    let cs = array_at_path(t, &cp);
    let n = cs.len();
    for i in 0..n
        invariant
            n == cs@.len(),
            quantities_views(out@) == quantities_of(cs@.take(i as int)),
    {
        assert(cs@.take(i + 1).drop_last() == cs@.take(i as int));
        assert(cs@.take(i + 1).last() == cs@[i as int]);
        match container_resources(&cs[i]) {
            Some(q) => {
                let ghost before = out@;
                out.push(q);
                assert(quantities_views(out@) =~= quantities_views(before).push(quantities_view(out@.last())));
            },
            None => {},
        }
    }
    assert(cs@.take(n as int) == cs@);
    out
}

/// The workload a scan request is for.
pub struct WorkloadRef {
    pub namespace: String,
    pub kind: WorkloadKind,
    pub name: String,
}

/// One workload to scan: its containers, and whether an autoscaler targets it.
pub struct ScanRequest {
    pub workload: WorkloadRef,
    pub containers: Vec<ContainerQuantities>,
    pub has_hpa: bool,
}

/// Some autoscaler targets this namespace, kind and name.
pub open spec fn autoscaled_by(autoscaled: Seq<(String, String, String)>, ns: Seq<char>, kind: Seq<char>, name: Seq<char>) -> bool {
    exists|i: int| 0 <= i < autoscaled.len() && {
        let a = #[trigger] autoscaled[i];
        a.0@ == ns && a.1@ == kind && a.2@ == name
    }
}

/// The scan request for a workload object (its JSON document) of kind
/// `kind`: none without a `metadata.name` or without containers.
pub open spec fn spec_scan_request(
    object: Json,
    kind: WorkloadKind,
    template: Seq<Seq<char>>,
    autoscaled: Seq<(String, String, String)>,
) -> Option<(Seq<char>, WorkloadKind, Seq<char>, Seq<QuantitiesView>, bool)> {
    match json_str(json_path(object, seq!["metadata"@, "name"@])) {
        None => None,
        Some(name) => {
            let ns = match json_str(json_path(object, seq!["metadata"@, "namespace"@])) {
                Some(n) => n,
                None => Seq::empty(),
            };
            let cs = spec_template_containers(object, template);
            if cs.len() == 0 {
                None
            } else {
                Some((ns, kind, name, cs, autoscaled_by(autoscaled, ns, spec_kind_label(kind), name)))
            }
        },
    }
}

pub open spec fn request_view(r: ScanRequest) -> (Seq<char>, WorkloadKind, Seq<char>, Seq<QuantitiesView>, bool) {
    (r.workload.namespace@, r.workload.kind, r.workload.name@, quantities_views(r.containers@), r.has_hpa)
}

/// The scan request for a workload object.
pub fn scan_request(
    object: &Json,
    kind: WorkloadKind,
    template: &[&str],
    autoscaled: &[(String, String, String)],
) -> (r: Option<ScanRequest>)
    ensures
        match r {
            Some(q) => spec_scan_request(*object, kind, key_views(template@), autoscaled@) == Some(request_view(q)),
            None => spec_scan_request(*object, kind, key_views(template@), autoscaled@) is None,
        },
{
    let np = ["metadata", "name"];
    assert(key_views(np@) =~= seq!["metadata"@, "name"@]);
    let sp = ["metadata", "namespace"];
    assert(key_views(sp@) =~= seq!["metadata"@, "namespace"@]);
    let name = match opt_str(object.path(&np)) {
        Some(n) => n,
        None => {
            return None;
        },
    };
    let namespace = match opt_str(object.path(&sp)) {
        Some(n) => owned(n),
        None => String::new(),
    };
    let containers = template_containers(object, template);
    if containers.len() == 0 {
        return None;
    }
    let label = kind.label();
    let mut has_hpa = false;
    let n = autoscaled.len();
    for i in 0..n
        invariant
            n == autoscaled@.len(),
            has_hpa == exists|k: int| 0 <= k < i && {
                let a = #[trigger] autoscaled@[k];
                a.0@ == namespace@ && a.1@ == label@ && a.2@ == name@
            },
    {
        let a = &autoscaled[i];
        if str_eq(a.0.as_str(), namespace.as_str()) && str_eq(a.1.as_str(), label) && str_eq(a.2.as_str(), name) {
            has_hpa = true;
        }
    }
    Some(ScanRequest {
        workload: WorkloadRef { namespace, kind, name: owned(name) },
        containers,
        has_hpa,
    })
}

/// The workload an autoscaler (its JSON document) targets, as (namespace,
/// kind, name): its own namespace (empty when missing) and the string `kind`
/// and `name` of `spec.scaleTargetRef`.
pub open spec fn spec_autoscaler_target(hpa: Json) -> Option<(Seq<char>, Seq<char>, Seq<char>)> {
    match json_path(hpa, seq!["spec"@, "scaleTargetRef"@]) {
        None => None,
        Some(t) => match (json_str(json_get(t, "kind"@)), json_str(json_get(t, "name"@))) {
            (Some(k), Some(n)) => Some((
                match json_str(json_path(hpa, seq!["metadata"@, "namespace"@])) {
                    Some(ns) => ns,
                    None => Seq::empty(),
                },
                k,
                n,
            )),
            _ => None,
        },
    }
}

/// The workload an autoscaler targets.
pub fn autoscaler_target(hpa: &Json) -> (r: Option<(String, String, String)>)
    ensures
        match r {
            Some(t) => spec_autoscaler_target(*hpa) == Some((t.0@, t.1@, t.2@)),
            None => spec_autoscaler_target(*hpa) is None,
        },
{
    let tp = ["spec", "scaleTargetRef"];
    assert(key_views(tp@) =~= seq!["spec"@, "scaleTargetRef"@]);
    let sp = ["metadata", "namespace"];
    assert(key_views(sp@) =~= seq!["metadata"@, "namespace"@]);
    let t = match hpa.path(&tp) {
        Some(t) => t,
        None => {
            return None;
        },
    };
    match (opt_str(t.get("kind")), opt_str(t.get("name"))) {
        (Some(k), Some(n)) => {
            let ns = match opt_str(hpa.path(&sp)) {
                Some(s) => owned(s),
                None => String::new(),
            };
            Some((ns, owned(k), owned(n)))
        },
        _ => None,
    }
}

} // verus!
