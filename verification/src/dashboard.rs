//! The cluster overview of the dashboard: pod counts by phase, what is known
//! of each node, and which controller groups are shown.
use vstd::prelude::*;

use crate::catalog::ResourceKind;
use crate::discovery::Category;
use crate::json::{json_array, json_get, json_path, json_str, key_views, opt_str, Json};
use crate::overview::ControllerHealthSignal;
use crate::rollup::ResourceHealthRollup;
use crate::text::{owned, str_eq};

verus! {

/// How many pods there are, and how many are running, pending or failed.
#[derive(PartialEq, Eq, Structural, Clone, Copy, Debug)]
pub struct PodCounts {
    pub total: u32,
    pub running: u32,
    pub pending: u32,
    pub failed: u32,
}

/// A pod's `status.phase`.
pub open spec fn phase_of(pod: Json) -> Option<Seq<char>> {
    json_str(json_path(pod, seq!["status"@, "phase"@]))
}

/// How many of `pods` are in `phase`.
pub open spec fn count_phase(pods: Seq<Json>, phase: Seq<char>) -> nat
    decreases pods.len(),
{
    if pods.len() == 0 {
        0
    } else {
        count_phase(pods.drop_last(), phase) + if phase_of(pods.last()) == Some(phase) { 1nat } else { 0nat }
    }
}

proof fn lemma_count_phase_bound(pods: Seq<Json>, phase: Seq<char>)
    ensures
        count_phase(pods, phase) <= pods.len(),
    decreases pods.len(),
{
    if pods.len() > 0 {
        lemma_count_phase_bound(pods.drop_last(), phase);
    }
}

proof fn lemma_phase_counts_sum(pods: Seq<Json>)
    ensures
        count_phase(pods, "Running"@) + count_phase(pods, "Pending"@) + count_phase(pods, "Failed"@) <= pods.len(),
    decreases pods.len(),
{
    reveal_strlit("Running");
    reveal_strlit("Pending");
    reveal_strlit("Failed");
    assert("Running"@[0] != "Pending"@[0] && "Running"@[0] != "Failed"@[0] && "Pending"@[0] != "Failed"@[0]);
    if pods.len() > 0 {
        lemma_phase_counts_sum(pods.drop_last());
    }
}

/// A pod is counted in at most one phase: the running, pending and failed
/// counts together never exceed the total, and none exceeds it alone.
pub proof fn lemma_pod_counts_partition(pods: Seq<Json>)
    requires
        pods.len() <= u32::MAX,
    ensures
        spec_pod_counts(pods).total == pods.len(),
        spec_pod_counts(pods).running + spec_pod_counts(pods).pending + spec_pod_counts(pods).failed
            <= spec_pod_counts(pods).total,
{
    lemma_phase_counts_sum(pods);
}

/// The dashboard's pod counts of a pod list.
pub open spec fn spec_pod_counts(pods: Seq<Json>) -> PodCounts {
    PodCounts {
        total: pods.len() as u32,
        running: count_phase(pods, "Running"@) as u32,
        pending: count_phase(pods, "Pending"@) as u32,
        failed: count_phase(pods, "Failed"@) as u32,
    }
}

/// Counts a cluster's pods by phase (other phases, and pods without one,
/// count only towards the total).
pub fn pod_phase_counts(pods: &[Json]) -> (r: PodCounts)
    requires
        pods@.len() <= u32::MAX,
    ensures
        r == spec_pod_counts(pods@),
{
    let mut running: u32 = 0;
    let mut pending: u32 = 0;
    let mut failed: u32 = 0;
    let p = ["status", "phase"];
    assert(key_views(p@) =~= seq!["status"@, "phase"@]);
    let n = pods.len();
    for i in 0..n
        invariant
            n == pods@.len(),
            n <= u32::MAX,
            key_views(p@) == seq!["status"@, "phase"@],
            running == count_phase(pods@.take(i as int), "Running"@),
            pending == count_phase(pods@.take(i as int), "Pending"@),
            failed == count_phase(pods@.take(i as int), "Failed"@),
    {
        proof {
            assert(pods@.take(i + 1).drop_last() =~= pods@.take(i as int));
            assert(pods@.take(i + 1).last() == pods@[i as int]);
            lemma_count_phase_bound(pods@.take(i as int), "Running"@);
            lemma_count_phase_bound(pods@.take(i as int), "Pending"@);
            lemma_count_phase_bound(pods@.take(i as int), "Failed"@);
            reveal_strlit("Running");
            reveal_strlit("Pending");
            reveal_strlit("Failed");
            assert("Running"@ != "Pending"@) by {
                assert("Running"@[0] != "Pending"@[0]);
            }
            assert("Running"@ != "Failed"@) by {
                assert("Running"@[0] != "Failed"@[0]);
            }
            assert("Pending"@ != "Failed"@) by {
                assert("Pending"@[0] != "Failed"@[0]);
            }
        }
        match opt_str(pods[i].path(&p)) {
            Some(ph) => {
                if str_eq(ph, "Running") {
                    running = running + 1;
                } else if str_eq(ph, "Pending") {
                    pending = pending + 1;
                } else if str_eq(ph, "Failed") {
                    failed = failed + 1;
                }
            },
            None => {},
        }
    }
    assert(pods@.take(n as int) =~= pods@);
    PodCounts { total: n as u32, running, pending, failed }
}

/// What the dashboard shows of a node apart from its capacity and usage.
#[derive(Debug)]
pub struct NodeFacts {
    pub name: String,
    pub ready: bool,
    pub kubelet_version: Option<String>,
    pub os_image: Option<String>,
}

/// A condition is `Ready` and `True`.
pub open spec fn ready_true(c: Json) -> bool {
    json_str(json_get(c, "type"@)) == Some("Ready"@) && json_str(json_get(c, "status"@)) == Some("True"@)
}

/// A non-empty string at `path`.
pub open spec fn nonempty_at(node: Json, path: Seq<Seq<char>>) -> Option<Seq<char>> {
    match json_str(json_path(node, path)) {
        Some(s) => if s.len() > 0 {
            Some(s)
        } else {
            None
        },
        None => None,
    }
}

/// A node as the dashboard lists it: its name (empty without one), ready
/// when any of its conditions is `Ready` and `True`, and its kubelet version
/// and OS image when reported and not empty.
pub open spec fn spec_node_facts(node: Json) -> (Seq<char>, bool, Option<Seq<char>>, Option<Seq<char>>) {
    (
        match json_str(json_path(node, seq!["metadata"@, "name"@])) {
            Some(n) => n,
            None => Seq::empty(),
        },
        match json_array(json_path(node, seq!["status"@, "conditions"@])) {
            Some(cs) => exists|i: int| 0 <= i < cs.len() && #[trigger] ready_true(cs[i]),
            None => false,
        },
        nonempty_at(node, seq!["status"@, "nodeInfo"@, "kubeletVersion"@]),
        nonempty_at(node, seq!["status"@, "nodeInfo"@, "osImage"@]),
    )
}

pub open spec fn opt_string_view(o: Option<String>) -> Option<Seq<char>> {
    match o {
        Some(s) => Some(s@),
        None => None,
    }
}

fn nonempty_string(node: &Json, path: &[&str]) -> (r: Option<String>)
    ensures
        opt_string_view(r) == nonempty_at(*node, key_views(path@)),
{
    match opt_str(node.path(path)) {
        Some(s) => if crate::text::chars_of(s).len() > 0 {
            Some(owned(s))
        } else {
            None
        },
        None => None,
    }
}

/// What the dashboard shows of a node.
pub fn node_facts(node: &Json) -> (r: NodeFacts)
    ensures
        (r.name@, r.ready, opt_string_view(r.kubelet_version), opt_string_view(r.os_image)) == spec_node_facts(*node),
{
    let np = ["metadata", "name"];
    assert(key_views(np@) =~= seq!["metadata"@, "name"@]);
    let cp = ["status", "conditions"];
    assert(key_views(cp@) =~= seq!["status"@, "conditions"@]);
    let kp = ["status", "nodeInfo", "kubeletVersion"];
    assert(key_views(kp@) =~= seq!["status"@, "nodeInfo"@, "kubeletVersion"@]);
    let op = ["status", "nodeInfo", "osImage"];
    assert(key_views(op@) =~= seq!["status"@, "nodeInfo"@, "osImage"@]);
    let name = match opt_str(node.path(&np)) {
        Some(n) => owned(n),
        None => String::new(),
    };
    let mut ready = false;
    match node.path(&cp) {
        Some(Json::Array(cs)) => {
            let n = cs.len();
            for i in 0..n
                invariant
                    n == cs@.len(),
                    ready == exists|k: int| 0 <= k < i && #[trigger] ready_true(cs@[k]),
            {
                if crate::json::opt_str_is(cs[i].get("type"), "Ready") && crate::json::opt_str_is(cs[i].get("status"), "True") {
                    assert(ready_true(cs@[i as int]));
                    ready = true;
                }
            }
        },
        _ => {},
    }
    NodeFacts {
        name,
        ready,
        kubelet_version: nonempty_string(node, &kp),
        os_image: nonempty_string(node, &op),
    }
}

/// A controller group of the dashboard: its health rollups and signals.
#[derive(Debug)]
pub struct ControllerHealthGroup {
    pub name: String,
    pub resources: Vec<ResourceHealthRollup>,
    pub signals: Vec<ControllerHealthSignal>,
}

/// A group is shown when it has a rollup or a signal.
pub open spec fn shown(g: ControllerHealthGroup) -> bool {
    g.resources@.len() > 0 || g.signals@.len() > 0
}

/// The dashboard's groups in order: the first four of `groups`, then
/// CloudNativePG and the Prometheus Operator, then the rest; those with
/// nothing to show are dropped.
pub open spec fn spec_assembled(
    groups: Seq<ControllerHealthGroup>,
    cnpg: ControllerHealthGroup,
    prometheus: ControllerHealthGroup,
) -> Seq<ControllerHealthGroup> {
    (groups.take(4) + seq![cnpg, prometheus] + groups.skip(4)).filter(|g: ControllerHealthGroup| shown(g))
}

/// Puts the dashboard's controller groups together.
pub fn assemble_groups(
    groups: Vec<ControllerHealthGroup>,
    cnpg: ControllerHealthGroup,
    prometheus: ControllerHealthGroup,
) -> (r: Vec<ControllerHealthGroup>)
    requires
        groups@.len() >= 4,
    ensures
        r@ == spec_assembled(groups@, cnpg, prometheus),
{
    let ghost all = groups@.take(4) + seq![cnpg, prometheus] + groups@.skip(4);
    let mut groups = groups;
    groups.insert(4, cnpg);
    groups.insert(5, prometheus);
    assert(groups@ =~= all);
    let ghost keep = |g: ControllerHealthGroup| shown(g);
    let mut out: Vec<ControllerHealthGroup> = Vec::new();
    let n = groups.len();
    let mut k: usize = 0;
    assert(all.skip(0) =~= all);
    while k < n
        invariant
            k <= n,
            n == all.len(),
            groups@ == all.skip(k as int),
            keep == (|g: ControllerHealthGroup| shown(g)),
            out@ == all.take(k as int).filter(keep),
        decreases n - k,
    {
        let g = groups.remove(0);
        proof {
            assert(g == all[k as int]);
            assert(all.take(k + 1) =~= all.take(k as int).push(g));
            all.take(k as int).lemma_filter_push(g, keep);
            assert(all.skip(k as int).drop_first() =~= all.skip(k + 1));
        }
        if g.resources.len() > 0 || g.signals.len() > 0 {
            out.push(g);
        }
        k = k + 1;
    }
    assert(all.take(n as int) =~= all);
    out
}

/// A dashboard group made of a category's kinds, optionally of one API group.
pub struct GroupSpec {
    pub name: &'static str,
    pub category: Category,
    pub group: Option<&'static str>,
}

/// The controller groups the dashboard rolls up by category, in order:
/// Flux, External Secrets, cert-manager, Rook Ceph, then kopiur and tuppr
/// (both of the `home-operations.com` category, told apart by API group).
pub fn controller_group_specs() -> (r: Vec<GroupSpec>)
    ensures
        r@.len() == 6,
        r@[0].name@ == "Flux"@ && r@[0].category == Category::Flux && r@[0].group is None,
        r@[1].name@ == "External Secrets"@ && r@[1].category == Category::ExternalSecrets && r@[1].group is None,
        r@[2].name@ == "cert-manager"@ && r@[2].category == Category::CertManager && r@[2].group is None,
        r@[3].name@ == "Rook Ceph"@ && r@[3].category == Category::Rook && r@[3].group is None,
        r@[4].name@ == "Kopiur"@ && same_category(r@[4].category, "home-operations.com"@) && r@[4].group
            == Some("kopiur.home-operations.com"),
        r@[5].name@ == "Tuppr"@ && same_category(r@[5].category, "home-operations.com"@) && r@[5].group
            == Some("tuppr.home-operations.com"),
{
    vec![
        GroupSpec { name: "Flux", category: Category::Flux, group: None },
        GroupSpec { name: "External Secrets", category: Category::ExternalSecrets, group: None },
        GroupSpec { name: "cert-manager", category: Category::CertManager, group: None },
        GroupSpec { name: "Rook Ceph", category: Category::Rook, group: None },
        GroupSpec {
            name: "Kopiur",
            category: Category::Custom(owned("home-operations.com")),
            group: Some("kopiur.home-operations.com"),
        },
        GroupSpec {
            name: "Tuppr",
            category: Category::Custom(owned("home-operations.com")),
            group: Some("tuppr.home-operations.com"),
        },
    ]
}

/// `c` is the custom category labelled `label`.
pub open spec fn same_category(c: Category, label: Seq<char>) -> bool {
    c matches Category::Custom(l) && l@ == label
}

/// Two categories are the same (custom ones by their label).
pub open spec fn category_eq(a: Category, b: Category) -> bool {
    match (a, b) {
        (Category::Custom(x), Category::Custom(y)) => x@ == y@,
        (Category::Custom(_), _) => false,
        (_, Category::Custom(_)) => false,
        _ => a == b,
    }
}

fn categories_equal(a: &Category, b: &Category) -> (r: bool)
    ensures
        r == category_eq(*a, *b),
{
    match (a, b) {
        (Category::Custom(x), Category::Custom(y)) => str_eq(x.as_str(), y.as_str()),
        (Category::Workloads, Category::Workloads) => true,
        (Category::Config, Category::Config) => true,
        (Category::Network, Category::Network) => true,
        (Category::Storage, Category::Storage) => true,
        (Category::Rbac, Category::Rbac) => true,
        (Category::Cluster, Category::Cluster) => true,
        (Category::Flux, Category::Flux) => true,
        (Category::ExternalSecrets, Category::ExternalSecrets) => true,
        (Category::CertManager, Category::CertManager) => true,
        (Category::Rook, Category::Rook) => true,
        (Category::CloudNativePg, Category::CloudNativePg) => true,
        _ => false,
    }
}

/// A kind belongs to a dashboard group: of its category and, when the group
/// names an API group, of that API group.
pub open spec fn in_group(k: ResourceKind, category: Category, group: Option<&str>) -> bool {
    category_eq(k.category, category) && match group {
        Some(g) => k.group@ == g@,
        None => true,
    }
}

/// The positions of the catalog's kinds that a dashboard group rolls up, in
/// catalog order.
pub fn group_kinds(catalog: &[ResourceKind], category: &Category, group: Option<&str>) -> (r: Vec<usize>)
    ensures
        r@ == Seq::new(catalog@.len(), |i: int| i).filter(|i: int| in_group(catalog@[i], *category, group)).map_values(
            |i: int| i as usize,
        ),
{
    let n = catalog.len();
    let ghost all = Seq::new(catalog@.len(), |i: int| i);
    let ghost keep = |i: int| in_group(catalog@[i], *category, group);
    let mut out: Vec<usize> = Vec::new();
    for i in 0..n
        invariant
            n == catalog@.len(),
            all == Seq::new(catalog@.len(), |i: int| i),
            keep == (|i: int| in_group(catalog@[i], *category, group)),
            out@ == all.take(i as int).filter(keep).map_values(|i: int| i as usize),
    {
        proof {
            assert(all.take(i + 1) =~= all.take(i as int).push(i as int));
            all.take(i as int).lemma_filter_push(i as int, keep);
        }
        let in_api_group = match group {
            Some(g) => str_eq(catalog[i].group.as_str(), g),
            None => true,
        };
        if categories_equal(&catalog[i].category, category) && in_api_group {
            out.push(i);
        }
        assert(out@ =~= all.take(i + 1).filter(keep).map_values(|i: int| i as usize));
    }
    assert(all.take(n as int) =~= all);
    out
}

/// A kind the Prometheus Operator group rolls up: a Prometheus,
/// PrometheusAgent, Alertmanager or ThanosRuler of `monitoring.coreos.com`.
pub open spec fn prometheus_kind(k: ResourceKind) -> bool {
    k.group@ == "monitoring.coreos.com"@ && (k.kind@ == "Prometheus"@ || k.kind@ == "PrometheusAgent"@
        || k.kind@ == "Alertmanager"@ || k.kind@ == "ThanosRuler"@)
}

/// The positions of the catalog's Prometheus Operator kinds, in catalog order.
pub fn prometheus_kinds(catalog: &[ResourceKind]) -> (r: Vec<usize>)
    ensures
        r@ == Seq::new(catalog@.len(), |i: int| i).filter(|i: int| prometheus_kind(catalog@[i])).map_values(
            |i: int| i as usize,
        ),
{
    let n = catalog.len();
    let ghost all = Seq::new(catalog@.len(), |i: int| i);
    let ghost keep = |i: int| prometheus_kind(catalog@[i]);
    let mut out: Vec<usize> = Vec::new();
    for i in 0..n
        invariant
            n == catalog@.len(),
            all == Seq::new(catalog@.len(), |i: int| i),
            keep == (|i: int| prometheus_kind(catalog@[i])),
            out@ == all.take(i as int).filter(keep).map_values(|i: int| i as usize),
    {
        proof {
            assert(all.take(i + 1) =~= all.take(i as int).push(i as int));
            all.take(i as int).lemma_filter_push(i as int, keep);
        }
        let k = &catalog[i];
        let kind = k.kind.as_str();
        if str_eq(k.group.as_str(), "monitoring.coreos.com") && (str_eq(kind, "Prometheus") || str_eq(
            kind,
            "PrometheusAgent",
        ) || str_eq(kind, "Alertmanager") || str_eq(kind, "ThanosRuler")) {
            out.push(i);
        }
        assert(out@ =~= all.take(i + 1).filter(keep).map_values(|i: int| i as usize));
    }
    assert(all.take(n as int) =~= all);
    out
}

} // verus!
