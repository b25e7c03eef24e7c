//! Shell access: the ephemeral debug container added to a pod, the privileged
//! node-shell pod, and when either has started.
use vstd::prelude::*;

use crate::coordination::{hex_fixed, push_hex};
use crate::error::{api_err, is_api_error, K8sError};
use crate::permissions::NODE_SHELL_NAMESPACE;
use crate::json::{
    copy_values, json_array, json_get, json_path, json_str, jv, jvm, jvs, key_views, lemma_jvm,
    lemma_jvs, jv_get, opt_str, opt_str_is, str_value, Json, JsonV,
};
use crate::text::{
    chars_of, decimal, extend_chars, lemma_decimal_injective, lemma_decimal_len, owned, str_eq,
    string_of, strings_contain, string_views, u64_to_string,
};

verus! {

/// Candidate `i` for a debug container's name: `debug-<stamp>`, then
/// `debug-<stamp>-<i>`, where the stamp is six hexadecimal digits.
pub open spec fn debug_name(stamp: Seq<char>, i: nat) -> Seq<char> {
    if i == 0 {
        "debug-"@ + stamp
    } else {
        "debug-"@ + stamp + "-"@ + decimal(i)
    }
}

/// Different candidates are different names.
proof fn lemma_debug_names_differ(stamp: Seq<char>, i: nat, j: nat)
    requires
        i != j,
    ensures
        debug_name(stamp, i) != debug_name(stamp, j),
{
    reveal_strlit("debug-");
    reveal_strlit("-");
    let base = "debug-"@ + stamp;
    if i == 0 || j == 0 {
        let k = if i == 0 { j } else { i };
        lemma_decimal_len(k);
        assert(debug_name(stamp, k).len() > base.len());
    } else if debug_name(stamp, i) == debug_name(stamp, j) {
        let a = debug_name(stamp, i);
        let b = debug_name(stamp, j);
        let p = base.len() + 1;
        assert(a.skip(p as int) =~= decimal(i));
        assert(b.skip(p as int) =~= decimal(j));
        lemma_decimal_injective(i, j);
    }
}

/// Some of the first `k` candidates is free: with no more names taken than
/// `k - 1`, the `k` different candidates cannot all be taken.
proof fn lemma_free_candidate(stamp: Seq<char>, taken: Seq<Seq<char>>, k: nat)
    requires
        k > taken.len(),
    ensures
        exists|i: nat| i < k && !taken.contains(#[trigger] debug_name(stamp, i)),
{
    if forall|i: nat| i < k ==> taken.contains(#[trigger] debug_name(stamp, i)) {
        let cands = Seq::new(k, |i: int| debug_name(stamp, i as nat));
        assert(cands.no_duplicates()) by {
            assert forall|a: int, b: int| 0 <= a < cands.len() && 0 <= b < cands.len() && a != b implies cands[a]
                != cands[b] by {
                lemma_debug_names_differ(stamp, a as nat, b as nat);
            }
        }
        cands.unique_seq_to_set();
        taken.lemma_cardinality_of_set();
        assert(cands.to_set().subset_of(taken.to_set())) by {
            assert forall|x: Seq<char>| cands.to_set().contains(x) implies taken.to_set().contains(x) by {
                let a = choose|a: int| 0 <= a < cands.len() && cands[a] == x;
                assert(taken.contains(debug_name(stamp, a as nat)));
            }
        }
        vstd::set_lib::lemma_len_subset(cands.to_set(), taken.to_set());
        assert(false);
    }
}

/// The first candidate name that is not taken.
pub open spec fn first_free_debug_name(stamp: Seq<char>, taken: Seq<Seq<char>>, name: Seq<char>) -> bool {
    exists|k: nat|
        name == #[trigger] debug_name(stamp, k) && !taken.contains(name) && forall|j: nat|
            j < k ==> taken.contains(#[trigger] debug_name(stamp, j))
}

/// The name of a new debug container: the first candidate for `stamp` (its
/// lowest six hexadecimal digits) that no container of the pod uses yet.
pub fn debug_container_name(taken: &[String], stamp: u64) -> (r: String)
    ensures
        first_free_debug_name(hex_fixed(stamp as nat, 6), string_views(taken@), r@),
{
    let ghost tv = string_views(taken@);
    let ghost hex = hex_fixed(stamp as nat, 6);
    let mut base = chars_of("debug-");
    push_hex(&mut base, stamp, 6);
    let first = string_of(base.as_slice());
    proof {
        reveal_strlit("debug-");
        assert(first@ == debug_name(hex, 0));
    }
    if !strings_contain(taken, first.as_str()) {
        assert(tv == string_views(taken@));
        return first;
    }
    let count = taken.len();
    let mut i: usize = 1;
    proof {
        lemma_free_candidate(hex, tv, (tv.len() + 1) as nat);
    }
    loop
        invariant
            count == taken@.len(),
            1 <= i <= taken@.len() + 1,
            tv == string_views(taken@),
            hex == hex_fixed(stamp as nat, 6),
            forall|j: nat| j < i ==> tv.contains(#[trigger] debug_name(hex, j)),
            exists|f: nat| f < taken@.len() + 1 && !tv.contains(#[trigger] debug_name(hex, f)),
        decreases taken@.len() + 1 - i,
    {
        let mut cand = chars_of("debug-");
        push_hex(&mut cand, stamp, 6);
        cand.push('-');
        let digits = chars_of(u64_to_string(i as u64).as_str());
        extend_chars(&mut cand, digits.as_slice());
        let name = string_of(cand.as_slice());
        proof {
            reveal_strlit("-");
            assert(name@ =~= debug_name(hex, i as nat));
        }
        if !strings_contain(taken, name.as_str()) {
            return name;
        }
        proof {
            if i == taken@.len() {
                let f = choose|f: nat| f < taken@.len() + 1 && !tv.contains(#[trigger] debug_name(hex, f));
                if f < i {
                    assert(tv.contains(debug_name(hex, f)));
                } else {
                    assert(f == i);
                    assert(tv.contains(name@));
                }
            }
        }
        assert(i < count);
        i = i + 1;
    }
}

/// The names of a pod's ephemeral containers.
pub open spec fn ephemeral_names(pod: Json) -> Seq<Seq<char>> {
    match json_array(json_path(pod, seq!["spec"@, "ephemeralContainers"@])) {
        Some(cs) => names_of(cs),
        None => Seq::empty(),
    }
}

/// The string names of containers, in order.
pub open spec fn names_of(cs: Seq<Json>) -> Seq<Seq<char>>
    decreases cs.len(),
{
    if cs.len() == 0 {
        Seq::empty()
    } else {
        let prev = names_of(cs.drop_last());
        match json_str(json_get(cs.last(), "name"@)) {
            Some(n) => prev.push(n),
            None => prev,
        }
    }
}

/// The names a pod's ephemeral containers use.
pub fn ephemeral_container_names(pod: &Json) -> (r: Vec<String>)
    ensures
        string_views(r@) == ephemeral_names(*pod),
{
    let ep = ["spec", "ephemeralContainers"];
    assert(key_views(ep@) =~= seq!["spec"@, "ephemeralContainers"@]);
    let mut out: Vec<String> = Vec::new();
    let cs = match pod.path(&ep) {
        Some(Json::Array(cs)) => cs,
        _ => return out,
    };
    let n = cs.len();
    for i in 0..n
        invariant
            n == cs@.len(),
            string_views(out@) == names_of(cs@.take(i as int)),
    {
        assert(cs@.take(i + 1).drop_last() == cs@.take(i as int));
        assert(cs@.take(i + 1).last() == cs@[i as int]);
        if let Some(name) = opt_str(cs[i].get("name")) {
            let ghost before = out@;
            out.push(owned(name));
            assert(string_views(out@) =~= string_views(before).push(name@));
        }
    }
    assert(cs@.take(n as int) == cs@);
    out
}

/// The ephemeral container added for a debug session.
pub open spec fn debug_container(name: Seq<char>) -> JsonV {
    JsonV::Object(
        seq![
            ("image"@, JsonV::Str("nicolaka/netshoot"@)),
            ("name"@, JsonV::Str(name)),
            ("stdin"@, JsonV::Bool(true)),
            ("terminationMessagePolicy"@, JsonV::Str("File"@)),
            ("tty"@, JsonV::Bool(true)),
        ],
    )
}

/// The patch that adds debug container `name` to a pod: the pod's ephemeral
/// containers followed by the new one (the patch replaces the whole list).
pub open spec fn spec_debug_patch(pod: Json, name: Seq<char>) -> JsonV {
    let existing = match json_array(json_path(pod, seq!["spec"@, "ephemeralContainers"@])) {
        Some(cs) => jvs(cs),
        None => Seq::empty(),
    };
    JsonV::Object(
        seq![
            (
                "spec"@,
                JsonV::Object(seq![("ephemeralContainers"@, JsonV::Array(existing.push(debug_container(name))))]),
            ),
        ],
    )
}

/// Adding a debug container keeps the pod's ephemeral containers, in order,
/// and appends one more: an interactive `netshoot` container with the chosen
/// name.
pub proof fn lemma_debug_patch_appends(pod: Json, name: Seq<char>)
    ensures
        ({
            let existing = match json_array(json_path(pod, seq!["spec"@, "ephemeralContainers"@])) {
                Some(cs) => jvs(cs),
                None => Seq::empty(),
            };
            &&& jv_get(spec_debug_patch(pod, name), "spec"@) matches Some(spec)
            &&& jv_get(spec, "ephemeralContainers"@) matches Some(JsonV::Array(cs))
            &&& cs.len() == existing.len() + 1
            &&& cs.take(existing.len() as int) == existing
            &&& jv_get(cs.last(), "name"@) == Some(JsonV::Str(name))
            &&& jv_get(cs.last(), "image"@) == Some(JsonV::Str("nicolaka/netshoot"@))
            &&& jv_get(cs.last(), "stdin"@) == Some(JsonV::Bool(true))
            &&& jv_get(cs.last(), "tty"@) == Some(JsonV::Bool(true))
        }),
{
    reveal_strlit("image");
    reveal_strlit("name");
    reveal_strlit("stdin");
    reveal_strlit("terminationMessagePolicy");
    reveal_strlit("tty");
    let existing = match json_array(json_path(pod, seq!["spec"@, "ephemeralContainers"@])) {
        Some(cs) => jvs(cs),
        None => Seq::empty(),
    };
    let cs = existing.push(debug_container(name));
    assert(cs.take(existing.len() as int) == existing);
    let c = debug_container(name)->Object_0;
    assert("image"@[0] != "name"@[0] && "image"@[0] != "stdin"@[0] && "name"@[0] != "stdin"@[0]);
    assert("image"@[0] != "tty"@[0] && "name"@[0] != "tty"@[0] && "stdin"@[0] != "tty"@[0] && "terminationMessagePolicy"@[1] != "tty"@[1]);
    crate::json::lemma_member_at(c, "image"@, 0);
    crate::json::lemma_member_at(c, "name"@, 1);
    crate::json::lemma_member_at(c, "stdin"@, 2);
    crate::json::lemma_member_at(c, "tty"@, 4);
}

/// The patch that adds debug container `name` to a pod.
pub fn debug_patch(pod: &Json, name: &str) -> (r: Json)
    ensures
        jv(r) == spec_debug_patch(*pod, name@),
{
    let ep = ["spec", "ephemeralContainers"];
    assert(key_views(ep@) =~= seq!["spec"@, "ephemeralContainers"@]);
    let mut containers = match pod.path(&ep) {
        Some(Json::Array(cs)) => copy_values(cs),
        _ => Vec::new(),
    };
    let ghost existing = jvs(containers@);
    let fields = vec![
        (owned("image"), str_value("nicolaka/netshoot")),
        (owned("name"), str_value(name)),
        (owned("stdin"), Json::Bool(true)),
        (owned("terminationMessagePolicy"), str_value("File")),
        (owned("tty"), Json::Bool(true)),
    ];
    proof {
        lemma_jvm(fields@);
        assert(jvm(fields@) =~= debug_container(name@)->Object_0);
    }
    let added = Json::Object(fields);
    assert(jv(added) == debug_container(name@));
    let ghost before = containers@;
    containers.push(added);
    proof {
        assert(containers@.drop_last() == before);
        assert(jvs(containers@) == existing.push(debug_container(name@)));
    }
    let ghost list = jvs(containers@);
    let inner = vec![(owned("ephemeralContainers"), Json::Array(containers))];
    proof {
        lemma_jvm(inner@);
    }
    let ghost iv = jvm(inner@);
    let outer = vec![(owned("spec"), Json::Object(inner))];
    proof {
        lemma_jvm(outer@);
        assert(iv =~= seq![("ephemeralContainers"@, JsonV::Array(existing.push(debug_container(name@))))]);
        assert(jvm(outer@) =~= spec_debug_patch(*pod, name@)->Object_0);
    }
    Json::Object(outer)
}

/// A container status that says container `name` is running.
pub open spec fn running_status(status: Json, name: Seq<char>) -> bool {
    json_str(json_get(status, "name"@)) == Some(name) && match json_path(status, seq!["state"@, "running"@]) {
        Some(Json::Null) => false,
        Some(_) => true,
        None => false,
    }
}

/// The pod's status list `field` says container `name` is running.
pub open spec fn spec_container_running(pod: Json, field: Seq<char>, name: Seq<char>) -> bool {
    match json_array(json_path(pod, seq!["status"@, field])) {
        Some(ss) => exists|i: int| 0 <= i < ss.len() && #[trigger] running_status(ss[i], name),
        None => false,
    }
}

/// Whether the pod's status list `field` (`containerStatuses` or
/// `ephemeralContainerStatuses`) says container `name` is running.
pub fn container_running(pod: &Json, field: &str, name: &str) -> (r: bool)
    ensures
        r == spec_container_running(*pod, field@, name@),
{
    let sp = ["status", field];
    assert(key_views(sp@) =~= seq!["status"@, field@]);
    let rp = ["state", "running"];
    assert(key_views(rp@) =~= seq!["state"@, "running"@]);
    let statuses = match pod.path(&sp) {
        Some(Json::Array(ss)) => ss,
        _ => return false,
    };
    let n = statuses.len();
    for i in 0..n
        invariant
            n == statuses@.len(),
            key_views(rp@) == seq!["state"@, "running"@],
            json_array(json_path(*pod, seq!["status"@, field@])) == Some(statuses@),
            forall|k: int| 0 <= k < i ==> !#[trigger] running_status(statuses@[k], name@),
    {
        let s = &statuses[i];
        let running = match s.path(&rp) {
            Some(Json::Null) => false,
            Some(_) => true,
            None => false,
        };
        if opt_str_is(s.get("name"), name) && running {
            assert(running_status(statuses@[i as int], name@));
            let ghost ss = json_array(json_path(*pod, seq!["status"@, field@]))->Some_0;
            assert(ss == statuses@);
            assert(running_status(ss[i as int], name@));
            return true;
        }
    }
    false
}

/// The error for a debug container that did not start in time.
pub fn debug_start_timeout(name: &str) -> (e: K8sError)
    ensures
        is_api_error(e, "debug container "@ + name@ + " did not start within 60s"@),
{
    let mut m = chars_of("debug container ");
    let n = chars_of(name);
    extend_chars(&mut m, n.as_slice());
    let tail = chars_of(" did not start within 60s");
    extend_chars(&mut m, tail.as_slice());
    K8sError::Api(string_of(m.as_slice()))
}

/// The name of a node-shell pod: `roder-node-shell-` and the lowest six
/// hexadecimal digits of `stamp`.
pub fn node_shell_name(stamp: u64) -> (r: String)
    ensures
        r@ == "roder-node-shell-"@ + hex_fixed(stamp as nat, 6),
{
    let mut out = chars_of("roder-node-shell-");
    push_hex(&mut out, stamp, 6);
    string_of(out.as_slice())
}

/// The privileged pod on `node` that hosts a node shell: it shares the host's
/// PID, network and IPC namespaces, tolerates every taint, runs a sleeping
/// privileged `netshoot` container named `shell`, and is stopped after an hour.
pub open spec fn spec_node_shell_pod(name: Seq<char>, node: Seq<char>) -> JsonV {
    let container = JsonV::Object(
        seq![
            ("command"@, JsonV::Array(seq![JsonV::Str("sleep"@), JsonV::Str("infinity"@)])),
            ("image"@, JsonV::Str("nicolaka/netshoot"@)),
            ("name"@, JsonV::Str("shell"@)),
            ("securityContext"@, JsonV::Object(seq![("privileged"@, JsonV::Bool(true))])),
            ("stdin"@, JsonV::Bool(true)),
            ("tty"@, JsonV::Bool(true)),
        ],
    );
    JsonV::Object(
        seq![
            ("apiVersion"@, JsonV::Str("v1"@)),
            ("kind"@, JsonV::Str("Pod"@)),
            (
                "metadata"@,
                JsonV::Object(
                    seq![
                        ("labels"@, JsonV::Object(seq![("app.kubernetes.io/managed-by"@, JsonV::Str("roder"@))])),
                        ("name"@, JsonV::Str(name)),
                        ("namespace"@, JsonV::Str(NODE_SHELL_NAMESPACE@)),
                    ],
                ),
            ),
            (
                "spec"@,
                JsonV::Object(
                    seq![
                        ("activeDeadlineSeconds"@, JsonV::Number("3600"@, Some(3600))),
                        ("automountServiceAccountToken"@, JsonV::Bool(false)),
                        ("containers"@, JsonV::Array(seq![container])),
                        ("hostIPC"@, JsonV::Bool(true)),
                        ("hostNetwork"@, JsonV::Bool(true)),
                        ("hostPID"@, JsonV::Bool(true)),
                        ("nodeName"@, JsonV::Str(node)),
                        ("restartPolicy"@, JsonV::Str("Never"@)),
                        ("tolerations"@, JsonV::Array(seq![JsonV::Object(seq![("operator"@, JsonV::Str("Exists"@))])])),
                    ],
                ),
            ),
        ],
    )
}

/// A node-shell pod is pinned to its node, in the node-shell namespace under
/// its own name, shares the host's PID, network and IPC namespaces, runs its
/// one container privileged, never restarts and is stopped after an hour.
pub proof fn lemma_node_shell_pod_is_pinned_and_bounded(name: Seq<char>, node: Seq<char>)
    ensures
        ({
            let pod = spec_node_shell_pod(name, node);
            &&& jv_get(pod, "metadata"@) matches Some(meta)
            &&& jv_get(meta, "name"@) == Some(JsonV::Str(name))
            &&& jv_get(meta, "namespace"@) == Some(JsonV::Str(NODE_SHELL_NAMESPACE@))
            &&& jv_get(pod, "spec"@) matches Some(spec)
            &&& jv_get(spec, "nodeName"@) == Some(JsonV::Str(node))
            &&& jv_get(spec, "hostPID"@) == Some(JsonV::Bool(true))
            &&& jv_get(spec, "hostNetwork"@) == Some(JsonV::Bool(true))
            &&& jv_get(spec, "hostIPC"@) == Some(JsonV::Bool(true))
            &&& jv_get(spec, "restartPolicy"@) == Some(JsonV::Str("Never"@))
            &&& jv_get(spec, "activeDeadlineSeconds"@) == Some(JsonV::Number("3600"@, Some(3600)))
            &&& jv_get(spec, "containers"@) matches Some(JsonV::Array(cs))
            &&& cs.len() == 1
            &&& jv_get(cs[0], "securityContext"@) == Some(JsonV::Object(seq![("privileged"@, JsonV::Bool(true))]))
        }),
{
    reveal_strlit("apiVersion");
    reveal_strlit("kind");
    reveal_strlit("metadata");
    reveal_strlit("spec");
    reveal_strlit("labels");
    reveal_strlit("name");
    reveal_strlit("namespace");
    reveal_strlit("activeDeadlineSeconds");
    reveal_strlit("automountServiceAccountToken");
    reveal_strlit("containers");
    reveal_strlit("hostIPC");
    reveal_strlit("hostNetwork");
    reveal_strlit("hostPID");
    reveal_strlit("nodeName");
    reveal_strlit("restartPolicy");
    reveal_strlit("command");
    reveal_strlit("image");
    reveal_strlit("securityContext");
    let pod = spec_node_shell_pod(name, node);
    let top = pod->Object_0;
    assert("apiVersion"@[0] != "metadata"@[0] && "kind"@[0] != "metadata"@[0]);
    assert("apiVersion"@[0] != "spec"@[0] && "kind"@[0] != "spec"@[0] && "metadata"@[0] != "spec"@[0]);
    crate::json::lemma_member_at(top, "metadata"@, 2);
    crate::json::lemma_member_at(top, "spec"@, 3);
    let meta = top[2].1->Object_0;
    assert("labels"@[0] != "name"@[0] && "labels"@[0] != "namespace"@[0] && "name"@.len() != "namespace"@.len());
    crate::json::lemma_member_at(meta, "name"@, 1);
    crate::json::lemma_member_at(meta, "namespace"@, 2);
    let sp = top[3].1->Object_0;
    assert("activeDeadlineSeconds"@[1] != "automountServiceAccountToken"@[1]);
    assert("activeDeadlineSeconds"@[0] != "containers"@[0] && "automountServiceAccountToken"@[0] != "containers"@[0]);
    assert("activeDeadlineSeconds"@[0] != "hostIPC"@[0] && "automountServiceAccountToken"@[0] != "hostIPC"@[0] && "containers"@[0] != "hostIPC"@[0]);
    assert("hostIPC"@[4] != "hostNetwork"@[4] && "hostIPC"@[4] != "hostPID"@[4] && "hostNetwork"@[4] != "hostPID"@[4]);
    assert("activeDeadlineSeconds"@[0] != "nodeName"@[0] && "automountServiceAccountToken"@[0] != "nodeName"@[0] && "containers"@[0] != "nodeName"@[0]);
    assert("hostIPC"@[0] != "nodeName"@[0] && "hostIPC"@[0] != "restartPolicy"@[0] && "nodeName"@[0] != "restartPolicy"@[0]);
    assert("activeDeadlineSeconds"@[0] != "restartPolicy"@[0] && "automountServiceAccountToken"@[0] != "restartPolicy"@[0] && "containers"@[0] != "restartPolicy"@[0]);
    crate::json::lemma_member_at(sp, "activeDeadlineSeconds"@, 0);
    crate::json::lemma_member_at(sp, "containers"@, 2);
    crate::json::lemma_member_at(sp, "hostIPC"@, 3);
    crate::json::lemma_member_at(sp, "hostNetwork"@, 4);
    crate::json::lemma_member_at(sp, "hostPID"@, 5);
    crate::json::lemma_member_at(sp, "nodeName"@, 6);
    crate::json::lemma_member_at(sp, "restartPolicy"@, 7);
    let c = sp[2].1->Array_0[0]->Object_0;
    assert("command"@[0] != "securityContext"@[0] && "image"@[0] != "securityContext"@[0] && "name"@[0] != "securityContext"@[0]);
    crate::json::lemma_member_at(c, "securityContext"@, 3);
}

/// The node-shell pod named `name` on `node`.
pub fn node_shell_pod(name: &str, node: &str) -> (r: Json)
    ensures
        jv(r) == spec_node_shell_pod(name@, node@),
{
    let command = vec![str_value("sleep"), str_value("infinity")];
    proof {
        lemma_jvs(command@);
    }
    let ghost cv = jvs(command@);
    let security = vec![(owned("privileged"), Json::Bool(true))];
    proof {
        lemma_jvm(security@);
    }
    let ghost sv = jvm(security@);
    let container = vec![
        (owned("command"), Json::Array(command)),
        (owned("image"), str_value("nicolaka/netshoot")),
        (owned("name"), str_value("shell")),
        (owned("securityContext"), Json::Object(security)),
        (owned("stdin"), Json::Bool(true)),
        (owned("tty"), Json::Bool(true)),
    ];
    proof {
        lemma_jvm(container@);
    }
    let ghost ctv = jvm(container@);
    let containers = vec![Json::Object(container)];
    proof {
        lemma_jvs(containers@);
    }
    let ghost csv = jvs(containers@);
    let toleration = vec![(owned("operator"), str_value("Exists"))];
    proof {
        lemma_jvm(toleration@);
    }
    let ghost tov = jvm(toleration@);
    let tolerations = vec![Json::Object(toleration)];
    proof {
        lemma_jvs(tolerations@);
    }
    let ghost tsv = jvs(tolerations@);
    let labels = vec![(owned("app.kubernetes.io/managed-by"), str_value("roder"))];
    proof {
        lemma_jvm(labels@);
    }
    let ghost lv = jvm(labels@);
    let metadata = vec![
        (owned("labels"), Json::Object(labels)),
        (owned("name"), str_value(name)),
        (owned("namespace"), str_value(NODE_SHELL_NAMESPACE)),
    ];
    proof {
        lemma_jvm(metadata@);
    }
    let ghost mv = jvm(metadata@);
    proof {
        reveal_strlit("3600");
    }
    let spec = vec![
        (owned("activeDeadlineSeconds"), Json::Number(owned("3600"), Some(3600))),
        (owned("automountServiceAccountToken"), Json::Bool(false)),
        (owned("containers"), Json::Array(containers)),
        (owned("hostIPC"), Json::Bool(true)),
        (owned("hostNetwork"), Json::Bool(true)),
        (owned("hostPID"), Json::Bool(true)),
        (owned("nodeName"), str_value(node)),
        (owned("restartPolicy"), str_value("Never")),
        (owned("tolerations"), Json::Array(tolerations)),
    ];
    proof {
        lemma_jvm(spec@);
    }
    let ghost spv = jvm(spec@);
    let pod = vec![
        (owned("apiVersion"), str_value("v1")),
        (owned("kind"), str_value("Pod")),
        (owned("metadata"), Json::Object(metadata)),
        (owned("spec"), Json::Object(spec)),
    ];
    proof {
        lemma_jvm(pod@);
        let expected = spec_node_shell_pod(name@, node@)->Object_0;
        assert(cv =~= seq![JsonV::Str("sleep"@), JsonV::Str("infinity"@)]);
        assert(sv =~= seq![("privileged"@, JsonV::Bool(true))]);
        assert(ctv =~= expected[3].1->Object_0[2].1->Array_0[0]->Object_0);
        assert(csv =~= expected[3].1->Object_0[2].1->Array_0);
        assert(tov =~= seq![("operator"@, JsonV::Str("Exists"@))]);
        assert(tsv =~= expected[3].1->Object_0[8].1->Array_0);
        assert(lv =~= seq![("app.kubernetes.io/managed-by"@, JsonV::Str("roder"@))]);
        assert(mv =~= expected[2].1->Object_0);
        assert(spv =~= expected[3].1->Object_0);
        assert(jvm(pod@) =~= expected);
    }
    Json::Object(pod)
}

/// The error for a node-shell pod that did not start in time.
pub fn node_shell_start_timeout(name: &str) -> (e: K8sError)
    ensures
        is_api_error(e, "node-shell pod "@ + name@ + " did not start within 60s"@),
{
    let mut m = chars_of("node-shell pod ");
    let n = chars_of(name);
    extend_chars(&mut m, n.as_slice());
    let tail = chars_of(" did not start within 60s");
    extend_chars(&mut m, tail.as_slice());
    K8sError::Api(string_of(m.as_slice()))
}


/// Milliseconds since the Unix epoch by the wall clock (0 before the epoch),
/// truncated to 64 bits. Nothing is claimed of the value: it is the clock's.
#[verifier::external_body]
fn clock_millis() -> (r: u64) {
    std::time::SystemTime::now().duration_since(std::time::UNIX_EPOCH).unwrap_or_default().as_millis() as u64
}

/// A debug container for a pod: its name, free among the pod's ephemeral
/// containers and stamped with the clock, and the patch that adds it.
pub fn debug_container_plan(pod: &Json) -> (r: (String, Json))
    ensures
        exists|stamp: u64| first_free_debug_name(hex_fixed(stamp as nat, 6), ephemeral_names(*pod), #[trigger] r.0@),
        jv(r.1) == spec_debug_patch(*pod, r.0@),
{
    let stamp = clock_millis();
    let taken = ephemeral_container_names(pod);
    let name = debug_container_name(taken.as_slice(), stamp);
    let patch = debug_patch(pod, name.as_str());
    (name, patch)
}

/// A node-shell pod for `node`: its name, stamped with the clock, and the pod.
pub fn node_shell_plan(node: &str) -> (r: (String, Json))
    ensures
        exists|stamp: u64| r.0@ == "roder-node-shell-"@ + #[trigger] hex_fixed(stamp as nat, 6),
        jv(r.1) == spec_node_shell_pod(r.0@, node@),
{
    let stamp = clock_millis();
    let name = node_shell_name(stamp);
    let pod = node_shell_pod(name.as_str(), node);
    (name, pod)
}

} // verus!
