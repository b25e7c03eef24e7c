//! kopiur: running a `SnapshotPolicy` now by creating a manual `Snapshot`
//! that references it, as `kubectl kopiur snapshot now` does.
use vstd::prelude::*;

use crate::catalog::{make_key, spec_make_key, ResourceKind};
use crate::json::{jv, jv_get, jvm, lemma_jvm, str_value, Json, JsonV};
use crate::mutations::{now_unix_seconds, some_view};
use crate::text::{chars_of, extend_chars, i64_to_string, owned, signed_decimal, string_of};

verus! {

/// The label kopiur stamps with the origin of a snapshot.
pub const ORIGIN_LABEL: &'static str = "kopiur.home-operations.com/origin";

/// The label kopiur stamps with the policy a snapshot belongs to.
pub const CONFIG_LABEL: &'static str = "kopiur.home-operations.com/config";

/// The manual `Snapshot` of policy `name` taken at `now` (Unix seconds), in
/// the policy's API group and version: named `<name>-manual-<now>`, labelled
/// as manual and as the policy's, and referencing the policy.
pub open spec fn spec_manual_snapshot(
    group: Seq<char>,
    version: Seq<char>,
    name: Seq<char>,
    namespace: Option<Seq<char>>,
    now: i64,
) -> JsonV {
    JsonV::Object(
        seq![
            ("apiVersion"@, JsonV::Str(group + "/"@ + version)),
            ("kind"@, JsonV::Str("Snapshot"@)),
            (
                "metadata"@,
                JsonV::Object(
                    seq![
                        (
                            "labels"@,
                            JsonV::Object(
                                seq![
                                    (CONFIG_LABEL@, JsonV::Str(name)),
                                    (ORIGIN_LABEL@, JsonV::Str("manual"@)),
                                ],
                            ),
                        ),
                        ("name"@, JsonV::Str(name + "-manual-"@ + signed_decimal(now as int))),
                        (
                            "namespace"@,
                            match namespace {
                                Some(ns) => JsonV::Str(ns),
                                None => JsonV::Null,
                            },
                        ),
                    ],
                ),
            ),
            (
                "spec"@,
                JsonV::Object(seq![("policyRef"@, JsonV::Object(seq![("name"@, JsonV::Str(name))]))]),
            ),
        ],
    )
}

/// A manual snapshot runs the policy it names: a `Snapshot` in the policy's
/// group and version whose `spec.policyRef.name` is the policy, labelled as the
/// policy's and as manual.
pub proof fn lemma_manual_snapshot_references_policy(
    group: Seq<char>,
    version: Seq<char>,
    name: Seq<char>,
    namespace: Option<Seq<char>>,
    now: i64,
)
    ensures
        ({
            let snap = spec_manual_snapshot(group, version, name, namespace, now);
            &&& jv_get(snap, "apiVersion"@) == Some(JsonV::Str(group + "/"@ + version))
            &&& jv_get(snap, "kind"@) == Some(JsonV::Str("Snapshot"@))
            &&& jv_get(snap, "spec"@) matches Some(spec)
            &&& jv_get(spec, "policyRef"@) matches Some(r)
            &&& jv_get(r, "name"@) == Some(JsonV::Str(name))
            &&& jv_get(snap, "metadata"@) matches Some(meta)
            &&& jv_get(meta, "labels"@) matches Some(labels)
            &&& jv_get(labels, CONFIG_LABEL@) == Some(JsonV::Str(name))
            &&& jv_get(labels, ORIGIN_LABEL@) == Some(JsonV::Str("manual"@))
        }),
{
    reveal_strlit("apiVersion");
    reveal_strlit("kind");
    reveal_strlit("metadata");
    reveal_strlit("spec");
    reveal_strlit("kopiur.home-operations.com/config");
    reveal_strlit("kopiur.home-operations.com/origin");
    let top = spec_manual_snapshot(group, version, name, namespace, now)->Object_0;
    assert("apiVersion"@[0] != "kind"@[0] && "apiVersion"@[0] != "metadata"@[0] && "kind"@[0] != "metadata"@[0]);
    assert("apiVersion"@[0] != "spec"@[0] && "kind"@[0] != "spec"@[0] && "metadata"@[0] != "spec"@[0]);
    crate::json::lemma_member_at(top, "apiVersion"@, 0);
    crate::json::lemma_member_at(top, "kind"@, 1);
    crate::json::lemma_member_at(top, "metadata"@, 2);
    crate::json::lemma_member_at(top, "spec"@, 3);
    let meta = top[2].1->Object_0;
    crate::json::lemma_member_at(meta, "labels"@, 0);
    let labels = meta[0].1->Object_0;
    assert(CONFIG_LABEL@[27] != ORIGIN_LABEL@[27]);
    crate::json::lemma_member_at(labels, CONFIG_LABEL@, 0);
    crate::json::lemma_member_at(labels, ORIGIN_LABEL@, 1);
}

fn join3(a: &str, b: &str, c: &str) -> (r: String)
    ensures
        r@ == a@ + b@ + c@,
{
    let mut out = chars_of(a);
    let bc = chars_of(b);
    extend_chars(&mut out, bc.as_slice());
    let cc = chars_of(c);
    extend_chars(&mut out, cc.as_slice());
    string_of(out.as_slice())
}

/// The manual `Snapshot` of a policy at `now`.
pub fn manual_snapshot_at(group: &str, version: &str, name: &str, namespace: Option<&str>, now: i64) -> (r: Json)
    ensures
        jv(r) == spec_manual_snapshot(group@, version@, name@, some_view(namespace), now),
{
    let stamp = i64_to_string(now);
    let api_version = join3(group, "/", version);
    let snapshot_name = join3(name, "-manual-", stamp.as_str());
    let labels = vec![(owned(CONFIG_LABEL), str_value(name)), (owned(ORIGIN_LABEL), str_value("manual"))];
    proof {
        lemma_jvm(labels@);
    }
    let ghost lv = jvm(labels@);
    let ns_value = match namespace {
        Some(ns) => str_value(ns),
        None => Json::Null,
    };
    let metadata = vec![
        (owned("labels"), Json::Object(labels)),
        (owned("name"), Json::Str(snapshot_name)),
        (owned("namespace"), ns_value),
    ];
    proof {
        lemma_jvm(metadata@);
    }
    let ghost mv = jvm(metadata@);
    let policy_ref = vec![(owned("name"), str_value(name))];
    proof {
        lemma_jvm(policy_ref@);
    }
    let ghost pv = jvm(policy_ref@);
    let spec = vec![(owned("policyRef"), Json::Object(policy_ref))];
    proof {
        lemma_jvm(spec@);
    }
    let ghost sv = jvm(spec@);
    let top = vec![
        (owned("apiVersion"), Json::Str(api_version)),
        (owned("kind"), str_value("Snapshot")),
        (owned("metadata"), Json::Object(metadata)),
        (owned("spec"), Json::Object(spec)),
    ];
    proof {
        lemma_jvm(top@);
        assert(lv =~= seq![(CONFIG_LABEL@, JsonV::Str(name@)), (ORIGIN_LABEL@, JsonV::Str("manual"@))]);
        let ns_v = match some_view(namespace) {
            Some(ns) => JsonV::Str(ns),
            None => JsonV::Null,
        };
        assert(mv =~= seq![
            ("labels"@, JsonV::Object(lv)),
            ("name"@, JsonV::Str(name@ + "-manual-"@ + signed_decimal(now as int))),
            ("namespace"@, ns_v),
        ]);
        assert(pv =~= seq![("name"@, JsonV::Str(name@))]);
        assert(sv =~= seq![("policyRef"@, JsonV::Object(pv))]);
        let expected = spec_manual_snapshot(group@, version@, name@, some_view(namespace), now);
        let te = expected->Object_0;
        let me = te[2].1->Object_0;
        assert(me[0].1->Object_0 =~= lv);
        assert(me =~= mv);
        let se = te[3].1->Object_0;
        assert(se[0].1->Object_0 =~= pv);
        assert(se =~= sv);
        assert(jvm(top@) =~= te);
    }
    Json::Object(top)
}

/// A manual run of a `SnapshotPolicy`, taken now: the catalog key of the
/// `Snapshot` kind (the policy's group and version) and the object to create,
/// the snapshot `manual_snapshot_at` builds for some instant.
pub fn manual_snapshot(policy: &ResourceKind, name: &str, namespace: Option<&str>) -> (r: (String, Json))
    ensures
        r.0@ == spec_make_key(policy.group@, policy.version@, "Snapshot"@),
        exists|now: i64|
            jv(r.1) == #[trigger] spec_manual_snapshot(policy.group@, policy.version@, name@, some_view(namespace), now),
{
    let key = make_key(policy.group.as_str(), policy.version.as_str(), "Snapshot");
    let now = now_unix_seconds();
    let snapshot = manual_snapshot_at(policy.group.as_str(), policy.version.as_str(), name, namespace, now);
    assert(jv(snapshot) == spec_manual_snapshot(policy.group@, policy.version@, name@, some_view(namespace), now));
    (key, snapshot)
}

} // verus!
