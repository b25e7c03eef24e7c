//! The objects that manual actions create or replace: a re-run of a finished
//! Job, a Job started by hand from a CronJob, and a Certificate marked for
//! re-issuance.
use vstd::prelude::*;

use crate::catalog::{make_key, spec_make_key};
use crate::error::{api_err, is_api_error, K8sError};
use crate::helm::{read_doc_header, yaml_object_header, DocHeader};
use crate::json::{
    copy_values, copy_within, copy_without, get_member, json_array, json_get, json_path, json_str,
    jv, jv_get, jv_opt, jvm, jvs, key_views, lemma_get_jv, lemma_jvm, lemma_jvs, member, opt_str,
    opt_str_is, put, put_member, str_value, within, drop_keys, deref_opt, member_names, members_without,
    Json, JsonV, MembersV,
};
use crate::text::{
    ascii_lower, chars_of, extend_chars, i64_to_string, is_ascii_alnum, is_ascii_alphanumeric,
    owned, signed_decimal, split_once, split_once_chars, str_eq, string_of, to_ascii_lowercase,
    trim_char, trim_end_char, trim_end_matches, trim_start_char, trim_start_matches,
};

verus! {

/// The characters of `s` that a generated object name keeps: ASCII letters
/// and digits, lower-cased, and hyphens.
pub open spec fn dns_chars(s: Seq<char>) -> Seq<char>
    decreases s.len(),
{
    if s.len() == 0 {
        Seq::empty()
    } else {
        let prev = dns_chars(s.drop_last());
        let c = ascii_lower(s.last());
        if is_ascii_alnum(c) || c == '-' {
            prev.push(c)
        } else {
            prev
        }
    }
}

/// The base of a generated name: the first `limit` characters that `name`
/// keeps, without leading or trailing hyphens, or `fallback` when none is left.
pub open spec fn spec_name_base(name: Seq<char>, limit: nat, fallback: Seq<char>) -> Seq<char> {
    let kept = dns_chars(name);
    let bounded = if kept.len() > limit {
        kept.take(limit as int)
    } else {
        kept
    };
    let trimmed = trim_char(bounded, '-');
    if trimmed.len() == 0 {
        fallback
    } else {
        trimmed
    }
}

/// A character a generated name may hold: a lower-case ASCII letter, a digit,
/// or a hyphen.
pub open spec fn is_name_char(c: char) -> bool {
    ('a' <= c && c <= 'z') || ('0' <= c && c <= '9') || c == '-'
}

proof fn lemma_dns_chars_are_name_chars(s: Seq<char>)
    ensures
        forall|k: int| 0 <= k < dns_chars(s).len() ==> is_name_char(#[trigger] dns_chars(s)[k]),
        dns_chars(s).len() <= s.len(),
    decreases s.len(),
{
    if s.len() > 0 {
        lemma_dns_chars_are_name_chars(s.drop_last());
        let c = s.last();
        if 'A' <= c && c <= 'Z' {
            assert('a' <= ascii_lower(c) && ascii_lower(c) <= 'z');
        }
        let prev = dns_chars(s.drop_last());
        assert forall|k: int| 0 <= k < dns_chars(s).len() implies is_name_char(#[trigger] dns_chars(s)[k]) by {
            if k < prev.len() {
                assert(dns_chars(s)[k] == prev[k]);
            }
        }
    }
}

proof fn lemma_trim_char_inner(s: Seq<char>, c: char)
    ensures
        exists|i: int, j: int| 0 <= i <= j <= s.len() && trim_char(s, c) == s.subrange(i, j),
        trim_char(s, c).len() > 0 ==> trim_char(s, c)[0] != c && trim_char(s, c).last() != c,
    decreases s.len(),
{
    let t = trim_start_char(s, c);
    lemma_trim_start_char_inner(s, c);
    lemma_trim_end_char_inner(t, c);
    let i = choose|i: int| 0 <= i <= s.len() && t == s.skip(i);
    let j = choose|j: int| 0 <= j <= t.len() && trim_end_char(t, c) == t.take(j);
    assert(trim_char(s, c) == s.subrange(i, i + j));
    if trim_char(s, c).len() > 0 {
        assert(trim_char(s, c)[0] == t[0]);
    }
}

proof fn lemma_trim_start_char_inner(s: Seq<char>, c: char)
    ensures
        exists|i: int| 0 <= i <= s.len() && trim_start_char(s, c) == s.skip(i),
        trim_start_char(s, c).len() > 0 ==> trim_start_char(s, c)[0] != c,
    decreases s.len(),
{
    if s.len() > 0 && s[0] == c {
        lemma_trim_start_char_inner(s.drop_first(), c);
        let i = choose|i: int| 0 <= i <= s.drop_first().len() && trim_start_char(s.drop_first(), c) == s.drop_first().skip(i);
        assert(s.drop_first().skip(i) == s.skip(i + 1));
    } else {
        assert(s.skip(0) == s);
    }
}

proof fn lemma_trim_end_char_inner(s: Seq<char>, c: char)
    ensures
        exists|j: int| 0 <= j <= s.len() && trim_end_char(s, c) == s.take(j),
        trim_end_char(s, c).len() > 0 ==> trim_end_char(s, c).last() != c,
    decreases s.len(),
{
    if s.len() > 0 && s.last() == c {
        lemma_trim_end_char_inner(s.drop_last(), c);
        let j = choose|j: int| 0 <= j <= s.drop_last().len() && trim_end_char(s.drop_last(), c) == s.drop_last().take(j);
        assert(s.drop_last().take(j) == s.take(j));
    } else {
        assert(s.take(s.len() as int) == s);
    }
}

/// A generated name's base is the fallback, or a name Kubernetes accepts as
/// a prefix: at most `limit` characters, each a lower-case ASCII letter, a
/// digit or a hyphen, neither starting nor ending with a hyphen.
pub proof fn lemma_name_base_is_dns_label(name: Seq<char>, limit: nat, fallback: Seq<char>)
    ensures
        ({
            let b = spec_name_base(name, limit, fallback);
            ||| b == fallback
            ||| {
                &&& 0 < b.len() <= limit
                &&& b[0] != '-'
                &&& b.last() != '-'
                &&& forall|k: int| 0 <= k < b.len() ==> is_name_char(#[trigger] b[k])
            }
        }),
{
    let kept = dns_chars(name);
    lemma_dns_chars_are_name_chars(name);
    let bounded = if kept.len() > limit {
        kept.take(limit as int)
    } else {
        kept
    };
    lemma_trim_char_inner(bounded, '-');
    let b = spec_name_base(name, limit, fallback);
    if trim_char(bounded, '-').len() > 0 {
        let (i, j) = choose|i: int, j: int| 0 <= i <= j <= bounded.len() && trim_char(bounded, '-') == bounded.subrange(i, j);
        assert forall|k: int| 0 <= k < b.len() implies is_name_char(#[trigger] b[k]) by {
            assert(b[k] == bounded[i + k]);
            assert(bounded[i + k] == kept[i + k]);
        }
    }
}

/// The base of a name generated from `name`.
pub fn name_base(name: &str, limit: usize, fallback: &str) -> (r: Vec<char>)
    ensures
        r@ == spec_name_base(name@, limit as nat, fallback@),
{
    let chars = chars_of(name);
    let mut kept: Vec<char> = Vec::new();
    let n = chars.len();
    for i in 0..n
        invariant
            n == chars@.len(),
            kept@ == dns_chars(chars@.take(i as int)),
    {
        assert(chars@.take(i + 1).drop_last() == chars@.take(i as int));
        assert(chars@.take(i + 1).last() == chars@[i as int]);
        let c = to_ascii_lowercase(chars[i]);
        if is_ascii_alphanumeric(c) || c == '-' {
            kept.push(c);
        }
    }
    assert(chars@.take(n as int) == chars@);
    let mut bounded: Vec<char> = Vec::new();
    let m = if kept.len() > limit {
        limit
    } else {
        kept.len()
    };
    for i in 0..m
        invariant
            m <= kept@.len(),
            bounded@ == kept@.take(i as int),
    {
        bounded.push(kept[i]);
        assert(bounded@ =~= kept@.take(i + 1));
    }
    assert(kept@.take(m as int) == if kept@.len() > limit { kept@.take(limit as int) } else { kept@ });
    let front = trim_start_matches(bounded.as_slice(), '-');
    let trimmed = trim_end_matches(front.as_slice(), '-');
    if trimmed.len() == 0 {
        chars_of(fallback)
    } else {
        trimmed
    }
}

/// A condition that says a Job finished: type `Complete` or `Failed`, status `True`.
pub open spec fn finished_condition(c: Json) -> bool {
    (json_str(json_get(c, "type"@)) == Some("Complete"@) || json_str(json_get(c, "type"@)) == Some(
        "Failed"@,
    )) && json_str(json_get(c, "status"@)) == Some("True"@)
}

/// Some condition in a list says the Job finished.
pub open spec fn any_finished(conditions: Seq<Json>) -> bool {
    exists|i: int| 0 <= i < conditions.len() && #[trigger] finished_condition(conditions[i])
}

/// A Job whose `status.conditions` say it completed or failed.
pub open spec fn is_finished_job(job: Json) -> bool {
    match json_array(json_path(job, seq!["status"@, "conditions"@])) {
        Some(conditions) => any_finished(conditions),
        None => false,
    }
}

/// Whether a Job finished.
pub fn job_finished(job: &Json) -> (r: bool)
    ensures
        r == is_finished_job(*job),
{
    let cp = ["status", "conditions"];
    assert(key_views(cp@) =~= seq!["status"@, "conditions"@]);
    let conditions = match job.path(&cp) {
        Some(Json::Array(cs)) => cs,
        _ => return false,
    };
    let n = conditions.len();
    for i in 0..n
        invariant
            n == conditions@.len(),
            json_array(json_path(*job, seq!["status"@, "conditions"@])) == Some(conditions@),
            forall|k: int| 0 <= k < i ==> !#[trigger] finished_condition(conditions@[k]),
    {
        let c = &conditions[i];
        let t = c.get("type");
        if (opt_str_is(t, "Complete") || opt_str_is(t, "Failed")) && opt_str_is(c.get("status"), "True") {
            assert(finished_condition(conditions@[i as int]));
            return true;
        }
    }
    false
}

/// Labels the Job controller puts on a Job's pods, which a copy must not carry.
pub open spec fn generated_job_labels() -> Seq<Seq<char>> {
    seq![
        "batch.kubernetes.io/controller-uid"@,
        "batch.kubernetes.io/job-name"@,
        "controller-uid"@,
        "job-name"@,
    ]
}

/// A Job spec as a re-run takes it: without the old selector, and without the
/// controller's labels on the pod template.
pub open spec fn rerun_spec(es: MembersV) -> MembersV {
    within(
        drop_keys(es, seq!["selector"@, "manualSelector"@]),
        seq!["template"@, "metadata"@, "labels"@],
        generated_job_labels(),
    )
}

/// The Job that re-runs `source`, a finished Job: a new `batch/v1` Job in
/// `namespace` with a name generated from `<base>-rerun-` (the base made of
/// at most 48 characters of `source_name`, or `job`) and the old spec without
/// its controller identity.
pub open spec fn spec_rerun_job(source: Json, namespace: Seq<char>, source_name: Seq<char>) -> Result<JsonV, Seq<char>> {
    if !is_finished_job(source) {
        Err("only completed or failed Jobs can be re-run"@)
    } else {
        match json_get(source, "spec"@) {
            None => Err("Job has no spec"@),
            Some(Json::Object(es)) => Ok(
                JsonV::Object(
                    seq![
                        ("apiVersion"@, JsonV::Str("batch/v1"@)),
                        ("kind"@, JsonV::Str("Job"@)),
                        (
                            "metadata"@,
                            JsonV::Object(
                                seq![
                                    (
                                        "generateName"@,
                                        JsonV::Str(spec_name_base(source_name, 48, "job"@) + "-rerun-"@),
                                    ),
                                    ("namespace"@, JsonV::Str(namespace)),
                                ],
                            ),
                        ),
                        ("spec"@, JsonV::Object(rerun_spec(jvm(es@)))),
                    ],
                ),
            ),
            Some(_) => Err("Job spec is not an object"@),
        }
    }
}

/// A re-run is refused unless the Job has finished; otherwise it is a new
/// `batch/v1` Job in the given namespace, named from `<base>-rerun-`, whose
/// spec holds the old spec's members under the same names and in the same
/// order, except `selector` and `manualSelector`, which it never holds.
pub proof fn lemma_rerun_job_shape(source: Json, namespace: Seq<char>, source_name: Seq<char>)
    ensures
        !is_finished_job(source) ==> spec_rerun_job(source, namespace, source_name) is Err,
        spec_rerun_job(source, namespace, source_name) matches Ok(job) ==> ({
            &&& jv_get(job, "apiVersion"@) == Some(JsonV::Str("batch/v1"@))
            &&& jv_get(job, "kind"@) == Some(JsonV::Str("Job"@))
            &&& jv_get(job, "metadata"@) == Some(JsonV::Object(seq![
                ("generateName"@, JsonV::Str(spec_name_base(source_name, 48, "job"@) + "-rerun-"@)),
                ("namespace"@, JsonV::Str(namespace)),
            ]))
            &&& json_get(source, "spec"@) matches Some(Json::Object(old))
            &&& jv_get(job, "spec"@) matches Some(JsonV::Object(es))
            &&& member_names(es) == member_names(members_without(jvm(old@), seq!["selector"@, "manualSelector"@]))
            &&& forall|k: int| 0 <= k < es.len() ==> #[trigger] es[k].0 != "selector"@ && es[k].0 != "manualSelector"@
        }),
{
    reveal_strlit("apiVersion");
    reveal_strlit("kind");
    reveal_strlit("metadata");
    reveal_strlit("spec");
    if let Ok(job) = spec_rerun_job(source, namespace, source_name) {
        let old = json_get(source, "spec"@)->0->Object_0;
        let keys = seq!["selector"@, "manualSelector"@];
        let dropped = drop_keys(jvm(old@), keys);
        let es = rerun_spec(jvm(old@));
        crate::json::lemma_drop_keys_keeps_others(jvm(old@), keys);
        crate::json::lemma_within_keeps_names(dropped, seq!["template"@, "metadata"@, "labels"@], generated_job_labels());
        let ms = job->Object_0;
        let m1 = ms.drop_first();
        let m2 = m1.drop_first();
        let m3 = m2.drop_first();
        assert(ms[0].0 == "apiVersion"@);
        assert("apiVersion"@[0] != "kind"@[0]);
        assert("metadata"@[0] != "apiVersion"@[0] && "metadata"@[0] != "kind"@[0]);
        assert("spec"@[0] != "apiVersion"@[0] && "spec"@[0] != "kind"@[0] && "spec"@[0] != "metadata"@[0]);
        assert(m2[0].0 == "metadata"@);
        assert(m1[0].0 == "kind"@);
        assert(member(ms, "kind"@) == member(m1, "kind"@));
        assert(member(ms, "metadata"@) == member(m1, "metadata"@));
        assert(member(m1, "metadata"@) == member(m2, "metadata"@));
        assert(member(ms, "spec"@) == member(m1, "spec"@));
        assert(member(m1, "spec"@) == member(m2, "spec"@));
        assert(member(m2, "spec"@) == member(m3, "spec"@));
        assert(m3[0].0 == "spec"@);
        assert forall|k: int| 0 <= k < es.len() implies #[trigger] es[k].0 != "selector"@ && es[k].0 != "manualSelector"@ by {
            assert(member_names(es).len() == es.len());
            assert(member_names(dropped).len() == dropped.len());
            assert(member_names(es)[k] == es[k].0);
            assert(member_names(dropped)[k] == dropped[k].0);
            assert(keys.contains(keys[0]) && keys.contains(keys[1]));
        }
    }
}

/// `r` is what `spec` says: the same value, or an API error with its message.
pub open spec fn json_outcome(r: Result<Json, K8sError>, spec: Result<JsonV, Seq<char>>) -> bool {
    match r {
        Ok(j) => spec == Ok::<JsonV, Seq<char>>(jv(j)),
        Err(e) => match spec {
            Err(m) => is_api_error(e, m),
            Ok(_) => false,
        },
    }
}

/// The text `prefix` followed by `name_chars` and `suffix`.
fn generated_name(name_chars: Vec<char>, suffix: &str) -> (r: String)
    ensures
        r@ == name_chars@ + suffix@,
{
    let mut out = name_chars;
    let s = chars_of(suffix);
    extend_chars(&mut out, s.as_slice());
    string_of(out.as_slice())
}

/// The Job that re-runs a finished Job.
pub fn build_rerun_job(source: &Json, namespace: &str, source_name: &str) -> (r: Result<Json, K8sError>)
    ensures
        json_outcome(r, spec_rerun_job(*source, namespace@, source_name@)),
{
    if !job_finished(source) {
        return Err(api_err("only completed or failed Jobs can be re-run"));
    }
    let spec_entries = match source.get("spec") {
        None => return Err(api_err("Job has no spec")),
        Some(Json::Object(es)) => es,
        Some(_) => return Err(api_err("Job spec is not an object")),
    };
    let selectors = ["selector", "manualSelector"];
    assert(key_views(selectors@) =~= seq!["selector"@, "manualSelector"@]);
    let without_selector = copy_without(spec_entries, &selectors);
    let path = ["template", "metadata", "labels"];
    assert(key_views(path@).skip(0) =~= seq!["template"@, "metadata"@, "labels"@]);
    let generated = [
        "batch.kubernetes.io/controller-uid",
        "batch.kubernetes.io/job-name",
        "controller-uid",
        "job-name",
    ];
    assert(key_views(generated@) =~= generated_job_labels());
    let spec = copy_within(&without_selector, &path, 0, &generated);
    let base = name_base(source_name, 48, "job");
    let generate_name = generated_name(base, "-rerun-");
    let metadata = vec![
        (owned("generateName"), Json::Str(generate_name)),
        (owned("namespace"), str_value(namespace)),
    ];
    let ghost mv = jvm(metadata@);
    proof {
        lemma_jvm(metadata@);
    }
    let job = vec![
        (owned("apiVersion"), str_value("batch/v1")),
        (owned("kind"), str_value("Job")),
        (owned("metadata"), Json::Object(metadata)),
        (owned("spec"), Json::Object(spec)),
    ];
    proof {
        lemma_jvm(job@);
        assert(mv =~= seq![
            ("generateName"@, JsonV::Str(spec_name_base(source_name@, 48, "job"@) + "-rerun-"@)),
            ("namespace"@, JsonV::Str(namespace@)),
        ]);
    }
    assert(jvm(job@) =~= seq![
        ("apiVersion"@, JsonV::Str("batch/v1"@)),
        ("kind"@, JsonV::Str("Job"@)),
        ("metadata"@, JsonV::Object(mv)),
        ("spec"@, JsonV::Object(rerun_spec(jvm(spec_entries@)))),
    ]);
    Ok(Json::Object(job))
}


/// The condition that asks cert-manager to re-issue a Certificate now.
pub open spec fn manual_issuing(transition_time: Seq<char>, generation: i64) -> JsonV {
    JsonV::Object(
        seq![
            ("lastTransitionTime"@, JsonV::Str(transition_time)),
            ("message"@, JsonV::Str("Certificate re-issuance manually triggered"@)),
            ("observedGeneration"@, JsonV::Number(signed_decimal(generation as int), Some(generation))),
            ("reason"@, JsonV::Str("ManuallyTriggered"@)),
            ("status"@, JsonV::Str("True"@)),
            ("type"@, JsonV::Str("Issuing"@)),
        ],
    )
}

/// The position of the first `Issuing` condition, or the number of
/// conditions when there is none.
pub open spec fn issuing_index(conditions: Seq<JsonV>) -> int
    decreases conditions.len(),
{
    if conditions.len() == 0 {
        0
    } else if jv_get(conditions[0], "type"@) == Some(JsonV::Str("Issuing"@)) {
        0
    } else {
        1 + issuing_index(conditions.drop_first())
    }
}

/// A Certificate's `metadata.generation`, or 0.
pub open spec fn generation_of(certificate: JsonV) -> i64 {
    match jv_get(certificate, "metadata"@) {
        Some(m) => match jv_get(m, "generation"@) {
            Some(JsonV::Number(_, Some(g))) => g,
            _ => 0,
        },
        None => 0,
    }
}

/// A Certificate marked for re-issuance: its `Issuing` condition replaced by
/// a manual one (or the manual one added), its other conditions kept, the
/// status and its conditions created when missing.
pub open spec fn spec_renewal(certificate: JsonV, transition_time: Seq<char>) -> Result<JsonV, Seq<char>> {
    match certificate {
        JsonV::Object(root) => {
            let status = match member(root, "status"@) {
                None => Some(Seq::<(Seq<char>, JsonV)>::empty()),
                Some(JsonV::Object(st)) => Some(st),
                Some(_) => None,
            };
            match status {
                None => Err("Certificate status is not an object"@),
                Some(st) => {
                    let conditions = match member(st, "conditions"@) {
                        None => Some(Seq::<JsonV>::empty()),
                        Some(JsonV::Array(cs)) => Some(cs),
                        Some(_) => None,
                    };
                    match conditions {
                        None => Err("Certificate status.conditions is not an array"@),
                        Some(cs) => {
                            let manual = manual_issuing(transition_time, generation_of(certificate));
                            let i = issuing_index(cs);
                            let updated = if i < cs.len() {
                                cs.update(i, manual)
                            } else {
                                cs.push(manual)
                            };
                            Ok(
                                JsonV::Object(
                                    put(root, "status"@, JsonV::Object(put(st, "conditions"@, JsonV::Array(updated)))),
                                ),
                            )
                        },
                    }
                },
            }
        },
        _ => Err("Certificate is not an object"@),
    }
}

/// Marking a Certificate for re-issuance replaces its first `Issuing`
/// condition by the manual one (adding it when there is none), keeps every
/// other condition in place, and leaves every other member of the status and
/// of the Certificate as it was.
pub proof fn lemma_renewal_replaces_issuing(certificate: JsonV, transition_time: Seq<char>, other: Seq<char>)
    ensures
        spec_renewal(certificate, transition_time) matches Ok(JsonV::Object(new_root)) ==> ({
            let root = certificate->Object_0;
            let st = match member(root, "status"@) {
                Some(JsonV::Object(st)) => st,
                _ => Seq::empty(),
            };
            let cs = match member(st, "conditions"@) {
                Some(JsonV::Array(cs)) => cs,
                _ => Seq::empty(),
            };
            let i = issuing_index(cs);
            &&& other != "status"@ ==> member(new_root, other) == member(root, other)
            &&& member(new_root, "status"@) matches Some(JsonV::Object(new_st))
            &&& other != "conditions"@ ==> member(new_st, other) == member(st, other)
            &&& member(new_st, "conditions"@) matches Some(JsonV::Array(new_cs))
            &&& new_cs.len() == (if i < cs.len() { cs.len() as int } else { cs.len() as int + 1 })
            &&& new_cs[i] == manual_issuing(transition_time, generation_of(certificate))
            &&& forall|j: int| 0 <= j < cs.len() && j != i ==> #[trigger] new_cs[j] == cs[j]
        }),
{
    if let Ok(JsonV::Object(new_root)) = spec_renewal(certificate, transition_time) {
        let root = certificate->Object_0;
        let st = match member(root, "status"@) {
            Some(JsonV::Object(st)) => st,
            _ => Seq::empty(),
        };
        let cs = match member(st, "conditions"@) {
            Some(JsonV::Array(cs)) => cs,
            _ => Seq::empty(),
        };
        let i = issuing_index(cs);
        let manual = manual_issuing(transition_time, generation_of(certificate));
        let updated = if i < cs.len() { cs.update(i, manual) } else { cs.push(manual) };
        let new_st = put(st, "conditions"@, JsonV::Array(updated));
        crate::json::lemma_put_then_member(root, "status"@, JsonV::Object(new_st), other);
        crate::json::lemma_put_then_member(st, "conditions"@, JsonV::Array(updated), other);
        lemma_issuing_index_bound(cs);
    }
}

proof fn lemma_issuing_index_bound(cs: Seq<JsonV>)
    ensures
        0 <= issuing_index(cs) <= cs.len(),
    decreases cs.len(),
{
    if cs.len() > 0 {
        lemma_issuing_index_bound(cs.drop_first());
    }
}

proof fn lemma_issuing_index_first(cs: Seq<JsonV>, i: int)
    requires
        0 <= i <= cs.len(),
        forall|j: int| 0 <= j < i ==> jv_get(#[trigger] cs[j], "type"@) != Some(JsonV::Str("Issuing"@)),
        i < cs.len() ==> jv_get(cs[i], "type"@) == Some(JsonV::Str("Issuing"@)),
    ensures
        issuing_index(cs) == i,
    decreases i,
{
    if i > 0 {
        assert forall|j: int| 0 <= j < i - 1 implies jv_get(
            #[trigger] cs.drop_first()[j],
            "type"@,
        ) != Some(JsonV::Str("Issuing"@)) by {
            assert(cs.drop_first()[j] == cs[j + 1]);
        }
        if i < cs.len() {
            assert(cs.drop_first()[i - 1] == cs[i]);
        }
        assert(jv_get(cs[0], "type"@) != Some(JsonV::Str("Issuing"@)));
        lemma_issuing_index_first(cs.drop_first(), i - 1);
    }
}

/// Whether a condition is of type `Issuing`.
fn is_issuing(c: &Json) -> (r: bool)
    ensures
        r == (jv_get(jv(*c), "type"@) == Some(JsonV::Str("Issuing"@))),
{
    proof {
        lemma_get_jv(*c, "type"@);
    }
    opt_str_is(c.get("type"), "Issuing")
}

/// Marks a Certificate for re-issuance at `transition_time`; it is left as it
/// was when the marking is refused.
pub fn mark_certificate_for_renewal(certificate: &mut Json, transition_time: &str) -> (r: Result<(), K8sError>)
    ensures
        match r {
            Ok(_) => spec_renewal(jv(*old(certificate)), transition_time@) == Ok::<JsonV, Seq<char>>(
                jv(*final(certificate)),
            ),
            Err(e) => *final(certificate) == *old(certificate) && match spec_renewal(
                jv(*old(certificate)),
                transition_time@,
            ) {
                Err(m) => is_api_error(e, m),
                Ok(_) => false,
            },
        },
{
    let ghost c = jv(*certificate);
    let metadata = certificate.get("metadata");
    proof {
        lemma_get_jv(*certificate, "metadata"@);
    }
    let generation: i64 = match metadata {
        Some(m) => {
            proof {
                lemma_get_jv(*m, "generation"@);
            }
            match m.get("generation") {
                Some(Json::Number(_, Some(g))) => *g,
                _ => 0,
            }
        },
        None => 0,
    };
    assert(generation == generation_of(c));
    let root = match &*certificate {
        Json::Object(root) => root,
        _ => return Err(api_err("Certificate is not an object")),
    };
    let status: Vec<(String, Json)> = match get_member(root, "status") {
        None => Vec::new(),
        Some(Json::Object(st)) => crate::json::copy_members(st),
        Some(_) => return Err(api_err("Certificate status is not an object")),
    };
    proof {
        lemma_jvm(status@);
    }
    let ghost st = jvm(status@);
    let mut conditions: Vec<Json> = match get_member(&status, "conditions") {
        None => Vec::new(),
        Some(Json::Array(cs)) => copy_values(cs),
        Some(_) => return Err(api_err("Certificate status.conditions is not an array")),
    };
    proof {
        lemma_jvs(conditions@);
    }
    let ghost cs = jvs(conditions@);
    let mut i: usize = 0;
    while i < conditions.len() && !is_issuing(&conditions[i])
        invariant
            i <= conditions@.len(),
            cs == jvs(conditions@),
            cs.len() == conditions@.len(),
            forall|j: int| 0 <= j < conditions@.len() ==> #[trigger] cs[j] == jv(conditions@[j]),
            forall|j: int| 0 <= j < i ==> jv_get(#[trigger] cs[j], "type"@) != Some(JsonV::Str("Issuing"@)),
        decreases conditions@.len() - i,
    {
        i = i + 1;
    }
    proof {
        lemma_issuing_index_first(cs, i as int);
    }
    let manual_entries = vec![
        (owned("lastTransitionTime"), str_value(transition_time)),
        (owned("message"), str_value("Certificate re-issuance manually triggered")),
        (owned("observedGeneration"), Json::Number(i64_to_string(generation), Some(generation))),
        (owned("reason"), str_value("ManuallyTriggered")),
        (owned("status"), str_value("True")),
        (owned("type"), str_value("Issuing")),
    ];
    proof {
        lemma_jvm(manual_entries@);
        assert(jvm(manual_entries@) =~= seq![
            ("lastTransitionTime"@, JsonV::Str(transition_time@)),
            ("message"@, JsonV::Str("Certificate re-issuance manually triggered"@)),
            ("observedGeneration"@, JsonV::Number(signed_decimal(generation as int), Some(generation))),
            ("reason"@, JsonV::Str("ManuallyTriggered"@)),
            ("status"@, JsonV::Str("True"@)),
            ("type"@, JsonV::Str("Issuing"@)),
        ]);
    }
    let manual = Json::Object(manual_entries);
    assert(jv(manual) == manual_issuing(transition_time@, generation));
    let ghost before = conditions@;
    if i < conditions.len() {
        conditions.set(i, manual);
        proof {
            lemma_jvs(before);
            lemma_jvs(conditions@);
            assert(jvs(conditions@) =~= cs.update(i as int, manual_issuing(transition_time@, generation)));
        }
    } else {
        conditions.push(manual);
        proof {
            lemma_jvs(conditions@);
            assert(jvs(conditions@) =~= cs.push(manual_issuing(transition_time@, generation)));
        }
    }
    let new_status = put_member(&status, "conditions", Json::Array(conditions));
    let new_root = put_member(root, "status", Json::Object(new_status));
    *certificate = Json::Object(new_root);
    Ok(())
}

/// The Job that starts a CronJob by hand at `now` (Unix seconds): named
/// `<base>-manual-<now>` (the base made of at most 40 characters of `name`,
/// or `job`), marked as a manual instantiation, owned by the CronJob, and
/// running its `spec.jobTemplate.spec` (an empty spec without one).
pub open spec fn spec_cronjob_job(cronjob: Json, name: Seq<char>, namespace: Option<Seq<char>>, now: i64) -> Result<JsonV, Seq<char>> {
    match json_path(cronjob, seq!["spec"@, "jobTemplate"@]) {
        None => Err("CronJob has no spec.jobTemplate"@),
        Some(template) => {
            let job_spec = match json_get(template, "spec"@) {
                Some(s) => jv(s),
                None => JsonV::Object(Seq::empty()),
            };
            let uid = match json_str(json_path(cronjob, seq!["metadata"@, "uid"@])) {
                Some(u) => u,
                None => Seq::empty(),
            };
            let job_name = spec_name_base(name, 40, "job"@) + "-manual-"@ + signed_decimal(now as int);
            let owner = JsonV::Object(
                seq![
                    ("apiVersion"@, JsonV::Str("batch/v1"@)),
                    ("blockOwnerDeletion"@, JsonV::Bool(true)),
                    ("controller"@, JsonV::Bool(false)),
                    ("kind"@, JsonV::Str("CronJob"@)),
                    ("name"@, JsonV::Str(name)),
                    ("uid"@, JsonV::Str(uid)),
                ],
            );
            Ok(
                JsonV::Object(
                    seq![
                        ("apiVersion"@, JsonV::Str("batch/v1"@)),
                        ("kind"@, JsonV::Str("Job"@)),
                        (
                            "metadata"@,
                            JsonV::Object(
                                seq![
                                    (
                                        "annotations"@,
                                        JsonV::Object(
                                            seq![("cronjob.kubernetes.io/instantiate"@, JsonV::Str("manual"@))],
                                        ),
                                    ),
                                    ("name"@, JsonV::Str(job_name)),
                                    (
                                        "namespace"@,
                                        match namespace {
                                            Some(ns) => JsonV::Str(ns),
                                            None => JsonV::Null,
                                        },
                                    ),
                                    ("ownerReferences"@, JsonV::Array(seq![owner])),
                                ],
                            ),
                        ),
                        ("spec"@, job_spec),
                    ],
                ),
            )
        },
    }
}

/// A manual run of a CronJob is refused without a job template; otherwise it
/// is a `batch/v1` Job running the template's spec (an empty one when the
/// template has none), named `<base>-manual-<now>`, and owned by the CronJob,
/// by its name and uid, without being controlled by it.
pub proof fn lemma_cronjob_job_runs_template(cronjob: Json, name: Seq<char>, namespace: Option<Seq<char>>, now: i64)
    ensures
        json_path(cronjob, seq!["spec"@, "jobTemplate"@]) is None ==> spec_cronjob_job(cronjob, name, namespace, now) is Err,
        spec_cronjob_job(cronjob, name, namespace, now) matches Ok(job) ==> ({
            let template = json_path(cronjob, seq!["spec"@, "jobTemplate"@])->0;
            let uid = match json_str(json_path(cronjob, seq!["metadata"@, "uid"@])) {
                Some(u) => u,
                None => Seq::empty(),
            };
            &&& jv_get(job, "apiVersion"@) == Some(JsonV::Str("batch/v1"@))
            &&& jv_get(job, "kind"@) == Some(JsonV::Str("Job"@))
            &&& jv_get(job, "spec"@) == Some(match json_get(template, "spec"@) {
                Some(t) => jv(t),
                None => JsonV::Object(Seq::empty()),
            })
            &&& jv_get(job, "metadata"@) matches Some(meta)
            &&& jv_get(meta, "name"@) == Some(JsonV::Str(spec_name_base(name, 40, "job"@) + "-manual-"@ + signed_decimal(now as int)))
            &&& jv_get(meta, "ownerReferences"@) == Some(JsonV::Array(seq![JsonV::Object(seq![
                ("apiVersion"@, JsonV::Str("batch/v1"@)),
                ("blockOwnerDeletion"@, JsonV::Bool(true)),
                ("controller"@, JsonV::Bool(false)),
                ("kind"@, JsonV::Str("CronJob"@)),
                ("name"@, JsonV::Str(name)),
                ("uid"@, JsonV::Str(uid)),
            ])]))
        }),
{
    reveal_strlit("apiVersion");
    reveal_strlit("kind");
    reveal_strlit("metadata");
    reveal_strlit("spec");
    reveal_strlit("annotations");
    reveal_strlit("name");
    reveal_strlit("namespace");
    reveal_strlit("ownerReferences");
    if let Ok(job) = spec_cronjob_job(cronjob, name, namespace, now) {
        let ms = job->Object_0;
        let m1 = ms.drop_first();
        let m2 = m1.drop_first();
        let m3 = m2.drop_first();
        assert("apiVersion"@[0] != "kind"@[0]);
        assert("metadata"@[0] != "apiVersion"@[0] && "metadata"@[0] != "kind"@[0]);
        assert("spec"@[0] != "apiVersion"@[0] && "spec"@[0] != "kind"@[0] && "spec"@[0] != "metadata"@[0]);
        assert(m1[0].0 == "kind"@ && m2[0].0 == "metadata"@ && m3[0].0 == "spec"@);
        assert(member(ms, "kind"@) == member(m1, "kind"@));
        assert(member(ms, "metadata"@) == member(m1, "metadata"@));
        assert(member(m1, "metadata"@) == member(m2, "metadata"@));
        assert(member(ms, "spec"@) == member(m1, "spec"@));
        assert(member(m1, "spec"@) == member(m2, "spec"@));
        assert(member(m2, "spec"@) == member(m3, "spec"@));
        let meta = member(m2, "metadata"@)->0->Object_0;
        let n1 = meta.drop_first();
        let n2 = n1.drop_first();
        let n3 = n2.drop_first();
        assert("annotations"@[0] != "name"@[0] && "annotations"@[0] != "ownerReferences"@[0]);
        assert("name"@[0] != "ownerReferences"@[0] && "namespace"@[0] != "ownerReferences"@[0]);
        assert(n1[0].0 == "name"@ && n2[0].0 == "namespace"@ && n3[0].0 == "ownerReferences"@);
        assert(member(meta, "name"@) == member(n1, "name"@));
        assert(member(meta, "ownerReferences"@) == member(n1, "ownerReferences"@));
        assert(member(n1, "ownerReferences"@) == member(n2, "ownerReferences"@));
        assert(member(n2, "ownerReferences"@) == member(n3, "ownerReferences"@));
    }
}

/// The view of an optional borrowed string.
pub open spec fn some_view(o: Option<&str>) -> Option<Seq<char>> {
    match o {
        Some(s) => Some(s@),
        None => None,
    }
}

/// The Job that starts a CronJob by hand at `now`.
pub fn cronjob_job_at(cronjob: &Json, name: &str, namespace: Option<&str>, now: i64) -> (r: Result<Json, K8sError>)
    ensures
        json_outcome(r, spec_cronjob_job(*cronjob, name@, some_view(namespace), now)),
{
    let tp = ["spec", "jobTemplate"];
    assert(key_views(tp@) =~= seq!["spec"@, "jobTemplate"@]);
    let up = ["metadata", "uid"];
    assert(key_views(up@) =~= seq!["metadata"@, "uid"@]);
    let template = match cronjob.path(&tp) {
        Some(t) => t,
        None => return Err(api_err("CronJob has no spec.jobTemplate")),
    };
    let job_spec = match template.get("spec") {
        Some(s) => crate::json::clone_json(s),
        None => Json::Object(Vec::new()),
    };
    proof {
        lemma_jvm(Seq::<(String, Json)>::empty());
    }
    let uid = match opt_str(cronjob.path(&up)) {
        Some(u) => u,
        None => "",
    };
    proof {
        reveal_strlit("");
        assert(""@ =~= Seq::<char>::empty());
    }
    assert(uid@ == match json_str(json_path(*cronjob, seq!["metadata"@, "uid"@])) {
        Some(u) => u,
        None => Seq::<char>::empty(),
    });
    let mut job_name = name_base(name, 40, "job");
    let mid = chars_of("-manual-");
    extend_chars(&mut job_name, mid.as_slice());
    let ts = chars_of(i64_to_string(now).as_str());
    extend_chars(&mut job_name, ts.as_slice());
    let owner_entries = vec![
        (owned("apiVersion"), str_value("batch/v1")),
        (owned("blockOwnerDeletion"), Json::Bool(true)),
        (owned("controller"), Json::Bool(false)),
        (owned("kind"), str_value("CronJob")),
        (owned("name"), str_value(name)),
        (owned("uid"), str_value(uid)),
    ];
    let ghost ov = jvm(owner_entries@);
    proof {
        lemma_jvm(owner_entries@);
    }
    let owners = vec![Json::Object(owner_entries)];
    proof {
        lemma_jvs(owners@);
    }
    let ghost owv = jvs(owners@);
    let annotations = vec![(owned("cronjob.kubernetes.io/instantiate"), str_value("manual"))];
    proof {
        lemma_jvm(annotations@);
    }
    let ghost av = jvm(annotations@);
    let ns_value = match namespace {
        Some(ns) => str_value(ns),
        None => Json::Null,
    };
    let metadata = vec![
        (owned("annotations"), Json::Object(annotations)),
        (owned("name"), Json::Str(string_of(job_name.as_slice()))),
        (owned("namespace"), ns_value),
        (owned("ownerReferences"), Json::Array(owners)),
    ];
    proof {
        lemma_jvm(metadata@);
    }
    let ghost mv = jvm(metadata@);
    let job = vec![
        (owned("apiVersion"), str_value("batch/v1")),
        (owned("kind"), str_value("Job")),
        (owned("metadata"), Json::Object(metadata)),
        (owned("spec"), job_spec),
    ];
    proof {
        lemma_jvm(job@);
        let uidv = match json_str(json_path(*cronjob, seq!["metadata"@, "uid"@])) {
            Some(u) => u,
            None => Seq::<char>::empty(),
        };
        assert(ov =~= seq![
            ("apiVersion"@, JsonV::Str("batch/v1"@)),
            ("blockOwnerDeletion"@, JsonV::Bool(true)),
            ("controller"@, JsonV::Bool(false)),
            ("kind"@, JsonV::Str("CronJob"@)),
            ("name"@, JsonV::Str(name@)),
            ("uid"@, JsonV::Str(uidv)),
        ]);
        assert(owv =~= seq![JsonV::Object(ov)]);
        assert(av =~= seq![("cronjob.kubernetes.io/instantiate"@, JsonV::Str("manual"@))]);
        let job_name_v = spec_name_base(name@, 40, "job"@) + "-manual-"@ + signed_decimal(now as int);
        let ns_v = match some_view(namespace) {
            Some(ns) => JsonV::Str(ns),
            None => JsonV::Null,
        };
        assert(mv =~= seq![
            ("annotations"@, JsonV::Object(av)),
            ("name"@, JsonV::Str(job_name_v)),
            ("namespace"@, ns_v),
            ("ownerReferences"@, JsonV::Array(owv)),
        ]);
        let spec_v = match json_get(*template, "spec"@) {
            Some(s) => jv(s),
            None => JsonV::Object(Seq::empty()),
        };
        assert(jvm(job@) =~= seq![
            ("apiVersion"@, JsonV::Str("batch/v1"@)),
            ("kind"@, JsonV::Str("Job"@)),
            ("metadata"@, JsonV::Object(mv)),
            ("spec"@, spec_v),
        ]);
        assert(json_path(*cronjob, seq!["spec"@, "jobTemplate"@]) == Some(*template));
    }
    let result = Json::Object(job);
    proof {
        let sv = spec_cronjob_job(*cronjob, name@, some_view(namespace), now);
        let top = sv->Ok_0->Object_0;
        assert(top[2].1->Object_0 =~= mv);
        assert(top =~= jvm(job@));
    }
    Ok(result)
}

/// Marks a Certificate for re-issuance now: what `mark_certificate_for_renewal`
/// does with the clock's current RFC 3339 time.
pub fn mark_certificate_for_renewal_now(certificate: &mut Json) -> (r: Result<(), K8sError>)
    ensures
        exists|ts: Seq<char>|
            match r {
                Ok(_) => #[trigger] spec_renewal(jv(*old(certificate)), ts) == Ok::<JsonV, Seq<char>>(
                    jv(*final(certificate)),
                ),
                Err(e) => *final(certificate) == *old(certificate) && match spec_renewal(
                    jv(*old(certificate)),
                    ts,
                ) {
                    Err(m) => is_api_error(e, m),
                    Ok(_) => false,
                },
            },
{
    let ts = now_rfc3339();
    mark_certificate_for_renewal(certificate, ts.as_str())
}

/// A single string annotation, nested under `path` (outermost first).
pub open spec fn nested_annotation(path: Seq<Seq<char>>, key: Seq<char>, value: Seq<char>) -> JsonV
    decreases path.len(),
{
    if path.len() == 0 {
        JsonV::Object(seq![(key, JsonV::Str(value))])
    } else {
        JsonV::Object(seq![(path[0], nested_annotation(path.drop_first(), key, value))])
    }
}

/// The annotation a rollout restart sets on a workload's pod template.
pub const RESTARTED_AT: &'static str = "kubectl.kubernetes.io/restartedAt";

/// The annotation that asks External Secrets to refresh a secret.
pub const FORCE_SYNC: &'static str = "force-sync";

/// The merge patch of a rollout restart at `ts`: the pod template's
/// `restartedAt` annotation.
pub open spec fn spec_restart_patch(ts: Seq<char>) -> JsonV {
    nested_annotation(seq!["spec"@, "template"@, "metadata"@, "annotations"@], RESTARTED_AT@, ts)
}

/// The merge patch of an External Secrets refresh at `ts`: the object's
/// `force-sync` annotation.
pub open spec fn spec_force_sync_patch(ts: Seq<char>) -> JsonV {
    nested_annotation(seq!["metadata"@, "annotations"@], FORCE_SYNC@, ts)
}

fn wrap(key: &str, inner: Json) -> (r: Json)
    ensures
        jv(r) == JsonV::Object(seq![(key@, jv(inner))]),
{
    let es = vec![(owned(key), inner)];
    proof {
        lemma_jvm(es@);
        assert(jvm(es@) =~= seq![(key@, jv(inner))]);
    }
    Json::Object(es)
}

/// The merge patch that restarts a workload's rollout at `ts`.
pub fn restart_patch_at(ts: &str) -> (r: Json)
    ensures
        jv(r) == spec_restart_patch(ts@),
{
    let a = wrap(RESTARTED_AT, str_value(ts));
    let b = wrap("annotations", a);
    let c = wrap("metadata", b);
    let d = wrap("template", c);
    let r = wrap("spec", d);
    proof {
        let p = seq!["spec"@, "template"@, "metadata"@, "annotations"@];
        reveal_with_fuel(nested_annotation, 5);
        assert(p.drop_first() =~= seq!["template"@, "metadata"@, "annotations"@]);
        assert(p.drop_first().drop_first() =~= seq!["metadata"@, "annotations"@]);
        assert(p.drop_first().drop_first().drop_first() =~= seq!["annotations"@]);
        assert(p.drop_first().drop_first().drop_first().drop_first() =~= Seq::<Seq<char>>::empty());
    }
    r
}

/// The merge patch that restarts a workload's rollout now
/// (`kubectl rollout restart`).
pub fn restart_patch() -> (r: Json)
    ensures
        exists|ts: Seq<char>| jv(r) == #[trigger] spec_restart_patch(ts),
{
    let ts = now_rfc3339();
    let r = restart_patch_at(ts.as_str());
    assert(jv(r) == spec_restart_patch(ts@));
    r
}

/// The merge patch that asks External Secrets to refresh at `ts`.
pub fn force_sync_patch_at(ts: &str) -> (r: Json)
    ensures
        jv(r) == spec_force_sync_patch(ts@),
{
    let a = wrap(FORCE_SYNC, str_value(ts));
    let b = wrap("annotations", a);
    let r = wrap("metadata", b);
    proof {
        let p = seq!["metadata"@, "annotations"@];
        reveal_with_fuel(nested_annotation, 3);
        assert(p.drop_first() =~= seq!["annotations"@]);
        assert(p.drop_first().drop_first() =~= Seq::<Seq<char>>::empty());
    }
    r
}

/// The merge patch that asks External Secrets to refresh now.
pub fn force_sync_patch() -> (r: Json)
    ensures
        exists|ts: Seq<char>| jv(r) == #[trigger] spec_force_sync_patch(ts),
{
    let ts = now_rfc3339();
    let r = force_sync_patch_at(ts.as_str());
    assert(jv(r) == spec_force_sync_patch(ts@));
    r
}

/// The merge patch that cordons (or uncordons) a Node.
pub fn cordon_patch(unschedulable: bool) -> (r: Json)
    ensures
        jv(r) == JsonV::Object(seq![("spec"@, JsonV::Object(seq![("unschedulable"@, JsonV::Bool(unschedulable))]))]),
{
    let inner = wrap("unschedulable", Json::Bool(unschedulable));
    wrap("spec", inner)
}

/// Where an edited YAML document is applied, as (catalog key, name,
/// namespace): its `apiVersion` splits at the first `/` into group and
/// version (a core version has an empty group). Refused when the text does
/// not read as an object, or lacks its type or its name.
pub open spec fn spec_apply_target(yaml: Seq<char>) -> Result<(Seq<char>, Seq<char>, Option<Seq<char>>), Seq<char>> {
    match yaml_object_header(yaml) {
        Err(e) => Err("invalid YAML: "@ + e),
        Ok(h) => match h.0 {
            None => Err("document is missing apiVersion/kind"@),
            Some((api_version, kind)) => {
                let gv = match split_once(api_version, '/') {
                    Some(parts) => parts,
                    None => (Seq::empty(), api_version),
                };
                match h.1 {
                    None => Err("document is missing metadata.name"@),
                    Some(name) => Ok((spec_make_key(gv.0, gv.1, kind), name, h.2)),
                }
            },
        },
    }
}

pub open spec fn apply_outcome(
    r: Result<(String, String, Option<String>), K8sError>,
    s: Result<(Seq<char>, Seq<char>, Option<Seq<char>>), Seq<char>>,
) -> bool {
    match r {
        Ok((key, name, ns)) => s == Ok::<(Seq<char>, Seq<char>, Option<Seq<char>>), Seq<char>>((
            key@,
            name@,
            match ns {
                Some(n) => Some(n@),
                None => None,
            },
        )),
        Err(e) => s is Err && is_api_error(e, s->Err_0),
    }
}

/// Where a server-side apply of an edited YAML document goes.
pub fn apply_target(yaml: &str) -> (r: Result<(String, String, Option<String>), K8sError>)
    ensures
        apply_outcome(r, spec_apply_target(yaml@)),
{
    let header = match read_doc_header(yaml) {
        Ok(h) => h,
        Err(e) => {
            let mut msg = chars_of("invalid YAML: ");
            let ec = chars_of(e.as_str());
            extend_chars(&mut msg, ec.as_slice());
            return Err(K8sError::Api(string_of(msg.as_slice())));
        },
    };
    let DocHeader { types, name, namespace } = header;
    let (api_version, kind) = match types {
        Some(t) => t,
        None => return Err(api_err("document is missing apiVersion/kind")),
    };
    let av = chars_of(api_version.as_str());
    let (group, version) = match split_once_chars(av.as_slice(), '/') {
        Some((g, v)) => (string_of(g.as_slice()), string_of(v.as_slice())),
        None => (String::new(), api_version),
    };
    proof {
        assert(group@ =~= match split_once(av@, '/') {
            Some(parts) => parts.0,
            None => Seq::<char>::empty(),
        });
    }
    let name = match name {
        Some(n) => n,
        None => return Err(api_err("document is missing metadata.name")),
    };
    let key = make_key(group.as_str(), version.as_str(), kind.as_str());
    Ok((key, name, namespace))
}

/// The current time as RFC 3339 text, from `time::OffsetDateTime::now_utc`
/// formatted with the `Rfc3339` description (empty if that fails). Nothing is
/// claimed of the text: it is the clock's.
#[verifier::external_body]
pub(crate) fn now_rfc3339() -> (r: String) {
    time::OffsetDateTime::now_utc().format(&time::format_description::well_known::Rfc3339).unwrap_or_default()
}

/// The current time in Unix seconds, from `time::OffsetDateTime::now_utc`.
/// Nothing is claimed of the value: it is the clock's.
#[verifier::external_body]
pub(crate) fn now_unix_seconds() -> (r: i64) {
    time::OffsetDateTime::now_utc().unix_timestamp()
}

/// The Job that starts a CronJob by hand now; it is the Job
/// `cronjob_job_at` builds for some instant.
pub fn cronjob_job(cronjob: &Json, name: &str, namespace: Option<&str>) -> (r: Result<Json, K8sError>)
    ensures
        exists|now: i64| json_outcome(r, #[trigger] spec_cronjob_job(*cronjob, name@, some_view(namespace), now)),
{
    let now = now_unix_seconds();
    let r = cronjob_job_at(cronjob, name, namespace, now);
    assert(json_outcome(r, spec_cronjob_job(*cronjob, name@, some_view(namespace), now)));
    r
}


/// The namespace a Job re-run happens in: only a `batch/v1` Job can be re-run,
/// and only with a namespace.
pub fn rerun_namespace(key: &str, namespace: Option<&str>) -> (r: Result<String, K8sError>)
    ensures
        match r {
            Ok(ns) => key@ == "batch/v1/Job"@ && some_view(namespace) == Some(ns@),
            Err(e) => if key@ != "batch/v1/Job"@ {
                is_api_error(e, "re-run requires a batch/v1 Job"@)
            } else {
                namespace is None && is_api_error(e, "Job namespace is required"@)
            },
        },
{
    if !str_eq(key, "batch/v1/Job") {
        return Err(api_err("re-run requires a batch/v1 Job"));
    }
    match namespace {
        Some(ns) => Ok(owned(ns)),
        None => Err(api_err("Job namespace is required")),
    }
}

/// The namespace a Certificate renewal happens in: only a cert-manager
/// `Certificate` can be renewed, and only in a namespace that is not empty.
pub fn renewal_namespace(group: &str, kind: &str, namespace: Option<&str>) -> (r: Result<String, K8sError>)
    ensures
        match r {
            Ok(ns) => group@ == "cert-manager.io"@ && kind@ == "Certificate"@ && some_view(namespace)
                == Some(ns@) && ns@.len() > 0,
            Err(e) => if group@ != "cert-manager.io"@ || kind@ != "Certificate"@ {
                is_api_error(e, "renewal requires a cert-manager.io Certificate"@)
            } else {
                (namespace is None || some_view(namespace) == Some(Seq::<char>::empty()))
                    && is_api_error(e, "Certificate namespace is required"@)
            },
        },
{
    if !str_eq(group, "cert-manager.io") || !str_eq(kind, "Certificate") {
        return Err(api_err("renewal requires a cert-manager.io Certificate"));
    }
    match namespace {
        Some(ns) => if ns.is_empty() {
            Err(api_err("Certificate namespace is required"))
        } else {
            Ok(owned(ns))
        },
        None => Err(api_err("Certificate namespace is required")),
    }
}

} // verus!
