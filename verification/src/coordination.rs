//! Node leases: stable lease names and the liveness check on a lease holder.
use vstd::prelude::*;
use vstd::string::StringSliceAdditionalSpecFns;

use crate::json::{
    deref_opt, json_array, json_get, json_path, json_str, jv, jvm, key_views, lemma_jvm, opt_str,
    opt_str_is, str_value, Json, JsonV, MembersV,
};
use crate::text::{
    i64_to_string, owned, signed_decimal, ascii_lower, chars_eq, chars_of, extend_chars, is_ascii_alnum, is_ascii_alphanumeric,
    string_of, sub_chars, to_ascii_lowercase, first_index, find_char, trim_char, trim_start_char,
    trim_end_char,
};

verus! {

/// One roder pod, as read from the pod list.
pub struct RoderPod {
    pub name: String,
    pub uid: String,
    pub node: String,
    pub ip: String,
    pub ready: bool,
    /// SHA-256 fingerprint of the pod's self-signed mTLS certificate, once published.
    pub tls_fingerprint: Option<String>,
}

/// Annotation under which each roder pod publishes its certificate fingerprint.
pub const TLS_FINGERPRINT_ANNOTATION: &'static str = "roder.io/tls-fingerprint";

/// Seconds a node lease stays valid without renewal.
pub const LEASE_DURATION_SECS: i32 = 45;

/// The FNV-1a 64-bit offset basis and prime.
pub const FNV_OFFSET: u64 = 0xcbf29ce484222325;
pub const FNV_PRIME: u64 = 0x100000001b3;

/// FNV-1a over `bytes`, starting from `h`.
pub open spec fn fnv1a(h: u64, bytes: Seq<u8>) -> u64
    decreases bytes.len(),
{
    if bytes.len() == 0 {
        h
    } else {
        fnv1a(
            vstd::wrapping::u64_specs::wrapping_mul(h ^ (bytes[0] as u64), FNV_PRIME),
            bytes.drop_first(),
        )
    }
}

/// Lower-case hexadecimal digit for `d < 16`.
pub open spec fn hex_char(d: nat) -> char {
    if d < 10 {
        (('0' as nat) + d) as char
    } else {
        (('a' as nat) + d - 10) as char
    }
}

/// The lowest `n` hexadecimal digits of `h`, most significant first, zero-padded.
pub open spec fn hex_fixed(h: nat, n: nat) -> Seq<char>
    decreases n,
{
    if n == 0 {
        Seq::empty()
    } else {
        hex_fixed(h / 16, (n - 1) as nat).push(hex_char(h % 16))
    }
}

/// Lease-name character for a target character: ASCII letters and digits
/// lower-cased, `-` kept, anything else becomes `-`.
pub open spec fn lease_char(c: char) -> char {
    if is_ascii_alnum(c) || c == '-' {
        ascii_lower(c)
    } else {
        '-'
    }
}

/// The lease name for `target` under `scope`: `roder-node-`, the sanitized target
/// (at most 220 characters, without leading or trailing `-`), `-`, and the 16-digit
/// FNV-1a hash of `scope`, a NUL byte and `target`.
pub open spec fn spec_lease_name(scope: &str, target: &str) -> Seq<char> {
    let bytes = scope.spec_bytes() + seq![0u8] + target.spec_bytes();
    let hash = fnv1a(FNV_OFFSET, bytes);
    let mapped = target@.map_values(|c: char| lease_char(c));
    let body = trim_char(mapped.take(if mapped.len() < 220 { mapped.len() as int } else { 220 }), '-');
    "roder-node-"@ + body + seq!['-'] + hex_fixed(hash as nat, 16)
}

/// Characters that may appear in a lease name.
pub open spec fn lease_name_char(c: char) -> bool {
    ('0' <= c && c <= '9') || ('a' <= c && c <= 'z') || c == '-'
}

fn fnv1a_step(h: u64, bytes: &[u8]) -> (r: u64)
    ensures
        r == fnv1a(h, bytes@),
{
    let mut hash = h;
    let n = bytes.len();
    assert(bytes@.skip(0) == bytes@);
    for i in 0..n
        invariant
            n == bytes@.len(),
            fnv1a(hash, bytes@.skip(i as int)) == fnv1a(h, bytes@),
    {
        assert(bytes@.skip(i as int).drop_first() == bytes@.skip(i + 1));
        hash = (hash ^ (bytes[i] as u64)).wrapping_mul(FNV_PRIME);
    }
    assert(bytes@.skip(n as int) =~= Seq::<u8>::empty());
    hash
}

/// Appends the lowest `n` hexadecimal digits of `h`, zero-padded.
pub fn push_hex(out: &mut Vec<char>, h: u64, n: u32)
    ensures
        final(out)@ == old(out)@ + hex_fixed(h as nat, n as nat),
    decreases n,
{
    if n == 0 {
        assert(old(out)@ + hex_fixed(h as nat, 0) =~= old(out)@);
        return;
    }
    push_hex(out, h / 16, n - 1);
    let d = h % 16;
    let c = if d < 10 {
        (('0' as u8) + (d as u8)) as char
    } else {
        (('a' as u8) + (d as u8) - 10) as char
    };
    assert(c == hex_char(h as nat % 16));
    out.push(c);
    assert(old(out)@ + hex_fixed(h as nat, n as nat) =~= old(out)@ + hex_fixed(
        (h / 16) as nat,
        (n - 1) as nat,
    ) + seq![c]);
}

/// A stable, bounded lease name for `target` under `scope`. The hash is FNV-1a
/// rather than a std hasher so every release of roder agrees on the name.
pub fn lease_name(scope: &str, target: &str) -> (r: String)
    ensures
        r@ == spec_lease_name(scope, target),
{
    let sb = scope.as_bytes();
    let tb = target.as_bytes();
    let h1 = fnv1a_step(FNV_OFFSET, sb);
    let h2 = fnv1a_step(h1, &[0u8]);
    let h3 = fnv1a_step(h2, tb);
    assert([0u8]@ == seq![0u8]);
    proof {
        lemma_fnv1a_concat(FNV_OFFSET, sb@, seq![0u8]);
        lemma_fnv1a_concat(FNV_OFFSET, sb@ + seq![0u8], tb@);
    }
    let chars = chars_of(target);
    let mut mapped: Vec<char> = Vec::new();
    let n = if chars.len() < 220 {
        chars.len()
    } else {
        220
    };
    for i in 0..n
        invariant
            n <= chars@.len(),
            n <= 220,
            mapped@ == chars@.map_values(|c: char| lease_char(c)).take(i as int),
    {
        let c = chars[i];
        let m = if is_ascii_alphanumeric(c) || c == '-' {
            to_ascii_lowercase(c)
        } else {
            '-'
        };
        mapped.push(m);
        assert(mapped@ =~= chars@.map_values(|c: char| lease_char(c)).take(i + 1));
    }
    assert(mapped@ =~= target@.map_values(|c: char| lease_char(c)).take(n as int));
    let body = trim_dashes(&mapped);
    assert(h3 == fnv1a(FNV_OFFSET, scope.spec_bytes() + seq![0u8] + target.spec_bytes()));
    let mut out = chars_of("roder-node-");
    extend_chars(&mut out, body.as_slice());
    out.push('-');
    push_hex(&mut out, h3, 16);
    proof { reveal_strlit("roder-node-"); }
    string_of(out.as_slice())
}

proof fn lemma_fnv1a_concat(h: u64, a: Seq<u8>, b: Seq<u8>)
    ensures
        fnv1a(h, a + b) == fnv1a(fnv1a(h, a), b),
    decreases a.len(),
{
    if a.len() > 0 {
        let h2 = vstd::wrapping::u64_specs::wrapping_mul(h ^ (a[0] as u64), FNV_PRIME);
        assert((a + b).drop_first() == a.drop_first() + b);
        lemma_fnv1a_concat(h2, a.drop_first(), b);
    } else {
        assert(a + b == b);
    }
}

fn trim_dashes(s: &Vec<char>) -> (r: Vec<char>)
    ensures
        r@ == trim_char(s@, '-'),
{
    let mut start: usize = 0;
    assert(s@.skip(0) == s@);
    while start < s.len() && s[start] == '-'
        invariant
            start <= s@.len(),
            trim_start_char(s@.skip(start as int), '-') == trim_start_char(s@, '-'),
        decreases s@.len() - start,
    {
        assert(s@.skip(start as int).drop_first() == s@.skip(start + 1));
        start = start + 1;
    }
    assert(trim_start_char(s@.skip(start as int), '-') == s@.skip(start as int));
    let mut end: usize = s.len();
    while end > start && s[end - 1] == '-'
        invariant
            start <= end <= s@.len(),
            trim_end_char(s@.subrange(start as int, end as int), '-') == trim_char(s@, '-'),
        decreases end,
    {
        assert(s@.subrange(start as int, end as int).drop_last() == s@.subrange(
            start as int,
            end - 1,
        ));
        end = end - 1;
    }
    assert(s@.skip(start as int) == s@.subrange(start as int, s@.len() as int));
    let mut r: Vec<char> = Vec::new();
    for i in start..end
        invariant
            start <= end <= s@.len(),
            r@ == s@.subrange(start as int, i as int),
    {
        r.push(s[i]);
        assert(r@ =~= s@.subrange(start as int, i + 1));
    }
    r
}

/// Whether a lease holder identity (`<pod name>/<pod uid>`, split at its first
/// `/`) names a pod that is still in `pods`. A holder without `/` is never treated
/// as gone.
pub open spec fn spec_holder_pod_exists(holder: Seq<char>, pods: Seq<RoderPod>) -> bool {
    let i = first_index(holder, '/');
    if i == holder.len() {
        true
    } else {
        exists|k: int|
            0 <= k < pods.len() && pods[k].name@ == holder.take(i) && pods[k].uid@ == holder.skip(
                i + 1,
            )
    }
}

/// Whether the pod named in a lease holder identity still exists with the same uid,
/// so a lease is never taken from a live pod.
pub fn holder_pod_exists(holder: &str, pods: &[RoderPod]) -> (r: bool)
    ensures
        r == spec_holder_pod_exists(holder@, pods@),
{
    let hc = chars_of(holder);
    let i = find_char(hc.as_slice(), '/');
    if i == hc.len() {
        return true;
    }
    let name = sub_chars(hc.as_slice(), 0, i);
    let uid = sub_chars(hc.as_slice(), i + 1, hc.len());
    assert(uid@ == holder@.skip(i + 1));
    let m = pods.len();
    for k in 0..m
        invariant
            m == pods@.len(),
            first_index(holder@, '/') == i,
            i < holder@.len(),
            name@ == holder@.take(i as int),
            uid@ == holder@.skip(i + 1),
            forall|q: int|
                0 <= q < k ==> !(pods@[q].name@ == holder@.take(i as int) && pods@[q].uid@
                    == holder@.skip(i + 1)),
    {
        let pn = chars_of(pods[k].name.as_str());
        let pu = chars_of(pods[k].uid.as_str());
        if chars_eq(pn.as_slice(), name.as_slice()) && chars_eq(pu.as_slice(), uid.as_slice()) {
            assert(pods@[k as int].name@ == holder@.take(i as int) && pods@[k as int].uid@
                == holder@.skip(i + 1));
            return true;
        }
    }
    false
}


/// What is known of a lease: its holder, its transition count and its
/// resource version, each when set.
pub struct LeaseView {
    pub holder: Option<String>,
    pub transitions: Option<i32>,
    pub resource_version: Option<String>,
}

/// What to do to acquire a lease.
#[derive(PartialEq, Eq, Structural, Clone, Copy, Debug)]
pub enum AcquireAction {
    /// A live pod holds it: give up.
    Busy,
    /// There is no lease yet: create it.
    Create,
    /// Take the lease over, with its transition count set to `transitions`.
    Take { transitions: i32 },
}

pub open spec fn holder_of(lease: LeaseView) -> Option<Seq<char>> {
    match lease.holder {
        Some(h) => Some(h@),
        None => None,
    }
}

/// How to acquire a lease for `me`: create it when absent; never take it
/// from a holder whose pod is alive; otherwise take it over, counting a
/// transition when the holder changes.
pub open spec fn spec_acquire_action(lease: Option<LeaseView>, pods: Seq<RoderPod>, me: Seq<char>) -> AcquireAction {
    match lease {
        None => AcquireAction::Create,
        Some(l) => match holder_of(l) {
            Some(h) if spec_holder_pod_exists(h, pods) => AcquireAction::Busy,
            _ => {
                let base: int = match l.transitions {
                    Some(t) => t as int,
                    None => 0,
                };
                let change: int = if holder_of(l) != Some(me) { 1 } else { 0 };
                AcquireAction::Take { transitions: (base + change) as i32 }
            },
        },
    }
}

/// The transition count a lease records, 0 when it records none.
pub open spec fn recorded_transitions(lease: LeaseView) -> int {
    match lease.transitions {
        Some(t) => t as int,
        None => 0,
    }
}

/// Acquiring respects live holders: a lease whose holder is `<name>/<uid>` is
/// left alone exactly when a pod with that name and uid is alive; otherwise it
/// is taken over, its transition count raised by one when the holder is not
/// `me` and kept when it is. An absent lease is created.
pub proof fn lemma_acquire_respects_live_holder(
    lease: LeaseView,
    pods: Seq<RoderPod>,
    me: Seq<char>,
    name: Seq<char>,
    uid: Seq<char>,
)
    requires
        forall|j: int| 0 <= j < name.len() ==> name[j] != '/',
        holder_of(lease) == Some(name + seq!['/'] + uid),
    ensures
        spec_acquire_action(None, pods, me) == AcquireAction::Create,
        (exists|k: int| 0 <= k < pods.len() && #[trigger] pods[k].name@ == name && pods[k].uid@ == uid)
            <==> spec_acquire_action(Some(lease), pods, me) == AcquireAction::Busy,
        !(exists|k: int| 0 <= k < pods.len() && #[trigger] pods[k].name@ == name && pods[k].uid@ == uid)
            ==> spec_acquire_action(Some(lease), pods, me) == (AcquireAction::Take {
                transitions: (recorded_transitions(lease) + if name + seq!['/'] + uid == me { 0int } else { 1int }) as i32,
            }),
{
    let h = name + seq!['/'] + uid;
    crate::text::lemma_first_index(h, '/', name.len() as int);
    assert(h.take(name.len() as int) == name);
    assert(h.skip(name.len() as int + 1) == uid);
}

/// How to acquire a lease for `me`, given the pods that are alive.
pub fn acquire_action(lease: Option<&LeaseView>, pods: &[RoderPod], me: &str) -> (r: AcquireAction)
    requires
        match lease {
            Some(l) => (l.transitions == Some(i32::MAX) && holder_of(*l) != Some(me@)) ==> (holder_of(*l) matches Some(
                h,
            ) && spec_holder_pod_exists(h, pods@)),
            None => true,
        },
    ensures
        r == spec_acquire_action(
            match lease {
                Some(l) => Some(*l),
                None => None,
            },
            pods@,
            me@,
        ),
{
    let l = match lease {
        None => return AcquireAction::Create,
        Some(l) => l,
    };
    if let Some(h) = &l.holder {
        if holder_pod_exists(h.as_str(), pods) {
            return AcquireAction::Busy;
        }
    }
    let base: i32 = match l.transitions {
        Some(t) => t,
        None => 0,
    };
    let same = match &l.holder {
        Some(h) => crate::text::str_eq(h.as_str(), me),
        None => false,
    };
    if same {
        AcquireAction::Take { transitions: base }
    } else {
        AcquireAction::Take { transitions: base + 1 }
    }
}

/// How writing a lease went.
#[derive(PartialEq, Eq, Structural, Clone, Copy, Debug)]
pub enum LeaseWrite {
    Written,
    /// Someone else changed the lease first (409).
    Conflict,
    /// Any other failure.
    Failed,
}

/// What acquiring does after a write.
#[derive(PartialEq, Eq, Structural, Clone, Copy, Debug)]
pub enum AcquireNext {
    Held,
    /// Look at the lease again and retry.
    Retry,
    /// Give up: too many conflicts in a row.
    Busy,
    /// Report the failure.
    Fail,
}

/// Attempts at acquiring a lease before giving up.
pub const ACQUIRE_ATTEMPTS: u32 = 4;

/// What follows write number `attempt` (counting from 0): a written lease is
/// held; a conflict is retried while attempts remain and is otherwise a busy
/// lease; any other failure is reported.
pub open spec fn spec_after_write(write: LeaseWrite, attempt: u32) -> AcquireNext {
    match write {
        LeaseWrite::Written => AcquireNext::Held,
        LeaseWrite::Conflict => if attempt + 1 < ACQUIRE_ATTEMPTS {
            AcquireNext::Retry
        } else {
            AcquireNext::Busy
        },
        LeaseWrite::Failed => AcquireNext::Fail,
    }
}

/// What follows a write while acquiring.
pub fn after_write(write: LeaseWrite, attempt: u32) -> (r: AcquireNext)
    ensures
        r == spec_after_write(write, attempt),
{
    match write {
        LeaseWrite::Written => AcquireNext::Held,
        LeaseWrite::Conflict => if attempt < ACQUIRE_ATTEMPTS - 1 {
            AcquireNext::Retry
        } else {
            AcquireNext::Busy
        },
        LeaseWrite::Failed => AcquireNext::Fail,
    }
}

/// Acquiring never goes on past its attempts: from the last attempt on, a
/// write either ends in a held lease or stops.
pub proof fn lemma_acquire_is_bounded(write: LeaseWrite, attempt: u32)
    requires
        attempt + 1 >= ACQUIRE_ATTEMPTS,
    ensures
        spec_after_write(write, attempt) != AcquireNext::Retry,
{
}

/// Only the holder renews its lease, and only an existing one.
pub open spec fn spec_may_renew(lease: Option<LeaseView>, me: Seq<char>) -> bool {
    match lease {
        Some(l) => holder_of(l) == Some(me),
        None => false,
    }
}

/// Whether `me` may renew (or release) the lease.
pub fn may_renew(lease: Option<&LeaseView>, me: &str) -> (r: bool)
    ensures
        r == spec_may_renew(
            match lease {
                Some(l) => Some(*l),
                None => None,
            },
            me@,
        ),
{
    match lease {
        Some(l) => match &l.holder {
            Some(h) => crate::text::str_eq(h.as_str(), me),
            None => false,
        },
        None => false,
    }
}

/// Consecutive failed renewals after which the operation holding the lease
/// is cancelled.
pub const RENEW_FAILURE_LIMIT: u32 = 3;

/// The failure count after a renewal, and whether the holder must now be
/// cancelled: a success resets the count; a failure adds one (saturating),
/// and from the third in a row on, cancels.
pub fn after_renewal(renewed: bool, failures: u32) -> (r: (u32, bool))
    ensures
        renewed ==> r == (0u32, false),
        !renewed ==> r.0 == (if failures == u32::MAX { failures } else { (failures + 1) as u32 })
            && r.1 == (r.0 >= RENEW_FAILURE_LIMIT),
{
    if renewed {
        (0, false)
    } else {
        let f = failures.saturating_add(1);
        (f, f >= RENEW_FAILURE_LIMIT)
    }
}


/// A string or, without one, `null`.
pub open spec fn str_or_null(s: Option<Seq<char>>) -> JsonV {
    match s {
        Some(v) => JsonV::Str(v),
        None => JsonV::Null,
    }
}

pub open spec fn opt_string_view(s: Option<String>) -> Option<Seq<char>> {
    match s {
        Some(v) => Some(v@),
        None => None,
    }
}

fn str_or_null_value(s: &Option<String>) -> (r: Json)
    ensures
        jv(r) == str_or_null(opt_string_view(*s)),
{
    match s {
        Some(v) => str_value(v.as_str()),
        None => Json::Null,
    }
}

/// An integer value.
fn int_value(n: i32) -> (r: Json)
    ensures
        jv(r) == JsonV::Number(signed_decimal(n as int), Some(n as i64)),
{
    Json::Number(i64_to_string(n as i64), Some(n as i64))
}

/// The lease spec a holder writes when it takes a lease at `now`.
pub open spec fn taken_spec(holder: Seq<char>, now: Seq<char>, transitions: i32) -> MembersV {
    seq![
        ("acquireTime"@, JsonV::Str(now)),
        ("holderIdentity"@, JsonV::Str(holder)),
        ("leaseDurationSeconds"@, JsonV::Number(signed_decimal(LEASE_DURATION_SECS as int), Some(LEASE_DURATION_SECS as i64))),
        ("leaseTransitions"@, JsonV::Number(signed_decimal(transitions as int), Some(transitions as i64))),
        ("renewTime"@, JsonV::Str(now)),
    ]
}

fn taken_spec_members(holder: &str, now: &str, transitions: i32) -> (r: Vec<(String, Json)>)
    ensures
        jvm(r@) == taken_spec(holder@, now@, transitions),
{
    let spec = vec![
        (owned("acquireTime"), str_value(now)),
        (owned("holderIdentity"), str_value(holder)),
        (owned("leaseDurationSeconds"), int_value(LEASE_DURATION_SECS)),
        (owned("leaseTransitions"), int_value(transitions)),
        (owned("renewTime"), str_value(now)),
    ];
    proof {
        lemma_jvm(spec@);
        assert(jvm(spec@) =~= taken_spec(holder@, now@, transitions));
    }
    spec
}

/// A new lease on `target` named `name`, held by `holder` from `now`.
pub open spec fn spec_new_lease(name: Seq<char>, target: Seq<char>, holder: Seq<char>, now: Seq<char>) -> JsonV {
    JsonV::Object(
        seq![
            ("apiVersion"@, JsonV::Str("coordination.k8s.io/v1"@)),
            ("kind"@, JsonV::Str("Lease"@)),
            (
                "metadata"@,
                JsonV::Object(
                    seq![
                        ("annotations"@, JsonV::Object(seq![("roder.io/target-node"@, JsonV::Str(target))])),
                        ("name"@, JsonV::Str(name)),
                    ],
                ),
            ),
            ("spec"@, JsonV::Object(taken_spec(holder, now, 0))),
        ],
    )
}

/// A new lease on `target`, held by `holder` from `now`.
pub fn new_lease(name: &str, target: &str, holder: &str, now: &str) -> (r: Json)
    ensures
        jv(r) == spec_new_lease(name@, target@, holder@, now@),
{
    let annotations = vec![(owned("roder.io/target-node"), str_value(target))];
    proof {
        lemma_jvm(annotations@);
    }
    let ghost av = jvm(annotations@);
    let metadata = vec![(owned("annotations"), Json::Object(annotations)), (owned("name"), str_value(name))];
    proof {
        lemma_jvm(metadata@);
    }
    let ghost mv = jvm(metadata@);
    let spec = taken_spec_members(holder, now, 0);
    let ghost sv = jvm(spec@);
    let lease = vec![
        (owned("apiVersion"), str_value("coordination.k8s.io/v1")),
        (owned("kind"), str_value("Lease")),
        (owned("metadata"), Json::Object(metadata)),
        (owned("spec"), Json::Object(spec)),
    ];
    proof {
        lemma_jvm(lease@);
        assert(av =~= seq![("roder.io/target-node"@, JsonV::Str(target@))]);
        assert(mv =~= seq![("annotations"@, JsonV::Object(av)), ("name"@, JsonV::Str(name@))]);
        assert(jvm(lease@) =~= spec_new_lease(name@, target@, holder@, now@)->Object_0);
    }
    Json::Object(lease)
}

/// A merge patch guarded by the lease's resource version.
pub open spec fn guarded_patch(resource_version: Option<Seq<char>>, spec: MembersV) -> JsonV {
    JsonV::Object(
        seq![
            ("metadata"@, JsonV::Object(seq![("resourceVersion"@, str_or_null(resource_version))])),
            ("spec"@, JsonV::Object(spec)),
        ],
    )
}

fn guarded_patch_value(resource_version: &Option<String>, spec: Vec<(String, Json)>) -> (r: Json)
    ensures
        jv(r) == guarded_patch(opt_string_view(*resource_version), jvm(spec@)),
{
    let ghost sv = jvm(spec@);
    let metadata = vec![(owned("resourceVersion"), str_or_null_value(resource_version))];
    proof {
        lemma_jvm(metadata@);
    }
    let ghost mv = jvm(metadata@);
    let patch = vec![(owned("metadata"), Json::Object(metadata)), (owned("spec"), Json::Object(spec))];
    proof {
        lemma_jvm(patch@);
        assert(mv =~= seq![("resourceVersion"@, str_or_null(opt_string_view(*resource_version)))]);
        assert(jvm(patch@) =~= guarded_patch(opt_string_view(*resource_version), sv)->Object_0);
    }
    Json::Object(patch)
}

/// The patch that takes over a lease for `holder` at `now`.
pub fn take_patch(lease: &LeaseView, holder: &str, now: &str, transitions: i32) -> (r: Json)
    ensures
        jv(r) == guarded_patch(opt_string_view(lease.resource_version), taken_spec(holder@, now@, transitions)),
{
    let spec = taken_spec_members(holder, now, transitions);
    guarded_patch_value(&lease.resource_version, spec)
}

/// The patch that renews a lease at `now`.
pub fn renew_patch(lease: &LeaseView, now: &str) -> (r: Json)
    ensures
        jv(r) == guarded_patch(opt_string_view(lease.resource_version), seq![("renewTime"@, JsonV::Str(now@))]),
{
    let spec = vec![(owned("renewTime"), str_value(now))];
    proof {
        lemma_jvm(spec@);
        assert(jvm(spec@) =~= seq![("renewTime"@, JsonV::Str(now@))]);
    }
    guarded_patch_value(&lease.resource_version, spec)
}

/// The patch that gives a lease up.
pub fn release_patch(lease: &LeaseView) -> (r: Json)
    ensures
        jv(r) == guarded_patch(opt_string_view(lease.resource_version), seq![("holderIdentity"@, JsonV::Null)]),
{
    let spec = vec![(owned("holderIdentity"), Json::Null)];
    proof {
        lemma_jvm(spec@);
        assert(jvm(spec@) =~= seq![("holderIdentity"@, JsonV::Null)]);
    }
    guarded_patch_value(&lease.resource_version, spec)
}


/// A value that is there and not `null`.
pub open spec fn present(j: Option<Json>) -> bool {
    match j {
        Some(Json::Null) => false,
        Some(_) => true,
        None => false,
    }
}

/// A pod condition that says the pod is ready.
pub open spec fn ready_condition(c: Json) -> bool {
    json_str(json_get(c, "type"@)) == Some("Ready"@) && json_str(json_get(c, "status"@)) == Some("True"@)
}

/// A roder pod is ready when it is not being deleted, is running, and has a
/// `Ready` condition that is `True`.
pub open spec fn pod_ready(pod: Json) -> bool {
    &&& !present(json_path(pod, seq!["metadata"@, "deletionTimestamp"@]))
    &&& json_str(json_path(pod, seq!["status"@, "phase"@])) == Some("Running"@)
    &&& match json_array(json_path(pod, seq!["status"@, "conditions"@])) {
        Some(cs) => exists|i: int| 0 <= i < cs.len() && #[trigger] ready_condition(cs[i]),
        None => false,
    }
}

/// A roder pod as plain values: name, uid, node, IP, readiness, certificate fingerprint.
pub type PodView = (Seq<char>, Seq<char>, Seq<char>, Seq<char>, bool, Option<Seq<char>>);

pub open spec fn pod_view(p: RoderPod) -> PodView {
    (p.name@, p.uid@, p.node@, p.ip@, p.ready, opt_string_view(p.tls_fingerprint))
}

/// The roder pod a listed pod is, when it has a status, a name, a uid, a node
/// and an IP.
pub open spec fn spec_roder_pod(pod: Json) -> Option<PodView> {
    if !present(json_get(pod, "status"@)) {
        None
    } else {
        match (
            json_str(json_path(pod, seq!["metadata"@, "name"@])),
            json_str(json_path(pod, seq!["metadata"@, "uid"@])),
            json_str(json_path(pod, seq!["spec"@, "nodeName"@])),
            json_str(json_path(pod, seq!["status"@, "podIP"@])),
        ) {
            (Some(name), Some(uid), Some(node), Some(ip)) => Some(
                (
                    name,
                    uid,
                    node,
                    ip,
                    pod_ready(pod),
                    json_str(json_path(pod, seq!["metadata"@, "annotations"@, "roder.io/tls-fingerprint"@])),
                ),
            ),
            _ => None,
        }
    }
}

fn is_present(j: Option<&Json>) -> (r: bool)
    ensures
        r == present(deref_opt(j)),
{
    match j {
        Some(Json::Null) => false,
        Some(_) => true,
        None => false,
    }
}

/// Whether a listed pod is ready.
fn ready(pod: &Json) -> (r: bool)
    ensures
        r == pod_ready(*pod),
{
    let dp = ["metadata", "deletionTimestamp"];
    assert(key_views(dp@) =~= seq!["metadata"@, "deletionTimestamp"@]);
    let pp = ["status", "phase"];
    assert(key_views(pp@) =~= seq!["status"@, "phase"@]);
    let cp = ["status", "conditions"];
    assert(key_views(cp@) =~= seq!["status"@, "conditions"@]);
    if is_present(pod.path(&dp)) || !opt_str_is(pod.path(&pp), "Running") {
        return false;
    }
    let conditions = match pod.path(&cp) {
        Some(Json::Array(cs)) => cs,
        _ => return false,
    };
    let n = conditions.len();
    for i in 0..n
        invariant
            n == conditions@.len(),
            !present(json_path(*pod, seq!["metadata"@, "deletionTimestamp"@])),
            json_str(json_path(*pod, seq!["status"@, "phase"@])) == Some("Running"@),
            json_array(json_path(*pod, seq!["status"@, "conditions"@])) == Some(conditions@),
            forall|k: int| 0 <= k < i ==> !#[trigger] ready_condition(conditions@[k]),
    {
        let c = &conditions[i];
        if opt_str_is(c.get("type"), "Ready") && opt_str_is(c.get("status"), "True") {
            assert(ready_condition(conditions@[i as int]));
            let ghost cs = json_array(json_path(*pod, seq!["status"@, "conditions"@]))->Some_0;
            assert(cs == conditions@);
            assert(ready_condition(cs[i as int]));
            assert(exists|k: int| 0 <= k < cs.len() && #[trigger] ready_condition(cs[k]));
            return true;
        }
    }
    false
}

pub open spec fn opt_pod_view(p: Option<RoderPod>) -> Option<PodView> {
    match p {
        Some(v) => Some(pod_view(v)),
        None => None,
    }
}

/// The roder pod a listed pod is, if it is complete enough to be one.
pub fn roder_pod(pod: &Json) -> (r: Option<RoderPod>)
    ensures
        opt_pod_view(r) == spec_roder_pod(*pod),
{
    let np = ["metadata", "name"];
    assert(key_views(np@) =~= seq!["metadata"@, "name"@]);
    let up = ["metadata", "uid"];
    assert(key_views(up@) =~= seq!["metadata"@, "uid"@]);
    let sp = ["spec", "nodeName"];
    assert(key_views(sp@) =~= seq!["spec"@, "nodeName"@]);
    let ip = ["status", "podIP"];
    assert(key_views(ip@) =~= seq!["status"@, "podIP"@]);
    let tp = ["metadata", "annotations", "roder.io/tls-fingerprint"];
    assert(key_views(tp@) =~= seq!["metadata"@, "annotations"@, "roder.io/tls-fingerprint"@]);
    if !is_present(pod.get("status")) {
        return None;
    }
    let name = match opt_str(pod.path(&np)) {
        Some(v) => v,
        None => return None,
    };
    let uid = match opt_str(pod.path(&up)) {
        Some(v) => v,
        None => return None,
    };
    let node = match opt_str(pod.path(&sp)) {
        Some(v) => v,
        None => return None,
    };
    let address = match opt_str(pod.path(&ip)) {
        Some(v) => v,
        None => return None,
    };
    let tls_fingerprint = match opt_str(pod.path(&tp)) {
        Some(v) => Some(owned(v)),
        None => None,
    };
    Some(RoderPod {
        name: owned(name),
        uid: owned(uid),
        node: owned(node),
        ip: owned(address),
        ready: ready(pod),
        tls_fingerprint,
    })
}

pub open spec fn pod_views(v: Seq<RoderPod>) -> Seq<PodView> {
    v.map_values(|p: RoderPod| pod_view(p))
}

/// The roder pods among listed pods, in order.
pub open spec fn spec_roder_pods(pods: Seq<Json>) -> Seq<PodView>
    decreases pods.len(),
{
    if pods.len() == 0 {
        Seq::empty()
    } else {
        let prev = spec_roder_pods(pods.drop_last());
        match spec_roder_pod(pods.last()) {
            Some(p) => prev.push(p),
            None => prev,
        }
    }
}

/// The roder pods among listed pods.
pub fn roder_pods(pods: &[Json]) -> (r: Vec<RoderPod>)
    ensures
        pod_views(r@) == spec_roder_pods(pods@),
{
    let mut out: Vec<RoderPod> = Vec::new();
    let n = pods.len();
    for i in 0..n
        invariant
            n == pods@.len(),
            pod_views(out@) == spec_roder_pods(pods@.take(i as int)),
    {
        assert(pods@.take(i + 1).drop_last() == pods@.take(i as int));
        assert(pods@.take(i + 1).last() == pods@[i as int]);
        if let Some(p) = roder_pod(&pods[i]) {
            let ghost before = out@;
            let ghost pv = pod_view(p);
            out.push(p);
            assert(pod_views(out@) =~= pod_views(before).push(pv));
        }
    }
    assert(pods@.take(n as int) == pods@);
    out
}

/// The current time as Kubernetes `MicroTime` text: `time::OffsetDateTime::now_utc`
/// formatted as RFC 3339, read as a `k8s_openapi` `MicroTime` and written back
/// as JSON (the RFC 3339 text itself if either step fails). Nothing is claimed
/// of the text: it is the clock's.
#[verifier::external_body]
fn now_microtime() -> (r: String) {
    let text = time::OffsetDateTime::now_utc().format(&time::format_description::well_known::Rfc3339).unwrap_or_default();
    match serde_json::from_value::<k8s_openapi::apimachinery::pkg::apis::meta::v1::MicroTime>(serde_json::Value::String(text.clone())) {
        Ok(t) => match serde_json::to_value(t) {
            Ok(serde_json::Value::String(s)) => s,
            _ => text,
        },
        Err(_) => text,
    }
}

/// A new lease on `target`, held by `holder` from now: the lease `new_lease`
/// builds for the clock's current time.
pub fn new_lease_now(name: &str, target: &str, holder: &str) -> (r: Json)
    ensures
        exists|now: Seq<char>| jv(r) == #[trigger] spec_new_lease(name@, target@, holder@, now),
{
    let now = now_microtime();
    let r = new_lease(name, target, holder, now.as_str());
    assert(jv(r) == spec_new_lease(name@, target@, holder@, now@));
    r
}

/// The patch that takes over a lease for `holder` now.
pub fn take_patch_now(lease: &LeaseView, holder: &str, transitions: i32) -> (r: Json)
    ensures
        exists|now: Seq<char>|
            jv(r) == guarded_patch(opt_string_view(lease.resource_version), #[trigger] taken_spec(holder@, now, transitions)),
{
    let now = now_microtime();
    let r = take_patch(lease, holder, now.as_str(), transitions);
    assert(jv(r) == guarded_patch(opt_string_view(lease.resource_version), taken_spec(holder@, now@, transitions)));
    r
}

/// The renewal time of a lease renewed at `now`.
pub open spec fn renewed_at(now: Seq<char>) -> MembersV {
    seq![("renewTime"@, JsonV::Str(now))]
}

/// The patch that renews a lease now.
pub fn renew_patch_now(lease: &LeaseView) -> (r: Json)
    ensures
        exists|now: Seq<char>| jv(r) == guarded_patch(opt_string_view(lease.resource_version), #[trigger] renewed_at(now)),
{
    let now = now_microtime();
    let r = renew_patch(lease, now.as_str());
    assert(jv(r) == guarded_patch(opt_string_view(lease.resource_version), renewed_at(now@)));
    r
}

} // verus!
