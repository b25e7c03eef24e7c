//! Decisions of a table informer: what a failed list or watch leads to, when
//! the retry backoff grows or resets, and how rows are identified.
use vstd::prelude::*;
use crate::json::{json_path, json_str, key_views, opt_str, Json};
use crate::text::{chars_of, extend_chars, owned, str_eq, string_of};

verus! {

/// Where the informer was when something went wrong.
#[derive(PartialEq, Eq, Structural, Clone, Copy, Debug)]
pub enum InformerPhase {
    /// Listing the collection, page by page.
    Listing,
    /// Opening a watch from the last resource version.
    Connecting,
    /// Reading events from an open watch.
    Watching,
}

/// What kind of failure a request error is.
#[derive(PartialEq, Eq, Structural, Clone, Copy, Debug)]
pub enum ErrorClass {
    /// Access is denied: it will not get better by retrying.
    Forbidden,
    /// The credentials were refused: rebuild and retry.
    Auth,
    /// The request can never succeed.
    Permanent,
    /// Anything else: retry.
    Transient,
}

/// What the informer does next.
#[derive(PartialEq, Eq, Structural, Clone, Copy, Debug)]
pub enum InformerStep {
    /// Stop, and replay the denial to every subscriber.
    Terminal,
    /// Stop, and report the error to subscribers.
    Fail,
    /// List the whole collection again, after a backoff when `backoff`.
    Relist { backoff: bool },
    /// Open the watch again from the last version, after a backoff.
    Reconnect,
}

/// The step after a failed request: a denial ends the informer for good; a
/// refused credential backs off and relists; a permanent failure is
/// reported; anything else backs off and then relists (while listing) or
/// reconnects the watch (while connecting or watching).
pub open spec fn spec_on_request_error(phase: InformerPhase, class: ErrorClass) -> InformerStep {
    match class {
        ErrorClass::Forbidden => InformerStep::Terminal,
        ErrorClass::Auth => InformerStep::Relist { backoff: true },
        ErrorClass::Permanent => InformerStep::Fail,
        ErrorClass::Transient => match phase {
            InformerPhase::Listing => InformerStep::Relist { backoff: true },
            _ => InformerStep::Reconnect,
        },
    }
}

/// The step after a failed list, watch connection or watch read.
pub fn on_request_error(phase: InformerPhase, class: ErrorClass) -> (r: InformerStep)
    ensures
        r == spec_on_request_error(phase, class),
{
    match class {
        ErrorClass::Forbidden => InformerStep::Terminal,
        ErrorClass::Auth => InformerStep::Relist { backoff: true },
        ErrorClass::Permanent => InformerStep::Fail,
        ErrorClass::Transient => match phase {
            InformerPhase::Listing => InformerStep::Relist { backoff: true },
            _ => InformerStep::Reconnect,
        },
    }
}

/// The step after an error status on the watch: `410 Gone` relists at once,
/// `401` backs off and relists, `403` ends the informer, another client error
/// is reported, and anything else reconnects.
pub open spec fn spec_on_watch_status(code: u16) -> InformerStep {
    if code == 410 {
        InformerStep::Relist { backoff: false }
    } else if code == 401 {
        InformerStep::Relist { backoff: true }
    } else if code == 403 {
        InformerStep::Terminal
    } else if 400 <= code < 500 {
        InformerStep::Fail
    } else {
        InformerStep::Reconnect
    }
}

/// The step after an error status read from the watch.
pub fn on_watch_status(code: u16) -> (r: InformerStep)
    ensures
        r == spec_on_watch_status(code),
{
    if code == 410 {
        InformerStep::Relist { backoff: false }
    } else if code == 401 {
        InformerStep::Relist { backoff: true }
    } else if code == 403 {
        InformerStep::Terminal
    } else if 400 <= code && code < 500 {
        InformerStep::Fail
    } else {
        InformerStep::Reconnect
    }
}

/// Only a denial ends an informer for good: a forbidden request, or a `403` on
/// the watch, and nothing else; an expired watch (`410`) lists again at once;
/// a transient failure never stops it but always backs off first; a status
/// outside the client errors reconnects.
pub proof fn lemma_only_denial_is_terminal(phase: InformerPhase, class: ErrorClass, code: u16)
    ensures
        (spec_on_request_error(phase, class) == InformerStep::Terminal) <==> class == ErrorClass::Forbidden,
        (spec_on_watch_status(code) == InformerStep::Terminal) <==> code == 403,
        spec_on_watch_status(410) == (InformerStep::Relist { backoff: false }),
        class == ErrorClass::Transient ==> spec_backs_off(spec_on_request_error(phase, class)),
        (code < 400 || code >= 500) ==> spec_on_watch_status(code) == InformerStep::Reconnect,
{
}

/// Whether a step waits out a backoff before going on.
pub open spec fn spec_backs_off(step: InformerStep) -> bool {
    match step {
        InformerStep::Relist { backoff } => backoff,
        InformerStep::Reconnect => true,
        _ => false,
    }
}

/// The backoff attempt after taking `step`: one more (saturating) when the
/// step backs off, unchanged otherwise.
pub fn next_attempt(attempt: u32, step: InformerStep) -> (r: u32)
    ensures
        r == if spec_backs_off(step) {
            if attempt == u32::MAX { attempt } else { (attempt + 1) as u32 }
        } else {
            attempt
        },
{
    let backs_off = match step {
        InformerStep::Relist { backoff } => backoff,
        InformerStep::Reconnect => true,
        _ => false,
    };
    if backs_off {
        attempt.saturating_add(1)
    } else {
        attempt
    }
}

/// Backing off never makes the attempt count go down, and a step without a
/// backoff leaves it alone.
pub proof fn lemma_attempts_only_grow_on_backoff(attempt: u32, step: InformerStep)
    ensures
        spec_backs_off(step) ==> (if attempt == u32::MAX { attempt } else { (attempt + 1) as u32 }) >= attempt,
{
}

/// Only pods and claims keep their full objects (for live usage and the
/// detail view); other kinds keep just their rows.
pub open spec fn spec_caches_objects(group: Seq<char>, kind: Seq<char>) -> bool {
    group.len() == 0 && (kind == "Pod"@ || kind == "PersistentVolumeClaim"@)
}

/// Whether an informer of this kind keeps full objects.
pub fn caches_objects(group: &str, kind: &str) -> (r: bool)
    ensures
        r == spec_caches_objects(group@, kind@),
{
    group.is_empty() && (str_eq(kind, "Pod") || str_eq(kind, "PersistentVolumeClaim"))
}

/// The identity of a row: its object's uid, or `namespace/name` without one.
pub open spec fn spec_row_uid(object: Json) -> Seq<char> {
    match json_str(json_path(object, seq!["metadata"@, "uid"@])) {
        Some(u) => u,
        None => {
            let ns = match json_str(json_path(object, seq!["metadata"@, "namespace"@])) {
                Some(n) => n,
                None => Seq::empty(),
            };
            let name = match json_str(json_path(object, seq!["metadata"@, "name"@])) {
                Some(n) => n,
                None => Seq::empty(),
            };
            ns + "/"@ + name
        },
    }
}

/// The identity of a row's object.
pub fn row_uid(object: &Json) -> (r: String)
    ensures
        r@ == spec_row_uid(*object),
{
    let up = ["metadata", "uid"];
    assert(key_views(up@) =~= seq!["metadata"@, "uid"@]);
    let np = ["metadata", "namespace"];
    assert(key_views(np@) =~= seq!["metadata"@, "namespace"@]);
    let mp = ["metadata", "name"];
    assert(key_views(mp@) =~= seq!["metadata"@, "name"@]);
    if let Some(u) = opt_str(object.path(&up)) {
        return owned(u);
    }
    let mut out = match opt_str(object.path(&np)) {
        Some(n) => chars_of(n),
        None => Vec::new(),
    };
    out.push('/');
    let name = match opt_str(object.path(&mp)) {
        Some(n) => chars_of(n),
        None => Vec::new(),
    };
    extend_chars(&mut out, name.as_slice());
    proof {
        reveal_strlit("/");
    }
    assert(out@ =~= spec_row_uid(*object));
    string_of(out.as_slice())
}

/// Why a listed page is unusable: the server did not answer with a `Table`.
pub open spec fn spec_table_kind_error(kind: Seq<char>) -> Option<Seq<char>> {
    if kind == "Table"@ {
        None
    } else {
        Some("expected Kubernetes Table, got "@ + kind)
    }
}

/// The error for a page that is not a `Table`, if it is not.
pub fn table_kind_error(kind: &str) -> (r: Option<String>)
    ensures
        match r {
            Some(e) => spec_table_kind_error(kind@) == Some(e@),
            None => spec_table_kind_error(kind@) is None,
        },
{
    if str_eq(kind, "Table") {
        None
    } else {
        let mut out = chars_of("expected Kubernetes Table, got ");
        let k = chars_of(kind);
        extend_chars(&mut out, k.as_slice());
        Some(string_of(out.as_slice()))
    }
}

/// What identifies an informer: the resource's catalog key, the namespace
/// it watches (none for cluster-scoped kinds or all namespaces), and its
/// label selector (none when empty).
pub struct WatchKey {
    pub resource_key: String,
    pub namespace: Option<String>,
    pub selector: Option<String>,
}

pub open spec fn opt_seq(o: Option<String>) -> Option<Seq<char>> {
    match o {
        Some(s) => Some(s@),
        None => None,
    }
}

/// The informer a subscription shares: `group/version/kind`, the namespace
/// only for a namespaced kind, and the selector only when not empty.
pub open spec fn spec_watch_key(
    group: Seq<char>,
    version: Seq<char>,
    kind: Seq<char>,
    namespaced: bool,
    namespace: Option<Seq<char>>,
    selector: Option<Seq<char>>,
) -> (Seq<char>, Option<Seq<char>>, Option<Seq<char>>) {
    (
        crate::catalog::spec_make_key(group, version, kind),
        if namespaced { namespace } else { None },
        match selector {
            Some(s) => if s.len() > 0 { Some(s) } else { None },
            None => None,
        },
    )
}

/// The key of the informer a subscription uses.
pub fn watch_key(
    group: &str,
    version: &str,
    kind: &str,
    namespaced: bool,
    namespace: Option<String>,
    selector: Option<String>,
) -> (r: WatchKey)
    ensures
        (r.resource_key@, opt_seq(r.namespace), opt_seq(r.selector)) == spec_watch_key(
            group@,
            version@,
            kind@,
            namespaced,
            opt_seq(namespace),
            opt_seq(selector),
        ),
{
    let selector = match selector {
        Some(s) => if s.as_str().is_empty() {
            None
        } else {
            Some(s)
        },
        None => None,
    };
    WatchKey {
        resource_key: crate::catalog::make_key(group, version, kind),
        namespace: if namespaced {
            namespace
        } else {
            None
        },
        selector,
    }
}

/// An informer may hold an object of `resource_key` in `namespace`: it
/// watches that resource, and a namespace-scoped informer only holds objects
/// of its own namespace.
pub open spec fn spec_may_hold(
    key: (Seq<char>, Option<Seq<char>>, Option<Seq<char>>),
    resource_key: Seq<char>,
    namespace: Option<Seq<char>>,
) -> bool {
    key.0 == resource_key && match (key.1, namespace) {
        (Some(en), Some(want)) => en == want,
        _ => true,
    }
}

/// Whether an informer may serve a cached object.
pub fn may_hold(key: &WatchKey, resource_key: &str, namespace: Option<&str>) -> (r: bool)
    ensures
        r == spec_may_hold(
            (key.resource_key@, opt_seq(key.namespace), opt_seq(key.selector)),
            resource_key@,
            match namespace {
                Some(n) => Some(n@),
                None => None,
            },
        ),
{
    if !str_eq(key.resource_key.as_str(), resource_key) {
        return false;
    }
    match (&key.namespace, namespace) {
        (Some(en), Some(want)) => str_eq(en.as_str(), want),
        _ => true,
    }
}

/// Whether any informer still has a subscriber, from each one's receiver
/// count.
pub fn any_subscribers(receiver_counts: &[usize]) -> (r: bool)
    ensures
        r == exists|i: int| 0 <= i < receiver_counts@.len() && receiver_counts@[i] > 0,
{
    let n = receiver_counts.len();
    for i in 0..n
        invariant
            n == receiver_counts@.len(),
            forall|j: int| 0 <= j < i ==> receiver_counts@[j] == 0,
    {
        if receiver_counts[i] > 0 {
            return true;
        }
    }
    false
}

} // verus!
