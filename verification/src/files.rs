//! Path normalization for the container file browser.
use vstd::prelude::*;

use crate::error::{api_err, is_api_error, K8sError};
use crate::text::{
    chars_of, copy_chars, extend_chars, owned, split, split_chars, split_state, str_eq, string_of,
    trim_chars, trim_ws, views,
};
use crate::tree::opt_view;

verus! {

/// The longest path, in UTF-8 bytes, that the file browser accepts.
pub const MAX_PATH_BYTES: usize = 4096;

/// Resolves `.`/`..` and empty segments, left to right; `..` at the root stays at the root.
pub open spec fn resolve_segments(segs: Seq<Seq<char>>) -> Seq<Seq<char>>
    decreases segs.len(),
{
    if segs.len() == 0 {
        Seq::empty()
    } else {
        let prev = resolve_segments(segs.drop_last());
        let seg = segs.last();
        if seg.len() == 0 || seg == seq!['.'] {
            prev
        } else if seg == seq!['.', '.'] {
            if prev.len() > 0 {
                prev.drop_last()
            } else {
                prev
            }
        } else {
            prev.push(seg)
        }
    }
}

/// `/p1/p2/.../pn` for the given parts (empty for no parts).
pub open spec fn rooted(parts: Seq<Seq<char>>) -> Seq<char>
    decreases parts.len(),
{
    if parts.len() == 0 {
        Seq::empty()
    } else {
        rooted(parts.drop_last()) + seq!['/'] + parts.last()
    }
}

/// The normalized form of an absolute path: `/` alone, or `/` followed by its
/// resolved segments joined with `/`.
pub open spec fn normalized(path: Seq<char>) -> Seq<char> {
    let parts = resolve_segments(split(path, '/'));
    if parts.len() == 0 {
        seq!['/']
    } else {
        rooted(parts)
    }
}

/// The paths the file browser accepts: absolute, free of NUL, at most 4096 bytes.
pub open spec fn acceptable_path(path: &str) -> bool {
    &&& path@.len() > 0
    &&& path@[0] == '/'
    &&& !path@.contains('\0')
    &&& path.len() <= MAX_PATH_BYTES
}

/// Error message for a rejected path.
pub open spec fn bad_path_message() -> Seq<char> {
    "path must be an absolute path up to 4096 bytes"@
}

/// Error message for a mutation of `/`.
pub open spec fn root_mutation_message() -> Seq<char> {
    "the container root cannot be modified"@
}

/// Normalizes an absolute container path: empty and `.` segments are dropped and
/// `..` removes the previous segment (never climbing above `/`).
pub fn normalize_file_path(path: &str) -> (r: Result<String, K8sError>)
    ensures
        match r {
            Ok(p) => acceptable_path(path) && p@ == normalized(path@),
            Err(e) => !acceptable_path(path) && is_api_error(e, bad_path_message()),
        },
{
    let chars = chars_of(path);
    let mut has_nul = false;
    let n = chars.len();
    for i in 0..n
        invariant
            n == chars@.len(),
            has_nul == exists|j: int| 0 <= j < i && chars@[j] == '\0',
    {
        if chars[i] == '\0' {
            has_nul = true;
        }
    }
    if n == 0 || chars[0] != '/' || has_nul || path.len() > MAX_PATH_BYTES {
        proof {
            if n > 0 && chars@[0] == '/' && has_nul {
                let j = choose|j: int| 0 <= j < n && chars@[j] == '\0';
                assert(path@.contains('\0'));
            }
        }
        return Err(api_err("path must be an absolute path up to 4096 bytes"));
    }
    assert(!path@.contains('\0'));
    let segs = split_chars(chars.as_slice(), '/');
    let mut parts: Vec<Vec<char>> = Vec::new();
    let m = segs.len();
    for k in 0..m
        invariant
            m == segs@.len(),
            views(parts@) == resolve_segments(views(segs@).take(k as int)),
    {
        let ghost before = parts@;
        assert(views(segs@).take(k + 1).drop_last() == views(segs@).take(k as int));
        let seg = &segs[k];
        let is_dot = seg.len() == 1 && seg[0] == '.';
        let is_dot_dot = seg.len() == 2 && seg[0] == '.' && seg[1] == '.';
        proof {
            assert(is_dot == (seg@ == seq!['.'])) by {
                if seg@ == seq!['.'] {
                    assert(seg@.len() == 1);
                }
                if is_dot {
                    assert(seg@ =~= seq!['.']);
                }
            }
            assert(is_dot_dot == (seg@ == seq!['.', '.'])) by {
                if seg@ == seq!['.', '.'] {
                    assert(seg@.len() == 2);
                }
                if is_dot_dot {
                    assert(seg@ =~= seq!['.', '.']);
                }
            }
        }
        if seg.len() == 0 || is_dot {
        } else if is_dot_dot {
            if parts.len() > 0 {
                parts.pop();
                assert(views(parts@) =~= views(before).drop_last());
            }
        } else {
            let piece = copy_chars(seg.as_slice());
            parts.push(piece);
            assert(views(parts@) =~= views(before).push(seg@));
        }
    }
    assert(views(segs@).take(m as int) == views(segs@));
    let mut out: Vec<char> = Vec::new();
    let p = parts.len();
    for k in 0..p
        invariant
            p == parts@.len(),
            out@ == rooted(views(parts@).take(k as int)),
    {
        assert(views(parts@).take(k + 1).drop_last() == views(parts@).take(k as int));
        out.push('/');
        extend_chars(&mut out, parts[k].as_slice());
    }
    assert(views(parts@).take(p as int) == views(parts@));
    if p == 0 {
        out.push('/');
        assert(out@ =~= seq!['/']);
    }
    Ok(string_of(out.as_slice()))
}

/// Like [`normalize_file_path`], but also refuses the container root, which
/// create, write, upload and delete must never touch.
pub fn normalize_mutation_path(path: &str) -> (r: Result<String, K8sError>)
    ensures
        match r {
            Ok(p) => acceptable_path(path) && p@ == normalized(path@) && p@ != seq!['/'],
            Err(e) => (!acceptable_path(path) && is_api_error(e, bad_path_message())) || (
            acceptable_path(path) && normalized(path@) == seq!['/'] && is_api_error(
                e,
                root_mutation_message(),
            )),
        },
{
    let p = normalize_file_path(path)?;
    if str_eq(p.as_str(), "/") {
        proof {
            reveal_strlit("/");
        }
        return Err(api_err("the container root cannot be modified"));
    }
    proof {
        reveal_strlit("/");
        assert("/"@ =~= seq!['/']);
    }
    Ok(p)
}

/// A segment a normalized path can hold: not empty, not `.` or `..`, and
/// free of `/`.
pub open spec fn good_segment(seg: Seq<char>) -> bool {
    &&& seg.len() > 0
    &&& seg != seq!['.']
    &&& seg != seq!['.', '.']
    &&& !seg.contains('/')
}

/// The shape of a normalized path: `/` alone, or `/` followed by good
/// segments joined with `/`.
pub open spec fn normal_form(p: Seq<char>) -> bool {
    p == seq!['/'] || exists|parts: Seq<Seq<char>>|
        parts.len() > 0 && (forall|i: int| 0 <= i < parts.len() ==> #[trigger] good_segment(parts[i])) && p
            == rooted(parts)
}

/// Characters taken by a list of segments, each with the `/` before it.
pub open spec fn total(parts: Seq<Seq<char>>) -> int
    decreases parts.len(),
{
    if parts.len() == 0 {
        0
    } else {
        total(parts.drop_last()) + parts.last().len() + 1
    }
}

proof fn lemma_split_state_shape(s: Seq<char>, sep: char)
    ensures
        total(split_state(s, sep).0) + split_state(s, sep).1.len() == s.len(),
        forall|i: int| 0 <= i < split_state(s, sep).0.len() ==> !(#[trigger] split_state(s, sep).0[i]).contains(sep),
        !split_state(s, sep).1.contains(sep),
        !s.contains('\0') ==> (forall|i: int| 0 <= i < split_state(s, sep).0.len() ==> !(#[trigger] split_state(s, sep).0[i]).contains('\0')),
        !s.contains('\0') ==> !split_state(s, sep).1.contains('\0'),
        s.len() > 0 && s[0] == sep ==> split_state(s, sep).0.len() > 0 && split_state(s, sep).0[0].len() == 0,
    decreases s.len(),
{
    if s.len() > 0 {
        let p = s.drop_last();
        lemma_split_state_shape(p, sep);
        let prev = split_state(p, sep);
        if !s.contains('\0') {
            assert(!p.contains('\0')) by {
                if p.contains('\0') {
                    let k = choose|k: int| 0 <= k < p.len() && p[k] == '\0';
                    assert(s[k] == '\0');
                }
            }
            assert(s.last() != '\0') by {
                assert(s[s.len() - 1] == s.last());
            }
        }
        if s.last() == sep {
            let a = prev.0.push(prev.1);
            assert(a.drop_last() =~= prev.0);
        } else {
            let c = prev.1.push(s.last());
            assert forall|x: char| c.contains(x) implies (x == s.last() || prev.1.contains(x)) by {
                let k = choose|k: int| 0 <= k < c.len() && c[k] == x;
                if k < prev.1.len() {
                    assert(prev.1[k] == x);
                }
            }
        }
        if s.len() > 1 && s[0] == sep {
            assert(p[0] == sep);
        }
    }
}

/// The pieces of a path, all together, take its length plus one.
proof fn lemma_split_total(s: Seq<char>, sep: char)
    ensures
        total(split(s, sep)) == s.len() + 1,
{
    lemma_split_state_shape(s, sep);
    let st = split_state(s, sep);
    assert(split(s, sep).drop_last() =~= st.0);
}

/// Appending text without separators extends the piece in progress.
proof fn lemma_split_state_append(s: Seq<char>, t: Seq<char>, sep: char)
    requires
        !t.contains(sep),
    ensures
        split_state(s + t, sep) == (split_state(s, sep).0, split_state(s, sep).1 + t),
    decreases t.len(),
{
    if t.len() == 0 {
        assert(s + t =~= s);
        assert(split_state(s, sep).1 + t =~= split_state(s, sep).1);
    } else {
        let t2 = t.drop_last();
        assert(!t2.contains(sep)) by {
            if t2.contains(sep) {
                let k = choose|k: int| 0 <= k < t2.len() && t2[k] == sep;
                assert(t[k] == sep);
            }
        }
        lemma_split_state_append(s, t2, sep);
        assert((s + t).drop_last() =~= s + t2);
        assert((s + t).last() == t.last());
        assert(t.last() != sep) by {
            assert(t[t.len() - 1] == t.last());
        }
        assert(split_state(s, sep).1 + t =~= (split_state(s, sep).1 + t2).push(t.last()));
    }
}

/// Splitting `/p1/.../pn` at `/` gives an empty piece and then the parts.
proof fn lemma_split_rooted(parts: Seq<Seq<char>>)
    requires
        parts.len() > 0,
        forall|i: int| 0 <= i < parts.len() ==> !(#[trigger] parts[i]).contains('/'),
    ensures
        split(rooted(parts), '/') == seq![Seq::<char>::empty()] + parts,
    decreases parts.len(),
{
    let q = parts.drop_last();
    let r = rooted(q);
    let last = parts.last();
    assert(!last.contains('/')) by {
        assert(parts[parts.len() - 1] == last);
    }
    let rs = r + seq!['/'];
    assert(rs.drop_last() =~= r);
    assert(rs.last() == '/');
    assert(rooted(parts) == rs + last);
    lemma_split_state_append(rs, last, '/');
    if q.len() == 0 {
        assert(r =~= Seq::<char>::empty());
        assert(split_state(r, '/') == (Seq::<Seq<char>>::empty(), Seq::<char>::empty()));
        assert(split(rooted(parts), '/') =~= seq![Seq::<char>::empty()] + parts);
    } else {
        assert forall|i: int| 0 <= i < q.len() implies !(#[trigger] q[i]).contains('/') by {
            assert(q[i] == parts[i]);
        }
        lemma_split_rooted(q);
        let st = split_state(r, '/');
        assert(split(r, '/') == st.0.push(st.1));
        assert(st.0.push(st.1) =~= seq![Seq::<char>::empty()] + q);
        assert(split(rooted(parts), '/') =~= (seq![Seq::<char>::empty()] + q).push(last));
        assert((seq![Seq::<char>::empty()] + q).push(last) =~= seq![Seq::<char>::empty()] + parts);
    }
}

/// What resolving segments gives is good segments, taking at most the room
/// the segments took, less the leading empty one.
proof fn lemma_resolve_good(segs: Seq<Seq<char>>)
    requires
        forall|i: int| 0 <= i < segs.len() ==> !(#[trigger] segs[i]).contains('/'),
    ensures
        forall|i: int| 0 <= i < resolve_segments(segs).len() ==> #[trigger] good_segment(resolve_segments(segs)[i]),
        (forall|i: int| 0 <= i < segs.len() ==> !(#[trigger] segs[i]).contains('\0')) ==> (forall|i: int|
            0 <= i < resolve_segments(segs).len() ==> !(#[trigger] resolve_segments(segs)[i]).contains('\0')),
        segs.len() > 0 && segs[0].len() == 0 ==> total(resolve_segments(segs)) + 1 <= total(segs),
        total(resolve_segments(segs)) <= total(segs),
    decreases segs.len(),
{
    if segs.len() > 0 {
        let p = segs.drop_last();
        assert forall|i: int| 0 <= i < p.len() implies !(#[trigger] p[i]).contains('/') by {
            assert(p[i] == segs[i]);
        }
        if forall|i: int| 0 <= i < segs.len() ==> !(#[trigger] segs[i]).contains('\0') {
            assert forall|i: int| 0 <= i < p.len() implies !(#[trigger] p[i]).contains('\0') by {
                assert(p[i] == segs[i]);
            }
        }
        lemma_resolve_good(p);
        let prev = resolve_segments(p);
        let seg = segs.last();
        assert(seg == segs[segs.len() - 1]);
        if seg.len() == 0 || seg == seq!['.'] {
        } else if seg == seq!['.', '.'] {
            if prev.len() > 0 {
                assert(total(prev) == total(prev.drop_last()) + prev.last().len() + 1);
            }
        } else {
            assert(prev.push(seg).drop_last() =~= prev);
        }
        if segs.len() > 1 && segs[0].len() == 0 {
            assert(p[0] == segs[0]);
        }
    }
}

/// Resolving an empty piece followed by good segments gives the segments.
proof fn lemma_resolve_rooted(parts: Seq<Seq<char>>)
    requires
        forall|i: int| 0 <= i < parts.len() ==> #[trigger] good_segment(parts[i]),
    ensures
        resolve_segments(seq![Seq::<char>::empty()] + parts) == parts,
    decreases parts.len(),
{
    let e = seq![Seq::<char>::empty()];
    if parts.len() == 0 {
        assert(e + parts =~= e);
        assert(e.drop_last() =~= Seq::<Seq<char>>::empty());
        assert(e.last() == Seq::<char>::empty());
        assert(resolve_segments(Seq::<Seq<char>>::empty()) == Seq::<Seq<char>>::empty());
        assert(resolve_segments(e) == resolve_segments(e.drop_last()));
        assert(parts =~= Seq::<Seq<char>>::empty());
    } else {
        let q = parts.drop_last();
        assert forall|i: int| 0 <= i < q.len() implies #[trigger] good_segment(q[i]) by {
            assert(q[i] == parts[i]);
        }
        lemma_resolve_rooted(q);
        assert((e + parts).drop_last() =~= e + q);
        let seg = (e + parts).last();
        assert(seg == parts[parts.len() - 1]);
        assert(good_segment(seg));
        assert(resolve_segments(e + parts) == resolve_segments(e + q).push(seg));
        assert(q.push(parts.last()) =~= parts);
    }
}

proof fn lemma_rooted_len(parts: Seq<Seq<char>>)
    ensures
        rooted(parts).len() == total(parts),
        parts.len() > 0 ==> rooted(parts).len() > 0 && rooted(parts)[0] == '/',
        (forall|i: int| 0 <= i < parts.len() ==> !(#[trigger] parts[i]).contains('\0')) ==> !rooted(parts).contains('\0'),
    decreases parts.len(),
{
    if parts.len() > 0 {
        let q = parts.drop_last();
        lemma_rooted_len(q);
        if forall|i: int| 0 <= i < parts.len() ==> !(#[trigger] parts[i]).contains('\0') {
            assert forall|i: int| 0 <= i < q.len() implies !(#[trigger] q[i]).contains('\0') by {
                assert(q[i] == parts[i]);
            }
            assert(!parts[parts.len() - 1].contains('\0'));
            let r = rooted(parts);
            assert(r == rooted(q) + seq!['/'] + parts.last());
            assert(!r.contains('\0')) by {
                if r.contains('\0') {
                    let k = choose|k: int| 0 <= k < r.len() && r[k] == '\0';
                    if k < rooted(q).len() {
                        assert(rooted(q)[k] == '\0');
                    } else if k > rooted(q).len() {
                        assert(parts.last()[k - rooted(q).len() - 1] == '\0');
                    }
                }
            }
        }
        if q.len() > 0 {
            assert(rooted(parts)[0] == rooted(q)[0]);
        }
    }
}

/// A normalized path is `/` or `/` followed by good segments (none empty,
/// `.` or `..`), is no longer than the path it came from, holds no NUL when
/// the path held none, and normalizing it again gives it back.
pub proof fn lemma_normalized_is_normal(path: Seq<char>)
    requires
        path.len() > 0,
        path[0] == '/',
    ensures
        normal_form(normalized(path)),
        normalized(path).len() <= path.len(),
        normalized(path)[0] == '/',
        !path.contains('\0') ==> !normalized(path).contains('\0'),
        normalized(normalized(path)) == normalized(path),
{
    let segs = split(path, '/');
    lemma_split_state_shape(path, '/');
    lemma_split_total(path, '/');
    let st = split_state(path, '/');
    assert forall|i: int| 0 <= i < segs.len() implies !(#[trigger] segs[i]).contains('/') && (!path.contains('\0') ==> !segs[i].contains('\0')) by {
        if i < st.0.len() {
            assert(segs[i] == st.0[i]);
        } else {
            assert(segs[i] == st.1);
        }
    }
    assert(segs[0].len() == 0) by {
        assert(segs[0] == st.0[0]);
    }
    lemma_resolve_good(segs);
    let parts = resolve_segments(segs);
    lemma_rooted_len(parts);
    if parts.len() == 0 {
        let p = seq!['/'];
        let s2 = split(p, '/');
        let e = seq![Seq::<char>::empty()];
        assert(p.drop_last() =~= Seq::<char>::empty());
        assert(p.last() == '/');
        assert(split_state(Seq::<char>::empty(), '/') == (Seq::<Seq<char>>::empty(), Seq::<char>::empty()));
        assert(Seq::<Seq<char>>::empty().push(Seq::<char>::empty()) =~= e);
        assert(split_state(p, '/') == (e, Seq::<char>::empty()));
        assert(s2 =~= seq![Seq::<char>::empty(), Seq::<char>::empty()]);
        assert(s2.drop_last() =~= e);
        assert(s2.last() == Seq::<char>::empty());
        assert(e.drop_last() =~= Seq::<Seq<char>>::empty());
        assert(e.last() == Seq::<char>::empty());
        assert(resolve_segments(Seq::<Seq<char>>::empty()) == Seq::<Seq<char>>::empty());
        assert(resolve_segments(e) == resolve_segments(e.drop_last()));
        assert(resolve_segments(s2) == resolve_segments(s2.drop_last()));
        assert(resolve_segments(s2) =~= Seq::<Seq<char>>::empty());
    } else {
        assert forall|i: int| 0 <= i < parts.len() implies !(#[trigger] parts[i]).contains('/') by {
            assert(good_segment(parts[i]));
        }
        lemma_split_rooted(parts);
        lemma_resolve_rooted(parts);
        assert(normalized(path) == rooted(parts));
        assert(normal_form(normalized(path)));
    }
}

} // verus!

verus! {

/// What a container command reported when it ended: its status, and the
/// message and reason given with it.
pub struct RemoteStatus {
    pub status: Option<String>,
    pub message: Option<String>,
    pub reason: Option<String>,
}

pub const NO_STATUS: &'static str = "container command returned no status";
pub const OUTPUT_LIMIT_EXCEEDED: &'static str = "container command output limit exceeded";
pub const COMMAND_FAILED: &'static str = "container command failed";

/// The outcome of a container command, from its final status, what it wrote
/// to stderr (as text) and to stdout: no status is an API error; a status
/// other than `Success` fails with the trimmed stderr, or else the status's
/// message, reason or a generic text; any stderr output fails the command;
/// stdout beyond `output_limit` bytes is refused; otherwise the output.
pub open spec fn spec_command_outcome(
    status: Option<(Option<Seq<char>>, Option<Seq<char>>, Option<Seq<char>>)>,
    stderr: Seq<char>,
    output: Seq<u8>,
    output_limit: int,
) -> Result<Seq<u8>, (bool, Seq<char>)> {
    match status {
        None => Err((false, NO_STATUS@)),
        Some((st, message, reason)) => if st != Some("Success"@) {
            Err((true, if stderr.len() == 0 {
                match message {
                    Some(m) => m,
                    None => match reason {
                        Some(r) => r,
                        None => COMMAND_FAILED@,
                    },
                }
            } else {
                trim_ws(stderr)
            }))
        } else if stderr.len() > 0 {
            Err((true, trim_ws(stderr)))
        } else if output.len() > output_limit {
            Err((false, OUTPUT_LIMIT_EXCEEDED@))
        } else {
            Ok(output)
        },
    }
}

/// A container command succeeds only when it reports `Success`, wrote nothing
/// to stderr and printed no more than the limit, and then gives back exactly
/// what it printed; whatever it wrote to stderr makes it fail with that text,
/// trimmed.
pub proof fn lemma_command_succeeds_only_cleanly(
    status: Option<(Option<Seq<char>>, Option<Seq<char>>, Option<Seq<char>>)>,
    stderr: Seq<char>,
    output: Seq<u8>,
    output_limit: int,
)
    ensures
        spec_command_outcome(status, stderr, output, output_limit) is Ok <==> (status matches Some(s) && s.0
            == Some("Success"@) && stderr.len() == 0 && output.len() <= output_limit),
        spec_command_outcome(status, stderr, output, output_limit) is Ok ==> spec_command_outcome(
            status,
            stderr,
            output,
            output_limit,
        ) == Ok::<Seq<u8>, (bool, Seq<char>)>(output),
        status is Some && stderr.len() > 0 ==> spec_command_outcome(status, stderr, output, output_limit) == Err::<
            Seq<u8>,
            (bool, Seq<char>),
        >((true, trim_ws(stderr))),
{
}

pub open spec fn status_view(s: Option<RemoteStatus>) -> Option<(Option<Seq<char>>, Option<Seq<char>>, Option<Seq<char>>)> {
    match s {
        Some(r) => Some((opt_view(r.status), opt_view(r.message), opt_view(r.reason))),
        None => None,
    }
}

/// An outcome by views: the output, or whether the container command itself
/// failed (as opposed to the API) and the message.
pub open spec fn outcome_view(r: Result<Vec<u8>, K8sError>) -> Result<Seq<u8>, (bool, Seq<char>)> {
    match r {
        Ok(v) => Ok(v@),
        Err(K8sError::Container(m)) => Err((true, m@)),
        Err(K8sError::Api(m)) => Err((false, m@)),
        Err(K8sError::Config(m)) => Err((false, "config: "@ + m@)),
        Err(K8sError::Build(m)) => Err((false, "build: "@ + m@)),
    }
}

/// Decides how a container command ended.
pub fn command_outcome(
    status: Option<RemoteStatus>,
    stderr: &str,
    output: Vec<u8>,
    output_limit: usize,
) -> (r: Result<Vec<u8>, K8sError>)
    ensures
        outcome_view(r) == spec_command_outcome(status_view(status), stderr@, output@, output_limit as int),
{
    let st = match status {
        None => {
            return Err(K8sError::Api(owned(NO_STATUS)));
        },
        Some(s) => s,
    };
    let success = match &st.status {
        Some(s) => str_eq(s.as_str(), "Success"),
        None => false,
    };
    let ec = chars_of(stderr);
    if !success {
        let message = if stderr.is_empty() {
            match st.message {
                Some(m) => m,
                None => match st.reason {
                    Some(r) => r,
                    None => owned(COMMAND_FAILED),
                },
            }
        } else {
            let t = trim_chars(ec.as_slice());
            string_of(t.as_slice())
        };
        return Err(K8sError::Container(message));
    }
    if !stderr.is_empty() {
        let t = trim_chars(ec.as_slice());
        return Err(K8sError::Container(string_of(t.as_slice())));
    }
    if output.len() > output_limit {
        return Err(K8sError::Api(owned(OUTPUT_LIMIT_EXCEEDED)));
    }
    Ok(output)
}

/// The longest file preview, in bytes.
pub const FILE_PREVIEW_LIMIT: usize = 1048576;

/// The text `String::from_utf8_lossy` makes of some bytes.
pub uninterp spec fn lossy_text(bytes: Seq<u8>) -> Seq<char>;

/// `String::from_utf8_lossy`: the bytes as text, invalid sequences replaced.
/// The result is named `lossy_text` of the bytes.
#[verifier::external_body]
pub(crate) fn utf8_lossy(bytes: &[u8]) -> (r: String)
    ensures
        r@ == lossy_text(bytes@),
{
    String::from_utf8_lossy(bytes).into_owned()
}

/// A file preview: its path, its text (empty for binary content), whether
/// it was cut short, and whether it is binary.
pub struct FilePreview {
    pub path: String,
    pub content: String,
    pub truncated: bool,
    pub binary: bool,
}

/// The preview of what reading a file returned: at most the preview limit,
/// truncated when there was more; binary when those bytes hold a zero byte,
/// else their text.
pub open spec fn spec_file_preview(output: Seq<u8>) -> (Seq<char>, bool, bool) {
    let kept = if output.len() > FILE_PREVIEW_LIMIT { output.take(FILE_PREVIEW_LIMIT as int) } else { output };
    let binary = kept.contains(0u8);
    (if binary { Seq::empty() } else { lossy_text(kept) }, output.len() > FILE_PREVIEW_LIMIT, binary)
}

/// The preview of a file at `path` from the bytes read.
pub fn file_preview(path: String, output: Vec<u8>) -> (r: FilePreview)
    ensures
        r.path@ == path@,
        (r.content@, r.truncated, r.binary) == spec_file_preview(output@),
{
    let mut output = output;
    let truncated = output.len() > FILE_PREVIEW_LIMIT;
    let ghost orig = output@;
    output.truncate(FILE_PREVIEW_LIMIT);
    assert(output@ == if orig.len() > FILE_PREVIEW_LIMIT { orig.take(FILE_PREVIEW_LIMIT as int) } else { orig });
    let mut binary = false;
    let n = output.len();
    for i in 0..n
        invariant
            n == output@.len(),
            binary == exists|k: int| 0 <= k < i && output@[k] == 0u8,
    {
        if output[i] == 0u8 {
            binary = true;
        }
    }
    assert(binary == output@.contains(0u8));
    let content = if binary {
        String::new()
    } else {
        utf8_lossy(output.as_slice())
    };
    FilePreview { path, content, truncated, binary }
}

/// Lists a directory as `kind NUL size NUL name NUL` per entry.
pub const LIST_SCRIPT: &'static str = "
dir=$1
[ -d \"$dir\" ] || { printf 'not a directory: %s\\n' \"$dir\" >&2; exit 44; }
for entry in \"$dir\"/* \"$dir\"/.[!.]* \"$dir\"/..?*; do
  [ -e \"$entry\" ] || [ -L \"$entry\" ] || continue
  if [ -L \"$entry\" ]; then kind=l; size=0
  elif [ -d \"$entry\" ]; then kind=d; size=0
  elif [ -f \"$entry\" ]; then kind=f; size=$(wc -c < \"$entry\" 2>/dev/null || printf 0)
  else kind=o; size=0
  fi
  printf '%s\\000%s\\000%s\\000' \"$kind\" \"$size\" \"${entry##*/}\"
done
";

/// Prints the start of a regular file (one block more than a preview).
pub const READ_SCRIPT: &'static str = "
file=$1
[ -f \"$file\" ] && [ ! -L \"$file\" ] || { printf 'not a regular file: %s\\n' \"$file\" >&2; exit 45; }
dd if=\"$file\" bs=4096 count=257 2>/dev/null
";

/// Prints a whole regular file.
pub const DOWNLOAD_SCRIPT: &'static str = "
file=$1
[ -f \"$file\" ] && [ ! -L \"$file\" ] || { printf 'not a regular file: %s\\n' \"$file\" >&2; exit 45; }
cat \"$file\"
";

/// Replaces a regular file's contents with its input, staged first.
pub const WRITE_SCRIPT: &'static str = "
file=$1
[ -f \"$file\" ] && [ ! -L \"$file\" ] || { printf 'not a regular file: %s\\n' \"$file\" >&2; exit 45; }
tmp=\"${file}.roder-write.$$\"
trap 'rm -f \"$tmp\"' EXIT HUP INT TERM
(umask 077; set -C; cat > \"$tmp\") 2>/dev/null || { printf 'could not stage file contents\\n' >&2; exit 46; }
cat \"$tmp\" > \"$file\"
";

/// Writes its input to a file, creating it when missing.
pub const UPLOAD_SCRIPT: &'static str = "
file=$1
[ ! -d \"$file\" ] && [ ! -L \"$file\" ] || { printf 'not a writable file path: %s\\n' \"$file\" >&2; exit 45; }
tmp=\"${file}.roder-upload.$$\"
trap 'rm -f \"$tmp\"' EXIT HUP INT TERM
(umask 077; set -C; cat > \"$tmp\") || { printf 'could not stage upload\\n' >&2; exit 46; }
if [ -f \"$file\" ]; then cat \"$tmp\" > \"$file\"
else (umask 077; set -C; cat \"$tmp\" > \"$file\") || { printf 'could not create upload target: %s\\n' \"$file\" >&2; exit 47; }
fi
";

/// Creates an empty file or a directory.
pub const CREATE_SCRIPT: &'static str = "
kind=$1
path=$2
[ \"$path\" != / ] || { printf 'cannot create the root directory\\n' >&2; exit 46; }
case \"$kind\" in
  file) (set -C; : > \"$path\") 2>/dev/null || { printf 'path already exists: %s\\n' \"$path\" >&2; exit 47; } ;;
  directory) mkdir \"$path\" ;;
  *) printf 'invalid entry type\\n' >&2; exit 48 ;;
esac
";

/// Deletes a file, a link or an empty directory.
pub const DELETE_SCRIPT: &'static str = "
path=$1
[ \"$path\" != / ] || { printf 'cannot delete the root directory\\n' >&2; exit 49; }
if [ -L \"$path\" ]; then rm \"$path\"
elif [ -d \"$path\" ]; then rmdir \"$path\"
else rm \"$path\"
fi
";

/// The most bytes a file transfer may move (16 MiB).
pub const FILE_TRANSFER_LIMIT: usize = 16777216;

/// The most output a file mutation may print.
pub const MUTATION_OUTPUT_LIMIT: usize = 65536;

pub const TRANSFER_TOO_LARGE: &'static str = "file content exceeds the 16 MiB transfer limit";

/// What the file browser does in a container.
#[derive(PartialEq, Eq, Structural, Clone, Copy, Debug)]
pub enum FileOperation {
    List,
    Read,
    Download,
    Write,
    Upload,
    CreateFile,
    CreateDirectory,
    Delete,
}

/// A command the file browser runs in a container: the normalized path it
/// acts on, its argument vector, how much output it may print, and whether
/// it is fed the content.
#[derive(Debug)]
pub struct ContainerCommand {
    pub path: String,
    pub argv: Vec<String>,
    pub output_limit: usize,
    pub sends_input: bool,
}

/// A command as plain values.
pub type CommandView = (Seq<char>, Seq<Seq<char>>, nat, bool);

pub open spec fn command_view(c: ContainerCommand) -> CommandView {
    (c.path@, c.argv@.map_values(|a: String| a@), c.output_limit as nat, c.sends_input)
}

/// Whether an operation changes the container's files.
pub open spec fn mutates(op: FileOperation) -> bool {
    !(op is List || op is Read || op is Download)
}

/// The script an operation runs.
pub open spec fn script_of(op: FileOperation) -> Seq<char> {
    match op {
        FileOperation::List => LIST_SCRIPT@,
        FileOperation::Read => READ_SCRIPT@,
        FileOperation::Download => DOWNLOAD_SCRIPT@,
        FileOperation::Write => WRITE_SCRIPT@,
        FileOperation::Upload => UPLOAD_SCRIPT@,
        FileOperation::CreateFile => CREATE_SCRIPT@,
        FileOperation::CreateDirectory => CREATE_SCRIPT@,
        FileOperation::Delete => DELETE_SCRIPT@,
    }
}

/// How much output an operation may print.
pub open spec fn limit_of(op: FileOperation) -> nat {
    match op {
        FileOperation::List => 4194304,
        FileOperation::Read => (FILE_PREVIEW_LIMIT + 4096) as nat,
        FileOperation::Download => FILE_TRANSFER_LIMIT as nat,
        _ => MUTATION_OUTPUT_LIMIT as nat,
    }
}

/// The command for an operation on `path`, with `input_len` bytes of content
/// for a write or an upload: `/bin/sh -c <script> roder-files [kind] <path>`.
/// Content beyond the transfer limit is refused before the path is looked
/// at; a mutation refuses the container root.
pub open spec fn spec_file_command(op: FileOperation, path: &str, input_len: nat) -> Result<CommandView, Seq<char>> {
    if (op is Write || op is Upload) && input_len > FILE_TRANSFER_LIMIT {
        Err(TRANSFER_TOO_LARGE@)
    } else if !acceptable_path(path) {
        Err(bad_path_message())
    } else if mutates(op) && normalized(path@) == seq!['/'] {
        Err(root_mutation_message())
    } else {
        let p = normalized(path@);
        let kind: Seq<Seq<char>> = match op {
            FileOperation::CreateFile => seq!["file"@],
            FileOperation::CreateDirectory => seq!["directory"@],
            _ => Seq::empty(),
        };
        Ok((
            p,
            seq!["/bin/sh"@, "-c"@, script_of(op), "roder-files"@] + kind + seq![p],
            limit_of(op),
            op is Write || op is Upload,
        ))
    }
}

/// The command the file browser runs is `/bin/sh -c <script>` on the
/// normalized path, given as its last argument: a path of the normal form,
/// never the container root for an operation that changes files; only writes
/// and uploads send input, and each operation runs its own script.
pub proof fn lemma_file_command_targets_normal_path(op: FileOperation, path: &str, input_len: nat)
    ensures
        spec_file_command(op, path, input_len) matches Ok(c) ==> {
            &&& c.0 == normalized(path@)
            &&& normal_form(c.0)
            &&& c.1.last() == c.0
            &&& c.1[0] == "/bin/sh"@ && c.1[1] == "-c"@ && c.1[2] == script_of(op)
            &&& mutates(op) ==> c.0 != seq!['/']
            &&& c.3 == (op is Write || op is Upload)
            &&& c.2 == limit_of(op)
        },
{
    if spec_file_command(op, path, input_len) is Ok {
        lemma_normalized_is_normal(path@);
    }
}

/// The command the file browser runs for an operation.
pub fn file_command(op: FileOperation, path: &str, input_len: usize) -> (r: Result<ContainerCommand, K8sError>)
    ensures
        match r {
            Ok(c) => spec_file_command(op, path, input_len as nat) == Ok::<CommandView, Seq<char>>(command_view(c)),
            Err(e) => spec_file_command(op, path, input_len as nat) is Err && is_api_error(
                e,
                spec_file_command(op, path, input_len as nat)->Err_0,
            ),
        },
{
    let sends_input = op == FileOperation::Write || op == FileOperation::Upload;
    if sends_input && input_len > FILE_TRANSFER_LIMIT {
        return Err(api_err(TRANSFER_TOO_LARGE));
    }
    let mutating = !(op == FileOperation::List || op == FileOperation::Read || op == FileOperation::Download);
    let normalized_path = if mutating {
        normalize_mutation_path(path)?
    } else {
        normalize_file_path(path)?
    };
    let (script, limit): (&str, usize) = match op {
        FileOperation::List => (LIST_SCRIPT, 4194304),
        FileOperation::Read => (READ_SCRIPT, FILE_PREVIEW_LIMIT + 4096),
        FileOperation::Download => (DOWNLOAD_SCRIPT, FILE_TRANSFER_LIMIT),
        FileOperation::Write => (WRITE_SCRIPT, MUTATION_OUTPUT_LIMIT),
        FileOperation::Upload => (UPLOAD_SCRIPT, MUTATION_OUTPUT_LIMIT),
        FileOperation::CreateFile => (CREATE_SCRIPT, MUTATION_OUTPUT_LIMIT),
        FileOperation::CreateDirectory => (CREATE_SCRIPT, MUTATION_OUTPUT_LIMIT),
        FileOperation::Delete => (DELETE_SCRIPT, MUTATION_OUTPUT_LIMIT),
    };
    let mut argv: Vec<String> = vec![owned("/bin/sh"), owned("-c"), owned(script), owned("roder-files")];
    let ghost head = seq!["/bin/sh"@, "-c"@, script@, "roder-files"@];
    assert(argv@.map_values(|a: String| a@) =~= head);
    match op {
        FileOperation::CreateFile => {
            argv.push(owned("file"));
        },
        FileOperation::CreateDirectory => {
            argv.push(owned("directory"));
        },
        _ => {},
    }
    let ghost kind: Seq<Seq<char>> = match op {
        FileOperation::CreateFile => seq!["file"@],
        FileOperation::CreateDirectory => seq!["directory"@],
        _ => Seq::empty(),
    };
    assert(argv@.map_values(|a: String| a@) =~= head + kind);
    let ghost pv = normalized_path@;
    argv.push(owned(normalized_path.as_str()));
    assert(argv@.map_values(|a: String| a@) =~= head + kind + seq![pv]);
    Ok(ContainerCommand { path: normalized_path, argv, output_limit: limit, sends_input })
}

} // verus!
