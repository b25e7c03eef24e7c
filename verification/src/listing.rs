//! Reading the directory listings a container's shell prints for the file
//! browser: `kind NUL size NUL name NUL`, one entry after another.
use vstd::prelude::*;

use crate::error::{api_err, is_api_error, K8sError};
use crate::files::{lossy_text, utf8_lossy};
use crate::sort::{
    chars_lt, in_order, insert_index, lemma_lex_irreflexive, lemma_lex_transitive,
    lemma_sort_by_in_order, lemma_sort_by_permutes, lex_lt, sort_by, strict_order,
};
use crate::text::{chars_of, trim_chars, trim_ws};

verus! {

/// The most entries a directory listing may hold.
pub const MAX_ENTRIES: usize = 10000;

/// The most bytes a directory listing may take.
pub const DIRECTORY_OUTPUT_LIMIT: usize = 4194304;

pub const INVALID_RESPONSE: &'static str = "invalid directory response";
pub const INVALID_TYPE: &'static str = "invalid file type in directory response";
pub const TOO_MANY_ENTRIES: &'static str = "directory contains more than 10000 entries";

/// What a directory entry is.
#[derive(PartialEq, Eq, Structural, Clone, Copy, Debug)]
pub enum ContainerFileKind {
    Directory,
    File,
    Symlink,
    Other,
}

/// An entry of a container directory.
#[derive(Debug)]
pub struct ContainerFileEntry {
    pub name: String,
    pub kind: ContainerFileKind,
    /// Size in bytes (zero for anything but a regular file).
    pub size: u64,
}

/// A container directory and its entries.
#[derive(Debug)]
pub struct ContainerDirectory {
    pub path: String,
    pub entries: Vec<ContainerFileEntry>,
}

/// An entry as (name, kind, size).
pub type EntryView = (Seq<char>, ContainerFileKind, u64);

pub open spec fn entry_view(e: ContainerFileEntry) -> EntryView {
    (e.name@, e.kind, e.size)
}

pub open spec fn entry_views(v: Seq<ContainerFileEntry>) -> Seq<EntryView> {
    v.map_values(|e: ContainerFileEntry| entry_view(e))
}

/// The fields of `s` between zero bytes, as `<[u8]>::split` gives them
/// (one more field than there are zero bytes).
pub open spec fn byte_fields(s: Seq<u8>) -> Seq<Seq<u8>>
    decreases s.len(),
{
    if s.len() == 0 {
        seq![s]
    } else if s.last() == 0u8 {
        byte_fields(s.drop_last()).push(Seq::empty())
    } else {
        let f = byte_fields(s.drop_last());
        f.update(f.len() - 1, f.last().push(s.last()))
    }
}

proof fn lemma_byte_fields_nonempty(s: Seq<u8>)
    ensures
        byte_fields(s).len() >= 1,
    decreases s.len(),
{
    if s.len() > 0 {
        lemma_byte_fields_nonempty(s.drop_last());
    }
}

/// The kind a listing's one-letter code names: `d`, `f`, `l` or `o`.
pub open spec fn kind_code(b: Seq<u8>) -> Option<ContainerFileKind> {
    if b == seq![100u8] {
        Some(ContainerFileKind::Directory)
    } else if b == seq![102u8] {
        Some(ContainerFileKind::File)
    } else if b == seq![108u8] {
        Some(ContainerFileKind::Symlink)
    } else if b == seq![111u8] {
        Some(ContainerFileKind::Other)
    } else {
        None
    }
}

/// The value of a string of decimal digits.
pub open spec fn digits_value(s: Seq<char>) -> nat
    decreases s.len(),
{
    if s.len() == 0 {
        0
    } else {
        digits_value(s.drop_last()) * 10 + (s.last() as nat - '0' as nat) as nat
    }
}

pub open spec fn all_digits(s: Seq<char>) -> bool {
    forall|i: int| 0 <= i < s.len() ==> '0' <= #[trigger] s[i] <= '9'
}

/// What `u64::from_str` reads: an optional `+` and at least one decimal
/// digit, no more than `u64::MAX`.
pub open spec fn parse_u64(s: Seq<char>) -> Option<u64> {
    let digits = if s.len() > 0 && s[0] == '+' {
        s.drop_first()
    } else {
        s
    };
    if digits.len() == 0 || !all_digits(digits) || digits_value(digits) > u64::MAX {
        None
    } else {
        Some(digits_value(digits) as u64)
    }
}

/// The entries a listing's fields describe, in order, as (name bytes, kind,
/// size bytes); `count` entries came before. An empty field ends the
/// listing; an entry without its size and name, past `MAX_ENTRIES`, or of an
/// unknown kind is refused.
pub open spec fn parse_listing(fields: Seq<Seq<u8>>, count: nat) -> Result<
    Seq<(Seq<u8>, ContainerFileKind, Seq<u8>)>,
    Seq<char>,
>
    decreases fields.len(),
{
    if fields.len() == 0 || fields[0].len() == 0 {
        Ok(Seq::empty())
    } else if fields.len() < 3 {
        Err(INVALID_RESPONSE@)
    } else if count >= MAX_ENTRIES {
        Err(TOO_MANY_ENTRIES@)
    } else {
        match kind_code(fields[0]) {
            None => Err(INVALID_TYPE@),
            Some(k) => match parse_listing(fields.skip(3), count + 1) {
                Ok(rest) => Ok(seq![(fields[2], k, fields[1])] + rest),
                Err(e) => Err(e),
            },
        }
    }
}

/// An entry's text: its name as lossy UTF-8, its size read from its trimmed
/// text (zero when that is not a number).
pub open spec fn entry_of(raw: (Seq<u8>, ContainerFileKind, Seq<u8>)) -> EntryView {
    (
        lossy_text(raw.0),
        raw.1,
        match parse_u64(trim_ws(lossy_text(raw.2))) {
            Some(v) => v,
            None => 0,
        },
    )
}

/// What `str::to_lowercase` makes of a text.
pub uninterp spec fn lowercase_text(s: Seq<char>) -> Seq<char>;

/// `str::to_lowercase`: the text with every character in lower case (by
/// Unicode's rules). The result is named `lowercase_text` of the text.
#[verifier::external_body]
fn to_lowercase(s: &str) -> (r: String)
    ensures
        r@ == lowercase_text(s@),
{
    s.to_lowercase()
}

/// The browser's order: directories first, then by lower-cased name.
pub open spec fn entry_lt(a: EntryView, b: EntryView) -> bool {
    let (da, db) = (a.1 == ContainerFileKind::Directory, b.1 == ContainerFileKind::Directory);
    (da && !db) || (da == db && lex_lt(lowercase_text(a.0), lowercase_text(b.0)))
}

/// The browser's order, as a relation.
pub open spec fn entry_order() -> spec_fn(EntryView, EntryView) -> bool {
    |a: EntryView, b: EntryView| entry_lt(a, b)
}

/// Entries stably sorted by `entry_lt`.
pub open spec fn sort_entries(s: Seq<EntryView>) -> Seq<EntryView> {
    sort_by(s, entry_order())
}

/// The entries a listing describes, in the browser's order.
pub open spec fn spec_directory_entries(output: Seq<u8>) -> Result<Seq<EntryView>, Seq<char>> {
    match parse_listing(byte_fields(output), 0) {
        Ok(raw) => Ok(sort_entries(raw.map_values(|r: (Seq<u8>, ContainerFileKind, Seq<u8>)| entry_of(r)))),
        Err(e) => Err(e),
    }
}

/// Splits bytes at their zero bytes.
fn split_fields(s: &[u8]) -> (r: Vec<Vec<u8>>)
    ensures
        r@.map_values(|f: Vec<u8>| f@) == byte_fields(s@),
{
    let mut out: Vec<Vec<u8>> = Vec::new();
    let mut cur: Vec<u8> = Vec::new();
    let n = s.len();
    assert(s@.take(0) =~= Seq::<u8>::empty());
    assert(out@.map_values(|f: Vec<u8>| f@).push(cur@) =~= seq![Seq::<u8>::empty()]);
    for i in 0..n
        invariant
            n == s@.len(),
            byte_fields(s@.take(i as int)) == out@.map_values(|f: Vec<u8>| f@).push(cur@),
    {
        proof {
            assert(s@.take(i + 1).drop_last() =~= s@.take(i as int));
            assert(s@.take(i + 1).last() == s@[i as int]);
        }
        let ghost before = out@.map_values(|f: Vec<u8>| f@);
        if s[i] == 0u8 {
            let done = cur;
            cur = Vec::new();
            out.push(done);
            assert(out@.map_values(|f: Vec<u8>| f@) =~= before.push(done@));
            assert(byte_fields(s@.take(i + 1)) =~= out@.map_values(|f: Vec<u8>| f@).push(cur@));
        } else {
            let ghost old_cur = cur@;
            cur.push(s[i]);
            assert(byte_fields(s@.take(i + 1)) =~= before.push(old_cur).update(before.len() as int, old_cur.push(s@[i as int])));
            assert(byte_fields(s@.take(i + 1)) =~= out@.map_values(|f: Vec<u8>| f@).push(cur@));
        }
    }
    assert(s@.take(n as int) =~= s@);
    let ghost before = out@.map_values(|f: Vec<u8>| f@);
    out.push(cur);
    assert(out@.map_values(|f: Vec<u8>| f@) =~= before.push(cur@));
    out
}

fn kind_of(b: &[u8]) -> (r: Option<ContainerFileKind>)
    ensures
        r == kind_code(b@),
{
    if b.len() != 1 {
        assert(b@ != seq![100u8] && b@ != seq![102u8] && b@ != seq![108u8] && b@ != seq![111u8]);
        return None;
    }
    let c = b[0];
    if c == 100u8 {
        assert(b@ =~= seq![100u8]);
        Some(ContainerFileKind::Directory)
    } else if c == 102u8 {
        assert(b@ =~= seq![102u8]);
        Some(ContainerFileKind::File)
    } else if c == 108u8 {
        assert(b@ =~= seq![108u8]);
        Some(ContainerFileKind::Symlink)
    } else if c == 111u8 {
        assert(b@ =~= seq![111u8]);
        Some(ContainerFileKind::Other)
    } else {
        assert(b@ != seq![100u8] && b@ != seq![102u8] && b@ != seq![108u8] && b@ != seq![111u8]) by {
            assert(seq![100u8][0] == 100u8);
            assert(seq![102u8][0] == 102u8);
            assert(seq![108u8][0] == 108u8);
            assert(seq![111u8][0] == 111u8);
        }
        None
    }
}

/// Reads a decimal number as `u64::from_str` does.
pub fn parse_decimal_u64(s: &[char]) -> (r: Option<u64>)
    ensures
        r == parse_u64(s@),
{
    let start: usize = if s.len() > 0 && s[0] == '+' {
        1
    } else {
        0
    };
    let ghost digits = if s@.len() > 0 && s@[0] == '+' {
        s@.drop_first()
    } else {
        s@
    };
    assert(digits =~= s@.skip(start as int));
    if start == s.len() {
        assert(digits.len() == 0);
        return None;
    }
    let mut value: u64 = 0;
    let mut i: usize = start;
    while i < s.len()
        invariant
            start <= i <= s@.len(),
            start < s@.len(),
            digits == s@.skip(start as int),
            digits == (if s@.len() > 0 && s@[0] == '+' {
                s@.drop_first()
            } else {
                s@
            }),
            all_digits(s@.subrange(start as int, i as int)),
            value as nat == digits_value(s@.subrange(start as int, i as int)),
        decreases s@.len() - i,
    {
        let c = s[i];
        proof {
            assert(s@.subrange(start as int, i + 1).drop_last() =~= s@.subrange(start as int, i as int));
            assert(s@.subrange(start as int, i + 1).last() == c);
        }
        if c < '0' || c > '9' {
            assert(!all_digits(digits)) by {
                assert(digits[i - start] == c);
            }
            return None;
        }
        let d = (c as u32 - '0' as u32) as u64;
        proof {
            vstd::utf8::char_u32_cast(c, c as u32);
        }
        let next = match value.checked_mul(10) {
            Some(v) => v.checked_add(d),
            None => None,
        };
        match next {
            Some(v) => {
                value = v;
            },
            None => {
                proof {
                    if all_digits(digits) {
                        assert(digits.take(i - start + 1) =~= s@.subrange(start as int, i + 1));
                        lemma_digits_monotone(digits, (i - start + 1) as int);
                    }
                }
                return None;
            },
        }
        i = i + 1;
    }
    assert(s@.subrange(start as int, s@.len() as int) =~= digits);
    Some(value)
}

proof fn lemma_digits_monotone(s: Seq<char>, k: int)
    requires
        0 <= k <= s.len(),
        all_digits(s),
    ensures
        digits_value(s.take(k)) <= digits_value(s),
    decreases s.len() - k,
{
    if k < s.len() {
        lemma_digits_monotone(s, k + 1);
        assert(s.take(k + 1).drop_last() =~= s.take(k));
        assert('0' <= s[k] <= '9');
    } else {
        assert(s.take(k) =~= s);
    }
}

fn entry_less(a: &ContainerFileEntry, al: &[char], b: &ContainerFileEntry, bl: &[char]) -> (r: bool)
    requires
        al@ == lowercase_text(a.name@),
        bl@ == lowercase_text(b.name@),
    ensures
        r == entry_lt(entry_view(*a), entry_view(*b)),
{
    let da = a.kind == ContainerFileKind::Directory;
    let db = b.kind == ContainerFileKind::Directory;
    (da && !db) || (da == db && chars_lt(al, bl))
}

/// The entries of a directory listing, directories first and then by
/// lower-cased name.
pub fn directory_entries(output: &[u8]) -> (r: Result<Vec<ContainerFileEntry>, K8sError>)
    ensures
        match r {
            Ok(v) => spec_directory_entries(output@) == Ok::<Seq<EntryView>, Seq<char>>(entry_views(v@)),
            Err(e) => spec_directory_entries(output@) is Err && is_api_error(e, spec_directory_entries(output@)->Err_0),
        },
{
    let fields = split_fields(output);
    let ghost fv = fields@.map_values(|f: Vec<u8>| f@);
    let ghost raw_of = |r: (Seq<u8>, ContainerFileKind, Seq<u8>)| entry_of(r);
    let ghost mut raw_done: Seq<(Seq<u8>, ContainerFileKind, Seq<u8>)> = Seq::empty();
    let mut sorted: Vec<ContainerFileEntry> = Vec::new();
    let mut keys: Vec<Vec<char>> = Vec::new();
    let mut f: usize = 0;
    let mut count: usize = 0;
    assert(fv.skip(0) =~= fv);
    loop
        invariant
            fv == fields@.map_values(|f: Vec<u8>| f@),
            fv == byte_fields(output@),
            f <= fv.len(),
            count == raw_done.len(),
            count <= MAX_ENTRIES,
            parse_listing(fv, 0) == match parse_listing(fv.skip(f as int), count as nat) {
                Ok(rest) => Ok(raw_done + rest),
                Err(e) => Err::<Seq<(Seq<u8>, ContainerFileKind, Seq<u8>)>, Seq<char>>(e),
            },
            entry_views(sorted@) == sort_entries(raw_done.map_values(raw_of)),
            raw_of == (|r: (Seq<u8>, ContainerFileKind, Seq<u8>)| entry_of(r)),
            keys@.len() == sorted@.len(),
            forall|t: int| 0 <= t < keys@.len() ==> #[trigger] keys@[t]@ == lowercase_text(sorted@[t].name@),
        ensures
            parse_listing(fv, 0) == Ok::<Seq<(Seq<u8>, ContainerFileKind, Seq<u8>)>, Seq<char>>(raw_done),
            entry_views(sorted@) == sort_entries(raw_done.map_values(raw_of)),
        decreases fv.len() - f,
    {
        let ghost rest = fv.skip(f as int);
        if f >= fields.len() || fields[f].len() == 0 {
            proof {
                if f < fv.len() {
                    assert(rest[0] == fv[f as int]);
                }
                assert(raw_done + Seq::<(Seq<u8>, ContainerFileKind, Seq<u8>)>::empty() =~= raw_done);
            }
            break;
        }
        assert(rest[0] == fv[f as int]);
        if fields.len() - f < 3 {
            return Err(api_err(INVALID_RESPONSE));
        }
        if count == MAX_ENTRIES {
            return Err(api_err(TOO_MANY_ENTRIES));
        }
        let kind = match kind_of(fields[f].as_slice()) {
            Some(k) => k,
            None => {
                return Err(api_err(INVALID_TYPE));
            },
        };
        assert(rest[1] == fv[f + 1]);
        assert(rest[2] == fv[f + 2]);
        assert(rest.skip(3) =~= fv.skip(f + 3));
        let name = utf8_lossy(fields[f + 2].as_slice());
        let size_text = utf8_lossy(fields[f + 1].as_slice());
        let sc = chars_of(size_text.as_str());
        let trimmed = trim_chars(sc.as_slice());
        let size = match parse_decimal_u64(trimmed.as_slice()) {
            Some(v) => v,
            None => 0,
        };
        let item = ContainerFileEntry { name, kind, size };
        let ghost raw_item = (fv[f + 2], kind, fv[f + 1]);
        assert(entry_view(item) == entry_of(raw_item));
        let lower_s = to_lowercase(item.name.as_str());
        let lower = chars_of(lower_s.as_str());
        let ghost before = entry_views(sorted@);
        let ghost iv = entry_view(item);
        let mut p: usize = 0;
        assert(before.skip(0) == before);
        while p < sorted.len() && !entry_less(&item, lower.as_slice(), &sorted[p], keys[p].as_slice())
            invariant
                p <= sorted@.len(),
                before == entry_views(sorted@),
                iv == entry_view(item),
                lower@ == lowercase_text(item.name@),
                keys@.len() == sorted@.len(),
                forall|t: int| 0 <= t < keys@.len() ==> #[trigger] keys@[t]@ == lowercase_text(sorted@[t].name@),
                insert_index(before, iv, entry_order()) == p + insert_index(before.skip(p as int), iv, entry_order()),
            decreases sorted@.len() - p,
        {
            assert(before.skip(p as int).drop_first() =~= before.skip(p + 1));
            assert(before.skip(p as int)[0] == before[p as int]);
            p = p + 1;
        }
        proof {
            if p < sorted.len() {
                assert(before.skip(p as int)[0] == before[p as int]);
            }
        }
        let ghost ks = keys@;
        let ghost ss = sorted@;
        sorted.insert(p, item);
        keys.insert(p, lower);
        proof {
            assert(entry_views(sorted@) =~= before.insert(p as int, iv));
            assert forall|t: int| 0 <= t < keys@.len() implies #[trigger] keys@[t]@ == lowercase_text(sorted@[t].name@) by {
                if t < p {
                    assert(keys@[t] == ks[t]);
                    assert(sorted@[t] == ss[t]);
                } else if t > p {
                    assert(keys@[t] == ks[t - 1]);
                    assert(sorted@[t] == ss[t - 1]);
                }
            }
            let nd = raw_done.push(raw_item);
            assert(nd.drop_last() =~= raw_done);
            assert(nd.map_values(raw_of).drop_last() =~= raw_done.map_values(raw_of));
            assert(nd.map_values(raw_of).last() == iv);
            match parse_listing(fv.skip(f + 3), (count + 1) as nat) {
                Ok(r2) => {
                    assert(raw_done + (seq![raw_item] + r2) =~= nd + r2);
                },
                Err(_) => {},
            }
            raw_done = nd;
        }
        f = f + 3;
        count = count + 1;
    }
    Ok(sorted)
}

/// A directory's listing as the browser shows it.
pub fn container_directory(path: String, output: &[u8]) -> (r: Result<ContainerDirectory, K8sError>)
    ensures
        match r {
            Ok(d) => d.path@ == path@ && spec_directory_entries(output@) == Ok::<Seq<EntryView>, Seq<char>>(entry_views(d.entries@)),
            Err(e) => spec_directory_entries(output@) is Err && is_api_error(e, spec_directory_entries(output@)->Err_0),
        },
{
    let entries = directory_entries(output)?;
    Ok(ContainerDirectory { path, entries })
}

/// The browser's order is a strict order.
pub proof fn lemma_entry_order_is_strict()
    ensures
        strict_order(entry_order()),
{
    assert forall|a: EntryView| !#[trigger] entry_order()(a, a) by {
        lemma_lex_irreflexive(lowercase_text(a.0));
    }
    assert forall|a: EntryView, b: EntryView, c: EntryView|
        #[trigger] entry_order()(a, b) && #[trigger] entry_order()(b, c) implies entry_order()(a, c) by {
        let (la, lb, lc) = (lowercase_text(a.0), lowercase_text(b.0), lowercase_text(c.0));
        if lex_lt(la, lb) && lex_lt(lb, lc) {
            lemma_lex_transitive(la, lb, lc);
        }
    }
}

/// A listing that reads lists its entries directories first and then by
/// lower-cased name, each entry it describes exactly once.
pub proof fn lemma_directory_entries_in_order(output: Seq<u8>)
    requires
        spec_directory_entries(output) is Ok,
    ensures
        in_order(spec_directory_entries(output)->Ok_0, entry_order()),
        spec_directory_entries(output)->Ok_0.to_multiset() == parse_listing(byte_fields(output), 0)->Ok_0.map_values(
            |r: (Seq<u8>, ContainerFileKind, Seq<u8>)| entry_of(r),
        ).to_multiset(),
{
    let raw = parse_listing(byte_fields(output), 0)->Ok_0.map_values(
        |r: (Seq<u8>, ContainerFileKind, Seq<u8>)| entry_of(r),
    );
    lemma_entry_order_is_strict();
    lemma_sort_by_in_order(raw, entry_order());
    lemma_sort_by_permutes(raw, entry_order());
}

} // verus!
