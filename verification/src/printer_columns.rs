//! CRD printer columns: which columns a kind declares, and the JSONPath dialect
//! their `jsonPath` uses.
use vstd::prelude::*;

use crate::json::{deref_opt, derefs, json_get, Json};
use crate::text::{
    decimal, join, join_strings, owned, trim_start_char, trim_start_matches, usize_to_string,
    chars_eq, chars_of, ends_with, str_eq, find_char, find_chars, first_index, first_occurrence,
    occurs_at, starts_with, string_of, strip_prefix_chars, strip_suffix_chars, sub_chars,
    trim_chars, trim_end_char, trim_end_matches, trim_ws, views,
};

verus! {

/// One declared printer column of a CRD.
#[derive(Clone, Debug)]
pub struct PrinterCol {
    pub name: String,
    pub json_path: String,
    /// OpenAPI column type: string, integer, number, boolean or date.
    pub col_type: String,
}

/// Printer columns of each CRD, keyed by (group, kind); no key is stored
/// twice.
pub struct ColumnMap {
    entries: Vec<((String, String), Vec<PrinterCol>)>,
}

/// The key an entry is stored under.
pub open spec fn entry_key(e: ((String, String), Vec<PrinterCol>)) -> (Seq<char>, Seq<char>) {
    (e.0.0@, e.0.1@)
}

/// The columns stored under (group, kind): those of the first matching entry.
pub open spec fn spec_cols_for(map: Seq<((String, String), Vec<PrinterCol>)>, group: Seq<char>, kind: Seq<char>) -> Seq<PrinterCol>
    decreases map.len(),
{
    if map.len() == 0 {
        Seq::empty()
    } else if map[0].0.0@ == group && map[0].0.1@ == kind {
        map[0].1@
    } else {
        spec_cols_for(map.drop_first(), group, kind)
    }
}

proof fn lemma_cols_for_other(map: Seq<((String, String), Vec<PrinterCol>)>, i: int, group: Seq<char>, kind: Seq<char>, v: ((String, String), Vec<PrinterCol>))
    requires
        0 <= i < map.len(),
        entry_key(map[i]) != (group, kind),
        entry_key(v) == entry_key(map[i]),
    ensures
        spec_cols_for(map.update(i, v), group, kind) == spec_cols_for(map, group, kind),
    decreases map.len(),
{
    if i > 0 {
        assert(map.update(i, v)[0] == map[0]);
        assert(map.update(i, v).drop_first() =~= map.drop_first().update(i - 1, v));
        lemma_cols_for_other(map.drop_first(), i - 1, group, kind, v);
    } else {
        assert(map.update(0, v)[0] == v);
        assert(map.update(0, v).drop_first() =~= map.drop_first());
    }
}

proof fn lemma_cols_for_push(map: Seq<((String, String), Vec<PrinterCol>)>, v: ((String, String), Vec<PrinterCol>), group: Seq<char>, kind: Seq<char>)
    requires
        forall|j: int| 0 <= j < map.len() ==> entry_key(#[trigger] map[j]) != entry_key(v),
    ensures
        spec_cols_for(map.push(v), group, kind) == if entry_key(v) == (group, kind) {
            v.1@
        } else {
            spec_cols_for(map, group, kind)
        },
    decreases map.len(),
{
    if map.len() == 0 {
        assert(map.push(v)[0] == v);
        assert(map.push(v).drop_first() =~= Seq::<((String, String), Vec<PrinterCol>)>::empty());
        assert(spec_cols_for(Seq::<((String, String), Vec<PrinterCol>)>::empty(), group, kind) == Seq::<PrinterCol>::empty());
        assert(map =~= Seq::<((String, String), Vec<PrinterCol>)>::empty());
    } else {
        assert(map.push(v)[0] == map[0]);
        assert(entry_key(map[0]) != entry_key(v));
        assert(map.push(v).drop_first() =~= map.drop_first().push(v));
        assert forall|j: int| 0 <= j < map.drop_first().len() implies entry_key(#[trigger] map.drop_first()[j]) != entry_key(v) by {
            assert(map.drop_first()[j] == map[j + 1]);
        }
        lemma_cols_for_push(map.drop_first(), v, group, kind);
    }
}

proof fn lemma_cols_for_at(map: Seq<((String, String), Vec<PrinterCol>)>, i: int)
    requires
        0 <= i < map.len(),
        forall|a: int, b: int| 0 <= a < b < map.len() ==> entry_key(#[trigger] map[a]) != entry_key(#[trigger] map[b]),
    ensures
        spec_cols_for(map, map[i].0.0@, map[i].0.1@) == map[i].1@,
    decreases map.len(),
{
    if i > 0 {
        assert(entry_key(map[0]) != entry_key(map[i]));
        assert forall|a: int, b: int| 0 <= a < b < map.drop_first().len() implies entry_key(
            #[trigger] map.drop_first()[a],
        ) != entry_key(#[trigger] map.drop_first()[b]) by {
            assert(map.drop_first()[a] == map[a + 1]);
            assert(map.drop_first()[b] == map[b + 1]);
        }
        lemma_cols_for_at(map.drop_first(), i - 1);
    }
}

impl ColumnMap {
    /// No key is stored twice.
    pub closed spec fn wf(&self) -> bool {
        forall|a: int, b: int| 0 <= a < b < self.entries@.len() ==> entry_key(#[trigger] self.entries@[a]) != entry_key(
            #[trigger] self.entries@[b],
        )
    }

    /// The columns stored under (group, kind); none when nothing is.
    pub closed spec fn columns(&self, group: Seq<char>, kind: Seq<char>) -> Seq<PrinterCol> {
        spec_cols_for(self.entries@, group, kind)
    }

    /// A map with no columns.
    pub fn new() -> (r: ColumnMap)
        ensures
            r.wf(),
            forall|g: Seq<char>, k: Seq<char>| #[trigger] r.columns(g, k) == Seq::<PrinterCol>::empty(),
    {
        ColumnMap { entries: Vec::new() }
    }

    /// Stores `cols` under (group, kind), replacing what was there.
    pub fn insert(&mut self, group: String, kind: String, cols: Vec<PrinterCol>)
        requires
            old(self).wf(),
        ensures
            final(self).wf(),
            forall|g: Seq<char>, k: Seq<char>| #[trigger] final(self).columns(g, k) == if (g, k) == (group@, kind@) {
                cols@
            } else {
                old(self).columns(g, k)
            },
    {
        let ghost old_entries = self.entries@;
        let ghost key = (group@, kind@);
        let ghost v = ((group, kind), cols);
        let n = self.entries.len();
        let mut i: usize = 0;
        while i < n
            invariant
                n == self.entries@.len(),
                i <= n,
                self.entries@ == old_entries,
                old_entries == old(self).entries@,
                key == (group@, kind@),
                forall|a: int, b: int| 0 <= a < b < old_entries.len() ==> entry_key(#[trigger] old_entries[a]) != entry_key(
                    #[trigger] old_entries[b],
                ),
                forall|t: int| 0 <= t < i ==> entry_key(#[trigger] self.entries@[t]) != (group@, kind@),
            decreases n - i,
        {
            if str_eq(self.entries[i].0.0.as_str(), group.as_str()) && str_eq(self.entries[i].0.1.as_str(), kind.as_str()) {
                assert(entry_key(old_entries[i as int]) == key);
                let entry = ((group, kind), cols);
                let ghost ev = entry;
                self.entries.set(i, entry);
                proof {
                    assert(self.entries@ == old_entries.update(i as int, ev));
                    assert forall|a: int, b: int| 0 <= a < b < self.entries@.len() implies entry_key(
                        #[trigger] self.entries@[a],
                    ) != entry_key(#[trigger] self.entries@[b]) by {
                        assert(entry_key(self.entries@[a]) == entry_key(old_entries[a]));
                        assert(entry_key(self.entries@[b]) == entry_key(old_entries[b]));
                    }
                    assert forall|g: Seq<char>, k: Seq<char>| #[trigger] self.columns(g, k) == if (g, k) == key {
                        ev.1@
                    } else {
                        spec_cols_for(old_entries, g, k)
                    } by {
                        if (g, k) == key {
                            lemma_cols_for_at(self.entries@, i as int);
                        } else {
                            lemma_cols_for_other(old_entries, i as int, g, k, ev);
                        }
                    }
                }
                return;
            }
            i = i + 1;
        }
        let entry = ((group, kind), cols);
        let ghost ev = entry;
        self.entries.push(entry);
        proof {
            assert(self.entries@ == old_entries.push(ev));
            assert forall|a: int, b: int| 0 <= a < b < self.entries@.len() implies entry_key(
                #[trigger] self.entries@[a],
            ) != entry_key(#[trigger] self.entries@[b]) by {
                assert(self.entries@[a] == old_entries[a]);
                if b < old_entries.len() {
                    assert(self.entries@[b] == old_entries[b]);
                }
            }
            assert forall|g: Seq<char>, k: Seq<char>| #[trigger] self.columns(g, k) == if (g, k) == key {
                ev.1@
            } else {
                spec_cols_for(old_entries, g, k)
            } by {
                lemma_cols_for_push(old_entries, ev, g, k);
            }
        }
    }
}

/// The columns declared for (group, kind), or none for kinds that are not CRDs.
pub fn cols_for<'a>(map: &'a ColumnMap, group: &str, kind: &str) -> (r: &'a [PrinterCol])
    ensures
        r@ == map.columns(group@, kind@),
{
    let entries = &map.entries;
    let g = chars_of(group);
    let k = chars_of(kind);
    let n = entries.len();
    assert(entries@.skip(0) == entries@);
    for i in 0..n
        invariant
            n == entries@.len(),
            entries@ == map.entries@,
            g@ == group@,
            k@ == kind@,
            spec_cols_for(entries@.skip(i as int), group@, kind@) == spec_cols_for(entries@, group@, kind@),
    {
        assert(entries@.skip(i as int).drop_first() == entries@.skip(i + 1));
        assert(entries@.skip(i as int)[0] == entries@[i as int]);
        let mg = chars_of(entries[i].0.0.as_str());
        let mk = chars_of(entries[i].0.1.as_str());
        if chars_eq(mg.as_slice(), g.as_slice()) && chars_eq(mk.as_slice(), k.as_slice()) {
            return entries[i].1.as_slice();
        }
    }
    &[]
}

/// A version of a CRD as the printer columns need it.
pub struct CrdVersion {
    pub served: bool,
    pub storage: bool,
    pub columns: Vec<PrinterCol>,
}

/// A CRD as the printer columns need it: its group, kind and versions.
pub struct CrdColumns {
    pub group: String,
    pub kind: String,
    pub versions: Vec<CrdVersion>,
}

/// The first version that is stored, else the first that is served.
pub open spec fn column_version(vs: Seq<CrdVersion>) -> Option<int> {
    if exists|i: int| 0 <= i < vs.len() && vs[i].storage {
        Some(choose|i: int| 0 <= i < vs.len() && vs[i].storage && forall|j: int| 0 <= j < i ==> !vs[j].storage)
    } else if exists|i: int| 0 <= i < vs.len() && vs[i].served {
        Some(choose|i: int| 0 <= i < vs.len() && vs[i].served && forall|j: int| 0 <= j < i ==> !vs[j].served)
    } else {
        None
    }
}

/// A column named `age` in any ASCII case (the dashboard shows age itself).
pub open spec fn is_age(name: Seq<char>) -> bool {
    name.len() == 3 && crate::text::ascii_lower(name[0]) == 'a' && crate::text::ascii_lower(name[1]) == 'g'
        && crate::text::ascii_lower(name[2]) == 'e'
}

/// A column as (name, JSONPath, type).
pub open spec fn col_view(c: PrinterCol) -> (Seq<char>, Seq<char>, Seq<char>) {
    (c.name@, c.json_path@, c.col_type@)
}

pub open spec fn col_views(cs: Seq<PrinterCol>) -> Seq<(Seq<char>, Seq<char>, Seq<char>)> {
    cs.map_values(|c: PrinterCol| col_view(c))
}

/// The columns a CRD declares for the dashboard: those of its stored
/// version (else its first served one) other than an age column; none when
/// no version qualifies.
pub open spec fn spec_crd_columns(crd: CrdColumns) -> Seq<(Seq<char>, Seq<char>, Seq<char>)> {
    match column_version(crd.versions@) {
        Some(i) => col_views(crd.versions@[i].columns@.filter(|c: PrinterCol| !is_age(c.name@))),
        None => Seq::empty(),
    }
}

fn first_version(vs: &Vec<CrdVersion>, stored: bool) -> (r: Option<usize>)
    ensures
        match r {
            Some(i) => i < vs@.len() && (if stored { vs@[i as int].storage } else { vs@[i as int].served }) && forall|j: int|
                0 <= j < i ==> !(if stored { vs@[j].storage } else { vs@[j].served }),
            None => forall|j: int| 0 <= j < vs@.len() ==> !(if stored { vs@[j].storage } else { vs@[j].served }),
        },
{
    let n = vs.len();
    for i in 0..n
        invariant
            n == vs@.len(),
            forall|j: int| 0 <= j < i ==> !(if stored { vs@[j].storage } else { vs@[j].served }),
    {
        let hit = if stored { vs[i].storage } else { vs[i].served };
        if hit {
            return Some(i);
        }
    }
    None
}

fn age_name(name: &str) -> (r: bool)
    ensures
        r == is_age(name@),
{
    let c = chars_of(name);
    c.len() == 3 && crate::text::to_ascii_lowercase(c[0]) == 'a' && crate::text::to_ascii_lowercase(c[1]) == 'g'
        && crate::text::to_ascii_lowercase(c[2]) == 'e'
}

/// The printer columns a CRD declares for the dashboard.
pub fn crd_columns(crd: &CrdColumns) -> (r: Vec<PrinterCol>)
    ensures
        col_views(r@) == spec_crd_columns(*crd),
{
    let vs = &crd.versions;
    let chosen = match first_version(vs, true) {
        Some(i) => Some(i),
        None => first_version(vs, false),
    };
    let i = match chosen {
        Some(i) => i,
        None => {
            return Vec::new();
        },
    };
    proof {
        let cv = column_version(vs@);
        assert(cv == Some(i as int)) by {
            if exists|k: int| 0 <= k < vs@.len() && vs@[k].storage {
                let c = choose|k: int| 0 <= k < vs@.len() && vs@[k].storage && forall|j: int| 0 <= j < k ==> !vs@[j].storage;
                assert(vs@[i as int].storage);
                if c < i {
                } else if c > i {
                    assert(!vs@[i as int].storage);
                }
            } else {
                let c = choose|k: int| 0 <= k < vs@.len() && vs@[k].served && forall|j: int| 0 <= j < k ==> !vs@[j].served;
                assert(exists|k: int| 0 <= k < vs@.len() && vs@[k].served) by {
                    assert(vs@[i as int].served);
                }
                if c > i {
                    assert(!vs@[i as int].served);
                }
            }
        }
    }
    let cols = &vs[i].columns;
    let ghost keep = |c: PrinterCol| !is_age(c.name@);
    let mut out: Vec<PrinterCol> = Vec::new();
    let n = cols.len();
    for j in 0..n
        invariant
            n == cols@.len(),
            keep == (|c: PrinterCol| !is_age(c.name@)),
            col_views(out@) == col_views(cols@.take(j as int).filter(keep)),
    {
        proof {
            assert(cols@.take(j + 1) =~= cols@.take(j as int).push(cols@[j as int]));
            cols@.take(j as int).lemma_filter_push(cols@[j as int], keep);
        }
        let ghost before = col_views(out@);
        if !age_name(cols[j].name.as_str()) {
            let c = copy_col(&cols[j]);
            out.push(c);
            assert(col_views(out@) =~= before.push(col_view(cols@[j as int])));
            assert(col_views(cols@.take(j as int).filter(keep).push(cols@[j as int])) =~= col_views(
                cols@.take(j as int).filter(keep),
            ).push(col_view(cols@[j as int])));
        }
    }
    assert(cols@.take(n as int) =~= cols@);
    out
}

fn copy_col(c: &PrinterCol) -> (r: PrinterCol)
    ensures
        col_view(r) == col_view(*c),
{
    PrinterCol { name: owned(c.name.as_str()), json_path: owned(c.json_path.as_str()), col_type: owned(c.col_type.as_str()) }
}

/// Records a CRD's printer columns under its group and kind when it
/// declares any for the dashboard.
pub fn add_crd_columns(map: &mut ColumnMap, crd: &CrdColumns)
    requires
        old(map).wf(),
    ensures
        final(map).wf(),
        forall|g: Seq<char>, k: Seq<char>| #[trigger] col_views(final(map).columns(g, k)) == if spec_crd_columns(*crd).len() > 0
            && (g, k) == (crd.group@, crd.kind@) {
            spec_crd_columns(*crd)
        } else {
            col_views(old(map).columns(g, k))
        },
{
    let cols = crd_columns(crd);
    if cols.len() > 0 {
        map.insert(owned(crd.group.as_str()), owned(crd.kind.as_str()), cols);
        assert forall|g: Seq<char>, k: Seq<char>| #[trigger] col_views(map.columns(g, k)) == if spec_crd_columns(*crd).len() > 0
            && (g, k) == (crd.group@, crd.kind@) {
            spec_crd_columns(*crd)
        } else {
            col_views(old(map).columns(g, k))
        } by {
            assert(map.columns(g, k) == if (g, k) == (crd.group@, crd.kind@) { cols@ } else { old(map).columns(g, k) });
        }
    }
}

/// Segment splitting after reading `s`: finished segments, bracket depth, and
/// the segment in progress.
pub open spec fn segment_state(s: Seq<char>) -> (Seq<Seq<char>>, int, Seq<char>)
    decreases s.len(),
{
    if s.len() == 0 {
        (Seq::empty(), 0, Seq::empty())
    } else {
        let prev = segment_state(s.drop_last());
        let c = s.last();
        if c == '[' {
            (prev.0, prev.1 + 1, prev.2.push(c))
        } else if c == ']' {
            (prev.0, if prev.1 > 0 { prev.1 - 1 } else { 0 }, prev.2.push(c))
        } else if c == '.' && prev.1 == 0 {
            (if prev.2.len() > 0 { prev.0.push(prev.2) } else { prev.0 }, prev.1, Seq::empty())
        } else {
            (prev.0, prev.1, prev.2.push(c))
        }
    }
}

/// The non-empty `.`-separated segments of a path; dots inside `[...]` do not split.
pub open spec fn spec_segments(path: Seq<char>) -> Seq<Seq<char>> {
    let st = segment_state(path);
    if st.2.len() > 0 {
        st.0.push(st.2)
    } else {
        st.0
    }
}

/// Text free of `.` only extends the segment in progress: the finished
/// segments stay, and the bracket depth moves as it would from any other
/// start at the same depth.
proof fn lemma_segment_state_no_dot(q: Seq<char>, q2: Seq<char>, t: Seq<char>)
    requires
        forall|k: int| 0 <= k < t.len() ==> t[k] != '.',
        segment_state(q).1 == segment_state(q2).1,
    ensures
        segment_state(q + t).0 == segment_state(q).0,
        segment_state(q + t).2 == segment_state(q).2 + t,
        segment_state(q + t).1 == segment_state(q2 + t).1,
    decreases t.len(),
{
    if t.len() == 0 {
        assert(q + t == q);
        assert(q2 + t == q2);
        assert(segment_state(q).2 + t == segment_state(q).2);
    } else {
        let t0 = t.drop_last();
        lemma_segment_state_no_dot(q, q2, t0);
        assert((q + t).drop_last() == q + t0);
        assert((q2 + t).drop_last() == q2 + t0);
        assert((q + t).last() == t.last());
        assert((q2 + t).last() == t.last());
        assert(segment_state(q).2 + t == (segment_state(q).2 + t0).push(t.last()));
    }
}

/// Splitting a path: a path with no `.` is one segment; and a `.` at bracket
/// depth 0 followed by text with no `.` adds that text as one more segment,
/// after which the bracket depth is that of the text alone.
pub proof fn lemma_segments_split_on_dots(p: Seq<char>, s: Seq<char>)
    requires
        s.len() > 0,
        forall|k: int| 0 <= k < s.len() ==> s[k] != '.',
    ensures
        spec_segments(s) == seq![s],
        segment_state(p).1 == 0 ==> spec_segments(p + seq!['.'] + s) == spec_segments(p).push(s)
            && segment_state(p + seq!['.'] + s).1 == segment_state(s).1,
{
    let e = Seq::<char>::empty();
    assert(segment_state(e) == (Seq::<Seq<char>>::empty(), 0int, e));
    lemma_segment_state_no_dot(e, e, s);
    assert(e + s == s);
    if segment_state(p).1 == 0 {
        let pd = p + seq!['.'];
        assert(pd.drop_last() == p);
        assert(pd.last() == '.');
        assert(segment_state(pd).2 == e);
        assert(segment_state(pd).0 == spec_segments(p));
        lemma_segment_state_no_dot(pd, e, s);
        assert(segment_state(pd).2 + s == s);
    }
}

proof fn lemma_segment_depth(s: Seq<char>)
    ensures
        0 <= segment_state(s).1 <= s.len(),
    decreases s.len(),
{
    if s.len() > 0 {
        lemma_segment_depth(s.drop_last());
    }
}

/// Splits a JSONPath on `.`, keeping `[...]` selectors (which may hold `@.key`)
/// attached to their segment.
pub fn segments(path: &str) -> (r: Vec<String>)
    ensures
        r@.map_values(|s: String| s@) == spec_segments(path@),
{
    let chars = chars_of(path);
    let mut out: Vec<String> = Vec::new();
    let mut depth: usize = 0;
    let mut buf: Vec<char> = Vec::new();
    let n = chars.len();
    for i in 0..n
        invariant
            n == chars@.len(),
            (out@.map_values(|s: String| s@), depth as int, buf@) == segment_state(chars@.take(i as int)),
    {
        proof {
            assert(chars@.take(i + 1).drop_last() == chars@.take(i as int));
            lemma_segment_depth(chars@.take(i as int));
        }
        let ch = chars[i];
        if ch == '[' {
            depth = depth + 1;
            buf.push(ch);
        } else if ch == ']' {
            depth = if depth > 0 { depth - 1 } else { 0 };
            buf.push(ch);
        } else if ch == '.' && depth == 0 {
            if buf.len() > 0 {
                let ghost before = out@;
                let piece = string_of(buf.as_slice());
                out.push(piece);
                assert(out@.map_values(|s: String| s@) =~= before.map_values(|s: String| s@).push(buf@));
            }
            buf = Vec::new();
        } else {
            buf.push(ch);
        }
    }
    assert(chars@.take(n as int) == chars@);
    if buf.len() > 0 {
        let ghost before = out@;
        let piece = string_of(buf.as_slice());
        out.push(piece);
        assert(out@.map_values(|s: String| s@) =~= before.map_values(|s: String| s@).push(buf@));
    }
    out
}

/// The selector in a segment's `[...]` suffix.
pub enum Sel {
    /// No `[...]` selector: the field itself.
    Bare,
    Index(usize),
    Star,
    Filter { key: String, val: String },
}

/// A selector as mathematical values.
pub enum SelView {
    Bare,
    Index(nat),
    Star,
    Filter(Seq<char>, Seq<char>),
}

impl Sel {
    /// The selector's mathematical value.
    pub open spec fn view(&self) -> SelView {
        match self {
            Sel::Bare => SelView::Bare,
            Sel::Index(i) => SelView::Index(*i as nat),
            Sel::Star => SelView::Star,
            Sel::Filter { key, val } => SelView::Filter(key@, val@),
        }
    }
}

/// ASCII decimal digit.
pub open spec fn is_digit(c: char) -> bool {
    '0' <= c && c <= '9'
}

/// The value of a sequence of decimal digits.
pub open spec fn digits_value(d: Seq<char>) -> nat
    decreases d.len(),
{
    if d.len() == 0 {
        0
    } else {
        digits_value(d.drop_last()) * 10 + ((d.last() as nat) - ('0' as nat)) as nat
    }
}

/// The digits of an unsigned number: without one leading `+`.
pub open spec fn unsigned_digits(s: Seq<char>) -> Seq<char> {
    if s.len() > 0 && s[0] == '+' {
        s.drop_first()
    } else {
        s
    }
}

/// Every character is a decimal digit.
pub open spec fn all_digits(d: Seq<char>) -> bool {
    forall|i: int| 0 <= i < d.len() ==> is_digit(d[i])
}

/// `usize::from_str`: an optional `+`, then one or more decimal digits, with a value
/// that fits in `usize`.
pub open spec fn parse_usize(s: Seq<char>) -> Option<nat> {
    let d = unsigned_digits(s);
    if d.len() > 0 && all_digits(d) && digits_value(d) <= usize::MAX {
        Some(digits_value(d))
    } else {
        None
    }
}

proof fn lemma_digits_monotone(d: Seq<char>, i: int)
    requires
        0 <= i <= d.len(),
        forall|k: int| 0 <= k < d.len() ==> is_digit(d[k]),
    ensures
        digits_value(d.take(i)) <= digits_value(d),
    decreases d.len() - i,
{
    if i < d.len() {
        lemma_digits_monotone(d, i + 1);
        assert(d.take(i + 1).drop_last() == d.take(i));
    } else {
        assert(d.take(i) == d);
    }
}

/// Parses a `usize` the way `str::parse::<usize>` does.
pub fn parse_usize_chars(s: &[char]) -> (r: Option<usize>)
    ensures
        match r {
            Some(v) => parse_usize(s@) == Some(v as nat),
            None => parse_usize(s@) is None,
        },
{
    let start: usize = if s.len() > 0 && s[0] == '+' { 1 } else { 0 };
    let d = sub_chars(s, start, s.len());
    assert(d@ == unsigned_digits(s@));
    if d.len() == 0 {
        return None;
    }
    let mut acc: usize = 0;
    let n = d.len();
    for i in 0..n
        invariant
            n == d@.len(),
            n > 0,
            d@ == unsigned_digits(s@),
            forall|k: int| 0 <= k < i ==> is_digit(d@[k]),
            acc as nat == digits_value(d@.take(i as int)),
    {
        assert(d@.take(i + 1).drop_last() == d@.take(i as int));
        let c = d[i];
        if !('0' <= c && c <= '9') {
            assert(!is_digit(d@[i as int]));
            return None;
        }
        let digit = (c as u32 - '0' as u32) as usize;
        let next = match acc.checked_mul(10) {
            Some(m) => m.checked_add(digit),
            None => None,
        };
        match next {
            Some(v) => {
                acc = v;
            },
            None => {
                proof {
                    if all_digits(d@) {
                        lemma_digits_monotone(d@, i + 1);
                    }
                }
                return None;
            },
        }
    }
    assert(d@.take(n as int) == d@);
    Some(acc)
}

/// The body of a `?(...)` filter.
pub open spec fn filter_body(inner: Seq<char>) -> Option<Seq<char>> {
    if !starts_with(inner, "?("@) {
        None
    } else {
        let a = inner.skip(2);
        if !ends_with(a, seq![')']) {
            None
        } else {
            Some(a.take(a.len() - 1))
        }
    }
}

/// The trimmed key after `@.` and the trimmed right-hand side after `==`.
#[verifier::opaque]
pub open spec fn filter_sides(b: Seq<char>) -> Option<(Seq<char>, Seq<char>)> {
    let at = first_occurrence(b, "@."@);
    if at < 0 {
        None
    } else {
        let ks = at + 2;
        let eqr = first_occurrence(b.skip(ks), "=="@);
        if eqr < 0 {
            None
        } else {
            let eq = eqr + ks;
            Some((trim_ws(b.subrange(ks, eq)), trim_ws(b.skip(eq + 2))))
        }
    }
}

/// The text of a value quoted with `"` or `'`.
pub open spec fn quoted_value(rhs: Seq<char>) -> Option<Seq<char>> {
    if rhs.len() == 0 {
        None
    } else {
        let q = rhs[0];
        if q != '"' && q != '\'' {
            None
        } else {
            let r1 = rhs.skip(1);
            if !ends_with(r1, seq![q]) {
                None
            } else {
                Some(r1.take(r1.len() - 1))
            }
        }
    }
}

/// A `?(@.key=="value")` filter (single or double quotes) as (key, value).
pub open spec fn spec_parse_filter(inner: Seq<char>) -> Option<(Seq<char>, Seq<char>)> {
    match filter_body(inner) {
        None => None,
        Some(b) => match filter_sides(b) {
            None => None,
            Some((key, rhs)) => match quoted_value(rhs) {
                None => None,
                Some(val) => Some((key, val)),
            },
        },
    }
}

fn filter_body_chars(inner: &[char]) -> (r: Option<Vec<char>>)
    ensures
        match r {
            Some(b) => filter_body(inner@) == Some(b@),
            None => filter_body(inner@) is None,
        },
{
    let open: [char; 2] = ['?', '('];
    proof {
        reveal_strlit("?(");
    }
    assert(open@ =~= "?("@);
    let a = match strip_prefix_chars(inner, &open) {
        Some(a) => a,
        None => return None,
    };
    let close: [char; 1] = [')'];
    assert(close@ =~= seq![')']);
    strip_suffix_chars(a.as_slice(), &close)
}

fn filter_sides_chars(b: &[char]) -> (r: Option<(Vec<char>, Vec<char>)>)
    ensures
        match r {
            Some((k, v)) => filter_sides(b@) == Some((k@, v@)),
            None => filter_sides(b@) is None,
        },
{
    proof {
        reveal_strlit("@.");
        reveal_strlit("==");
        reveal(filter_sides);
    }
    let at_pat: [char; 2] = ['@', '.'];
    assert(at_pat@ =~= "@."@);
    let at = match find_chars(b, &at_pat) {
        Some(i) => i,
        None => return None,
    };
    assert(b@.len() == b.len());
    assert(at + at_pat@.len() <= b@.len());
    let ks = at + 2;
    let tail = sub_chars(b, ks, b.len());
    assert(tail@ == b@.skip(ks as int));
    let eq_pat: [char; 2] = ['=', '='];
    assert(eq_pat@ =~= "=="@);
    let eqr = match find_chars(tail.as_slice(), &eq_pat) {
        Some(i) => i,
        None => return None,
    };
    assert(eqr + eq_pat@.len() <= tail@.len());
    let eq = eqr + ks;
    let key_raw = sub_chars(b, ks, eq);
    let key = trim_chars(key_raw.as_slice());
    let rhs_raw = sub_chars(b, eq + 2, b.len());
    assert(rhs_raw@ == b@.skip(eq + 2));
    let rhs = trim_chars(rhs_raw.as_slice());
    Some((key, rhs))
}

fn quoted_value_chars(rhs: &[char]) -> (r: Option<Vec<char>>)
    ensures
        match r {
            Some(v) => quoted_value(rhs@) == Some(v@),
            None => quoted_value(rhs@) is None,
        },
{
    if rhs.len() == 0 {
        return None;
    }
    let q = rhs[0];
    if q != '"' && q != '\'' {
        return None;
    }
    let r1 = sub_chars(rhs, 1, rhs.len());
    assert(r1@ == rhs@.skip(1));
    let qs: [char; 1] = [q];
    assert(qs@ =~= seq![q]);
    strip_suffix_chars(r1.as_slice(), &qs)
}

/// Parses a `?(@.key=="value")` filter.
pub fn parse_filter(inner: &str) -> (r: Option<Sel>)
    ensures
        match r {
            Some(sel) => sel@ matches SelView::Filter(k, v) && spec_parse_filter(inner@) == Some((k, v)),
            None => spec_parse_filter(inner@) is None,
        },
{
    let chars = chars_of(inner);
    let b = match filter_body_chars(chars.as_slice()) {
        Some(b) => b,
        None => return None,
    };
    let (key, rhs) = match filter_sides_chars(b.as_slice()) {
        Some(p) => p,
        None => return None,
    };
    let val = match quoted_value_chars(rhs.as_slice()) {
        Some(v) => v,
        None => return None,
    };
    Some(Sel::Filter { key: string_of(key.as_slice()), val: string_of(val.as_slice()) })
}

/// Splits a segment such as `conditions[?(@.type=="Ready")]` into its field name and selector.
pub open spec fn spec_parse_segment(seg: Seq<char>) -> (Seq<char>, SelView) {
    let open = first_index(seg, '[');
    if open == seg.len() {
        (seg, SelView::Bare)
    } else {
        let inner = trim_end_char(seg.skip(open + 1), ']');
        (
            seg.take(open),
            if inner == seq!['*'] {
                SelView::Star
            } else if parse_usize(inner) is Some {
                SelView::Index(parse_usize(inner)->0)
            } else if spec_parse_filter(inner) is Some {
                let f = spec_parse_filter(inner)->0;
                SelView::Filter(f.0, f.1)
            } else {
                SelView::Bare
            },
        )
    }
}

/// Splits a path segment into its field name and its bracket selector.
pub fn parse_segment(seg: &str) -> (r: (String, Sel))
    ensures
        (r.0@, r.1@) == spec_parse_segment(seg@),
{
    let chars = chars_of(seg);
    let open = find_char(chars.as_slice(), '[');
    if open == chars.len() {
        return (string_of(chars.as_slice()), Sel::Bare);
    }
    let field = sub_chars(chars.as_slice(), 0, open);
    let after = sub_chars(chars.as_slice(), open + 1, chars.len());
    assert(after@ == seg@.skip(open + 1));
    let inner = trim_end_matches(after.as_slice(), ']');
    let sel = if inner.len() == 1 && inner[0] == '*' {
        assert(inner@ =~= seq!['*']);
        Sel::Star
    } else {
        assert(inner@ != seq!['*']);
        match parse_usize_chars(inner.as_slice()) {
            Some(i) => Sel::Index(i),
            None => {
                let inner_s = string_of(inner.as_slice());
                match parse_filter(inner_s.as_str()) {
                    Some(f) => f,
                    None => Sel::Bare,
                }
            },
        }
    };
    (string_of(field.as_slice()), sel)
}


/// The text of a scalar (string, number or boolean).
pub open spec fn scalar_text(j: Json) -> Option<Seq<char>> {
    match j {
        Json::Str(s) => Some(s@),
        Json::Number(t, _) => Some(t@),
        Json::Bool(b) => Some(if b { "true"@ } else { "false"@ }),
        _ => None,
    }
}

/// Every element is a scalar.
pub open spec fn all_scalars(a: Seq<Json>) -> bool {
    forall|i: int| 0 <= i < a.len() ==> scalar_text(a[i]) is Some
}

/// The texts of scalar elements.
pub open spec fn scalar_texts(a: Seq<Json>) -> Seq<Seq<char>> {
    a.map_values(|e: Json| scalar_text(e)->0)
}

/// How a matched value is shown in a cell: scalars as text; an array of scalars
/// as its elements joined by newlines, any other array as its length; anything
/// else as nothing.
pub open spec fn spec_render_scalar(j: Json) -> Seq<char> {
    match j {
        Json::Array(a) => if all_scalars(a@) {
            join(scalar_texts(a@), "\n"@)
        } else {
            decimal(a@.len())
        },
        _ => match scalar_text(j) {
            Some(t) => t,
            None => Seq::empty(),
        },
    }
}

fn scalar_text_of(j: &Json) -> (r: Option<String>)
    ensures
        match r {
            Some(t) => scalar_text(*j) == Some(t@),
            None => scalar_text(*j) is None,
        },
{
    match j {
        Json::Str(s) => Some(owned(s.as_str())),
        Json::Number(t, _) => Some(owned(t.as_str())),
        Json::Bool(b) => Some(
            if *b {
                owned("true")
            } else {
                owned("false")
            },
        ),
        _ => None,
    }
}

/// Renders a matched value for display in a table cell.
pub fn render_scalar(v: &Json) -> (r: String)
    ensures
        r@ == spec_render_scalar(*v),
{
    match v {
        Json::Array(a) => {
            let mut texts: Vec<String> = Vec::new();
            let n = a.len();
            for i in 0..n
                invariant
                    n == a@.len(),
                    *v == Json::Array(*a),
                    forall|k: int| 0 <= k < i ==> scalar_text(a@[k]) is Some,
                    texts@.map_values(|t: String| t@) == scalar_texts(a@.take(i as int)),
            {
                match scalar_text_of(&a[i]) {
                    Some(t) => {
                        let ghost before = texts@;
                        let ghost tv = t@;
                        texts.push(t);
                        assert(texts@.map_values(|t: String| t@) =~= before.map_values(
                            |t: String| t@,
                        ).push(tv));
                        assert(a@.take(i + 1) =~= a@.take(i as int).push(a@[i as int]));
                        assert(scalar_texts(a@.take(i + 1)) =~= scalar_texts(a@.take(i as int)).push(tv));
                    },
                    None => {
                        assert(!all_scalars(a@));
                        return usize_to_string(n);
                    },
                }
            }
            assert(a@.take(n as int) == a@);
            join_strings(texts.as_slice(), "\n")
        },
        _ => match scalar_text_of(v) {
            Some(t) => t,
            None => String::new(),
        },
    }
}

/// Array elements whose `key` member renders as `val`.
pub open spec fn filter_matching(a: Seq<Json>, key: Seq<char>, val: Seq<char>) -> Seq<Json>
    decreases a.len(),
{
    if a.len() == 0 {
        Seq::empty()
    } else {
        let prev = filter_matching(a.drop_last(), key, val);
        match json_get(a.last(), key) {
            Some(x) => if spec_render_scalar(x) == val {
                prev.push(a.last())
            } else {
                prev
            },
            None => prev,
        }
    }
}

/// The values one segment selects from `v`.
pub open spec fn select_one(v: Json, field: Seq<char>, sel: SelView) -> Seq<Json> {
    let target = if field.len() == 0 {
        Some(v)
    } else {
        json_get(v, field)
    };
    match target {
        None => Seq::empty(),
        Some(t) => match sel {
            SelView::Bare => seq![t],
            SelView::Index(i) => match t {
                Json::Array(a) => if i < a@.len() {
                    seq![a@[i as int]]
                } else {
                    Seq::empty()
                },
                _ => Seq::empty(),
            },
            SelView::Star => match t {
                Json::Array(a) => a@,
                _ => Seq::empty(),
            },
            SelView::Filter(key, val) => match t {
                Json::Array(a) => filter_matching(a@, key, val),
                _ => Seq::empty(),
            },
        },
    }
}

/// The values one segment selects from each of `cur`, in order.
pub open spec fn select_all(cur: Seq<Json>, field: Seq<char>, sel: SelView) -> Seq<Json>
    decreases cur.len(),
{
    if cur.len() == 0 {
        Seq::empty()
    } else {
        select_all(cur.drop_last(), field, sel) + select_one(cur.last(), field, sel)
    }
}

/// The values a list of segments selects from `root`.
pub open spec fn eval_values(root: Json, segs: Seq<Seq<char>>) -> Seq<Json>
    decreases segs.len(),
{
    if segs.len() == 0 {
        seq![root]
    } else {
        let parsed = spec_parse_segment(segs.last());
        select_all(eval_values(root, segs.drop_last()), parsed.0, parsed.1)
    }
}

/// Rendered texts of `vals`, empty ones left out.
pub open spec fn nonempty_renders(vals: Seq<Json>) -> Seq<Seq<char>>
    decreases vals.len(),
{
    if vals.len() == 0 {
        Seq::empty()
    } else {
        let prev = nonempty_renders(vals.drop_last());
        let r = spec_render_scalar(vals.last());
        if r.len() > 0 {
            prev.push(r)
        } else {
            prev
        }
    }
}

/// The value of a printer-column JSONPath on an object: the non-empty renderings
/// of every matched value, joined by newlines.
pub open spec fn spec_eval(path: Seq<char>, root: Json) -> Seq<char> {
    join(nonempty_renders(eval_values(root, spec_segments(trim_start_char(path, '.')))), "\n"@)
}

fn filter_into<'a>(next: &mut Vec<&'a Json>, a: &'a Vec<Json>, key: &str, val: &str)
    ensures
        derefs(final(next)@) == derefs(old(next)@) + filter_matching(a@, key@, val@),
{
    let n = a.len();
    for i in 0..n
        invariant
            n == a@.len(),
            derefs(next@) == derefs(old(next)@) + filter_matching(a@.take(i as int), key@, val@),
    {
        assert(a@.take(i + 1).drop_last() == a@.take(i as int));
        let e = &a[i];
        let keep = match e.get(key) {
            Some(x) => {
                let r = render_scalar(x);
                str_eq(r.as_str(), val)
            },
            None => false,
        };
        if keep {
            let ghost before = next@;
            next.push(e);
            assert(derefs(next@) =~= derefs(before).push(*e));
        }
    }
    assert(a@.take(n as int) == a@);
}

fn select_into<'a>(next: &mut Vec<&'a Json>, v: &'a Json, field: &str, sel: &Sel)
    ensures
        derefs(final(next)@) == derefs(old(next)@) + select_one(*v, field@, sel@),
{
    let target = if field.is_empty() {
        Some(v)
    } else {
        v.get(field)
    };
    let t = match target {
        Some(t) => t,
        None => {
            assert(derefs(old(next)@) + Seq::<Json>::empty() =~= derefs(old(next)@));
            return;
        },
    };
    match sel {
        Sel::Bare => {
            next.push(t);
            assert(derefs(next@) =~= derefs(old(next)@) + seq![*t]);
        },
        Sel::Index(i) => {
            match t.as_array() {
                Some(a) => {
                    if *i < a.len() {
                        next.push(&a[*i]);
                        assert(derefs(next@) =~= derefs(old(next)@) + seq![a@[*i as int]]);
                    } else {
                        assert(derefs(old(next)@) + Seq::<Json>::empty() =~= derefs(old(next)@));
                    }
                },
                None => {
                    assert(derefs(old(next)@) + Seq::<Json>::empty() =~= derefs(old(next)@));
                },
            }
        },
        Sel::Star => {
            match t.as_array() {
                Some(a) => {
                    let n = a.len();
                    for k in 0..n
                        invariant
                            n == a@.len(),
                            derefs(next@) == derefs(old(next)@) + a@.take(k as int),
                    {
                        let ghost before = next@;
                        next.push(&a[k]);
                        assert(derefs(next@) =~= derefs(before).push(a@[k as int]));
                        assert(a@.take(k + 1) =~= a@.take(k as int).push(a@[k as int]));
                    }
                    assert(a@.take(n as int) == a@);
                },
                None => {
                    assert(derefs(old(next)@) + Seq::<Json>::empty() =~= derefs(old(next)@));
                },
            }
        },
        Sel::Filter { key, val } => {
            match t.as_array() {
                Some(a) => {
                    filter_into(next, a, key.as_str(), val.as_str());
                },
                None => {
                    assert(derefs(old(next)@) + Seq::<Json>::empty() =~= derefs(old(next)@));
                },
            }
        },
    }
}

/// Evaluates a Kubernetes-dialect JSONPath (`.a.b`, `.x[0]`, `.x[*]`,
/// `.x[?(@.k=="v")]`) against an object and renders what it matches.
pub fn eval(path: &str, root: &Json) -> (r: String)
    ensures
        r@ == spec_eval(path@, *root),
{
    let chars = chars_of(path);
    let trimmed = trim_start_matches(chars.as_slice(), '.');
    let trimmed_s = string_of(trimmed.as_slice());
    let segs = segments(trimmed_s.as_str());
    let ghost sv = segs@.map_values(|s: String| s@);
    let mut cur: Vec<&Json> = Vec::new();
    cur.push(root);
    assert(derefs(cur@) =~= seq![*root]);
    let m = segs.len();
    for k in 0..m
        invariant
            m == segs@.len(),
            sv == segs@.map_values(|s: String| s@),
            derefs(cur@) == eval_values(*root, sv.take(k as int)),
    {
        assert(sv.take(k + 1).drop_last() == sv.take(k as int));
        assert(sv.take(k + 1).last() == segs@[k as int]@);
        let (field, sel) = parse_segment(segs[k].as_str());
        let mut next: Vec<&Json> = Vec::new();
        let c = cur.len();
        assert(derefs(next@) =~= Seq::<Json>::empty());
        for i in 0..c
            invariant
                c == cur@.len(),
                derefs(next@) == select_all(derefs(cur@).take(i as int), field@, sel@),
        {
            assert(derefs(cur@).take(i + 1).drop_last() == derefs(cur@).take(i as int));
            select_into(&mut next, cur[i], field.as_str(), &sel);
        }
        assert(derefs(cur@).take(c as int) == derefs(cur@));
        cur = next;
    }
    assert(sv.take(m as int) == sv);
    let mut rendered: Vec<String> = Vec::new();
    let c = cur.len();
    for i in 0..c
        invariant
            c == cur@.len(),
            rendered@.map_values(|t: String| t@) == nonempty_renders(derefs(cur@).take(i as int)),
    {
        assert(derefs(cur@).take(i + 1).drop_last() == derefs(cur@).take(i as int));
        let r = render_scalar(cur[i]);
        if !r.as_str().is_empty() {
            let ghost before = rendered@;
            let ghost rv = r@;
            rendered.push(r);
            assert(rendered@.map_values(|t: String| t@) =~= before.map_values(|t: String| t@).push(
                rv,
            ));
        }
    }
    assert(derefs(cur@).take(c as int) == derefs(cur@));
    join_strings(rendered.as_slice(), "\n")
}

/// An index selector picks out exactly the element it names: when a segment's
/// field holds an array `a`, the selector `[i]` selects `a[i]` alone when `i`
/// is below the array's length, and nothing otherwise.
pub proof fn lemma_index_selects_element(v: Json, field: Seq<char>, a: Vec<Json>, i: nat)
    requires
        field.len() > 0,
        json_get(v, field) == Some(Json::Array(a)),
    ensures
        i < a@.len() ==> select_one(v, field, SelView::Index(i)) == seq![a@[i as int]],
        a@.len() <= i ==> select_one(v, field, SelView::Index(i)).len() == 0,
{
}

/// Where the leading segments of a path match exactly one value `v`, one more
/// segment selects from `v` alone: the path then matches what that segment's
/// field and selector pick out of `v`.
pub proof fn lemma_eval_step_single(root: Json, segs: Seq<Seq<char>>, seg: Seq<char>, v: Json)
    requires
        eval_values(root, segs) == seq![v],
    ensures
        eval_values(root, segs.push(seg)) == select_one(
            v,
            spec_parse_segment(seg).0,
            spec_parse_segment(seg).1,
        ),
{
    assert(segs.push(seg).drop_last() == segs);
    assert(seq![v].drop_last() == Seq::<Json>::empty());
    let p = spec_parse_segment(seg);
    assert(select_all(seq![v], p.0, p.1) == select_all(Seq::<Json>::empty(), p.0, p.1)
        + select_one(v, p.0, p.1));
    assert(Seq::<Json>::empty() + select_one(v, p.0, p.1) == select_one(v, p.0, p.1));
}

/// A path that matches exactly one value shows that value's rendering.
pub proof fn lemma_eval_single_value(path: Seq<char>, root: Json, x: Json)
    requires
        eval_values(root, spec_segments(trim_start_char(path, '.'))) == seq![x],
    ensures
        spec_eval(path, root) == spec_render_scalar(x),
{
    let r = spec_render_scalar(x);
    assert(seq![x].drop_last() == Seq::<Json>::empty());
    assert(seq![x].last() == x);
    assert(nonempty_renders(Seq::<Json>::empty()) == Seq::<Seq<char>>::empty());
    if r.len() > 0 {
        assert(nonempty_renders(seq![x]) == Seq::<Seq<char>>::empty().push(r));
        assert(Seq::<Seq<char>>::empty().push(r) == seq![r]);
    } else {
        assert(nonempty_renders(seq![x]) == Seq::<Seq<char>>::empty());
        assert(r == Seq::<char>::empty());
    }
}

/// What a segment's other selectors pick out of the value `x` its field names:
/// no selector gives `x` itself, `[*]` every element of an array in order,
/// `[?(@.key=="val")]` the elements whose `key` member renders as `val`, in
/// order; on a value that is not an array, `[*]`, `[i]` and filters select
/// nothing, and a field that is absent selects nothing at all.
pub proof fn lemma_segment_selectors(v: Json, field: Seq<char>, sel: SelView)
    requires
        field.len() > 0,
    ensures
        json_get(v, field) is None ==> select_one(v, field, sel).len() == 0,
        json_get(v, field) matches Some(x) ==> select_one(v, field, SelView::Bare) == seq![x],
        json_get(v, field) matches Some(Json::Array(a)) ==> select_one(v, field, SelView::Star) == a@,
        json_get(v, field) matches Some(x) && !(x is Array) && !(sel is Bare) ==> select_one(v, field, sel).len() == 0,
        json_get(v, field) matches Some(Json::Array(a)) ==> (sel matches SelView::Filter(key, val)
            ==> select_one(v, field, sel) == elements_rendering_as(a@, key, val)),
{
    if let Some(Json::Array(a)) = json_get(v, field) {
        if let SelView::Filter(key, val) = sel {
            lemma_filter_matching(a@, key, val);
        }
    }
}

/// Element `e`'s member `key` renders as `val`.
pub open spec fn member_renders_as(e: Json, key: Seq<char>, val: Seq<char>) -> bool {
    match json_get(e, key) {
        Some(x) => spec_render_scalar(x) == val,
        None => false,
    }
}

/// The elements of `a` whose member `key` renders as `val`, in order.
pub open spec fn elements_rendering_as(a: Seq<Json>, key: Seq<char>, val: Seq<char>) -> Seq<Json> {
    a.filter(|e: Json| member_renders_as(e, key, val))
}

/// A filter keeps exactly the elements whose `key` member renders as `val`, in
/// their order.
pub proof fn lemma_filter_matching(a: Seq<Json>, key: Seq<char>, val: Seq<char>)
    ensures
        filter_matching(a, key, val) == elements_rendering_as(a, key, val),
    decreases a.len(),
{
    reveal(Seq::filter);
    if a.len() > 0 {
        lemma_filter_matching(a.drop_last(), key, val);
    }
}

/// A segment written `field[n]`, with a field free of `[` and `n` decimal
/// digits of a value that fits in `usize`, selects element `n` of `field`; one
/// written `field[*]` selects all of its elements; one with no `[` the field
/// itself.
pub proof fn lemma_parse_segment_forms(field: Seq<char>, d: Seq<char>)
    requires
        forall|k: int| 0 <= k < field.len() ==> field[k] != '[',
    ensures
        d.len() > 0 && all_digits(d) && digits_value(d) <= usize::MAX ==> spec_parse_segment(
            field + seq!['['] + d + seq![']'],
        ) == (field, SelView::Index(digits_value(d))),
        spec_parse_segment(field + seq!['[', '*', ']']) == (field, SelView::Star),
        spec_parse_segment(field) == (field, SelView::Bare),
{
    crate::text::lemma_first_index(field, '[', field.len() as int);
    let star = field + seq!['[', '*', ']'];
    crate::text::lemma_first_index(star, '[', field.len() as int);
    assert(star.take(field.len() as int) == field);
    assert(star.skip(field.len() as int + 1) == seq!['*', ']']);
    assert(seq!['*', ']'].drop_last() == seq!['*']);
    assert(trim_end_char(seq!['*'], ']') == seq!['*']);
    if d.len() > 0 && all_digits(d) && digits_value(d) <= usize::MAX {
        let seg = field + seq!['['] + d + seq![']'];
        crate::text::lemma_first_index(seg, '[', field.len() as int);
        assert(seg.take(field.len() as int) == field);
        assert(seg.skip(field.len() as int + 1) == d + seq![']']);
        assert((d + seq![']']).drop_last() == d);
        assert(is_digit(d.last()));
        assert(trim_end_char(d, ']') == d);
        assert(is_digit(d[0]));
        assert(unsigned_digits(d) == d);
        assert(d != seq!['*']) by {
            assert(is_digit(d[0]));
        }
    }
}

/// A column path `.field[n]` shows the rendering of element `n` of the
/// object's `field` array when the array has such an element, and nothing
/// when it is shorter.
pub proof fn lemma_eval_indexed_field(field: Seq<char>, d: Seq<char>, root: Json, a: Vec<Json>)
    requires
        field.len() > 0,
        forall|k: int| 0 <= k < field.len() ==> field[k] != '.' && field[k] != '[',
        d.len() > 0,
        all_digits(d),
        digits_value(d) <= usize::MAX,
        json_get(root, field) == Some(Json::Array(a)),
    ensures
        digits_value(d) < a@.len() ==> spec_eval(seq!['.'] + field + seq!['['] + d + seq![']'], root)
            == spec_render_scalar(a@[digits_value(d) as int]),
        a@.len() <= digits_value(d) ==> spec_eval(seq!['.'] + field + seq!['['] + d + seq![']'], root)
            == Seq::<char>::empty(),
{
    let seg = field + seq!['['] + d + seq![']'];
    let path = seq!['.'] + seg;
    assert(path == seq!['.'] + field + seq!['['] + d + seq![']']);
    assert(path.drop_first() == seg);
    assert(seg[0] == field[0]);
    assert(trim_start_char(seg, '.') == seg);
    assert(trim_start_char(path, '.') == seg);
    assert forall|k: int| 0 <= k < seg.len() implies seg[k] != '.' by {
        if k < field.len() {
            assert(seg[k] == field[k]);
        } else if k > field.len() && k < field.len() + 1 + d.len() {
            assert(seg[k] == d[k - field.len() - 1]);
            assert(is_digit(d[k - field.len() - 1]));
        }
    }
    lemma_segments_split_on_dots(Seq::<char>::empty(), seg);
    lemma_parse_segment_forms(field, d);
    let n = digits_value(d);
    let empty_segs = Seq::<Seq<char>>::empty();
    assert(eval_values(root, empty_segs) == seq![root]);
    assert(empty_segs.push(seg) == seq![seg]);
    lemma_eval_step_single(root, empty_segs, seg, root);
    lemma_index_selects_element(root, field, a, n);
    if n < a@.len() {
        lemma_eval_single_value(path, root, a@[n as int]);
    } else {
        assert(eval_values(root, seq![seg]) == Seq::<Json>::empty());
        assert(nonempty_renders(Seq::<Json>::empty()) == Seq::<Seq<char>>::empty());
    }
}

} // verus!
