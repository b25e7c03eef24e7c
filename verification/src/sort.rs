//! Lexicographic order on strings, and sorting lists of strings by it.
//!
//! Characters compare by code point, which is the order `str`'s `Ord` gives
//! (UTF-8 byte order and code point order agree).
use vstd::prelude::*;
use crate::text::chars_of;
use crate::text::string_views;
use vstd::multiset::Multiset;

verus! {

broadcast use vstd::seq_lib::group_to_multiset_ensures;

/// `a` sorts strictly before `b`.
pub open spec fn lex_lt(a: Seq<char>, b: Seq<char>) -> bool
    decreases a.len(),
{
    if a.len() == 0 {
        b.len() > 0
    } else if b.len() == 0 {
        false
    } else if (a[0] as u32) < (b[0] as u32) {
        true
    } else if a[0] == b[0] {
        lex_lt(a.drop_first(), b.drop_first())
    } else {
        false
    }
}

/// `a` sorts before `b` or equals it.
pub open spec fn lex_le(a: Seq<char>, b: Seq<char>) -> bool {
    a == b || lex_lt(a, b)
}

/// Every element sorts before or equals every later one.
pub open spec fn sorted(s: Seq<Seq<char>>) -> bool {
    forall|i: int, j: int| 0 <= i < j < s.len() ==> lex_le(s[i], s[j])
}

/// No sequence sorts before itself.
pub proof fn lemma_lex_irreflexive(a: Seq<char>)
    ensures
        !lex_lt(a, a),
    decreases a.len(),
{
    if a.len() > 0 {
        lemma_lex_irreflexive(a.drop_first());
    }
}

/// The strict order is transitive.
pub proof fn lemma_lex_transitive(a: Seq<char>, b: Seq<char>, c: Seq<char>)
    requires
        lex_lt(a, b),
        lex_lt(b, c),
    ensures
        lex_lt(a, c),
    decreases a.len(),
{
    if a.len() > 0 && b.len() > 0 && c.len() > 0 {
        if a[0] == b[0] && b[0] == c[0] {
            lemma_lex_transitive(a.drop_first(), b.drop_first(), c.drop_first());
        }
    }
}

/// Two different sequences are ordered one way or the other.
pub proof fn lemma_lex_total(a: Seq<char>, b: Seq<char>)
    requires
        a != b,
    ensures
        lex_lt(a, b) || lex_lt(b, a),
    decreases a.len(),
{
    if a.len() > 0 && b.len() > 0 {
        if a[0] == b[0] {
            if a.drop_first() == b.drop_first() {
                assert(a =~= seq![a[0]] + a.drop_first());
                assert(b =~= seq![b[0]] + b.drop_first());
            }
            lemma_lex_total(a.drop_first(), b.drop_first());
        } else {
            vstd::utf8::char_u32_cast(a[0], a[0] as u32);
            vstd::utf8::char_u32_cast(b[0], b[0] as u32);
        }
    } else if a.len() == 0 && b.len() == 0 {
        assert(a =~= b);
    }
}

/// The elements of `s` in ascending order.
pub open spec fn spec_sort(s: Seq<Seq<char>>) -> Seq<Seq<char>> {
    choose|v: Seq<Seq<char>>| sorted(v) && v.to_multiset() == s.to_multiset()
}

/// Two sorted sequences holding the same elements are the same sequence.
pub proof fn lemma_sorted_unique(a: Seq<Seq<char>>, b: Seq<Seq<char>>)
    requires
        sorted(a),
        sorted(b),
        a.to_multiset() == b.to_multiset(),
    ensures
        a == b,
    decreases a.len(),
{
    broadcast use vstd::seq_lib::group_to_multiset_ensures;
    assert(a.len() == a.to_multiset().len());
    assert(b.len() == b.to_multiset().len());
    if a.len() == 0 {
        assert(a =~= b);
    } else {
        assert(a.to_multiset().count(a[0]) > 0);
        assert(b.contains(a[0]));
        let k = choose|k: int| 0 <= k < b.len() && b[k] == a[0];
        assert(b.to_multiset().count(b[0]) > 0);
        assert(a.contains(b[0]));
        let m = choose|m: int| 0 <= m < a.len() && a[m] == b[0];
        if k > 0 {
            assert(lex_le(b[0], b[k]));
        }
        if m > 0 {
            assert(lex_le(a[0], a[m]));
        }
        if a[0] != b[0] {
            if lex_lt(a[0], b[0]) && lex_lt(b[0], a[0]) {
                lemma_lex_transitive(a[0], b[0], a[0]);
                lemma_lex_irreflexive(a[0]);
            }
        }
        assert(a[0] == b[0]);
        assert(a.remove(0) =~= a.drop_first());
        assert(b.remove(0) =~= b.drop_first());
        lemma_sorted_unique(a.drop_first(), b.drop_first());
        assert forall|i: int| 0 <= i < a.len() implies a[i] == b[i] by {
            if i > 0 {
                assert(a[i] == a.drop_first()[i - 1]);
                assert(b[i] == b.drop_first()[i - 1]);
            }
        }
        assert(a =~= b);
    }
}

/// A sorted sequence with the elements of `s` is `spec_sort(s)`.
pub proof fn lemma_is_spec_sort(v: Seq<Seq<char>>, s: Seq<Seq<char>>)
    requires
        sorted(v),
        v.to_multiset() == s.to_multiset(),
    ensures
        v == spec_sort(s),
{
    let w = spec_sort(s);
    assert(sorted(w) && w.to_multiset() == s.to_multiset());
    lemma_sorted_unique(v, w);
}

/// Every list of strings has a sorted order: `spec_sort(s)` is sorted and holds
/// the elements of `s`, each as often.
pub proof fn lemma_spec_sort_permutes(s: Seq<Seq<char>>)
    ensures
        sorted(spec_sort(s)),
        spec_sort(s).to_multiset() == s.to_multiset(),
        spec_sort(s).len() == s.len(),
{
    let lt = |a: Seq<char>, b: Seq<char>| lex_lt(a, b);
    assert forall|a: Seq<char>| !#[trigger] lt(a, a) by {
        lemma_lex_irreflexive(a);
    }
    assert forall|a: Seq<char>, b: Seq<char>, c: Seq<char>| #[trigger] lt(a, b) && #[trigger] lt(b, c) implies lt(a, c) by {
        lemma_lex_transitive(a, b, c);
    }
    assert(strict_order(lt));
    let v = sort_by(s, lt);
    lemma_sort_by_in_order(s, lt);
    lemma_sort_by_permutes(s, lt);
    assert forall|i: int, j: int| 0 <= i < j < v.len() implies lex_le(v[i], v[j]) by {
        assert(!lt(v[j], v[i]));
        if v[i] != v[j] {
            lemma_lex_total(v[i], v[j]);
        }
    }
    assert(sorted(v) && v.to_multiset() == s.to_multiset());
    lemma_is_spec_sort(v, s);
}

/// Whether `a` sorts strictly before `b`.
pub fn chars_lt(a: &[char], b: &[char]) -> (r: bool)
    ensures
        r == lex_lt(a@, b@),
{
    let mut i: usize = 0;
    assert(a@.skip(0) == a@);
    assert(b@.skip(0) == b@);
    while i < a.len() && i < b.len()
        invariant
            i <= a@.len(),
            i <= b@.len(),
            lex_lt(a@, b@) == lex_lt(a@.skip(i as int), b@.skip(i as int)),
        decreases a@.len() - i,
    {
        let x = a[i] as u32;
        let y = b[i] as u32;
        if x < y {
            return true;
        }
        if x > y {
            return false;
        }
        proof {
            vstd::utf8::char_u32_cast(a@[i as int], x);
            vstd::utf8::char_u32_cast(b@[i as int], y);
        }
        assert(a@.skip(i as int).drop_first() == a@.skip(i + 1));
        assert(b@.skip(i as int).drop_first() == b@.skip(i + 1));
        i = i + 1;
    }
    i == a.len() && i < b.len()
}

/// Whether `a` sorts strictly before `b`.
pub fn str_lt(a: &str, b: &str) -> (r: bool)
    ensures
        r == lex_lt(a@, b@),
{
    let av = chars_of(a);
    let bv = chars_of(b);
    chars_lt(av.as_slice(), bv.as_slice())
}

/// `v` in ascending order (`slice::sort` on strings).
///
/// The result is sorted and holds the same strings as `v`, each as often.
pub fn sort_strings(v: Vec<String>) -> (r: Vec<String>)
    ensures
        sorted(string_views(r@)),
        string_views(r@).to_multiset() == string_views(v@).to_multiset(),
        string_views(r@) == spec_sort(string_views(v@)),
{
    let mut rest = v;
    let mut r: Vec<String> = Vec::new();
    assert(string_views(r@).to_multiset() =~= Multiset::empty());
    while rest.len() > 0
        invariant
            sorted(string_views(r@)),
            string_views(r@).to_multiset().add(string_views(rest@).to_multiset())
                == string_views(v@).to_multiset(),
        decreases rest@.len(),
    {
        let ghost before = rest@;
        let item = rest.pop().unwrap();
        proof {
            assert(before == rest@.push(item));
            assert(string_views(before) =~= string_views(rest@).push(item@));
        }
        let ic = chars_of(item.as_str());
        let mut p: usize = 0;
        while p < r.len() && !str_lt(item.as_str(), r[p].as_str())
            invariant
                p <= r@.len(),
                ic@ == item@,
                forall|k: int| 0 <= k < p ==> lex_le(#[trigger] string_views(r@)[k], item@),
            decreases r@.len() - p,
        {
            proof {
                let rp = string_views(r@)[p as int];
                if rp != item@ {
                    lemma_lex_total(rp, item@);
                }
            }
            p = p + 1;
        }
        let ghost old_r = r@;
        proof {
            let sv = string_views(old_r);
            assert forall|k: int| p <= k < sv.len() implies lex_lt(item@, #[trigger] sv[k]) by {
                if k > p {
                    assert(lex_le(sv[p as int], sv[k]));
                    if sv[p as int] != sv[k] {
                        lemma_lex_transitive(item@, sv[p as int], sv[k]);
                    }
                }
            }
        }
        r.insert(p, item);
        proof {
            let sv = string_views(old_r);
            assert(string_views(r@) =~= sv.insert(p as int, item@));
            let nv = string_views(r@);
            assert forall|i: int, j: int| 0 <= i < j < nv.len() implies lex_le(nv[i], nv[j]) by {
                if j < p {
                    assert(nv[i] == sv[i] && nv[j] == sv[j]);
                } else if j == p {
                    assert(nv[i] == sv[i]);
                } else if i < p {
                    assert(nv[i] == sv[i] && nv[j] == sv[j - 1]);
                    assert(lex_le(sv[i], item@));
                    if sv[i] != item@ {
                        lemma_lex_transitive(sv[i], item@, sv[j - 1]);
                    }
                } else if i == p {
                    assert(nv[j] == sv[j - 1]);
                } else {
                    assert(nv[i] == sv[i - 1] && nv[j] == sv[j - 1]);
                }
            }
            vstd::seq_lib::to_multiset_insert(sv, p as int, item@);
        }
    }
    proof {
        assert(string_views(rest@).to_multiset() =~= Multiset::empty());
        assert(string_views(r@).to_multiset().add(Multiset::empty()) =~= string_views(r@).to_multiset());
        lemma_is_spec_sort(string_views(r@), string_views(v@));
    }
    r
}

/// Where a stable insertion puts `x` in `r`: before the first element that
/// `x` sorts strictly before, so after every element it does not.
pub open spec fn insert_index<A>(r: Seq<A>, x: A, lt: spec_fn(A, A) -> bool) -> int
    decreases r.len(),
{
    if r.len() == 0 {
        0
    } else if lt(x, r[0]) {
        0
    } else {
        1 + insert_index(r.drop_first(), x, lt)
    }
}

/// `s` stably sorted by `lt`, as inserting its elements in turn does (the
/// order `slice::sort_by` gives): elements that `lt` does not tell apart keep
/// their order.
pub open spec fn sort_by<A>(s: Seq<A>, lt: spec_fn(A, A) -> bool) -> Seq<A>
    decreases s.len(),
{
    if s.len() == 0 {
        s
    } else {
        let r = sort_by(s.drop_last(), lt);
        r.insert(insert_index(r, s.last(), lt), s.last())
    }
}

/// `lt` is a strict order: irreflexive and transitive.
pub open spec fn strict_order<A>(lt: spec_fn(A, A) -> bool) -> bool {
    &&& forall|a: A| !#[trigger] lt(a, a)
    &&& forall|a: A, b: A, c: A| #[trigger] lt(a, b) && #[trigger] lt(b, c) ==> lt(a, c)
}

/// No element of `s` sorts strictly before an earlier one.
pub open spec fn in_order<A>(s: Seq<A>, lt: spec_fn(A, A) -> bool) -> bool {
    forall|i: int, j: int| 0 <= i < j < s.len() ==> !lt(#[trigger] s[j], #[trigger] s[i])
}

/// The insertion point lies after every element `x` does not sort before,
/// and at an element `x` sorts before.
pub proof fn lemma_insert_index<A>(r: Seq<A>, x: A, lt: spec_fn(A, A) -> bool)
    ensures
        0 <= insert_index(r, x, lt) <= r.len(),
        forall|k: int| 0 <= k < insert_index(r, x, lt) ==> !lt(x, #[trigger] r[k]),
        insert_index(r, x, lt) < r.len() ==> lt(x, r[insert_index(r, x, lt)]),
    decreases r.len(),
{
    if r.len() > 0 && !lt(x, r[0]) {
        lemma_insert_index(r.drop_first(), x, lt);
        assert forall|k: int| 0 <= k < insert_index(r, x, lt) implies !lt(x, #[trigger] r[k]) by {
            if k > 0 {
                assert(r[k] == r.drop_first()[k - 1]);
            }
        }
    }
}

/// A stable sort by a strict order leaves its result in order.
pub proof fn lemma_sort_by_in_order<A>(s: Seq<A>, lt: spec_fn(A, A) -> bool)
    requires
        strict_order(lt),
    ensures
        in_order(sort_by(s, lt), lt),
    decreases s.len(),
{
    if s.len() > 0 {
        let r = sort_by(s.drop_last(), lt);
        let x = s.last();
        lemma_sort_by_in_order(s.drop_last(), lt);
        lemma_insert_index(r, x, lt);
        let p = insert_index(r, x, lt);
        let t = r.insert(p, x);
        assert(t == sort_by(s, lt));
        assert forall|i: int, j: int| 0 <= i < j < t.len() implies !lt(#[trigger] t[j], #[trigger] t[i]) by {
            if j < p {
                assert(t[i] == r[i] && t[j] == r[j]);
            } else if j == p {
                assert(t[i] == r[i]);
            } else if i < p {
                assert(t[i] == r[i] && t[j] == r[j - 1]);
            } else if i == p {
                assert(t[j] == r[j - 1]);
                assert(lt(x, r[p]));
                if lt(r[j - 1], x) {
                    if j - 1 > p {
                        assert(!lt(r[j - 1], r[p]));
                    }
                    assert(lt(r[j - 1], r[p]));
                }
            } else {
                assert(t[i] == r[i - 1] && t[j] == r[j - 1]);
            }
        }
    }
}

/// A stable sort keeps every element, each as often.
pub proof fn lemma_sort_by_permutes<A>(s: Seq<A>, lt: spec_fn(A, A) -> bool)
    ensures
        sort_by(s, lt).to_multiset() == s.to_multiset(),
        sort_by(s, lt).len() == s.len(),
    decreases s.len(),
{
    broadcast use vstd::seq_lib::group_to_multiset_ensures;
    if s.len() > 0 {
        let r = sort_by(s.drop_last(), lt);
        lemma_sort_by_permutes(s.drop_last(), lt);
        lemma_insert_index(r, s.last(), lt);
        vstd::seq_lib::to_multiset_insert(r, insert_index(r, s.last(), lt), s.last());
        assert(s.drop_last().push(s.last()) =~= s);
    }
}

/// The first `n` elements of a sequence in order are in order.
pub proof fn lemma_in_order_take<A>(s: Seq<A>, n: int, lt: spec_fn(A, A) -> bool)
    requires
        in_order(s, lt),
        0 <= n <= s.len(),
    ensures
        in_order(s.take(n), lt),
{
    assert forall|i: int, j: int| 0 <= i < j < s.take(n).len() implies !lt(#[trigger] s.take(n)[j], #[trigger] s.take(n)[i]) by {
        assert(s.take(n)[j] == s[j] && s.take(n)[i] == s[i]);
    }
}

} // verus!
