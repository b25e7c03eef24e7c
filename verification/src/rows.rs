//! The rows an informer serves, keyed by object uid: a paged list is built
//! off to the side and replaces them only once its last page is in, and
//! watch events then apply or delete single rows.
use vstd::prelude::*;

use crate::text::{owned, str_eq};

verus! {

/// Rows keyed by uid; no uid is stored twice.
pub struct RowTable<T> {
    entries: Vec<(String, T)>,
}

/// The row stored under `uid` among `es`: the first match.
pub open spec fn find_row<T>(es: Seq<(String, T)>, uid: Seq<char>) -> Option<T>
    decreases es.len(),
{
    if es.len() == 0 {
        None
    } else if es[0].0@ == uid {
        Some(es[0].1)
    } else {
        find_row(es.drop_first(), uid)
    }
}

pub open spec fn unique_keys<T>(es: Seq<(String, T)>) -> bool {
    forall|a: int, b: int| 0 <= a < b < es.len() ==> (#[trigger] es[a]).0@ != (#[trigger] es[b]).0@
}

proof fn lemma_find_at<T>(es: Seq<(String, T)>, i: int)
    requires
        0 <= i < es.len(),
        unique_keys(es),
    ensures
        find_row(es, es[i].0@) == Some(es[i].1),
    decreases es.len(),
{
    if i > 0 {
        assert(es[0].0@ != es[i].0@);
        assert forall|a: int, b: int| 0 <= a < b < es.drop_first().len() implies (#[trigger] es.drop_first()[a]).0@
            != (#[trigger] es.drop_first()[b]).0@ by {
            assert(es.drop_first()[a] == es[a + 1]);
            assert(es.drop_first()[b] == es[b + 1]);
        }
        lemma_find_at(es.drop_first(), i - 1);
    }
}

proof fn lemma_find_absent<T>(es: Seq<(String, T)>, uid: Seq<char>)
    requires
        forall|j: int| 0 <= j < es.len() ==> (#[trigger] es[j]).0@ != uid,
    ensures
        find_row(es, uid) is None,
    decreases es.len(),
{
    if es.len() > 0 {
        assert(es[0].0@ != uid);
        assert forall|j: int| 0 <= j < es.drop_first().len() implies (#[trigger] es.drop_first()[j]).0@ != uid by {
            assert(es.drop_first()[j] == es[j + 1]);
        }
        lemma_find_absent(es.drop_first(), uid);
    }
}

proof fn lemma_find_found<T>(es: Seq<(String, T)>, uid: Seq<char>)
    requires
        find_row(es, uid) is Some,
    ensures
        exists|j: int| 0 <= j < es.len() && (#[trigger] es[j]).0@ == uid && es[j].1 == find_row(es, uid)->0,
    decreases es.len(),
{
    if es[0].0@ != uid {
        lemma_find_found(es.drop_first(), uid);
        let j = choose|j: int| 0 <= j < es.drop_first().len() && (#[trigger] es.drop_first()[j]).0@ == uid
            && es.drop_first()[j].1 == find_row(es.drop_first(), uid)->0;
        assert(es[j + 1] == es.drop_first()[j]);
    } else {
        assert(es[0].0@ == uid);
    }
}

impl<T> RowTable<T> {
    /// No uid is stored twice.
    pub closed spec fn wf(&self) -> bool {
        unique_keys(self.entries@)
    }

    /// The row stored under `uid`, if any.
    pub closed spec fn row(&self, uid: Seq<char>) -> Option<T> {
        find_row(self.entries@, uid)
    }

    /// A table with no rows.
    pub fn new() -> (r: RowTable<T>)
        ensures
            r.wf(),
            forall|uid: Seq<char>| #[trigger] r.row(uid) is None,
    {
        RowTable { entries: Vec::new() }
    }

    fn position(&self, uid: &str) -> (r: Option<usize>)
        requires
            self.wf(),
        ensures
            match r {
                Some(i) => i < self.entries@.len() && self.entries@[i as int].0@ == uid@,
                None => forall|j: int| 0 <= j < self.entries@.len() ==> (#[trigger] self.entries@[j]).0@ != uid@,
            },
    {
        let n = self.entries.len();
        for i in 0..n
            invariant
                n == self.entries@.len(),
                forall|j: int| 0 <= j < i ==> (#[trigger] self.entries@[j]).0@ != uid@,
        {
            if str_eq(self.entries[i].0.as_str(), uid) {
                return Some(i);
            }
        }
        None
    }

    /// Stores `row` under `uid`, replacing the row there was.
    pub fn insert(&mut self, uid: String, row: T)
        requires
            old(self).wf(),
        ensures
            final(self).wf(),
            forall|u: Seq<char>| #[trigger] final(self).row(u) == if u == uid@ {
                Some(row)
            } else {
                old(self).row(u)
            },
    {
        let ghost old_es = self.entries@;
        let ghost key = uid@;
        match self.position(uid.as_str()) {
            Some(i) => {
                let ghost e = (uid, row);
                self.entries.set(i, (uid, row));
                proof {
                    assert(self.entries@ == old_es.update(i as int, e));
                    assert forall|a: int, b: int| 0 <= a < b < self.entries@.len() implies (#[trigger] self.entries@[a]).0@
                        != (#[trigger] self.entries@[b]).0@ by {
                        assert(self.entries@[a].0@ == old_es[a].0@);
                        assert(self.entries@[b].0@ == old_es[b].0@);
                    }
                    assert forall|u: Seq<char>| #[trigger] self.row(u) == if u == key {
                        Some(e.1)
                    } else {
                        find_row(old_es, u)
                    } by {
                        if u == key {
                            lemma_find_at(self.entries@, i as int);
                        } else {
                            lemma_find_update(old_es, i as int, e, u);
                        }
                    }
                }
            },
            None => {
                let ghost e = (uid, row);
                self.entries.push((uid, row));
                proof {
                    assert(self.entries@ == old_es.push(e));
                    assert forall|a: int, b: int| 0 <= a < b < self.entries@.len() implies (#[trigger] self.entries@[a]).0@
                        != (#[trigger] self.entries@[b]).0@ by {
                        assert(self.entries@[a] == old_es[a]);
                        if b < old_es.len() {
                            assert(self.entries@[b] == old_es[b]);
                        }
                    }
                    assert forall|u: Seq<char>| #[trigger] self.row(u) == if u == key {
                        Some(e.1)
                    } else {
                        find_row(old_es, u)
                    } by {
                        lemma_find_push(old_es, e, u);
                    }
                }
            },
        }
    }

    /// Removes the row under `uid`; says whether there was one.
    pub fn remove(&mut self, uid: &str) -> (r: bool)
        requires
            old(self).wf(),
        ensures
            final(self).wf(),
            r == old(self).row(uid@) is Some,
            forall|u: Seq<char>| #[trigger] final(self).row(u) == if u == uid@ {
                None
            } else {
                old(self).row(u)
            },
    {
        let ghost old_es = self.entries@;
        match self.position(uid) {
            Some(i) => {
                proof {
                    lemma_find_at(old_es, i as int);
                }
                self.entries.remove(i);
                proof {
                    assert(self.entries@ == old_es.remove(i as int));
                    assert forall|a: int, b: int| 0 <= a < b < self.entries@.len() implies (#[trigger] self.entries@[a]).0@
                        != (#[trigger] self.entries@[b]).0@ by {
                        let oa = if a < i { a } else { a + 1 };
                        let ob = if b < i { b } else { b + 1 };
                        assert(self.entries@[a] == old_es[oa]);
                        assert(self.entries@[b] == old_es[ob]);
                    }
                    assert forall|u: Seq<char>| #[trigger] self.row(u) == if u == uid@ {
                        None
                    } else {
                        find_row(old_es, u)
                    } by {
                        lemma_find_remove(old_es, i as int, u);
                    }
                }
                true
            },
            None => {
                proof {
                    lemma_find_absent(old_es, uid@);
                }
                false
            },
        }
    }

    /// The rows in table order, each with its uid.
    pub fn rows(&self) -> (r: &Vec<(String, T)>)
        requires
            self.wf(),
        ensures
            forall|i: int| 0 <= i < r@.len() ==> self.row((#[trigger] r@[i]).0@) == Some(r@[i].1),
            forall|u: Seq<char>| #[trigger] self.row(u) is Some ==> exists|i: int| 0 <= i < r@.len() && (#[trigger] r@[i]).0@ == u,
            unique_keys(r@),
    {
        proof {
            assert forall|i: int| 0 <= i < self.entries@.len() implies self.row((#[trigger] self.entries@[i]).0@) == Some(
                self.entries@[i].1,
            ) by {
                lemma_find_at(self.entries@, i);
            }
            assert forall|u: Seq<char>| #[trigger] self.row(u) is Some implies exists|i: int|
                0 <= i < self.entries@.len() && (#[trigger] self.entries@[i]).0@ == u by {
                lemma_find_found(self.entries@, u);
            }
        }
        &self.entries
    }
}

proof fn lemma_find_update<T>(es: Seq<(String, T)>, i: int, e: (String, T), u: Seq<char>)
    requires
        0 <= i < es.len(),
        e.0@ == es[i].0@,
        u != e.0@,
    ensures
        find_row(es.update(i, e), u) == find_row(es, u),
    decreases es.len(),
{
    if i > 0 {
        assert(es.update(i, e)[0] == es[0]);
        assert(es.update(i, e).drop_first() =~= es.drop_first().update(i - 1, e));
        lemma_find_update(es.drop_first(), i - 1, e, u);
    } else {
        assert(es.update(0, e)[0] == e);
        assert(es.update(0, e).drop_first() =~= es.drop_first());
    }
}

proof fn lemma_find_push<T>(es: Seq<(String, T)>, e: (String, T), u: Seq<char>)
    requires
        forall|j: int| 0 <= j < es.len() ==> (#[trigger] es[j]).0@ != e.0@,
    ensures
        find_row(es.push(e), u) == if u == e.0@ {
            Some(e.1)
        } else {
            find_row(es, u)
        },
    decreases es.len(),
{
    if es.len() == 0 {
        assert(es.push(e)[0] == e);
        assert(es.push(e).drop_first() =~= Seq::<(String, T)>::empty());
        assert(es =~= Seq::<(String, T)>::empty());
    } else {
        assert(es.push(e)[0] == es[0]);
        assert(es[0].0@ != e.0@);
        assert(es.push(e).drop_first() =~= es.drop_first().push(e));
        assert forall|j: int| 0 <= j < es.drop_first().len() implies (#[trigger] es.drop_first()[j]).0@ != e.0@ by {
            assert(es.drop_first()[j] == es[j + 1]);
        }
        lemma_find_push(es.drop_first(), e, u);
    }
}

proof fn lemma_find_remove<T>(es: Seq<(String, T)>, i: int, u: Seq<char>)
    requires
        0 <= i < es.len(),
        unique_keys(es),
    ensures
        find_row(es.remove(i), u) == if u == es[i].0@ {
            None
        } else {
            find_row(es, u)
        },
    decreases es.len(),
{
    if i > 0 {
        assert(es.remove(i)[0] == es[0]);
        assert(es.remove(i).drop_first() =~= es.drop_first().remove(i - 1));
        assert(es[0].0@ != es[i].0@);
        assert forall|a: int, b: int| 0 <= a < b < es.drop_first().len() implies (#[trigger] es.drop_first()[a]).0@
            != (#[trigger] es.drop_first()[b]).0@ by {
            assert(es.drop_first()[a] == es[a + 1]);
            assert(es.drop_first()[b] == es[b + 1]);
        }
        lemma_find_remove(es.drop_first(), i - 1, u);
    } else {
        assert(es.remove(0) =~= es.drop_first());
        if u == es[0].0@ {
            assert forall|j: int| 0 <= j < es.drop_first().len() implies (#[trigger] es.drop_first()[j]).0@ != u by {
                assert(es.drop_first()[j] == es[j + 1]);
            }
            lemma_find_absent(es.drop_first(), u);
        }
    }
}

/// A paged list being built: the rows of the pages read so far and the
/// resource version of the first page.
pub struct PagedList<T> {
    pub rows: RowTable<T>,
    pub resource_version: String,
}

/// What to do after a page: read the page the token names, or commit the
/// list (the last page is in).
pub enum PageNext {
    Continue(String),
    Commit,
}

impl<T> PagedList<T> {
    /// An empty list.
    pub fn new() -> (r: PagedList<T>)
        ensures
            r.rows.wf(),
            forall|uid: Seq<char>| #[trigger] r.rows.row(uid) is None,
            r.resource_version@ == Seq::<char>::empty(),
    {
        PagedList { rows: RowTable::new(), resource_version: String::new() }
    }

    /// Adds one page: its rows (a later row replaces an earlier one of the same
    /// uid), and its resource version when none was known; the list is
    /// committed only after a page without a continue token.
    pub fn add_page(&mut self, page: Vec<(String, T)>, page_version: &str, continue_token: &str) -> (r: PageNext)
        requires
            old(self).rows.wf(),
        ensures
            final(self).rows.wf(),
            final(self).resource_version@ == if old(self).resource_version@.len() == 0 {
                page_version@
            } else {
                old(self).resource_version@
            },
            forall|u: Seq<char>| #[trigger] final(self).rows.row(u) == match find_last(page@, u) {
                Some(t) => Some(t),
                None => old(self).rows.row(u),
            },
            match r {
                PageNext::Continue(t) => continue_token@.len() > 0 && t@ == continue_token@,
                PageNext::Commit => continue_token@.len() == 0,
            },
    {
        let ghost start = self.rows;
        let mut page = page;
        let ghost all = page@;
        let n = page.len();
        let mut k: usize = 0;
        while k < n
            invariant
                k <= n,
                n == all.len(),
                page@ == all.skip(k as int),
                self.resource_version == old(self).resource_version,
                start == old(self).rows,
                self.rows.wf(),
                forall|u: Seq<char>| #[trigger] self.rows.row(u) == match find_last(all.take(k as int), u) {
                    Some(t) => Some(t),
                    None => start.row(u),
                },
            decreases n - k,
        {
            let (uid, row) = page.remove(0);
            proof {
                assert((uid, row) == all[k as int]);
                assert(all.skip(k as int).drop_first() =~= all.skip(k + 1));
                assert(all.take(k + 1).drop_last() =~= all.take(k as int));
                assert(all.take(k + 1).last() == all[k as int]);
            }
            self.rows.insert(uid, row);
            k = k + 1;
        }
        assert(all.take(n as int) =~= all);
        if self.resource_version.as_str().is_empty() {
            self.resource_version = owned(page_version);
        }
        if continue_token.is_empty() {
            PageNext::Commit
        } else {
            PageNext::Continue(owned(continue_token))
        }
    }
}

/// The last row under `uid` in a page, if any.
pub open spec fn find_last<T>(page: Seq<(String, T)>, uid: Seq<char>) -> Option<T>
    decreases page.len(),
{
    if page.len() == 0 {
        None
    } else if page.last().0@ == uid {
        Some(page.last().1)
    } else {
        find_last(page.drop_last(), uid)
    }
}

/// What a watch event for one object does to the table: a row the projector
/// made is applied; an object it made no row of, or a deleted one, removes
/// the row under its uid.
pub enum RowChange {
    /// The row was stored (and is announced as applied).
    Applied,
    /// A row was removed (and is announced as deleted).
    Deleted,
    /// Nothing was stored under the uid: nothing to announce.
    Unchanged,
}

/// Applies a watch event's object to the table: `Some(row)` when the
/// projector made a row of it, `None` when it made none, in which case a
/// stored row of that uid is dropped.
pub fn apply_watched<T>(table: &mut RowTable<T>, uid: String, row: Option<T>) -> (r: RowChange)
    requires
        old(table).wf(),
    ensures
        final(table).wf(),
        match row {
            Some(x) => r is Applied && forall|u: Seq<char>| #[trigger] final(table).row(u) == if u == uid@ {
                Some(x)
            } else {
                old(table).row(u)
            },
            None => (r is Deleted <==> old(table).row(uid@) is Some) && (r is Deleted || r is Unchanged) && forall|
                u: Seq<char>,
            | #[trigger] final(table).row(u) == if u == uid@ {
                None
            } else {
                old(table).row(u)
            },
        },
{
    match row {
        Some(x) => {
            table.insert(uid, x);
            RowChange::Applied
        },
        None => {
            if table.remove(uid.as_str()) {
                RowChange::Deleted
            } else {
                RowChange::Unchanged
            }
        },
    }
}

} // verus!
