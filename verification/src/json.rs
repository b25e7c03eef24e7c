//! A JSON document model for the parts of Kubernetes objects the logic reads.
//!
//! Numbers keep their decimal rendering (as `serde_json` prints them) and, when
//! they are integers that fit, their `i64` value.
use vstd::prelude::*;

use crate::sort::{lex_lt, str_lt};
use crate::text::{chars_eq, chars_of, owned, str_eq};

verus! {

/// A JSON value.
#[derive(Debug)]
pub enum Json {
    Null,
    Bool(bool),
    /// A number: its decimal text and, for integers in range, its `i64` value.
    Number(String, Option<i64>),
    Str(String),
    Array(Vec<Json>),
    /// An object's members in order; a key appears at most once.
    Object(Vec<(String, Json)>),
}

/// The member `key` of an object's entries.
pub open spec fn obj_get(entries: Seq<(String, Json)>, key: Seq<char>) -> Option<Json>
    decreases entries.len(),
{
    if entries.len() == 0 {
        None
    } else if entries[0].0@ == key {
        Some(entries[0].1)
    } else {
        obj_get(entries.drop_first(), key)
    }
}

/// `j[key]` when `j` is an object that has `key` (`serde_json::Value::get`).
pub open spec fn json_get(j: Json, key: Seq<char>) -> Option<Json> {
    match j {
        Json::Object(entries) => obj_get(entries@, key),
        _ => None,
    }
}

/// The value reached by following object keys `path` from `j`.
pub open spec fn json_path(j: Json, path: Seq<Seq<char>>) -> Option<Json>
    decreases path.len(),
{
    if path.len() == 0 {
        Some(j)
    } else {
        match json_get(j, path[0]) {
            Some(c) => json_path(c, path.drop_first()),
            None => None,
        }
    }
}

/// The string held by an optional value.
pub open spec fn json_str(j: Option<Json>) -> Option<Seq<char>> {
    match j {
        Some(Json::Str(s)) => Some(s@),
        _ => None,
    }
}

/// The string held by an optional value, when it is not empty.
pub open spec fn json_nonempty_str(j: Option<Json>) -> Option<Seq<char>> {
    match json_str(j) {
        Some(s) => if s.len() > 0 { Some(s) } else { None },
        None => None,
    }
}

/// The elements of an optional array value.
pub open spec fn json_array(j: Option<Json>) -> Option<Seq<Json>> {
    match j {
        Some(Json::Array(v)) => Some(v@),
        _ => None,
    }
}

/// Dereferences an optional reference.
pub open spec fn deref_opt(o: Option<&Json>) -> Option<Json> {
    match o {
        Some(j) => Some(*j),
        None => None,
    }
}

/// Views of a sequence of references.
pub open spec fn derefs(v: Seq<&Json>) -> Seq<Json> {
    v.map_values(|r: &Json| *r)
}

/// Key sequences of a path given as strings.
pub open spec fn key_views(path: Seq<&str>) -> Seq<Seq<char>> {
    path.map_values(|k: &str| k@)
}

impl Json {
    /// The member `key` of an object.
    pub fn get(&self, key: &str) -> (r: Option<&Json>)
        ensures
            deref_opt(r) == json_get(*self, key@),
    {
        match self {
            Json::Object(entries) => {
                let k = chars_of(key);
                let n = entries.len();
                assert(entries@.skip(0) == entries@);
                for i in 0..n
                    invariant
                        n == entries@.len(),
                        k@ == key@,
                        json_get(*self, key@) == obj_get(entries@, key@),
                        obj_get(entries@.skip(i as int), key@) == obj_get(entries@, key@),
                {
                    assert(entries@.skip(i as int).drop_first() == entries@.skip(i + 1));
                    let ek = chars_of(entries[i].0.as_str());
                    if chars_eq(ek.as_slice(), k.as_slice()) {
                        return Some(&entries[i].1);
                    }
                }
                None
            },
            _ => None,
        }
    }

    /// The value reached by following object keys.
    pub fn path(&self, keys: &[&str]) -> (r: Option<&Json>)
        ensures
            deref_opt(r) == json_path(*self, key_views(keys@)),
    {
        let mut cur: &Json = self;
        let n = keys.len();
        assert(key_views(keys@).skip(0) == key_views(keys@));
        for i in 0..n
            invariant
                n == keys@.len(),
                json_path(*cur, key_views(keys@).skip(i as int)) == json_path(
                    *self,
                    key_views(keys@),
                ),
        {
            assert(key_views(keys@).skip(i as int).drop_first() == key_views(keys@).skip(i + 1));
            assert(key_views(keys@).skip(i as int)[0] == keys@[i as int]@);
            match cur.get(keys[i]) {
                Some(next) => {
                    cur = next;
                },
                None => return None,
            }
        }
        assert(key_views(keys@).skip(n as int).len() == 0);
        Some(cur)
    }

    /// The string held by this value.
    pub fn as_str(&self) -> (r: Option<&str>)
        ensures
            match r {
                Some(s) => json_str(Some(*self)) == Some(s@),
                None => json_str(Some(*self)) is None,
            },
    {
        match self {
            Json::Str(s) => Some(s.as_str()),
            _ => None,
        }
    }

    /// The elements of this array.
    pub fn as_array(&self) -> (r: Option<&Vec<Json>>)
        ensures
            match r {
                Some(v) => json_array(Some(*self)) == Some(v@),
                None => json_array(Some(*self)) is None,
            },
    {
        match self {
            Json::Array(v) => Some(v),
            _ => None,
        }
    }
}

/// The string held by an optional value.
pub fn opt_str(j: Option<&Json>) -> (r: Option<&str>)
    ensures
        match r {
            Some(s) => json_str(deref_opt(j)) == Some(s@),
            None => json_str(deref_opt(j)) is None,
        },
{
    match j {
        Some(v) => v.as_str(),
        None => None,
    }
}

/// The string held by an optional value, when it is not empty.
pub fn opt_nonempty_str(j: Option<&Json>) -> (r: Option<&str>)
    ensures
        match r {
            Some(s) => json_nonempty_str(deref_opt(j)) == Some(s@),
            None => json_nonempty_str(deref_opt(j)) is None,
        },
{
    match opt_str(j) {
        Some(s) => if s.is_empty() {
            None
        } else {
            Some(s)
        },
        None => None,
    }
}

/// The elements of an optional array value.
pub fn opt_array(j: Option<&Json>) -> (r: Option<&Vec<Json>>)
    ensures
        match r {
            Some(v) => json_array(deref_opt(j)) == Some(v@),
            None => json_array(deref_opt(j)) is None,
        },
{
    match j {
        Some(v) => v.as_array(),
        None => None,
    }
}

/// Whether an optional value is the string `lit`.
pub fn opt_str_is(j: Option<&Json>, lit: &str) -> (r: bool)
    ensures
        r == (json_str(deref_opt(j)) == Some(lit@)),
{
    match opt_str(j) {
        Some(s) => str_eq(s, lit),
        None => false,
    }
}


/// What a JSON value denotes, as mathematical values.
pub enum JsonV {
    Null,
    Bool(bool),
    Number(Seq<char>, Option<i64>),
    Str(Seq<char>),
    Array(Seq<JsonV>),
    Object(Seq<(Seq<char>, JsonV)>),
}

/// Object members as mathematical values.
pub type MembersV = Seq<(Seq<char>, JsonV)>;

/// What `j` denotes.
pub open spec fn jv(j: Json) -> JsonV
    decreases j,
{
    match j {
        Json::Null => JsonV::Null,
        Json::Bool(b) => JsonV::Bool(b),
        Json::Number(t, i) => JsonV::Number(t@, i),
        Json::Str(s) => JsonV::Str(s@),
        Json::Array(vs) => {
            proof {
                assert(decreases_to!(j => vs));
            }
            JsonV::Array(jvs(vs@))
        },
        Json::Object(es) => {
            proof {
                assert(decreases_to!(j => es));
            }
            JsonV::Object(jvm(es@))
        },
    }
}

/// What the elements of an array denote.
pub open spec fn jvs(vs: Seq<Json>) -> Seq<JsonV>
    decreases vs,
{
    if vs.len() == 0 {
        Seq::empty()
    } else {
        jvs(vs.drop_last()).push(jv(vs.last()))
    }
}

/// What the members of an object denote.
pub open spec fn jvm(es: Seq<(String, Json)>) -> MembersV
    decreases es,
{
    if es.len() == 0 {
        Seq::empty()
    } else {
        jvm(es.drop_last()).push((es.last().0@, jv(es.last().1)))
    }
}

/// Element by element, an array denotes the values of its elements.
pub proof fn lemma_jvs(vs: Seq<Json>)
    ensures
        jvs(vs).len() == vs.len(),
        forall|i: int| 0 <= i < vs.len() ==> #[trigger] jvs(vs)[i] == jv(vs[i]),
    decreases vs.len(),
{
    if vs.len() > 0 {
        lemma_jvs(vs.drop_last());
        assert forall|i: int| 0 <= i < vs.len() implies #[trigger] jvs(vs)[i] == jv(vs[i]) by {
            if i < vs.len() - 1 {
                assert(vs.drop_last()[i] == vs[i]);
            }
        }
    }
}

/// Member by member, an object denotes its keys and the values of its members.
pub proof fn lemma_jvm(es: Seq<(String, Json)>)
    ensures
        jvm(es).len() == es.len(),
        forall|i: int| 0 <= i < es.len() ==> #[trigger] jvm(es)[i] == (es[i].0@, jv(es[i].1)),
    decreases es.len(),
{
    if es.len() > 0 {
        lemma_jvm(es.drop_last());
        assert forall|i: int| 0 <= i < es.len() implies #[trigger] jvm(es)[i] == (es[i].0@, jv(es[i].1)) by {
            if i < es.len() - 1 {
                assert(es.drop_last()[i] == es[i]);
            }
        }
    }
}

/// The first member `key` among `es`.
pub open spec fn member(es: MembersV, key: Seq<char>) -> Option<JsonV>
    decreases es.len(),
{
    if es.len() == 0 {
        None
    } else if es[0].0 == key {
        Some(es[0].1)
    } else {
        member(es.drop_first(), key)
    }
}

/// `j[key]` when `j` is an object that has `key`.
pub open spec fn jv_get(j: JsonV, key: Seq<char>) -> Option<JsonV> {
    match j {
        JsonV::Object(es) => member(es, key),
        _ => None,
    }
}

/// What an optional value denotes.
pub open spec fn jv_opt(j: Option<Json>) -> Option<JsonV> {
    match j {
        Some(v) => Some(jv(v)),
        None => None,
    }
}

/// Looking a member up and then taking what it denotes is taking what the
/// object denotes and looking the member up there.
pub proof fn lemma_member_jv(es: Seq<(String, Json)>, key: Seq<char>)
    ensures
        jv_opt(obj_get(es, key)) == member(jvm(es), key),
    decreases es.len(),
{
    lemma_jvm(es);
    if es.len() > 0 {
        lemma_jvm(es.drop_first());
        assert(jvm(es).drop_first() =~= jvm(es.drop_first()));
        lemma_member_jv(es.drop_first(), key);
    }
}

/// `json_get` agrees with `jv_get` on what values denote.
pub proof fn lemma_get_jv(j: Json, key: Seq<char>)
    ensures
        jv_opt(json_get(j, key)) == jv_get(jv(j), key),
{
    if let Json::Object(es) = j {
        lemma_member_jv(es@, key);
    }
}

/// A deep copy of a JSON value.
pub fn clone_json(j: &Json) -> (r: Json)
    ensures
        jv(r) == jv(*j),
    decreases j,
{
    match j {
        Json::Null => Json::Null,
        Json::Bool(b) => Json::Bool(*b),
        Json::Number(t, i) => Json::Number(owned(t.as_str()), *i),
        Json::Str(s) => Json::Str(owned(s.as_str())),
        Json::Array(vs) => {
            let mut out: Vec<Json> = Vec::new();
            let n = vs.len();
            for i in 0..n
                invariant
                    n == vs@.len(),
                    *j == Json::Array(*vs),
                    jvs(out@) == jvs(vs@.take(i as int)),
            {
                proof {
                    assert(decreases_to!(*j => j->Array_0));
                    vstd::std_specs::vec::axiom_vec_index_decreases(*vs, i as int);
                    assert(decreases_to!(*vs => vs[i as int]));
                }
                let c = clone_json(&vs[i]);
                let ghost before = out@;
                out.push(c);
                assert(out@.drop_last() == before);
                assert(vs@.take(i + 1).drop_last() == vs@.take(i as int));
                assert(vs@.take(i + 1).last() == vs@[i as int]);
            }
            assert(vs@.take(n as int) == vs@);
            Json::Array(out)
        },
        Json::Object(es) => {
            let mut out: Vec<(String, Json)> = Vec::new();
            let n = es.len();
            for i in 0..n
                invariant
                    n == es@.len(),
                    *j == Json::Object(*es),
                    jvm(out@) == jvm(es@.take(i as int)),
            {
                proof {
                    assert(decreases_to!(*j => j->Object_0));
                    vstd::std_specs::vec::axiom_vec_index_decreases(*es, i as int);
                    assert(decreases_to!(*es => es[i as int]));
                    assert(decreases_to!(es[i as int] => es[i as int].1));
                }
                let c = clone_json(&es[i].1);
                let k = owned(es[i].0.as_str());
                let ghost before = out@;
                out.push((k, c));
                assert(out@.drop_last() == before);
                assert(es@.take(i + 1).drop_last() == es@.take(i as int));
                assert(es@.take(i + 1).last() == es@[i as int]);
            }
            assert(es@.take(n as int) == es@);
            Json::Object(out)
        },
    }
}


/// The position of the first member `key`, or the number of members when
/// there is none.
pub open spec fn key_index(es: MembersV, key: Seq<char>) -> int
    decreases es.len(),
{
    if es.len() == 0 {
        0
    } else if es[0].0 == key {
        0
    } else {
        1 + key_index(es.drop_first(), key)
    }
}

/// Where a new member `key` goes in members ordered by key: before the first
/// member whose key sorts after it.
pub open spec fn insert_pos(es: MembersV, key: Seq<char>) -> int
    decreases es.len(),
{
    if es.len() == 0 {
        0
    } else if lex_lt(key, es[0].0) {
        0
    } else {
        1 + insert_pos(es.drop_first(), key)
    }
}

/// Members with `key` set to `v`: the existing member replaced, or a new one
/// in key order (`Map::insert` on a map ordered by key).
pub open spec fn put(es: MembersV, key: Seq<char>, v: JsonV) -> MembersV {
    let i = key_index(es, key);
    if i < es.len() {
        es.update(i, (key, v))
    } else {
        es.insert(insert_pos(es, key), (key, v))
    }
}

proof fn lemma_member_key_index(es: MembersV, key: Seq<char>)
    ensures
        0 <= key_index(es, key) <= es.len(),
        forall|j: int| 0 <= j < key_index(es, key) ==> (#[trigger] es[j]).0 != key,
        key_index(es, key) < es.len() ==> es[key_index(es, key)].0 == key && member(es, key) == Some(
            es[key_index(es, key)].1,
        ),
        key_index(es, key) == es.len() ==> member(es, key) is None,
    decreases es.len(),
{
    if es.len() > 0 && es[0].0 != key {
        lemma_member_key_index(es.drop_first(), key);
        assert forall|j: int| 0 <= j < key_index(es, key) implies (#[trigger] es[j]).0 != key by {
            if j > 0 {
                assert(es[j] == es.drop_first()[j - 1]);
            }
        }
    }
}

proof fn lemma_member_update(es: MembersV, i: int, e: (Seq<char>, JsonV), other: Seq<char>)
    requires
        0 <= i < es.len(),
        es[i].0 != other,
        e.0 != other,
    ensures
        member(es.update(i, e), other) == member(es, other),
    decreases es.len(),
{
    if i > 0 && es[0].0 != other {
        lemma_member_update(es.drop_first(), i - 1, e, other);
        assert(es.update(i, e).drop_first() == es.drop_first().update(i - 1, e));
    } else if i > 0 {
        assert(es.update(i, e)[0] == es[0]);
    } else {
        assert(es.update(0, e).drop_first() == es.drop_first());
    }
}

proof fn lemma_member_insert(es: MembersV, i: int, e: (Seq<char>, JsonV), key: Seq<char>)
    requires
        0 <= i <= es.len(),
    ensures
        e.0 != key ==> member(es.insert(i, e), key) == member(es, key),
        e.0 == key && member(es, key) is None ==> member(es.insert(i, e), key) == Some(e.1),
    decreases es.len(),
{
    if i > 0 {
        if es[0].0 != key {
            lemma_member_insert(es.drop_first(), i - 1, e, key);
            assert(es.insert(i, e).drop_first() == es.drop_first().insert(i - 1, e));
        }
    } else {
        assert(es.insert(0, e).drop_first() == es);
    }
}

/// The member `key` of `es` is the value of its first entry named `key`.
pub proof fn lemma_member_at(es: MembersV, key: Seq<char>, i: int)
    requires
        0 <= i < es.len(),
        es[i].0 == key,
        forall|j: int| 0 <= j < i ==> (#[trigger] es[j]).0 != key,
    ensures
        member(es, key) == Some(es[i].1),
    decreases i,
{
    if i > 0 {
        assert forall|j: int| 0 <= j < i - 1 implies (#[trigger] es.drop_first()[j]).0 != key by {
            assert(es.drop_first()[j] == es[j + 1]);
        }
        assert(es[0].0 != key);
        lemma_member_at(es.drop_first(), key, i - 1);
    }
}

/// Reading a member gives back what was put there, and putting a member
/// leaves every other member as it was.
pub proof fn lemma_put_then_member(es: MembersV, key: Seq<char>, v: JsonV, other: Seq<char>)
    ensures
        member(put(es, key, v), key) == Some(v),
        other != key ==> member(put(es, key, v), other) == member(es, other),
{
    lemma_member_key_index(es, key);
    let i = key_index(es, key);
    if i < es.len() {
        let u = es.update(i, (key, v));
        assert forall|j: int| 0 <= j < i implies (#[trigger] u[j]).0 != key by {
            assert(u[j] == es[j]);
        }
        lemma_member_key_index(u, key);
        if key_index(u, key) < i {
            assert(u[key_index(u, key)].0 != key);
        }
        if key_index(u, key) > i {
            assert(u[i].0 == key);
        }
        if other != key {
            lemma_member_update(es, i, (key, v), other);
        }
    } else {
        lemma_insert_pos_bound(es, key);
        lemma_member_insert(es, insert_pos(es, key), (key, v), key);
        lemma_member_insert(es, insert_pos(es, key), (key, v), other);
    }
}

proof fn lemma_insert_pos_bound(es: MembersV, key: Seq<char>)
    ensures
        0 <= insert_pos(es, key) <= es.len(),
    decreases es.len(),
{
    if es.len() > 0 {
        lemma_insert_pos_bound(es.drop_first(), key);
    }
}

/// Members with `key` added as `v` only when absent (`entry(key).or_insert(v)`).
pub open spec fn or_insert(es: MembersV, key: Seq<char>, v: JsonV) -> MembersV {
    if key_index(es, key) < es.len() {
        es
    } else {
        es.insert(insert_pos(es, key), (key, v))
    }
}

/// Members without those whose key is one of `keys`.
pub open spec fn drop_keys(es: MembersV, keys: Seq<Seq<char>>) -> MembersV
    decreases es.len(),
{
    if es.len() == 0 {
        Seq::empty()
    } else {
        let prev = drop_keys(es.drop_last(), keys);
        if keys.contains(es.last().0) {
            prev
        } else {
            prev.push(es.last())
        }
    }
}

/// The names of an object's members, in order.
pub open spec fn member_names(es: MembersV) -> Seq<Seq<char>> {
    es.map_values(|e: (Seq<char>, JsonV)| e.0)
}

/// The members of `es` whose name is not one of `keys`, in order.
pub open spec fn members_without(es: MembersV, keys: Seq<Seq<char>>) -> MembersV {
    es.filter(|e: (Seq<char>, JsonV)| !keys.contains(e.0))
}

/// Dropping keys keeps exactly the members under other names, in order, so no
/// member is left under a dropped name.
pub proof fn lemma_drop_keys_keeps_others(es: MembersV, keys: Seq<Seq<char>>)
    ensures
        drop_keys(es, keys) == members_without(es, keys),
        forall|k: int| 0 <= k < drop_keys(es, keys).len() ==> !keys.contains(#[trigger] drop_keys(es, keys)[k].0),
    decreases es.len(),
{
    reveal(Seq::filter);
    if es.len() > 0 {
        lemma_drop_keys_keeps_others(es.drop_last(), keys);
        let prev = drop_keys(es.drop_last(), keys);
        assert forall|k: int| 0 <= k < drop_keys(es, keys).len() implies !keys.contains(#[trigger] drop_keys(es, keys)[k].0) by {
            if k < prev.len() {
                assert(drop_keys(es, keys)[k] == prev[k]);
            }
        }
    }
}

/// Editing the object below a path leaves the names of the outer members as
/// they were, in order.
pub proof fn lemma_within_keeps_names(es: MembersV, path: Seq<Seq<char>>, keys: Seq<Seq<char>>)
    requires
        path.len() > 0,
    ensures
        member_names(within(es, path, keys)) == member_names(es),
    decreases es.len(),
{
    if es.len() > 0 {
        lemma_within_keeps_names(es.drop_last(), path, keys);
        assert(member_names(es) == member_names(es.drop_last()).push(es.last().0));
        let w = within(es, path, keys);
        assert(member_names(w) == member_names(within(es.drop_last(), path, keys)).push(w.last().0));
    } else {
        assert(member_names(within(es, path, keys)) == member_names(es));
    }
}

proof fn lemma_key_index(es: MembersV, key: Seq<char>)
    ensures
        0 <= key_index(es, key) <= es.len(),
        key_index(es, key) < es.len() ==> es[key_index(es, key)].0 == key,
        forall|j: int| 0 <= j < key_index(es, key) ==> #[trigger] es[j].0 != key,
        member(es, key) == if key_index(es, key) < es.len() {
            Some(es[key_index(es, key)].1)
        } else {
            None::<JsonV>
        },
    decreases es.len(),
{
    if es.len() > 0 && es[0].0 != key {
        lemma_key_index(es.drop_first(), key);
        assert forall|j: int| 0 <= j < key_index(es, key) implies #[trigger] es[j].0 != key by {
            if j > 0 {
                assert(es[j] == es.drop_first()[j - 1]);
            }
        }
    }
}

proof fn lemma_insert_pos(es: MembersV, key: Seq<char>)
    ensures
        0 <= insert_pos(es, key) <= es.len(),
        forall|j: int| 0 <= j < insert_pos(es, key) ==> !lex_lt(key, #[trigger] es[j].0),
        insert_pos(es, key) < es.len() ==> lex_lt(key, es[insert_pos(es, key)].0),
    decreases es.len(),
{
    if es.len() > 0 && !lex_lt(key, es[0].0) {
        lemma_insert_pos(es.drop_first(), key);
        assert forall|j: int| 0 <= j < insert_pos(es, key) implies !lex_lt(key, #[trigger] es[j].0) by {
            if j > 0 {
                assert(es[j] == es.drop_first()[j - 1]);
            }
        }
    }
}

/// The position of the first member `key` of an object.
fn find_key(es: &Vec<(String, Json)>, key: &str) -> (r: usize)
    ensures
        r == key_index(jvm(es@), key@),
{
    proof {
        lemma_jvm(es@);
        lemma_key_index(jvm(es@), key@);
    }
    let ghost m = jvm(es@);
    let n = es.len();
    let mut i: usize = 0;
    while i < n
        invariant
            n == es@.len(),
            m == jvm(es@),
            m.len() == n,
            i <= n,
            forall|j: int| 0 <= j < i ==> #[trigger] m[j].0 != key@,
            forall|j: int| 0 <= j < n ==> #[trigger] m[j] == (es@[j].0@, jv(es@[j].1)),
        decreases n - i,
    {
        if str_eq(es[i].0.as_str(), key) {
            proof {
                lemma_key_index_first(m, key@, i as int);
            }
            return i;
        }
        i = i + 1;
    }
    proof {
        lemma_key_index_first(m, key@, n as int);
    }
    n
}

proof fn lemma_key_index_first(es: MembersV, key: Seq<char>, i: int)
    requires
        0 <= i <= es.len(),
        forall|j: int| 0 <= j < i ==> #[trigger] es[j].0 != key,
        i < es.len() ==> es[i].0 == key,
    ensures
        key_index(es, key) == i,
    decreases i,
{
    if i > 0 {
        assert forall|j: int| 0 <= j < i - 1 implies #[trigger] es.drop_first()[j].0 != key by {
            assert(es.drop_first()[j] == es[j + 1]);
        }
        if i < es.len() {
            assert(es.drop_first()[i - 1] == es[i]);
        }
        assert(es[0].0 != key);
        lemma_key_index_first(es.drop_first(), key, i - 1);
    }
}

proof fn lemma_insert_pos_first(es: MembersV, key: Seq<char>, i: int)
    requires
        0 <= i <= es.len(),
        forall|j: int| 0 <= j < i ==> !lex_lt(key, #[trigger] es[j].0),
        i < es.len() ==> lex_lt(key, es[i].0),
    ensures
        insert_pos(es, key) == i,
    decreases i,
{
    if i > 0 {
        assert forall|j: int| 0 <= j < i - 1 implies !lex_lt(key, #[trigger] es.drop_first()[j].0) by {
            assert(es.drop_first()[j] == es[j + 1]);
        }
        if i < es.len() {
            assert(es.drop_first()[i - 1] == es[i]);
        }
        assert(!lex_lt(key, es[0].0));
        lemma_insert_pos_first(es.drop_first(), key, i - 1);
    }
}

/// Where a new member `key` goes in an object's members.
fn find_insert_pos(es: &Vec<(String, Json)>, key: &str) -> (r: usize)
    ensures
        r == insert_pos(jvm(es@), key@),
{
    proof {
        lemma_jvm(es@);
    }
    let ghost m = jvm(es@);
    let n = es.len();
    let mut i: usize = 0;
    while i < n
        invariant
            n == es@.len(),
            m == jvm(es@),
            m.len() == n,
            i <= n,
            forall|j: int| 0 <= j < i ==> !lex_lt(key@, #[trigger] m[j].0),
            forall|j: int| 0 <= j < n ==> #[trigger] m[j] == (es@[j].0@, jv(es@[j].1)),
        decreases n - i,
    {
        if str_lt(key, es[i].0.as_str()) {
            proof {
                lemma_insert_pos_first(m, key@, i as int);
            }
            return i;
        }
        i = i + 1;
    }
    proof {
        lemma_insert_pos_first(m, key@, n as int);
    }
    n
}

/// A copy of an object's members.
pub fn copy_members(es: &Vec<(String, Json)>) -> (r: Vec<(String, Json)>)
    ensures
        jvm(r@) == jvm(es@),
{
    let mut out: Vec<(String, Json)> = Vec::new();
    let n = es.len();
    for i in 0..n
        invariant
            n == es@.len(),
            jvm(out@) == jvm(es@.take(i as int)),
    {
        let c = clone_json(&es[i].1);
        let k = owned(es[i].0.as_str());
        let ghost before = out@;
        out.push((k, c));
        assert(out@.drop_last() == before);
        assert(es@.take(i + 1).drop_last() == es@.take(i as int));
        assert(es@.take(i + 1).last() == es@[i as int]);
    }
    assert(es@.take(n as int) == es@);
    out
}

/// A copy of an object's members with member `key` set to `v`.
pub fn put_member(es: &Vec<(String, Json)>, key: &str, v: Json) -> (r: Vec<(String, Json)>)
    ensures
        jvm(r@) == put(jvm(es@), key@, jv(v)),
{
    let i = find_key(es, key);
    let mut out = copy_members(es);
    proof {
        lemma_jvm(es@);
        lemma_key_index(jvm(es@), key@);
    }
    if i < out.len() {
        let ghost before = out@;
        out.set(i, (owned(key), v));
        proof {
            lemma_jvm(before);
            lemma_jvm(out@);
            assert(jvm(out@) =~= jvm(before).update(i as int, (key@, jv(v))));
        }
    } else {
        let p = find_insert_pos(es, key);
        let ghost before = out@;
        proof {
            lemma_insert_pos(jvm(es@), key@);
            lemma_jvm(out@);
        }
        out.insert(p, (owned(key), v));
        proof {
            lemma_jvm(before);
            lemma_jvm(out@);
            assert(jvm(out@) =~= jvm(before).insert(p as int, (key@, jv(v))));
        }
    }
    out
}

/// Adds member `key` as `v` unless the object has it.
pub fn or_insert_member(es: &mut Vec<(String, Json)>, key: &str, v: Json)
    ensures
        jvm(final(es)@) == or_insert(jvm(old(es)@), key@, jv(v)),
{
    let i = find_key(es, key);
    proof {
        lemma_jvm(es@);
    }
    if i < es.len() {
        return;
    }
    let p = find_insert_pos(es, key);
    let ghost before = es@;
    proof {
        lemma_jvm(before);
        lemma_insert_pos(jvm(before), key@);
    }
    es.insert(p, (owned(key), v));
    proof {
        lemma_jvm(es@);
        assert(jvm(es@) =~= jvm(before).insert(p as int, (key@, jv(v))));
    }
}

/// A copy of an object's members without those whose key is one of `keys`.
pub fn copy_without(es: &Vec<(String, Json)>, keys: &[&str]) -> (r: Vec<(String, Json)>)
    ensures
        jvm(r@) == drop_keys(jvm(es@), key_views(keys@)),
{
    let ghost kv = key_views(keys@);
    let mut out: Vec<(String, Json)> = Vec::new();
    let n = es.len();
    for i in 0..n
        invariant
            n == es@.len(),
            kv == key_views(keys@),
            jvm(out@) == drop_keys(jvm(es@.take(i as int)), kv),
    {
        assert(es@.take(i + 1).drop_last() == es@.take(i as int));
        assert(es@.take(i + 1).last() == es@[i as int]);
        let ghost step = jvm(es@.take(i as int)).push((es@[i as int].0@, jv(es@[i as int].1)));
        assert(jvm(es@.take(i + 1)) == step);
        assert(step.drop_last() == jvm(es@.take(i as int)));
        let mut listed = false;
        let m = keys.len();
        for j in 0..m
            invariant
                m == keys@.len(),
                i < n,
                n == es@.len(),
                kv == key_views(keys@),
                listed == exists|k: int| 0 <= k < j && #[trigger] kv[k] == es@[i as int].0@,
        {
            if str_eq(keys[j], es[i].0.as_str()) {
                assert(kv[j as int] == keys@[j as int]@);
                listed = true;
            }
        }
        assert(listed == kv.contains(es@[i as int].0@));
        if !listed {
            let c = clone_json(&es[i].1);
            let k = owned(es[i].0.as_str());
            let ghost before = out@;
            out.push((k, c));
            assert(out@.drop_last() == before);
        }
    }
    assert(es@.take(n as int) == es@);
    out
}


/// Members in which the object reached by following `path` through member
/// objects loses its members whose key is one of `keys`; where the path
/// meets something other than an object, nothing changes.
pub open spec fn within(es: MembersV, path: Seq<Seq<char>>, keys: Seq<Seq<char>>) -> MembersV
    decreases path.len(), es.len(),
{
    if path.len() == 0 {
        drop_keys(es, keys)
    } else if es.len() == 0 {
        Seq::empty()
    } else {
        let prev = within(es.drop_last(), path, keys);
        let e = es.last();
        match e.1 {
            JsonV::Object(inner) => if e.0 == path[0] {
                prev.push((e.0, JsonV::Object(within(inner, path.drop_first(), keys))))
            } else {
                prev.push(e)
            },
            _ => prev.push(e),
        }
    }
}

/// A copy of an object's members where the object at `path[depth..]` loses
/// its members whose key is one of `keys`.
pub fn copy_within(es: &Vec<(String, Json)>, path: &[&str], depth: usize, keys: &[&str]) -> (r: Vec<(String, Json)>)
    requires
        depth <= path.len(),
    ensures
        jvm(r@) == within(jvm(es@), key_views(path@).skip(depth as int), key_views(keys@)),
    decreases path.len() - depth,
{
    let ghost pv = key_views(path@).skip(depth as int);
    if depth == path.len() {
        assert(pv.len() == 0);
        return copy_without(es, keys);
    }
    assert(pv[0] == path@[depth as int]@);
    assert(pv.drop_first() == key_views(path@).skip(depth + 1));
    let mut out: Vec<(String, Json)> = Vec::new();
    let n = es.len();
    for i in 0..n
        invariant
            n == es@.len(),
            depth < path@.len(),
            pv == key_views(path@).skip(depth as int),
            pv.len() > 0,
            pv[0] == path@[depth as int]@,
            pv.drop_first() == key_views(path@).skip(depth + 1),
            jvm(out@) == within(jvm(es@.take(i as int)), pv, key_views(keys@)),
    {
        assert(es@.take(i + 1).drop_last() == es@.take(i as int));
        assert(es@.take(i + 1).last() == es@[i as int]);
        let ghost step = jvm(es@.take(i as int)).push((es@[i as int].0@, jv(es@[i as int].1)));
        assert(jvm(es@.take(i + 1)) == step);
        assert(step.drop_last() == jvm(es@.take(i as int)));
        let k = owned(es[i].0.as_str());
        let on_path = str_eq(es[i].0.as_str(), path[depth]);
        let v = match &es[i].1 {
            Json::Object(inner) => if on_path {
                Json::Object(copy_within(inner, path, depth + 1, keys))
            } else {
                clone_json(&es[i].1)
            },
            _ => clone_json(&es[i].1),
        };
        let ghost before = out@;
        out.push((k, v));
        assert(out@.drop_last() == before);
    }
    assert(es@.take(n as int) == es@);
    out
}


/// The member `key` of an object's members.
pub fn get_member<'a>(es: &'a Vec<(String, Json)>, key: &str) -> (r: Option<&'a Json>)
    ensures
        jv_opt(deref_opt(r)) == member(jvm(es@), key@),
{
    let i = find_key(es, key);
    proof {
        lemma_jvm(es@);
        lemma_key_index(jvm(es@), key@);
    }
    if i < es.len() {
        Some(&es[i].1)
    } else {
        None
    }
}

/// A copy of an array's elements.
pub fn copy_values(vs: &Vec<Json>) -> (r: Vec<Json>)
    ensures
        jvs(r@) == jvs(vs@),
{
    let mut out: Vec<Json> = Vec::new();
    let n = vs.len();
    for i in 0..n
        invariant
            n == vs@.len(),
            jvs(out@) == jvs(vs@.take(i as int)),
    {
        let c = clone_json(&vs[i]);
        let ghost before = out@;
        out.push(c);
        assert(out@.drop_last() == before);
        assert(vs@.take(i + 1).drop_last() == vs@.take(i as int));
        assert(vs@.take(i + 1).last() == vs@[i as int]);
    }
    assert(vs@.take(n as int) == vs@);
    out
}

/// A string value.
pub fn str_value(s: &str) -> (r: Json)
    ensures
        jv(r) == JsonV::Str(s@),
{
    Json::Str(owned(s))
}


/// Whether two JSON values denote the same value.
pub fn json_same(a: &Json, b: &Json) -> (r: bool)
    ensures
        r == (jv(*a) == jv(*b)),
    decreases a,
{
    match (a, b) {
        (Json::Null, Json::Null) => true,
        (Json::Bool(x), Json::Bool(y)) => *x == *y,
        (Json::Number(t, i), Json::Number(u, j)) => str_eq(t.as_str(), u.as_str()) && *i == *j,
        (Json::Str(x), Json::Str(y)) => str_eq(x.as_str(), y.as_str()),
        (Json::Array(xs), Json::Array(ys)) => {
            proof {
                lemma_jvs(xs@);
                lemma_jvs(ys@);
            }
            if xs.len() != ys.len() {
                return false;
            }
            let n = xs.len();
            for i in 0..n
                invariant
                    n == xs@.len(),
                    n == ys@.len(),
                    *a == Json::Array(*xs),
                    *b == Json::Array(*ys),
                    jvs(xs@).len() == n,
                    jvs(ys@).len() == n,
                    forall|k: int| 0 <= k < n ==> #[trigger] jvs(xs@)[k] == jv(xs@[k]),
                    forall|k: int| 0 <= k < n ==> #[trigger] jvs(ys@)[k] == jv(ys@[k]),
                    forall|k: int| 0 <= k < i ==> jv(#[trigger] xs@[k]) == jv(ys@[k]),
            {
                proof {
                    assert(decreases_to!(*a => a->Array_0));
                    vstd::std_specs::vec::axiom_vec_index_decreases(*xs, i as int);
                    assert(decreases_to!(*xs => xs[i as int]));
                }
                if !json_same(&xs[i], &ys[i]) {
                    assert(jvs(xs@)[i as int] != jvs(ys@)[i as int]);
                    return false;
                }
            }
            assert(jvs(xs@) =~= jvs(ys@));
            true
        },
        (Json::Object(xs), Json::Object(ys)) => {
            proof {
                lemma_jvm(xs@);
                lemma_jvm(ys@);
            }
            if xs.len() != ys.len() {
                return false;
            }
            let n = xs.len();
            for i in 0..n
                invariant
                    n == xs@.len(),
                    n == ys@.len(),
                    *a == Json::Object(*xs),
                    *b == Json::Object(*ys),
                    jvm(xs@).len() == n,
                    jvm(ys@).len() == n,
                    forall|k: int| 0 <= k < n ==> #[trigger] jvm(xs@)[k] == (xs@[k].0@, jv(xs@[k].1)),
                    forall|k: int| 0 <= k < n ==> #[trigger] jvm(ys@)[k] == (ys@[k].0@, jv(ys@[k].1)),
                    forall|k: int| 0 <= k < i ==> #[trigger] jvm(xs@)[k] == jvm(ys@)[k],
            {
                proof {
                    assert(decreases_to!(*a => a->Object_0));
                    vstd::std_specs::vec::axiom_vec_index_decreases(*xs, i as int);
                    assert(decreases_to!(*xs => xs[i as int]));
                    assert(decreases_to!(xs[i as int] => xs[i as int].1));
                }
                if !str_eq(xs[i].0.as_str(), ys[i].0.as_str()) {
                    assert(jvm(xs@)[i as int] != jvm(ys@)[i as int]);
                    return false;
                }
                if !json_same(&xs[i].1, &ys[i].1) {
                    assert(jvm(xs@)[i as int] != jvm(ys@)[i as int]);
                    return false;
                }
            }
            assert(jvm(xs@) =~= jvm(ys@));
            true
        },
        _ => false,
    }
}

/// Whether two objects' members denote the same members.
pub fn members_same(a: &Vec<(String, Json)>, b: &Vec<(String, Json)>) -> (r: bool)
    ensures
        r == (jvm(a@) == jvm(b@)),
{
    proof {
        lemma_jvm(a@);
        lemma_jvm(b@);
    }
    if a.len() != b.len() {
        return false;
    }
    let n = a.len();
    for i in 0..n
        invariant
            n == a@.len(),
            n == b@.len(),
            jvm(a@).len() == n,
            jvm(b@).len() == n,
            forall|k: int| 0 <= k < n ==> #[trigger] jvm(a@)[k] == (a@[k].0@, jv(a@[k].1)),
            forall|k: int| 0 <= k < n ==> #[trigger] jvm(b@)[k] == (b@[k].0@, jv(b@[k].1)),
            forall|k: int| 0 <= k < i ==> #[trigger] jvm(a@)[k] == jvm(b@)[k],
    {
        if !str_eq(a[i].0.as_str(), b[i].0.as_str()) || !json_same(&a[i].1, &b[i].1) {
            assert(jvm(a@)[i as int] != jvm(b@)[i as int]);
            return false;
        }
    }
    assert(jvm(a@) =~= jvm(b@));
    true
}


/// Adding a member adds what it denotes.
pub proof fn lemma_jvm_push(es: Seq<(String, Json)>, e: (String, Json))
    ensures
        jvm(es.push(e)) == jvm(es).push((e.0@, jv(e.1))),
{
    assert(es.push(e).drop_last() =~= es);
}

} // verus!
