//! The library's JSON value model: evaluated rule results, the raw data
//! store, and the output templates are all values of this type.
//!
//! Objects are insertion-ordered association lists; writing an existing key
//! replaces its value in place, so key order is first-insertion order.

use vstd::prelude::*;

verus! {

/// Mathematical model of a JSON value.
#[verifier::ext_equal]
pub enum JsonV {
    Null,
    Bool(bool),
    Int(int),
    /// A non-integer numeral, carried verbatim as its source text.
    Num(Seq<char>),
    Str(Seq<char>),
    Arr(Seq<JsonV>),
    Obj(Seq<(Seq<char>, JsonV)>),
}

/// A JSON value: the unit the rule evaluator produces and the template
/// projector consumes.
#[derive(Debug, PartialEq, Eq)]
pub enum Json {
    Null,
    Bool(bool),
    Int(i64),
    /// A non-integer numeral, carried verbatim as its source text.
    Num(String),
    Str(String),
    Arr(Vec<Json>),
    Obj(Vec<(String, Json)>),
}

pub open spec fn json_view(j: Json) -> JsonV
    decreases j,
{
    match j {
        Json::Null => JsonV::Null,
        Json::Bool(b) => JsonV::Bool(b),
        Json::Int(i) => JsonV::Int(i as int),
        Json::Num(s) => JsonV::Num(s@),
        Json::Str(s) => JsonV::Str(s@),
        Json::Arr(v) => {
            proof {
                assert(decreases_to!(j => v));
                assert(decreases_to!(v => v@));
            }
            JsonV::Arr(jsons_view(v@))
        },
        Json::Obj(v) => {
            proof {
                assert(decreases_to!(j => v));
                assert(decreases_to!(v => v@));
            }
            JsonV::Obj(entries_view(v@))
        },
    }
}

/// Views of a sequence of values, in order.
pub open spec fn jsons_view(s: Seq<Json>) -> Seq<JsonV>
    decreases s,
{
    if s.len() == 0 {
        Seq::empty()
    } else {
        jsons_view(s.drop_last()).push(json_view(s.last()))
    }
}

/// View of an association list of entries.
pub open spec fn entries_view(s: Seq<(String, Json)>) -> Seq<(Seq<char>, JsonV)>
    decreases s,
{
    if s.len() == 0 {
        Seq::empty()
    } else {
        entries_view(s.drop_last()).push((s.last().0@, json_view(s.last().1)))
    }
}

/// Pointwise reading of `jsons_view`.
pub proof fn lemma_jsons_view(s: Seq<Json>)
    ensures
        jsons_view(s).len() == s.len(),
        forall|i: int| 0 <= i < s.len() ==> jsons_view(s)[i] == json_view(#[trigger] s[i]),
    decreases s.len(),
{
    if s.len() > 0 {
        lemma_jsons_view(s.drop_last());
        assert forall|i: int| 0 <= i < s.len() implies jsons_view(s)[i] == json_view(
            #[trigger] s[i],
        ) by {
            if i < s.len() - 1 {
                assert(s.drop_last()[i] == s[i]);
            }
        }
    }
}

/// Pointwise reading of `entries_view`.
pub proof fn lemma_entries_view(s: Seq<(String, Json)>)
    ensures
        entries_view(s).len() == s.len(),
        forall|i: int|
            0 <= i < s.len() ==> entries_view(s)[i] == ((#[trigger] s[i]).0@, json_view(s[i].1)),
    decreases s.len(),
{
    if s.len() > 0 {
        lemma_entries_view(s.drop_last());
        assert forall|i: int| 0 <= i < s.len() implies entries_view(s)[i] == (
        (#[trigger] s[i]).0@,
        json_view(s[i].1),
        ) by {
            if i < s.len() - 1 {
                assert(s.drop_last()[i] == s[i]);
            }
        }
    }
}

/// Two sequences with pointwise equal views have equal view sequences.
pub proof fn lemma_jsons_view_eq(a: Seq<Json>, b: Seq<Json>)
    requires
        a.len() == b.len(),
        forall|i: int| 0 <= i < a.len() ==> json_view(#[trigger] a[i]) == json_view(b[i]),
    ensures
        jsons_view(a) == jsons_view(b),
{
    lemma_jsons_view(a);
    lemma_jsons_view(b);
    assert forall|i: int| 0 <= i < a.len() implies jsons_view(a)[i] == jsons_view(b)[i] by {
        assert(json_view(a[i]) == json_view(b[i]));
    }
    assert(jsons_view(a) =~= jsons_view(b));
}

/// Two entry lists with pointwise equal keys and value views have equal
/// views.
pub proof fn lemma_entries_view_eq(a: Seq<(String, Json)>, b: Seq<(String, Json)>)
    requires
        a.len() == b.len(),
        forall|i: int|
            0 <= i < a.len() ==> (#[trigger] a[i]).0@ == b[i].0@ && json_view(a[i].1) == json_view(
                b[i].1,
            ),
    ensures
        entries_view(a) == entries_view(b),
{
    lemma_entries_view(a);
    lemma_entries_view(b);
    assert forall|i: int| 0 <= i < a.len() implies entries_view(a)[i] == entries_view(b)[i] by {
        assert(a[i].0@ == b[i].0@);
    }
    assert(entries_view(a) =~= entries_view(b));
}

/// `jsons_view` distributes over `push`.
pub proof fn lemma_jsons_view_push(s: Seq<Json>, x: Json)
    ensures
        jsons_view(s.push(x)) == jsons_view(s).push(json_view(x)),
{
    assert(s.push(x).drop_last() =~= s);
    assert(s.push(x).last() == x);
}

impl View for Json {
    type V = JsonV;

    open spec fn view(&self) -> JsonV {
        json_view(*self)
    }
}

/// Index of the first entry with key `k`, or `m.len()` if there is none.
pub open spec fn key_index(m: Seq<(Seq<char>, JsonV)>, k: Seq<char>) -> int
    decreases m.len(),
{
    if m.len() == 0 {
        0
    } else if m[0].0 == k {
        0
    } else {
        1 + key_index(m.drop_first(), k)
    }
}

/// The value stored under `k`, if any.
pub open spec fn map_get(m: Seq<(Seq<char>, JsonV)>, k: Seq<char>) -> Option<JsonV> {
    if key_index(m, k) < m.len() {
        Some(m[key_index(m, k)].1)
    } else {
        None
    }
}

/// Write `k -> v`: replace the first entry with key `k` in place, or append
/// a new entry at the end.
pub open spec fn map_set(m: Seq<(Seq<char>, JsonV)>, k: Seq<char>, v: JsonV) -> Seq<
    (Seq<char>, JsonV),
> {
    if key_index(m, k) < m.len() {
        m.update(key_index(m, k), (k, v))
    } else {
        m.push((k, v))
    }
}

pub proof fn lemma_key_index_bounds(m: Seq<(Seq<char>, JsonV)>, k: Seq<char>)
    ensures
        0 <= key_index(m, k) <= m.len(),
        forall|j: int| 0 <= j < key_index(m, k) ==> (#[trigger] m[j]).0 != k,
        key_index(m, k) < m.len() ==> m[key_index(m, k)].0 == k,
    decreases m.len(),
{
    if m.len() > 0 && m[0].0 != k {
        lemma_key_index_bounds(m.drop_first(), k);
        assert forall|j: int| 0 <= j < key_index(m, k) implies (#[trigger] m[j]).0 != k by {
            if j > 0 {
                assert(m.drop_first()[j - 1] == m[j]);
            }
        }
        if key_index(m, k) < m.len() {
            assert(m.drop_first()[key_index(m.drop_first(), k)] == m[key_index(m, k)]);
        }
    }
}

/// Two association lists with pointwise equal keys agree on key lookup
/// positions.
proof fn lemma_key_index_same_keys(
    a: Seq<(Seq<char>, JsonV)>,
    b: Seq<(Seq<char>, JsonV)>,
    x: Seq<char>,
)
    requires
        a.len() == b.len(),
        forall|i: int| 0 <= i < a.len() ==> (#[trigger] a[i]).0 == b[i].0,
    ensures
        key_index(a, x) == key_index(b, x),
    decreases a.len(),
{
    if a.len() > 0 && a[0].0 != x {
        assert forall|i: int|
            0 <= i < a.drop_first().len() implies (#[trigger] a.drop_first()[i]).0
            == b.drop_first()[i].0 by {
            assert(a.drop_first()[i] == a[i + 1]);
            assert(b.drop_first()[i] == b[i + 1]);
        }
        lemma_key_index_same_keys(a.drop_first(), b.drop_first(), x);
    }
}

/// How appending one entry moves the lookup position.
proof fn lemma_key_index_push(m: Seq<(Seq<char>, JsonV)>, e: (Seq<char>, JsonV), x: Seq<char>)
    ensures
        key_index(m.push(e), x) == (if key_index(m, x) < m.len() {
            key_index(m, x)
        } else if e.0 == x {
            m.len() as int
        } else {
            m.len() + 1int
        }),
    decreases m.len(),
{
    lemma_key_index_bounds(m, x);
    if m.len() == 0 {
        assert(m.push(e)[0] == e);
        assert(m.push(e).drop_first() =~= Seq::<(Seq<char>, JsonV)>::empty());
        if e.0 != x {
            assert(key_index(Seq::<(Seq<char>, JsonV)>::empty(), x) == 0);
            assert(key_index(m.push(e), x) == 1 + key_index(m.push(e).drop_first(), x));
        }
    } else if m[0].0 != x {
        assert(m.push(e)[0] == m[0]);
        assert(m.push(e).drop_first() =~= m.drop_first().push(e));
        lemma_key_index_push(m.drop_first(), e, x);
        assert(key_index(m.push(e), x) == 1 + key_index(m.drop_first().push(e), x));
    } else {
        assert(m.push(e)[0] == m[0]);
        assert(key_index(m.push(e), x) == 0);
    }
}

/// Writing a key stores its value: reading it back yields the new value.
pub proof fn lemma_map_set_get(m: Seq<(Seq<char>, JsonV)>, k: Seq<char>, v: JsonV)
    ensures
        map_get(map_set(m, k, v), k) == Some(v),
{
    lemma_key_index_bounds(m, k);
    let ki = key_index(m, k);
    if ki < m.len() {
        let m2 = m.update(ki, (k, v));
        assert forall|i: int| 0 <= i < m.len() implies (#[trigger] m[i]).0 == m2[i].0 by {
            if i != ki {
                assert(m2[i] == m[i]);
            }
        }
        lemma_key_index_same_keys(m, m2, k);
    } else {
        lemma_key_index_push(m, (k, v), k);
    }
}

/// Writing one key leaves every other key's value unchanged.
pub proof fn lemma_map_set_frame(
    m: Seq<(Seq<char>, JsonV)>,
    k: Seq<char>,
    v: JsonV,
    k2: Seq<char>,
)
    requires
        k2 != k,
    ensures
        map_get(map_set(m, k, v), k2) == map_get(m, k2),
{
    lemma_key_index_bounds(m, k);
    lemma_key_index_bounds(m, k2);
    let ki = key_index(m, k);
    if ki < m.len() {
        let m2 = m.update(ki, (k, v));
        assert forall|i: int| 0 <= i < m.len() implies (#[trigger] m[i]).0 == m2[i].0 by {
            if i != ki {
                assert(m2[i] == m[i]);
            }
        }
        lemma_key_index_same_keys(m, m2, k2);
        if key_index(m, k2) < m.len() {
            assert(key_index(m, k2) != ki);
            assert(m2[key_index(m, k2)] == m[key_index(m, k2)]);
        }
    } else {
        lemma_key_index_push(m, (k, v), k2);
    }
}

/// Find the first entry with the given key.
#[verifier::loop_isolation(false)]
pub fn entries_get<'a>(m: &'a Vec<(String, Json)>, k: &str) -> (r: Option<&'a Json>)
    ensures
        match r {
            Some(v) => map_get(entries_view(m@), k@) == Some(v@),
            None => map_get(entries_view(m@), k@) is None,
        },
{
    proof {
        lemma_key_index_bounds(entries_view(m@), k@);
        lemma_entries_view(m@);
    }
    let mut i: usize = 0;
    while i < m.len()
        invariant
            0 <= i <= m@.len(),
            forall|j: int| 0 <= j < i ==> (#[trigger] m@[j]).0@ != k@,
            i <= key_index(entries_view(m@), k@),
        decreases m@.len() - i,
    {
        if crate::text::str_eq(m[i].0.as_str(), k) {
            proof {
                lemma_key_index_bounds(entries_view(m@), k@);
                lemma_entries_view(m@);
                assert(entries_view(m@)[i as int].0 == m@[i as int].0@);
                assert(key_index(entries_view(m@), k@) == i);
            }
            return Some(&m[i].1);
        }
        proof {
            lemma_key_index_bounds(entries_view(m@), k@);
            lemma_entries_view(m@);
            assert(entries_view(m@)[i as int].0 == m@[i as int].0@);
            if key_index(entries_view(m@), k@) == i {
                assert(entries_view(m@)[i as int].0 == k@);
            }
        }
        i = i + 1;
    }
    proof {
        lemma_key_index_bounds(entries_view(m@), k@);
        lemma_entries_view(m@);
    }
    None
}

/// Write `k -> v` into the association list: replace the first entry with
/// that key in place, or append a new entry.
#[verifier::loop_isolation(false)]
pub fn entries_set(m: &mut Vec<(String, Json)>, k: String, v: Json)
    ensures
        entries_view(final(m)@) == map_set(entries_view(old(m)@), k@, v@),
{
    proof {
        lemma_key_index_bounds(entries_view(m@), k@);
        lemma_entries_view(m@);
    }
    let ghost m0 = m@;
    let mut i: usize = 0;
    while i < m.len()
        invariant
            m@ == m0,
            0 <= i <= m@.len(),
            forall|j: int| 0 <= j < i ==> (#[trigger] m@[j]).0@ != k@,
            i <= key_index(entries_view(m@), k@),
        decreases m@.len() - i,
    {
        if crate::text::str_eq(m[i].0.as_str(), k.as_str()) {
            proof {
                lemma_key_index_bounds(entries_view(m@), k@);
                lemma_entries_view(m@);
                assert(entries_view(m@)[i as int].0 == m@[i as int].0@);
                assert(key_index(entries_view(m@), k@) == i);
            }
            let ghost kv = k@;
            let ghost vv = v@;
            m.set(i, (k, v));
            proof {
                lemma_entries_view(m@);
                lemma_entries_view(m0);
                assert(key_index(entries_view(m0), kv) == i);
                assert forall|q: int| 0 <= q < m@.len() implies entries_view(m@)[q] == map_set(
                    entries_view(m0),
                    kv,
                    vv,
                )[q] by {
                    if q != i {
                        assert(m@[q] == m0[q]);
                    } else {
                        assert(m@[q].0@ == kv && json_view(m@[q].1) == vv);
                    }
                }
                assert(entries_view(m@) =~= map_set(entries_view(m0), kv, vv));
            }
            return ;
        }
        proof {
            lemma_key_index_bounds(entries_view(m@), k@);
            lemma_entries_view(m@);
            assert(entries_view(m@)[i as int].0 == m@[i as int].0@);
            if key_index(entries_view(m@), k@) == i {
                assert(entries_view(m@)[i as int].0 == k@);
            }
        }
        i = i + 1;
    }
    proof {
        lemma_key_index_bounds(entries_view(m@), k@);
        lemma_entries_view(m@);
    }
    m.push((k, v));
    proof {
        lemma_entries_view(m@);
        lemma_entries_view(m0);
        assert forall|q: int| 0 <= q < m@.len() implies entries_view(m@)[q] == map_set(
            entries_view(m0),
            k@,
            v@,
        )[q] by {
            if q < m@.len() - 1 {
                assert(m@[q] == m0[q]);
            }
        }
        assert(entries_view(m@) =~= map_set(entries_view(m0), k@, v@));
    }
}

/// Structural copy of a value; the copy has the same view.
#[verifier::loop_isolation(false)]
pub fn json_clone(j: &Json) -> (r: Json)
    ensures
        r@ == j@,
    decreases *j,
{
    match j {
        Json::Null => Json::Null,
        Json::Bool(b) => Json::Bool(*b),
        Json::Int(i) => Json::Int(*i),
        Json::Num(s) => Json::Num(s.clone()),
        Json::Str(s) => Json::Str(s.clone()),
        Json::Arr(v) => {
            let mut out: Vec<Json> = Vec::new();
            let mut i: usize = 0;
            while i < v.len()
                invariant
                    0 <= i <= v@.len(),
                    out@.len() == i,
                    forall|q: int| 0 <= q < i ==> (#[trigger] out@[q])@ == v@[q]@,
                decreases v@.len() - i,
            {
                let c = json_clone(&v[i]);
                out.push(c);
                i = i + 1;
            }
            let r = Json::Arr(out);
            proof {
                lemma_jsons_view_eq(out@, v@);
            }
            r
        },
        Json::Obj(v) => {
            let mut out: Vec<(String, Json)> = Vec::new();
            let mut i: usize = 0;
            while i < v.len()
                invariant
                    0 <= i <= v@.len(),
                    out@.len() == i,
                    forall|q: int|
                        0 <= q < i ==> (#[trigger] out@[q]).0@ == v@[q].0@ && out@[q].1@
                            == v@[q].1@,
                decreases v@.len() - i,
            {
                let key = v[i].0.clone();
                let c = json_clone(&v[i].1);
                out.push((key, c));
                i = i + 1;
            }
            let r = Json::Obj(out);
            proof {
                lemma_entries_view_eq(out@, v@);
            }
            r
        },
    }
}

impl Clone for Json {
    /// The copy has the same view as the original.
    fn clone(&self) -> (r: Json)
        ensures
            r@ == self@,
    {
        json_clone(self)
    }
}

/// Copy an association list of entries; the copy has the same view.
#[verifier::loop_isolation(false)]
pub fn entries_clone(m: &Vec<(String, Json)>) -> (r: Vec<(String, Json)>)
    ensures
        entries_view(r@) == entries_view(m@),
{
    let mut out: Vec<(String, Json)> = Vec::new();
    let mut i: usize = 0;
    while i < m.len()
        invariant
            0 <= i <= m@.len(),
            out@.len() == i,
            forall|q: int|
                0 <= q < i ==> (#[trigger] out@[q]).0@ == m@[q].0@ && out@[q].1@ == m@[q].1@,
        decreases m@.len() - i,
    {
        let key = m[i].0.clone();
        let c = json_clone(&m[i].1);
        out.push((key, c));
        i = i + 1;
    }
    proof {
        lemma_entries_view_eq(out@, m@);
    }
    out
}

} // verus!

