//! General laws of the library, stated and proved over the same spec
//! functions the executable contracts use.

use vstd::prelude::*;
use crate::dom::NodeV;
use crate::eval::collapse;
use crate::json::JsonV;
use crate::project::{ClockV, project_spec, project_entries, project_items, project_string,
    template_var_key, is_wrapped, is_paired_form, month_key, insert_sorted, sort_months,
    pairs_upto, day_range_obj, range_entries, range_contrib};
use crate::text::{dec_of, dec_digit};
use crate::json::{map_get, map_set, key_index, lemma_key_index_bounds, lemma_map_set_get,
    lemma_map_set_frame};
use crate::xpath::{translate_spec, css_of_steps};
use crate::eval::process_rule_spec;
use crate::pipeline::{apply_rule, err_line};
use crate::rules::XPathRuleV;

verus! {

/// The cardinality-collapse law: a rule with no match is `null`, with one
/// match the value itself, with several the array of values in document
/// order.
pub proof fn lemma_cardinality_collapse(vals: Seq<JsonV>)
    ensures
        vals.len() == 0 ==> collapse(vals) == JsonV::Null,
        vals.len() == 1 ==> collapse(vals) == vals[0],
        vals.len() >= 2 ==> collapse(vals) == JsonV::Arr(vals),
{
}

/// Projection is deterministic and a function of the template, the store,
/// the document and the clock alone: equal inputs project to equal
/// outputs.
pub proof fn lemma_projection_deterministic(
    t1: JsonV,
    t2: JsonV,
    m1: Seq<(Seq<char>, JsonV)>,
    m2: Seq<(Seq<char>, JsonV)>,
    doc1: Seq<NodeV>,
    doc2: Seq<NodeV>,
    c1: ClockV,
    c2: ClockV,
)
    requires
        t1 == t2,
        m1 == m2,
        doc1 == doc2,
        c1 == c2,
    ensures
        project_spec(t1, m1, doc1, c1) == project_spec(t2, m2, doc2, c2),
{
}

/// A template with no placeholder anywhere: no string of the whole form
/// `{identifier}`, neither as a value nor as an object key; object keys
/// are distinct, as they are in any parsed JSON object.
pub open spec fn literal_template(t: JsonV) -> bool
    decreases t, 0nat,
{
    match t {
        JsonV::Obj(es) => literal_entries(es) && (forall|i: int, j: int|
            0 <= i < j < es.len() ==> (#[trigger] es[i]).0 != (#[trigger] es[j]).0),
        JsonV::Arr(a) => literal_items(a),
        JsonV::Str(s) => !is_wrapped(s),
        _ => true,
    }
}

pub open spec fn literal_entries(es: Seq<(Seq<char>, JsonV)>) -> bool
    decreases es, 0nat,
{
    es.len() == 0 || (literal_entries(es.drop_last()) && !is_wrapped(es.last().0)
        && literal_template(es.last().1))
}

pub open spec fn literal_items(a: Seq<JsonV>) -> bool
    decreases a, 0nat,
{
    a.len() == 0 || (literal_items(a.drop_last()) && literal_template(a.last()))
}

/// The round-trip law: a template consisting solely of literal JSON
/// projects to itself unchanged, for any data store, document and clock.
pub proof fn lemma_literal_round_trip(
    t: JsonV,
    m: Seq<(Seq<char>, JsonV)>,
    doc: Seq<NodeV>,
    c: ClockV,
)
    requires
        literal_template(t),
    ensures
        project_spec(t, m, doc, c) == t,
    decreases t, 0nat,
{
    match t {
        JsonV::Obj(es) => {
            lemma_literal_entries_round_trip(es, m, doc, c);
        },
        JsonV::Arr(a) => {
            if a.len() == 1 && a[0] == JsonV::Str("{items}"@) {
                assert(literal_items(a));
                assert(literal_template(a[0]));
                reveal_strlit("{items}");
                assert(is_wrapped("{items}"@));
                assert(false);
            }
            if is_paired_form(a) {
                assert(literal_template(a[0]));
                match a[0] {
                    JsonV::Obj(oe) => {
                        assert(literal_entries(oe));
                        assert(!is_wrapped(oe.last().0));
                        assert(oe[0] == oe.last());
                        assert(false);
                    },
                    _ => {},
                }
            }
            lemma_literal_items_round_trip(a, m, doc, c);
        },
        JsonV::Str(s) => {
            assert(project_string(s, m, c) == JsonV::Str(s));
        },
        _ => {},
    }
}

proof fn lemma_literal_entries_round_trip(
    es: Seq<(Seq<char>, JsonV)>,
    m: Seq<(Seq<char>, JsonV)>,
    doc: Seq<NodeV>,
    c: ClockV,
)
    requires
        literal_entries(es),
        forall|i: int, j: int|
            0 <= i < j < es.len() ==> (#[trigger] es[i]).0 != (#[trigger] es[j]).0,
    ensures
        project_entries(es, m, doc, c) == es,
    decreases es, 0nat,
{
    if es.len() > 0 {
        let pre = es.drop_last();
        assert forall|i: int, j: int|
            0 <= i < j < pre.len() implies (#[trigger] pre[i]).0 != (#[trigger] pre[j]).0 by {
            assert(pre[i] == es[i]);
            assert(pre[j] == es[j]);
        }
        lemma_literal_entries_round_trip(pre, m, doc, c);
        let k = es.last().0;
        let v = es.last().1;
        assert(!is_wrapped(k));
        reveal_strlit("{months}");
        if k == "{months}"@ {
            assert(is_wrapped(k));
            assert(false);
        }
        reveal_strlit("{days");
        reveal_strlit("}");
        if crate::text::starts_with(k, "{days"@) && crate::text::ends_with(k, "}"@) && k.len()
            > 6 {
            assert(k[0] == '{') by {
                assert(k.subrange(0, 5)[0] == k[0]);
            }
            assert(k[k.len() - 1] == '}') by {
                assert(k.subrange(k.len() - 1, k.len() as int)[0] == k[k.len() - 1]);
            }
            assert(is_wrapped(k));
            assert(false);
        }
        assert(template_var_key(k, m, c) == k);
        lemma_literal_round_trip(v, m, doc, c);
        let acc = project_entries(pre, m, doc, c);
        assert(acc == pre);
        lemma_key_index_bounds(pre, k);
        if key_index(pre, k) < pre.len() {
            assert(pre[key_index(pre, k)].0 == k);
            assert(es[key_index(pre, k)].0 != es.last().0);
            assert(false);
        }
        assert(map_set(pre, k, v) =~= pre.push((k, v)));
        assert(pre.push((k, v)) =~= es);
    }
}

proof fn lemma_literal_items_round_trip(
    a: Seq<JsonV>,
    m: Seq<(Seq<char>, JsonV)>,
    doc: Seq<NodeV>,
    c: ClockV,
)
    requires
        literal_items(a),
    ensures
        project_items(a, m, doc, c) == a,
    decreases a, 0nat,
{
    if a.len() > 0 {
        lemma_literal_items_round_trip(a.drop_last(), m, doc, c);
        lemma_literal_round_trip(a.last(), m, doc, c);
        assert(project_items(a, m, doc, c) =~= a);
    }
}

proof fn lemma_dec_of_len(n: nat)
    ensures
        dec_of(n).len() >= 1,
        n >= 10 ==> dec_of(n).len() >= 2,
    decreases n,
{
    if n >= 10 {
        lemma_dec_of_len(n / 10);
    }
}

/// A positive day number never reads as the numeral `0`.
proof fn lemma_dec_of_nonzero(i: nat)
    requires
        i >= 1,
    ensures
        dec_of(i) != "0"@,
{
    reveal_strlit("0");
    assert("0"@ =~= seq!['0']);
    lemma_dec_of_len(i);
    if i < 10 {
        assert(dec_of(i) =~= seq![dec_digit(i)]);
        assert(dec_digit(i) as int == 48 + i);
        assert('0' as int == 48);
        assert(dec_of(i)[0] != '0');
    } else {
        assert(dec_of(i).len() >= 2);
    }
}

proof fn lemma_range_entries_exclude_zero(di: Seq<(Seq<char>, JsonV)>, start: int, j: int)
    requires
        start >= 0,
    ensures
        forall|q: int|
            0 <= q < range_entries(di, start, j).len() ==> (#[trigger] range_entries(
                di,
                start,
                j,
            )[q]).0 != "0"@,
    decreases j - start,
{
    if j > start {
        lemma_range_entries_exclude_zero(di, start, j - 1);
        if j - 1 != 0 {
            lemma_dec_of_nonzero((j - 1) as nat);
        }
        let pre = range_entries(di, start, j - 1);
        let whole = range_entries(di, start, j);
        assert forall|q: int| 0 <= q < whole.len() implies (#[trigger] whole[q]).0 != "0"@ by {
            if q < pre.len() {
                assert(whole[q] == pre[q]);
            } else {
                assert(whole[q] == range_contrib(di, j - 1)[q - pre.len()]);
            }
        }
    }
}

/// Day-range expansion excludes day 0 even when the range includes it:
/// with a day-items mapping at hand, no key of the expanded object is the
/// numeral `0`.
pub proof fn lemma_day_range_excludes_zero(m: Seq<(Seq<char>, JsonV)>, start: int, end: int)
    requires
        start >= 0,
        map_get(m, "day_items"@) matches Some(JsonV::Obj(_)),
    ensures
        forall|q: int|
            0 <= q < day_range_obj(m, start, end).len() ==> (#[trigger] day_range_obj(
                m,
                start,
                end,
            )[q]).0 != "0"@,
{
    match map_get(m, "day_items"@) {
        Some(JsonV::Obj(di)) => {
            lemma_range_entries_exclude_zero(di, start, end + 1);
        },
        _ => {},
    }
}

/// Paired zipping is length-safe: never more pairs than the shorter input,
/// and exactly one pair per index when both sides hold strings.
pub proof fn lemma_paired_zip_length(ka: Seq<JsonV>, va: Seq<JsonV>, n: int)
    requires
        0 <= n <= ka.len(),
        n <= va.len(),
    ensures
        pairs_upto(ka, va, n).len() <= n,
        (forall|i: int| 0 <= i < n ==> (#[trigger] ka[i]) is Str && (#[trigger] va[i]) is Str)
            ==> pairs_upto(ka, va, n).len() == n,
    decreases n,
{
    if n > 0 {
        lemma_paired_zip_length(ka, va, n - 1);
    }
}

/// The month entries are sorted when every pair of positions is ranked.
pub open spec fn months_sorted(s: Seq<JsonV>) -> bool {
    forall|i: int, j: int|
        0 <= i <= j < s.len() ==> month_key(#[trigger] s[i]) <= month_key(#[trigger] s[j])
}

proof fn lemma_insert_sorted_bound(s: Seq<JsonV>, x: JsonV, b: int)
    requires
        forall|i: int| 0 <= i < s.len() ==> month_key(#[trigger] s[i]) <= b,
        month_key(x) <= b,
    ensures
        forall|q: int|
            0 <= q < insert_sorted(s, x).len() ==> month_key(#[trigger] insert_sorted(s, x)[q])
                <= b,
    decreases s,
{
    if s.len() > 0 && month_key(x) < month_key(s.last()) {
        let pre = s.drop_last();
        assert forall|i: int| 0 <= i < pre.len() implies month_key(#[trigger] pre[i]) <= b by {
            assert(pre[i] == s[i]);
        }
        lemma_insert_sorted_bound(pre, x, b);
        let r0 = insert_sorted(pre, x);
        let r = r0.push(s.last());
        assert forall|q: int|
            0 <= q < r.len() implies month_key(#[trigger] r[q]) <= b by {
            if q < r.len() - 1 {
                assert(r[q] == r0[q]);
            } else {
                assert(r[q] == s.last());
                assert(month_key(s[s.len() - 1]) <= b);
            }
        }
    } else if s.len() > 0 {
        let r = s.push(x);
        assert forall|q: int|
            0 <= q < r.len() implies month_key(#[trigger] r[q]) <= b by {
            if q < r.len() - 1 {
                assert(r[q] == s[q]);
            }
        }
    }
}

proof fn lemma_insert_sorted(s: Seq<JsonV>, x: JsonV)
    requires
        months_sorted(s),
    ensures
        months_sorted(insert_sorted(s, x)),
        insert_sorted(s, x).len() == s.len() + 1,
        insert_sorted(s, x).to_multiset() == s.to_multiset().insert(x),
    decreases s,
{
    broadcast use vstd::seq_lib::group_to_multiset_ensures;

    if s.len() == 0 {
        assert(seq![x].to_multiset() =~= s.to_multiset().insert(x)) by {
            assert(seq![x] =~= Seq::<JsonV>::empty().push(x));
            assert(s =~= Seq::<JsonV>::empty());
        }
    } else if month_key(x) < month_key(s.last()) {
        let pre = s.drop_last();
        assert forall|i: int, j: int|
            0 <= i <= j < pre.len() implies month_key(#[trigger] pre[i]) <= month_key(
            #[trigger] pre[j],
        ) by {
            assert(pre[i] == s[i]);
            assert(pre[j] == s[j]);
        }
        lemma_insert_sorted(pre, x);
        let r0 = insert_sorted(pre, x);
        let r = r0.push(s.last());
        assert forall|i: int| 0 <= i < pre.len() implies month_key(#[trigger] pre[i]) <= month_key(
            s.last(),
        ) by {
            assert(pre[i] == s[i]);
        }
        lemma_insert_sorted_bound(pre, x, month_key(s.last()));
        assert forall|i: int, j: int|
            0 <= i <= j < r.len() implies month_key(#[trigger] r[i]) <= month_key(
            #[trigger] r[j],
        ) by {
            if j < r.len() - 1 {
                assert(r[i] == r0[i] && r[j] == r0[j]);
            } else if i < r.len() - 1 {
                assert(r[i] == r0[i]);
                assert(r[j] == s.last());
            }
        }
        assert(r.to_multiset() =~= s.to_multiset().insert(x)) by {
            assert(r0.to_multiset() == pre.to_multiset().insert(x));
            assert(r.to_multiset() == r0.to_multiset().insert(s.last()));
            assert(s =~= pre.push(s.last()));
            assert(s.to_multiset() == pre.to_multiset().insert(s.last()));
        }
    } else {
        let r = s.push(x);
        assert forall|i: int, j: int|
            0 <= i <= j < r.len() implies month_key(#[trigger] r[i]) <= month_key(
            #[trigger] r[j],
        ) by {
            if j < r.len() - 1 {
                assert(r[i] == s[i] && r[j] == s[j]);
            } else if i < r.len() - 1 {
                assert(r[i] == s[i]);
                assert(month_key(s[i]) <= month_key(s.last()));
            }
        }
    }
}

/// Month expansion preserves chronological order regardless of input
/// order: the sorted month list is ranked ascending, and holds exactly the
/// input entries.
pub proof fn lemma_months_chronological(s: Seq<JsonV>)
    ensures
        months_sorted(sort_months(s)),
        sort_months(s).len() == s.len(),
        sort_months(s).to_multiset() == s.to_multiset(),
    decreases s,
{
    broadcast use vstd::seq_lib::group_to_multiset_ensures;

    if s.len() > 0 {
        lemma_months_chronological(s.drop_last());
        lemma_insert_sorted(sort_months(s.drop_last()), s.last());
        assert(s =~= s.drop_last().push(s.last()));
        assert(s.to_multiset() == s.drop_last().to_multiset().insert(s.last()));
    }
}

/// Selector translation is pure: it depends on the expression alone, so
/// equal expressions translate identically, whatever the document holds.
pub proof fn lemma_selector_translation_pure(a: Seq<char>, b: Seq<char>)
    requires
        a == b,
    ensures
        translate_spec(a) == translate_spec(b),
        translate_spec(a) is Some ==> css_of_steps(translate_spec(a).unwrap()) == css_of_steps(
            translate_spec(b).unwrap(),
        ),
{
}


/// Per-rule failures are isolated: a rule whose evaluation fails records
/// exactly one error line naming it, stores `null` under its own name, and
/// leaves the value of every other key in the store untouched.
pub proof fn lemma_failed_rule_is_isolated(
    doc: Seq<NodeV>,
    m: Seq<(Seq<char>, JsonV)>,
    errs: Seq<Seq<char>>,
    r: XPathRuleV,
    msg: Seq<char>,
)
    requires
        process_rule_spec(doc, r) == Err::<JsonV, Seq<char>>(msg),
    ensures
        apply_rule(doc, m, errs, r).0 == map_set(m, r.name, JsonV::Null),
        map_get(apply_rule(doc, m, errs, r).0, r.name) == Some(JsonV::Null),
        apply_rule(doc, m, errs, r).1 == errs.push(err_line(r.name, msg)),
        forall|k: Seq<char>|
            k != r.name ==> map_get(#[trigger] apply_rule(doc, m, errs, r).0, k) == map_get(m, k),
{
    lemma_map_set_get(m, r.name, JsonV::Null);
    assert forall|k: Seq<char>|
        k != r.name implies map_get(#[trigger] apply_rule(doc, m, errs, r).0, k) == map_get(
        m,
        k,
    ) by {
        lemma_map_set_frame(m, r.name, JsonV::Null, k);
    }
}

/// A rule that evaluates cleanly (and is not the special months iteration)
/// records no error, stores its value under its own name, and leaves every
/// other key's value untouched.
pub proof fn lemma_rule_writes_its_own_key(
    doc: Seq<NodeV>,
    m: Seq<(Seq<char>, JsonV)>,
    errs: Seq<Seq<char>>,
    r: XPathRuleV,
    v: JsonV,
)
    requires
        process_rule_spec(doc, r) == Ok::<JsonV, Seq<char>>(v),
        !(r.name == "months"@ && r.for_each_item is Some),
    ensures
        apply_rule(doc, m, errs, r).0 == map_set(m, r.name, v),
        map_get(apply_rule(doc, m, errs, r).0, r.name) == Some(v),
        apply_rule(doc, m, errs, r).1 == errs,
        forall|k: Seq<char>|
            k != r.name ==> map_get(#[trigger] apply_rule(doc, m, errs, r).0, k) == map_get(m, k),
{
    lemma_map_set_get(m, r.name, v);
    assert forall|k: Seq<char>|
        k != r.name implies map_get(#[trigger] apply_rule(doc, m, errs, r).0, k) == map_get(
        m,
        k,
    ) by {
        lemma_map_set_frame(m, r.name, v, k);
    }
}

} // verus!
