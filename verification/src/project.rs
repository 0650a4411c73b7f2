//! The template projector: renders an output-shape template by substituting
//! placeholders with evaluated rule values, expanding month and day
//! iteration, and zipping paired arrays. Projection never fails: every
//! unresolved placeholder passes through as its literal text.

use vstd::prelude::*;
use crate::dom::{Node, NodeV, nodes_view};
use crate::eval::items_for_day;
use crate::json::{Json, JsonV, jsons_view, entries_view, map_get, map_set, key_index,
    lemma_key_index_bounds, lemma_jsons_view, lemma_jsons_view_push, lemma_entries_view,
    json_clone, entries_clone, entries_get, entries_set};
use crate::text::{trim_spec, trim_str, first_token, first_token_str, starts_with, ends_with,
    parse_usize_spec, parse_usize, dec_of, usize_to_string};

verus! {

/// Mathematical model of the injected clock.
#[verifier::ext_equal]
pub struct ClockV {
    pub year: Seq<char>,
    pub month: Seq<char>,
    pub day: Seq<char>,
    pub date: Seq<char>,
}

/// The clock the projector reads the current year, month, day and date
/// from: an explicit collaborator, so a caller can fix "now".
#[derive(Debug)]
pub struct Clock {
    pub year: String,
    pub month: String,
    pub day: String,
    pub date: String,
}

impl View for Clock {
    type V = ClockV;

    open spec fn view(&self) -> ClockV {
        ClockV { year: self.year@, month: self.month@, day: self.day@, date: self.date@ }
    }
}

/// A whole string of the form `{identifier}`.
pub open spec fn is_wrapped(s: Seq<char>) -> bool {
    s.len() >= 2 && s[0] == '{' && s[s.len() - 1] == '}'
}

fn is_wrapped_exec(s: &str) -> (r: bool)
    ensures
        r == is_wrapped(s@),
{
    let n = s.unicode_len();
    n >= 2 && s.get_char(0) == '{' && s.get_char(n - 1) == '}'
}

/// The array held by the value, or the empty sequence.
pub open spec fn arr_of(v: Option<JsonV>) -> Seq<JsonV> {
    match v {
        Some(JsonV::Arr(a)) => a,
        _ => Seq::empty(),
    }
}

/// Chronological rank of a month name; an unrecognized name ranks last.
pub open spec fn month_index(s: Seq<char>) -> int {
    if s == "January"@ {
        0
    } else if s == "February"@ {
        1
    } else if s == "March"@ {
        2
    } else if s == "April"@ {
        3
    } else if s == "May"@ {
        4
    } else if s == "June"@ {
        5
    } else if s == "July"@ {
        6
    } else if s == "August"@ {
        7
    } else if s == "September"@ {
        8
    } else if s == "October"@ {
        9
    } else if s == "November"@ {
        10
    } else if s == "December"@ {
        11
    } else {
        12
    }
}

/// Rank of a month entry: the rank of its first token; anything else ranks
/// last.
pub open spec fn month_key(v: JsonV) -> int {
    match v {
        JsonV::Str(s) => match first_token(s) {
            Some(t) => month_index(t),
            None => 12,
        },
        _ => 12,
    }
}

fn month_index_exec(s: &str) -> (r: usize)
    ensures
        r == month_index(s@),
{
    if crate::text::str_eq(s, "January") {
        0
    } else if crate::text::str_eq(s, "February") {
        1
    } else if crate::text::str_eq(s, "March") {
        2
    } else if crate::text::str_eq(s, "April") {
        3
    } else if crate::text::str_eq(s, "May") {
        4
    } else if crate::text::str_eq(s, "June") {
        5
    } else if crate::text::str_eq(s, "July") {
        6
    } else if crate::text::str_eq(s, "August") {
        7
    } else if crate::text::str_eq(s, "September") {
        8
    } else if crate::text::str_eq(s, "October") {
        9
    } else if crate::text::str_eq(s, "November") {
        10
    } else if crate::text::str_eq(s, "December") {
        11
    } else {
        12
    }
}

fn month_key_exec(v: &Json) -> (r: usize)
    ensures
        r == month_key(v@),
{
    match v {
        Json::Str(s) => match first_token_str(s.as_str()) {
            Some(t) => month_index_exec(t.as_str()),
            None => 12,
        },
        _ => 12,
    }
}

/// The items slice belonging to the day at `idx` under the even split of
/// the flat `items` array across the `days` array; the last day absorbs the
/// remainder.
pub open spec fn numbered_days(m: Seq<(Seq<char>, JsonV)>, idx: int) -> JsonV {
    let days = arr_of(map_get(m, "days"@));
    let items = arr_of(map_get(m, "items"@));
    if 0 <= idx < days.len() && days[idx] is Str {
        if days.len() > 0 && items.len() > 0 {
            let per = items.len() as int / days.len() as int;
            let st = idx * per;
            let en = if idx == days.len() - 1 {
                items.len() as int
            } else {
                st + per
            };
            JsonV::Arr(items.subrange(st, en))
        } else {
            JsonV::Arr(Seq::empty())
        }
    } else {
        JsonV::Arr(Seq::empty())
    }
}

/// Indexed-day lookup: the day at that index with its even-split item
/// slice; an index out of range, or a non-string day, yields an empty
/// array.
#[verifier::loop_isolation(false)]
pub fn process_numbered_days_with_items(m: &Vec<(String, Json)>, day_index: usize) -> (r: Json)
    ensures
        r@ == numbered_days(entries_view(m@), day_index as int),
{
    let empty_days: Vec<Json> = Vec::new();
    let empty_items: Vec<Json> = Vec::new();
    let days: &Vec<Json> = match entries_get(m, "days") {
        Some(j) => match j {
            Json::Arr(d) => d,
            _ => &empty_days,
        },
        None => &empty_days,
    };
    let items: &Vec<Json> = match entries_get(m, "items") {
        Some(j) => match j {
            Json::Arr(d) => d,
            _ => &empty_items,
        },
        None => &empty_items,
    };
    proof {
        assert(jsons_view(days@) =~= arr_of(map_get(entries_view(m@), "days"@)));
        assert(jsons_view(items@) =~= arr_of(map_get(entries_view(m@), "items"@)));
        lemma_jsons_view(days@);
        lemma_jsons_view(items@);
    }
    let is_str_day = if day_index < days.len() {
        match &days[day_index] {
            Json::Str(_) => true,
            _ => false,
        }
    } else {
        false
    };
    if !is_str_day {
        return Json::Arr(Vec::new());
    }
    if days.len() == 0 || items.len() == 0 {
        return Json::Arr(Vec::new());
    }
    let per = items.len() / days.len();
    proof {
        vstd::arithmetic::div_mod::lemma_fundamental_div_mod(
            items.len() as int,
            days.len() as int,
        );
        assert(day_index * per + per <= items.len()) by (nonlinear_arith)
            requires
                day_index < days.len(),
                days.len() as int * per + (items.len() as int % days.len() as int) == items.len(),
                items.len() as int % days.len() as int >= 0,
                per >= 0,
        ;
    }
    let st = day_index * per;
    let en = if day_index == days.len() - 1 {
        items.len()
    } else {
        st + per
    };
    let mut out: Vec<Json> = Vec::new();
    let mut q: usize = st;
    while q < en
        invariant
            st <= q <= en <= items@.len(),
            jsons_view(out@) =~= jsons_view(items@).subrange(st as int, q as int),
        decreases en - q,
    {
        let ghost op = out@;
        let c = json_clone(&items[q]);
        out.push(c);
        proof {
            lemma_jsons_view_push(op, out@.last());
            assert(out@ == op.push(out@.last()));
            assert(jsons_view(out@) =~= jsons_view(items@).subrange(st as int, q + 1));
        }
        q = q + 1;
    }
    Json::Arr(out)
}

/// The zipped pairs of two parallel arrays, up to the shorter length: one
/// single-entry object per index where both sides are strings, keys and
/// values trimmed.
pub open spec fn pairs_upto(ka: Seq<JsonV>, va: Seq<JsonV>, q: int) -> Seq<JsonV>
    decreases q,
{
    if q <= 0 {
        Seq::empty()
    } else {
        pairs_upto(ka, va, q - 1) + (match (ka[q - 1], va[q - 1]) {
            (JsonV::Str(k), JsonV::Str(v)) => seq![
                JsonV::Obj(seq![(trim_spec(k), JsonV::Str(trim_spec(v)))]),
            ],
            _ => Seq::empty(),
        })
    }
}

/// Paired zipping of the two named rule results.
pub open spec fn paired(kt: Seq<char>, vt: Seq<char>, m: Seq<(Seq<char>, JsonV)>) -> JsonV {
    let ka = arr_of(map_get(m, kt.subrange(1, kt.len() - 1)));
    let va = arr_of(map_get(m, vt.subrange(1, vt.len() - 1)));
    let n: int = if ka.len() <= va.len() {
        ka.len() as int
    } else {
        va.len() as int
    };
    JsonV::Arr(pairs_upto(ka, va, n))
}

/// Zip the arrays named by the two placeholder templates element-wise up to
/// the shorter length, trimming both sides of each string pair.
#[verifier::loop_isolation(false)]
pub fn process_paired_data(key_template: &str, value_template: &str, m: &Vec<(String, Json)>) -> (r:
    Json)
    requires
        is_wrapped(key_template@),
        is_wrapped(value_template@),
    ensures
        r@ == paired(key_template@, value_template@, entries_view(m@)),
{
    let kn = key_template.unicode_len();
    let vn = value_template.unicode_len();
    let key_rule = key_template.substring_char(1, kn - 1);
    let value_rule = value_template.substring_char(1, vn - 1);
    let empty_a: Vec<Json> = Vec::new();
    let empty_b: Vec<Json> = Vec::new();
    let ka: &Vec<Json> = match entries_get(m, key_rule) {
        Some(j) => match j {
            Json::Arr(d) => d,
            _ => &empty_a,
        },
        None => &empty_a,
    };
    let va: &Vec<Json> = match entries_get(m, value_rule) {
        Some(j) => match j {
            Json::Arr(d) => d,
            _ => &empty_b,
        },
        None => &empty_b,
    };
    let ghost kav = jsons_view(ka@);
    let ghost vav = jsons_view(va@);
    proof {
        assert(kav =~= arr_of(map_get(entries_view(m@), key_template@.subrange(
            1,
            key_template@.len() - 1,
        ))));
        assert(vav =~= arr_of(map_get(entries_view(m@), value_template@.subrange(
            1,
            value_template@.len() - 1,
        ))));
        lemma_jsons_view(ka@);
        lemma_jsons_view(va@);
    }
    let n = if ka.len() <= va.len() {
        ka.len()
    } else {
        va.len()
    };
    let mut out: Vec<Json> = Vec::new();
    let mut i: usize = 0;
    while i < n
        invariant
            0 <= i <= n,
            n <= ka@.len() && n <= va@.len(),
            jsons_view(out@) =~= pairs_upto(kav, vav, i as int),
        decreases n - i,
    {
        let ghost op = out@;
        match (&ka[i], &va[i]) {
            (Json::Str(ks), Json::Str(vs)) => {
                let tk = trim_str(ks.as_str());
                let tv = trim_str(vs.as_str());
                let mut pair: Vec<(String, Json)> = Vec::new();
                pair.push((tk, Json::Str(tv)));
                proof {
                    lemma_entries_view(pair@);
                    assert(entries_view(pair@) =~= seq![
                        (trim_spec(ks@), JsonV::Str(trim_spec(vs@))),
                    ]);
                }
                out.push(Json::Obj(pair));
            },
            _ => {},
        }
        proof {
            if out@.len() > op.len() {
                lemma_jsons_view_push(op, out@.last());
                assert(out@ == op.push(out@.last()));
            }
            assert(jsons_view(out@) =~= pairs_upto(kav, vav, i + 1));
        }
        i = i + 1;
    }
    Json::Arr(out)
}

/// Append an item to the array stored under `k`, creating the entry if it
/// is new.
pub open spec fn append_item(
    acc: Seq<(Seq<char>, JsonV)>,
    k: Seq<char>,
    item: JsonV,
) -> Seq<(Seq<char>, JsonV)> {
    let ki = key_index(acc, k);
    if ki < acc.len() {
        acc.update(
            ki,
            (
                k,
                JsonV::Arr(
                    match acc[ki].1 {
                        JsonV::Arr(a) => a.push(item),
                        _ => seq![item],
                    },
                ),
            ),
        )
    } else {
        acc.push((k, JsonV::Arr(seq![item])))
    }
}

/// The day-to-items grouping of the first `q` items, distributed
/// round-robin across the days.
pub open spec fn group_upto(days: Seq<JsonV>, items: Seq<JsonV>, q: int) -> Seq<
    (Seq<char>, JsonV),
>
    decreases q,
{
    if q <= 0 || days.len() == 0 {
        Seq::empty()
    } else {
        let acc = group_upto(days, items, q - 1);
        match days[(q - 1) % days.len() as int] {
            JsonV::Str(ds) => append_item(acc, trim_spec(ds), items[q - 1]),
            _ => acc,
        }
    }
}

/// Item-by-day grouping: the flat `items` array distributed round-robin
/// across the `days` array, as a day-label-to-items object.
pub open spec fn days_with_items(m: Seq<(Seq<char>, JsonV)>) -> Seq<(Seq<char>, JsonV)> {
    let days = arr_of(map_get(m, "days"@));
    let items = arr_of(map_get(m, "items"@));
    group_upto(days, items, items.len() as int)
}

/// Append `item` to the array entry under `k`, creating it if absent.
#[verifier::loop_isolation(false)]
fn append_to_entry(m: &mut Vec<(String, Json)>, k: String, item: Json)
    ensures
        entries_view(final(m)@) == append_item(entries_view(old(m)@), k@, item@),
{
    let ghost m0 = m@;
    let ghost mv = entries_view(m@);
    proof {
        lemma_key_index_bounds(mv, k@);
        lemma_entries_view(m@);
    }
    let mut i: usize = 0;
    while i < m.len()
        invariant
            m@ == m0,
            0 <= i <= m@.len(),
            forall|j: int| 0 <= j < i ==> (#[trigger] m@[j]).0@ != k@,
            i <= key_index(mv, k@),
        decreases m@.len() - i,
    {
        if crate::text::str_eq(m[i].0.as_str(), k.as_str()) {
            proof {
                assert(mv[i as int].0 == m@[i as int].0@);
                assert(key_index(mv, k@) == i);
            }
            let old_pair = m.remove(i);
            let mut arr: Vec<Json> = match old_pair.1 {
                Json::Arr(a) => a,
                _ => Vec::new(),
            };
            let ghost av = jsons_view(arr@);
            proof {
                lemma_jsons_view(arr@);
                match mv[i as int].1 {
                    JsonV::Arr(a0) => {
                        assert(av == a0);
                    },
                    _ => {
                        assert(av =~= Seq::<JsonV>::empty());
                    },
                }
            }
            let ghost iv = item@;
            let ghost ap = arr@;
            arr.push(item);
            proof {
                lemma_jsons_view_push(ap, arr@.last());
                assert(arr@ == ap.push(arr@.last()));
                assert(jsons_view(arr@) =~= (match mv[i as int].1 {
                    JsonV::Arr(a) => a.push(iv),
                    _ => seq![iv],
                }));
            }
            m.insert(i, (k, Json::Arr(arr)));
            proof {
                lemma_entries_view(m@);
                lemma_entries_view(m0);
                assert forall|q: int| 0 <= q < m@.len() implies entries_view(m@)[q] == append_item(
                    mv,
                    k@,
                    iv,
                )[q] by {
                    if q != i {
                        assert(m@[q] == m0.remove(i as int).insert(i as int, m@[i as int])[q]);
                        assert(m@[q] == m0[q]);
                    }
                }
                assert(entries_view(m@) =~= append_item(mv, k@, iv));
            }
            return ;
        }
        proof {
            assert(mv[i as int].0 == m@[i as int].0@);
            if key_index(mv, k@) == i {
                assert(mv[i as int].0 == k@);
            }
        }
        i = i + 1;
    }
    proof {
        lemma_key_index_bounds(mv, k@);
    }
    let ghost iv = item@;
    let mut arr: Vec<Json> = Vec::new();
    arr.push(item);
    proof {
        lemma_jsons_view(arr@);
        assert(jsons_view(arr@) =~= seq![iv]);
    }
    m.push((k, Json::Arr(arr)));
    proof {
        lemma_entries_view(m@);
        lemma_entries_view(m0);
        assert forall|q: int| 0 <= q < m@.len() implies entries_view(m@)[q] == append_item(
            mv,
            k@,
            iv,
        )[q] by {
            if q < m@.len() - 1 {
                assert(m@[q] == m0[q]);
            }
        }
        assert(entries_view(m@) =~= append_item(mv, k@, iv));
    }
}

/// Group the flat `items` array by day, round-robin across the `days`
/// array; empty days give an empty object.
#[verifier::loop_isolation(false)]
pub fn process_days_with_items(m: &Vec<(String, Json)>) -> (r: Json)
    ensures
        r@ == JsonV::Obj(days_with_items(entries_view(m@))),
{
    let empty_days: Vec<Json> = Vec::new();
    let empty_items: Vec<Json> = Vec::new();
    let days: &Vec<Json> = match entries_get(m, "days") {
        Some(j) => match j {
            Json::Arr(d) => d,
            _ => &empty_days,
        },
        None => &empty_days,
    };
    let items: &Vec<Json> = match entries_get(m, "items") {
        Some(j) => match j {
            Json::Arr(d) => d,
            _ => &empty_items,
        },
        None => &empty_items,
    };
    let ghost daysv = jsons_view(days@);
    let ghost itemsv = jsons_view(items@);
    proof {
        assert(daysv =~= arr_of(map_get(entries_view(m@), "days"@)));
        assert(itemsv =~= arr_of(map_get(entries_view(m@), "items"@)));
        lemma_jsons_view(days@);
        lemma_jsons_view(items@);
    }
    let mut out: Vec<(String, Json)> = Vec::new();
    if days.len() == 0 {
        proof {
            assert(entries_view(out@) =~= days_with_items(entries_view(m@)));
        }
        return Json::Obj(out);
    }
    let mut i: usize = 0;
    while i < items.len()
        invariant
            0 <= i <= items@.len(),
            days@.len() > 0,
            entries_view(out@) == group_upto(daysv, itemsv, i as int),
        decreases items@.len() - i,
    {
        let di = i % days.len();
        match &days[di] {
            Json::Str(ds) => {
                let key = trim_str(ds.as_str());
                let item = json_clone(&items[i]);
                append_to_entry(&mut out, key, item);
            },
            _ => {},
        }
        proof {
            assert(entries_view(out@) == group_upto(daysv, itemsv, i + 1));
        }
        i = i + 1;
    }
    Json::Obj(out)
}


/// A day's items in the precomputed day-items mapping, or an empty array.
pub open spec fn day_items_val(di: Seq<(Seq<char>, JsonV)>, key: Seq<char>) -> JsonV {
    match map_get(di, key) {
        Some(v) => v,
        None => JsonV::Arr(Seq::empty()),
    }
}

/// The entry day `i` contributes to a range expansion: nothing for day 0.
pub open spec fn range_contrib(di: Seq<(Seq<char>, JsonV)>, i: int) -> Seq<(Seq<char>, JsonV)> {
    if i == 0 {
        Seq::empty()
    } else {
        seq![(dec_of(i as nat), day_items_val(di, dec_of(i as nat)))]
    }
}

/// The range-expansion entries for days in `[start, j)`.
pub open spec fn range_entries(di: Seq<(Seq<char>, JsonV)>, start: int, j: int) -> Seq<
    (Seq<char>, JsonV),
>
    decreases j - start,
{
    if j <= start {
        Seq::empty()
    } else {
        range_entries(di, start, j - 1) + range_contrib(di, j - 1)
    }
}

/// The fallback even-split entries over the first `q` days, used when no
/// precomputed day-items mapping exists.
pub open spec fn fallback_upto(days: Seq<JsonV>, items: Seq<JsonV>, q: int) -> Seq<
    (Seq<char>, JsonV),
>
    decreases q,
{
    if q <= 0 {
        Seq::empty()
    } else {
        let acc = fallback_upto(days, items, q - 1);
        let di = q - 1;
        let per = items.len() as int / days.len() as int;
        let st = di * per;
        let en = if di == days.len() - 1 {
            items.len() as int
        } else {
            st + per
        };
        match days[di] {
            JsonV::Str(ds) => map_set(acc, trim_spec(ds), JsonV::Arr(items.subrange(st, en))),
            _ => acc,
        }
    }
}

/// The object a day-range expansion produces: one entry per day of the
/// range except day 0, from the day-items mapping when it exists, else the
/// even split of the flat items across the day labels.
pub open spec fn day_range_obj(m: Seq<(Seq<char>, JsonV)>, start: int, end: int) -> Seq<
    (Seq<char>, JsonV),
> {
    match map_get(m, "day_items"@) {
        Some(JsonV::Obj(di)) => range_entries(di, start, end + 1),
        _ => {
            let days = arr_of(map_get(m, "days"@));
            let items = arr_of(map_get(m, "items"@));
            if days.len() > 0 && items.len() > 0 {
                fallback_upto(days, items, days.len() as int)
            } else {
                Seq::empty()
            }
        },
    }
}

#[verifier::loop_isolation(false)]
fn range_step(out: &mut Vec<(String, Json)>, di: &Vec<(String, Json)>, i: usize)
    ensures
        entries_view(final(out)@) == entries_view(old(out)@) + range_contrib(
            entries_view(di@),
            i as int,
        ),
{
    let ghost o0 = entries_view(out@);
    if i == 0 {
        proof {
            assert(entries_view(out@) =~= o0 + range_contrib(entries_view(di@), i as int));
        }
        return ;
    }
    let key = usize_to_string(i);
    let val = match entries_get(di, key.as_str()) {
        Some(v) => json_clone(v),
        None => Json::Arr(Vec::new()),
    };
    let ghost op = out@;
    out.push((key, val));
    proof {
        lemma_entries_view(out@);
        lemma_entries_view(op);
        assert forall|q: int|
            0 <= q < out@.len() implies entries_view(out@)[q] == (o0 + range_contrib(
            entries_view(di@),
            i as int,
        ))[q] by {
            if q < op.len() {
                assert(out@[q] == op[q]);
            }
        }
        assert(entries_view(out@) =~= o0 + range_contrib(entries_view(di@), i as int));
    }
}

/// Expand a day range: one key per day of `[start_day, end_day]`, skipping
/// day 0, each holding that day's items.
#[verifier::loop_isolation(false)]
pub fn process_day_range_with_items(m: &Vec<(String, Json)>, start_day: usize, end_day: usize) -> (r:
    Json)
    ensures
        r@ == JsonV::Obj(day_range_obj(entries_view(m@), start_day as int, end_day as int)),
{
    match entries_get(m, "day_items") {
        Some(j) => {
            match j {
                Json::Obj(di) => {
                    let ghost div = entries_view(di@);
                    let mut out: Vec<(String, Json)> = Vec::new();
                    if start_day > end_day {
                        proof {
                            assert(entries_view(out@) =~= range_entries(
                                div,
                                start_day as int,
                                end_day + 1,
                            ));
                        }
                        return Json::Obj(out);
                    }
                    let mut i: usize = start_day;
                    while i < end_day
                        invariant
                            start_day <= i <= end_day,
                            entries_view(out@) == range_entries(div, start_day as int, i as int),
                        decreases end_day - i,
                    {
                        range_step(&mut out, di, i);
                        i = i + 1;
                    }
                    range_step(&mut out, di, end_day);
                    proof {
                        assert(entries_view(out@) == range_entries(
                            div,
                            start_day as int,
                            end_day as int,
                        ) + range_contrib(div, end_day as int));
                    }
                    return Json::Obj(out);
                },
                _ => {},
            }
        },
        None => {},
    }
    let empty_days: Vec<Json> = Vec::new();
    let empty_items: Vec<Json> = Vec::new();
    let days: &Vec<Json> = match entries_get(m, "days") {
        Some(j) => match j {
            Json::Arr(d) => d,
            _ => &empty_days,
        },
        None => &empty_days,
    };
    let items: &Vec<Json> = match entries_get(m, "items") {
        Some(j) => match j {
            Json::Arr(d) => d,
            _ => &empty_items,
        },
        None => &empty_items,
    };
    let ghost daysv = jsons_view(days@);
    let ghost itemsv = jsons_view(items@);
    proof {
        assert(daysv =~= arr_of(map_get(entries_view(m@), "days"@)));
        assert(itemsv =~= arr_of(map_get(entries_view(m@), "items"@)));
        lemma_jsons_view(days@);
        lemma_jsons_view(items@);
    }
    let mut out: Vec<(String, Json)> = Vec::new();
    if days.len() == 0 || items.len() == 0 {
        proof {
            assert(entries_view(out@) =~= day_range_obj(
                entries_view(m@),
                start_day as int,
                end_day as int,
            ));
        }
        return Json::Obj(out);
    }
    let per = items.len() / days.len();
    let mut di: usize = 0;
    while di < days.len()
        invariant
            0 <= di <= days@.len(),
            days@.len() > 0 && items@.len() > 0,
            per == items@.len() / days@.len(),
            entries_view(out@) == fallback_upto(daysv, itemsv, di as int),
        decreases days@.len() - di,
    {
        proof {
            vstd::arithmetic::div_mod::lemma_fundamental_div_mod(
                items.len() as int,
                days.len() as int,
            );
            assert(di * per + per <= items.len()) by (nonlinear_arith)
                requires
                    di < days.len(),
                    days.len() as int * per + (items.len() as int % days.len() as int)
                        == items.len(),
                    items.len() as int % days.len() as int >= 0,
                    per >= 0,
            ;
        }
        match &days[di] {
            Json::Str(ds) => {
                let key = trim_str(ds.as_str());
                let st = di * per;
                let en = if di == days.len() - 1 {
                    items.len()
                } else {
                    st + per
                };
                let mut slice: Vec<Json> = Vec::new();
                let mut q: usize = st;
                while q < en
                    invariant
                        st <= q <= en <= items@.len(),
                        jsons_view(slice@) =~= itemsv.subrange(st as int, q as int),
                    decreases en - q,
                {
                    let ghost sp = slice@;
                    let c = json_clone(&items[q]);
                    slice.push(c);
                    proof {
                        lemma_jsons_view_push(sp, slice@.last());
                        assert(slice@ == sp.push(slice@.last()));
                        assert(jsons_view(slice@) =~= itemsv.subrange(st as int, q + 1));
                    }
                    q = q + 1;
                }
                entries_set(&mut out, key, Json::Arr(slice));
            },
            _ => {},
        }
        proof {
            assert(entries_view(out@) == fallback_upto(daysv, itemsv, di + 1));
        }
        di = di + 1;
    }
    Json::Obj(out)
}

/// The value a whole-string template resolves to.
pub open spec fn project_string(s: Seq<char>, m: Seq<(Seq<char>, JsonV)>, c: ClockV) -> JsonV {
    if is_wrapped(s) {
        let id = s.subrange(1, s.len() - 1);
        if id == "currentYear"@ {
            JsonV::Str(c.year)
        } else if id == "currentMonth"@ {
            JsonV::Str(c.month)
        } else if id == "currentDay"@ {
            JsonV::Str(c.day)
        } else if id == "currentDate"@ {
            JsonV::Str(c.date)
        } else if starts_with(id, "days"@) && id.len() > 4 {
            match parse_usize_spec(id.skip(4)) {
                Some(idx) => numbered_days(m, idx as int),
                None => JsonV::Str(s),
            }
        } else {
            match map_get(m, id) {
                Some(v) => match v {
                    JsonV::Arr(a) => if a.len() > 0 {
                        match a[0] {
                            JsonV::Str(t) => JsonV::Str(trim_spec(t)),
                            _ => JsonV::Str(s),
                        }
                    } else {
                        JsonV::Str(s)
                    },
                    JsonV::Str(t) => JsonV::Str(trim_spec(t)),
                    _ => JsonV::Str(s),
                },
                None => JsonV::Str(s),
            }
        }
    } else {
        JsonV::Str(s)
    }
}

/// Resolve a whole-string template: reserved clock fields, indexed days,
/// else a named lookup collapsing an array to its first element, trimmed;
/// anything unresolved passes through unchanged.
pub fn resolve_string(s: &str, m: &Vec<(String, Json)>, clock: &Clock) -> (r: Json)
    ensures
        r@ == project_string(s@, entries_view(m@), clock@),
{
    if !is_wrapped_exec(s) {
        return Json::Str(s.to_owned());
    }
    let n = s.unicode_len();
    let id = s.substring_char(1, n - 1);
    if crate::text::str_eq(id, "currentYear") {
        Json::Str(clock.year.clone())
    } else if crate::text::str_eq(id, "currentMonth") {
        Json::Str(clock.month.clone())
    } else if crate::text::str_eq(id, "currentDay") {
        Json::Str(clock.day.clone())
    } else if crate::text::str_eq(id, "currentDate") {
        Json::Str(clock.date.clone())
    } else if crate::text::starts_with_str(id, "days") && id.unicode_len() > 4 {
        let rest = id.substring_char(4, id.unicode_len());
        proof {
            assert(rest@ =~= id@.skip(4));
        }
        match parse_usize(rest) {
            Some(idx) => process_numbered_days_with_items(m, idx),
            None => Json::Str(s.to_owned()),
        }
    } else {
        match entries_get(m, id) {
            Some(j) => match j {
                Json::Arr(a) => {
                    proof {
                        lemma_jsons_view(a@);
                    }
                    if a.len() > 0 {
                        match &a[0] {
                            Json::Str(t) => Json::Str(trim_str(t.as_str())),
                            _ => Json::Str(s.to_owned()),
                        }
                    } else {
                        Json::Str(s.to_owned())
                    }
                },
                Json::Str(t) => Json::Str(trim_str(t.as_str())),
                _ => Json::Str(s.to_owned()),
            },
            None => Json::Str(s.to_owned()),
        }
    }
}

/// The key a template key resolves to.
pub open spec fn template_var_key(k: Seq<char>, m: Seq<(Seq<char>, JsonV)>, c: ClockV) -> Seq<
    char,
> {
    if is_wrapped(k) {
        let id = k.subrange(1, k.len() - 1);
        if id == "currentYear"@ {
            c.year
        } else if id == "currentMonth"@ {
            c.month
        } else if id == "currentDay"@ {
            c.day
        } else if id == "currentDate"@ {
            c.date
        } else if id == "months"@ {
            match map_get(m, "months"@) {
                Some(v) => match v {
                    JsonV::Arr(a) => if a.len() > 0 {
                        match a[0] {
                            JsonV::Str(ms) => match first_token(ms) {
                                Some(t) => t,
                                None => "October"@,
                            },
                            _ => k,
                        }
                    } else {
                        k
                    },
                    _ => k,
                },
                None => k,
            }
        } else if starts_with(id, "days"@) && id.len() > 4 {
            if crate::text::contains_sub(id, "-"@) {
                id
            } else {
                match parse_usize_spec(id.skip(4)) {
                    Some(idx) => match map_get(m, "days"@) {
                        Some(v) => match v {
                            JsonV::Arr(a) => if idx < a.len() {
                                match a[idx as int] {
                                    JsonV::Str(ds) => trim_spec(ds),
                                    _ => k,
                                }
                            } else {
                                k
                            },
                            _ => k,
                        },
                        None => k,
                    },
                    None => k,
                }
            }
        } else {
            match map_get(m, id) {
                Some(v) => match v {
                    JsonV::Arr(a) => if a.len() > 0 {
                        match a[0] {
                            JsonV::Str(t) => trim_spec(t),
                            _ => k,
                        }
                    } else {
                        k
                    },
                    JsonV::Str(t) => trim_spec(t),
                    _ => k,
                },
                None => k,
            }
        }
    } else {
        k
    }
}

/// Resolve a template key: reserved clock fields, the first month name,
/// day labels by index, else a named lookup collapsing to the first
/// element, trimmed; anything unresolved passes through unchanged.
pub fn process_template_variable(key: &str, m: &Vec<(String, Json)>, clock: &Clock) -> (r: String)
    ensures
        r@ == template_var_key(key@, entries_view(m@), clock@),
{
    if !is_wrapped_exec(key) {
        return key.to_owned();
    }
    let n = key.unicode_len();
    let id = key.substring_char(1, n - 1);
    if crate::text::str_eq(id, "currentYear") {
        clock.year.clone()
    } else if crate::text::str_eq(id, "currentMonth") {
        clock.month.clone()
    } else if crate::text::str_eq(id, "currentDay") {
        clock.day.clone()
    } else if crate::text::str_eq(id, "currentDate") {
        clock.date.clone()
    } else if crate::text::str_eq(id, "months") {
        match entries_get(m, "months") {
            Some(j) => match j {
                Json::Arr(a) => {
                    proof {
                        lemma_jsons_view(a@);
                    }
                    if a.len() > 0 {
                        match &a[0] {
                            Json::Str(ms) => match first_token_str(ms.as_str()) {
                                Some(t) => t,
                                None => "October".to_owned(),
                            },
                            _ => key.to_owned(),
                        }
                    } else {
                        key.to_owned()
                    }
                },
                _ => key.to_owned(),
            },
            None => key.to_owned(),
        }
    } else if crate::text::starts_with_str(id, "days") && id.unicode_len() > 4 {
        if crate::text::contains_str(id, "-") {
            id.to_owned()
        } else {
            let rest = id.substring_char(4, id.unicode_len());
            proof {
                assert(rest@ =~= id@.skip(4));
            }
            match parse_usize(rest) {
                Some(idx) => match entries_get(m, "days") {
                    Some(j) => match j {
                        Json::Arr(a) => {
                            proof {
                                lemma_jsons_view(a@);
                            }
                            if idx < a.len() {
                                match &a[idx] {
                                    Json::Str(ds) => trim_str(ds.as_str()),
                                    _ => key.to_owned(),
                                }
                            } else {
                                key.to_owned()
                            }
                        },
                        _ => key.to_owned(),
                    },
                    None => key.to_owned(),
                },
                None => key.to_owned(),
            }
        }
    } else {
        match entries_get(m, id) {
            Some(j) => match j {
                Json::Arr(a) => {
                    proof {
                        lemma_jsons_view(a@);
                    }
                    if a.len() > 0 {
                        match &a[0] {
                            Json::Str(t) => trim_str(t.as_str()),
                            _ => key.to_owned(),
                        }
                    } else {
                        key.to_owned()
                    }
                },
                Json::Str(t) => trim_str(t.as_str()),
                _ => key.to_owned(),
            },
            None => key.to_owned(),
        }
    }
}


/// Insert a month entry into an already chronologically sorted list,
/// after any entry of equal rank (so the sort is stable).
pub open spec fn insert_sorted(s: Seq<JsonV>, x: JsonV) -> Seq<JsonV>
    decreases s,
{
    if s.len() == 0 {
        seq![x]
    } else if month_key(x) < month_key(s.last()) {
        insert_sorted(s.drop_last(), x).push(s.last())
    } else {
        s.push(x)
    }
}

/// The month entries in chronological order of their name tokens;
/// unrecognized names sort last, and entries of equal rank keep their
/// input order.
pub open spec fn sort_months(s: Seq<JsonV>) -> Seq<JsonV>
    decreases s,
{
    if s.len() == 0 {
        Seq::empty()
    } else {
        insert_sorted(sort_months(s.drop_last()), s.last())
    }
}

fn insert_sorted_exec(s: Vec<Json>, x: Json) -> (r: Vec<Json>)
    ensures
        jsons_view(r@) == insert_sorted(jsons_view(s@), x@),
    decreases s@.len(),
{
    let ghost sv = jsons_view(s@);
    proof {
        lemma_jsons_view(s@);
    }
    if s.len() == 0 {
        let mut r: Vec<Json> = Vec::new();
        r.push(x);
        proof {
            lemma_jsons_view(r@);
            assert(jsons_view(r@) =~= insert_sorted(sv, x@));
        }
        r
    } else {
        let kx = month_key_exec(&x);
        let kl = month_key_exec(&s[s.len() - 1]);
        if kx < kl {
            let mut s = s;
            let last = match s.pop() {
                Some(l) => l,
                None => Json::Null,
            };
            proof {
                assert(jsons_view(s@) =~= sv.drop_last());
            }
            let mut r = insert_sorted_exec(s, x);
            let ghost rp = r@;
            r.push(last);
            proof {
                lemma_jsons_view_push(rp, r@.last());
                assert(r@ == rp.push(r@.last()));
            }
            r
        } else {
            let mut s = s;
            let ghost sp = s@;
            s.push(x);
            proof {
                lemma_jsons_view_push(sp, s@.last());
                assert(s@ == sp.push(s@.last()));
            }
            s
        }
    }
}

/// Sort month entries chronologically, stably.
#[verifier::loop_isolation(false)]
fn sort_months_exec(ma: &Vec<Json>) -> (r: Vec<Json>)
    ensures
        jsons_view(r@) == sort_months(jsons_view(ma@)),
{
    let ghost mav = jsons_view(ma@);
    proof {
        lemma_jsons_view(ma@);
    }
    let mut out: Vec<Json> = Vec::new();
    let mut i: usize = 0;
    while i < ma.len()
        invariant
            0 <= i <= ma@.len(),
            jsons_view(out@) == sort_months(mav.subrange(0, i as int)),
        decreases ma@.len() - i,
    {
        let c = json_clone(&ma[i]);
        out = insert_sorted_exec(out, c);
        proof {
            assert(mav.subrange(0, i + 1).drop_last() =~= mav.subrange(0, i as int));
            assert(mav.subrange(0, i + 1).last() == mav[i as int]);
            assert(mav[i as int] == ma@[i as int]@);
        }
        i = i + 1;
    }
    proof {
        assert(mav.subrange(0, ma@.len() as int) =~= mav);
    }
    out
}

/// The per-day items of the month-scoped store: every day key of the
/// day-items mapping, re-resolved against only that month's tables.
pub open spec fn month_day_entries(
    dio: Seq<(Seq<char>, JsonV)>,
    doc: Seq<NodeV>,
    full: Seq<char>,
) -> Seq<(Seq<char>, JsonV)>
    decreases dio,
{
    if dio.len() == 0 {
        Seq::empty()
    } else {
        map_set(
            month_day_entries(dio.drop_last(), doc, full),
            dio.last().0,
            JsonV::Arr(items_for_day(doc, dio.last().0, Some(full))),
        )
    }
}

/// The month-scoped copy of the store: the day-items mapping filtered to
/// the month's tables; without one the store is unchanged.
pub open spec fn month_store(
    m: Seq<(Seq<char>, JsonV)>,
    doc: Seq<NodeV>,
    full: Seq<char>,
) -> Seq<(Seq<char>, JsonV)> {
    match map_get(m, "day_items"@) {
        Some(JsonV::Obj(dio)) => map_set(
            m,
            "day_items"@,
            JsonV::Obj(month_day_entries(dio, doc, full)),
        ),
        _ => m,
    }
}

/// Write every entry of `es` into `acc` in order.
pub open spec fn merge_into(
    acc: Seq<(Seq<char>, JsonV)>,
    es: Seq<(Seq<char>, JsonV)>,
) -> Seq<(Seq<char>, JsonV)>
    decreases es,
{
    if es.len() == 0 {
        acc
    } else {
        map_set(merge_into(acc, es.drop_last()), es.last().0, es.last().1)
    }
}

/// Month expansion over the sorted month entries: one key per month name,
/// in order, each projected against the month-scoped store. The label that
/// scopes a month's tables is the month name followed by the calendar
/// year the supported grids carry (` 2025`); a month entry without a name
/// token falls back to `October`.
pub open spec fn months_fold(
    acc: Seq<(Seq<char>, JsonV)>,
    ma: Seq<JsonV>,
    v: JsonV,
    m: Seq<(Seq<char>, JsonV)>,
    doc: Seq<NodeV>,
    c: ClockV,
) -> Seq<(Seq<char>, JsonV)>
    decreases v, ma.len(),
{
    if ma.len() == 0 {
        acc
    } else {
        let acc2 = months_fold(acc, ma.drop_last(), v, m, doc, c);
        match ma.last() {
            JsonV::Str(ms) => {
                let name = match first_token(ms) {
                    Some(t) => t,
                    None => "October"@,
                };
                let full = name + " 2025"@;
                map_set(acc2, name, project_spec(v, month_store(m, doc, full), doc, c))
            },
            _ => acc2,
        }
    }
}

/// The projected entries of an object template, in template order, each
/// key and value resolved; month and day-range keys expand in place.
pub open spec fn project_entries(
    es: Seq<(Seq<char>, JsonV)>,
    m: Seq<(Seq<char>, JsonV)>,
    doc: Seq<NodeV>,
    c: ClockV,
) -> Seq<(Seq<char>, JsonV)>
    decreases es, 0nat,
{
    if es.len() == 0 {
        Seq::empty()
    } else {
        let acc = project_entries(es.drop_last(), m, doc, c);
        let k = es.last().0;
        let v = es.last().1;
        if k == "{months}"@ && (map_get(m, "months"@) matches Some(JsonV::Arr(_))) {
            months_fold(acc, sort_months(arr_of(map_get(m, "months"@))), v, m, doc, c)
        } else if starts_with(k, "{days"@) && ends_with(k, "}"@) && k.len() > 6 {
            let rest = k.subrange(1, k.len() - 1).skip(4);
            let dash = crate::xpath::upto_char(rest, 0, '-');
            if dash < rest.len() {
                match (parse_usize_spec(rest.subrange(0, dash)), parse_usize_spec(
                    rest.subrange(dash + 1, rest.len() as int),
                )) {
                    (Some(st), Some(en)) => merge_into(
                        acc,
                        day_range_obj(m, st as int, en as int),
                    ),
                    _ => map_set(acc, template_var_key(k, m, c), project_spec(v, m, doc, c)),
                }
            } else {
                match parse_usize_spec(rest) {
                    Some(idx) => map_set(
                        acc,
                        template_var_key(k, m, c),
                        numbered_days(m, idx as int),
                    ),
                    None => map_set(acc, template_var_key(k, m, c), project_spec(v, m, doc, c)),
                }
            }
        } else {
            map_set(acc, template_var_key(k, m, c), project_spec(v, m, doc, c))
        }
    }
}

/// The projections of the elements of an array template, in order.
pub open spec fn project_items(
    a: Seq<JsonV>,
    m: Seq<(Seq<char>, JsonV)>,
    doc: Seq<NodeV>,
    c: ClockV,
) -> Seq<JsonV>
    decreases a, 0nat,
{
    if a.len() == 0 {
        Seq::empty()
    } else {
        project_items(a.drop_last(), m, doc, c).push(project_spec(a.last(), m, doc, c))
    }
}

/// Whether an array template is the paired-zipping form: one single-entry
/// object whose key and value are both placeholders.
pub open spec fn is_paired_form(a: Seq<JsonV>) -> bool {
    a.len() == 1 && (match a[0] {
        JsonV::Obj(oe) => oe.len() == 1 && is_wrapped(oe[0].0) && (match oe[0].1 {
            JsonV::Str(vs) => is_wrapped(vs),
            _ => false,
        }),
        _ => false,
    })
}

/// The projection of a template over the store: deterministic, total, and
/// never failing — an unresolved placeholder passes through as literal
/// text, and scalars project to themselves.
pub open spec fn project_spec(
    t: JsonV,
    m: Seq<(Seq<char>, JsonV)>,
    doc: Seq<NodeV>,
    c: ClockV,
) -> JsonV
    decreases t, 0nat,
{
    match t {
        JsonV::Obj(es) => JsonV::Obj(project_entries(es, m, doc, c)),
        JsonV::Arr(a) => {
            if a.len() == 1 && a[0] == JsonV::Str("{items}"@) {
                JsonV::Obj(days_with_items(m))
            } else if is_paired_form(a) {
                match a[0] {
                    JsonV::Obj(oe) => match oe[0].1 {
                        JsonV::Str(vs) => paired(oe[0].0, vs, m),
                        _ => t,
                    },
                    _ => t,
                }
            } else {
                JsonV::Arr(project_items(a, m, doc, c))
            }
        },
        JsonV::Str(s) => project_string(s, m, c),
        _ => t,
    }
}

/// Project a template over the raw data store and the document.
#[verifier::loop_isolation(false)]
#[verifier::rlimit(100)]
pub fn process_hierarchical_template(
    template: &Json,
    m: &Vec<(String, Json)>,
    doc: &Vec<Node>,
    clock: &Clock,
) -> (r: Json)
    ensures
        r@ == project_spec(template@, entries_view(m@), nodes_view(doc@), clock@),
    decreases *template,
{
    let ghost mv = entries_view(m@);
    let ghost docv = nodes_view(doc@);
    let ghost cv = clock@;
    match template {
        Json::Obj(entries) => {
            let ghost esv = entries_view(entries@);
            proof {
                lemma_entries_view(entries@);
            }
            let mut result: Vec<(String, Json)> = Vec::new();
            let mut i: usize = 0;
            while i < entries.len()
                invariant
                    0 <= i <= entries@.len(),
                    entries_view(result@) == project_entries(
                        esv.subrange(0, i as int),
                        mv,
                        docv,
                        cv,
                    ),
                decreases entries@.len() - i,
            {
                proof {
                    assert(esv.subrange(0, i + 1).drop_last() =~= esv.subrange(0, i as int));
                    assert(esv.subrange(0, i + 1).last() == esv[i as int]);
                    assert(esv[i as int] == (entries@[i as int].0@, crate::json::json_view(
                        entries@[i as int].1,
                    )));
                }
                let ghost kv = esv[i as int].0;
                let ghost vv = esv[i as int].1;
                let is_months_key = crate::text::str_eq(entries[i].0.as_str(), "{months}");
                let months_arr = if is_months_key {
                    match entries_get(m, "months") {
                        Some(j) => match j {
                            Json::Arr(ma) => Some(ma),
                            _ => None,
                        },
                        None => None,
                    }
                } else {
                    None
                };
                match months_arr {
                    Some(ma) => {
                        proof {
                            assert(map_get(mv, "months"@) == Some(JsonV::Arr(jsons_view(ma@))));
                        }
                        let ghost acc_pre = entries_view(result@);
                        let sorted = sort_months_exec(ma);
                        let ghost sortv = jsons_view(sorted@);
                        proof {
                            lemma_jsons_view(sorted@);
                        }
                        let mut j: usize = 0;
                        while j < sorted.len()
                            invariant
                                0 <= j <= sorted@.len(),
                                entries_view(result@) == months_fold(
                                    acc_pre,
                                    sortv.subrange(0, j as int),
                                    vv,
                                    mv,
                                    docv,
                                    cv,
                                ),
                            decreases sorted@.len() - j,
                        {
                            proof {
                                assert(sortv.subrange(0, j + 1).drop_last() =~= sortv.subrange(
                                    0,
                                    j as int,
                                ));
                                assert(sortv.subrange(0, j + 1).last() == sortv[j as int]);
                                assert(sortv[j as int] == sorted@[j as int]@);
                            }
                            match &sorted[j] {
                                Json::Str(ms) => {
                                    let name: String = match first_token_str(ms.as_str()) {
                                        Some(t) => t,
                                        None => "October".to_owned(),
                                    };
                                    let mut full = name.clone();
                                    full.append(" 2025");
                                    let ghost fullv = full@;
                                    let mut month_raw = entries_clone(m);
                                    match entries_get(m, "day_items") {
                                        Some(dj) => match dj {
                                            Json::Obj(dio) => {
                                                let ghost diov = entries_view(dio@);
                                                proof {
                                                    lemma_entries_view(dio@);
                                                }
                                                let mut mdi: Vec<(String, Json)> = Vec::new();
                                                let mut q: usize = 0;
                                                while q < dio.len()
                                                    invariant
                                                        0 <= q <= dio@.len(),
                                                        entries_view(mdi@) == month_day_entries(
                                                            diov.subrange(0, q as int),
                                                            docv,
                                                            fullv,
                                                        ),
                                                    decreases dio@.len() - q,
                                                {
                                                    proof {
                                                        assert(diov.subrange(0, q + 1).drop_last()
                                                            =~= diov.subrange(0, q as int));
                                                        assert(diov.subrange(0, q + 1).last()
                                                            == diov[q as int]);
                                                        assert(diov[q as int].0
                                                            == dio@[q as int].0@);
                                                    }
                                                    let dk = dio[q].0.clone();
                                                    let items = crate::eval::find_items_for_day_in_month(
                                                        doc,
                                                        dio[q].0.as_str(),
                                                        Some(&full),
                                                    );
                                                    entries_set(&mut mdi, dk, Json::Arr(items));
                                                    q = q + 1;
                                                }
                                                proof {
                                                    assert(diov.subrange(0, dio@.len() as int)
                                                        =~= diov);
                                                }
                                                entries_set(
                                                    &mut month_raw,
                                                    "day_items".to_owned(),
                                                    Json::Obj(mdi),
                                                );
                                            },
                                            _ => {},
                                        },
                                        None => {},
                                    }
                                    proof {
                                        assert(entries_view(month_raw@) == month_store(
                                            mv,
                                            docv,
                                            fullv,
                                        ));
                                        assert(decreases_to!(*template => *entries));
                                        assert(decreases_to!(*entries => entries@));
                                        assert(decreases_to!(entries@ => entries@[i as int]));
                                        assert(decreases_to!(
                                            entries@[i as int] => entries@[i as int].1));
                                        assert(decreases_to!(
                                            *template => entries@[i as int].1));
                                    }
                                    let sub = process_hierarchical_template(
                                        &entries[i].1,
                                        &month_raw,
                                        doc,
                                        clock,
                                    );
                                    entries_set(&mut result, name, sub);
                                    proof {
                                        assert(entries_view(result@) == months_fold(
                                            acc_pre,
                                            sortv.subrange(0, j + 1),
                                            vv,
                                            mv,
                                            docv,
                                            cv,
                                        ));
                                    }
                                },
                                _ => {
                                    proof {
                                        assert(entries_view(result@) == months_fold(
                                            acc_pre,
                                            sortv.subrange(0, j + 1),
                                            vv,
                                            mv,
                                            docv,
                                            cv,
                                        ));
                                    }
                                },
                            }
                            j = j + 1;
                        }
                        proof {
                            assert(sortv.subrange(0, sorted@.len() as int) =~= sortv);
                            assert(entries_view(result@) == project_entries(
                                esv.subrange(0, i + 1),
                                mv,
                                docv,
                                cv,
                            ));
                        }
                    },
                    None => {
                        let k_str = entries[i].0.as_str();
                        let kn = k_str.unicode_len();
                        let mut handled = false;
                        if crate::text::starts_with_str(k_str, "{days")
                            && crate::text::ends_with_str(k_str, "}") && kn > 6 {
                            let id = k_str.substring_char(1, kn - 1);
                            let idn = id.unicode_len();
                            let rest = id.substring_char(4, idn);
                            proof {
                                assert(id@ =~= kv.subrange(1, kv.len() - 1));
                                assert(rest@ =~= kv.subrange(1, kv.len() - 1).skip(4));
                            }
                            let rn = rest.unicode_len();
                            let dash = crate::xpath::upto_char_exec(rest, 0, '-');
                            if dash < rn {
                                let left = rest.substring_char(0, dash);
                                let right = rest.substring_char(dash + 1, rn);
                                match (parse_usize(left), parse_usize(right)) {
                                    (Some(st), Some(en)) => {
                                        let obj = process_day_range_with_items(m, st, en);
                                        let ghost rangev = day_range_obj(
                                            mv,
                                            st as int,
                                            en as int,
                                        );
                                        let mut es2: Vec<(String, Json)> = match obj {
                                            Json::Obj(e2) => e2,
                                            _ => Vec::new(),
                                        };
                                        let ghost orig = entries_view(es2@);
                                        let ghost acc_pre = entries_view(result@);
                                        proof {
                                            assert(orig == rangev);
                                            lemma_entries_view(es2@);
                                        }
                                        let total = es2.len();
                                        let mut done: usize = 0;
                                        while done < total
                                            invariant
                                                0 <= done <= total,
                                                total == orig.len(),
                                                es2@.len() == total - done,
                                                entries_view(es2@) =~= orig.subrange(
                                                    done as int,
                                                    total as int,
                                                ),
                                                entries_view(result@) == merge_into(
                                                    acc_pre,
                                                    orig.subrange(0, done as int),
                                                ),
                                            decreases total - done,
                                        {
                                            let ghost e2pre = es2@;
                                            proof {
                                                lemma_entries_view(e2pre);
                                                assert(entries_view(e2pre)[0]
                                                    == orig[done as int]);
                                            }
                                            let (kk, vv2) = es2.remove(0);
                                            proof {
                                                lemma_entries_view(es2@);
                                                assert(es2@ =~= e2pre.drop_first());
                                                assert forall|q2: int|
                                                    0 <= q2 < es2@.len() implies entries_view(
                                                    es2@,
                                                )[q2] == orig.subrange(
                                                    done + 1,
                                                    total as int,
                                                )[q2] by {
                                                    assert(es2@[q2] == e2pre[q2 + 1]);
                                                    assert(entries_view(e2pre)[q2 + 1]
                                                        == orig.subrange(
                                                        done as int,
                                                        total as int,
                                                    )[q2 + 1]);
                                                }
                                                assert(entries_view(es2@) =~= orig.subrange(
                                                    done + 1,
                                                    total as int,
                                                ));
                                                assert((kk@, vv2@) == orig[done as int]);
                                            }
                                            entries_set(&mut result, kk, vv2);
                                            proof {
                                                assert(orig.subrange(0, done + 1).drop_last()
                                                    =~= orig.subrange(0, done as int));
                                                assert(orig.subrange(0, done + 1).last()
                                                    == orig[done as int]);
                                                assert(entries_view(result@) == merge_into(
                                                    acc_pre,
                                                    orig.subrange(0, done + 1),
                                                ));
                                            }
                                            done = done + 1;
                                        }
                                        proof {
                                            assert(orig.subrange(0, total as int) =~= orig);
                                            assert(entries_view(result@) == project_entries(
                                                esv.subrange(0, i + 1),
                                                mv,
                                                docv,
                                                cv,
                                            ));
                                        }
                                        handled = true;
                                    },
                                    _ => {},
                                }
                            } else {
                                match parse_usize(rest) {
                                    Some(idx) => {
                                        let value = process_numbered_days_with_items(m, idx);
                                        let key2 = process_template_variable(k_str, m, clock);
                                        entries_set(&mut result, key2, value);
                                        proof {
                                            assert(entries_view(result@) == project_entries(
                                                esv.subrange(0, i + 1),
                                                mv,
                                                docv,
                                                cv,
                                            ));
                                        }
                                        handled = true;
                                    },
                                    None => {},
                                }
                            }
                        }
                        if !handled {
                            let key2 = process_template_variable(entries[i].0.as_str(), m, clock);
                            proof {
                                assert(decreases_to!(*template => *entries));
                                assert(decreases_to!(*entries => entries@));
                                assert(decreases_to!(entries@ => entries@[i as int]));
                                assert(decreases_to!(entries@[i as int] => entries@[i as int].1));
                                assert(decreases_to!(*template => entries@[i as int].1));
                            }
                            let value = process_hierarchical_template(
                                &entries[i].1,
                                m,
                                doc,
                                clock,
                            );
                            entries_set(&mut result, key2, value);
                            proof {
                                assert(entries_view(result@) == project_entries(
                                    esv.subrange(0, i + 1),
                                    mv,
                                    docv,
                                    cv,
                                ));
                            }
                        }
                    },
                }
                i = i + 1;
            }
            proof {
                assert(esv.subrange(0, entries@.len() as int) =~= esv);
            }
            Json::Obj(result)
        },
        Json::Arr(arr) => {
            let ghost av = jsons_view(arr@);
            proof {
                lemma_jsons_view(arr@);
            }
            if arr.len() == 1 {
                let is_items = match &arr[0] {
                    Json::Str(s0) => crate::text::str_eq(s0.as_str(), "{items}"),
                    _ => false,
                };
                if is_items {
                    proof {
                        assert(av[0] == JsonV::Str("{items}"@));
                    }
                    return process_days_with_items(m);
                }
                let paired_parts: Option<(&String, &String)> = match &arr[0] {
                    Json::Obj(oe) => {
                        proof {
                            lemma_entries_view(oe@);
                        }
                        if oe.len() == 1 {
                            match &oe[0].1 {
                                Json::Str(vs) => {
                                    if is_wrapped_exec(oe[0].0.as_str()) && is_wrapped_exec(
                                        vs.as_str(),
                                    ) {
                                        Some((&oe[0].0, vs))
                                    } else {
                                        None
                                    }
                                },
                                _ => None,
                            }
                        } else {
                            None
                        }
                    },
                    _ => None,
                };
                match paired_parts {
                    Some((kt, vt)) => {
                        proof {
                            assert(is_paired_form(av));
                        }
                        return process_paired_data(kt.as_str(), vt.as_str(), m);
                    },
                    None => {},
                }
            }
            proof {
                assert(!(av.len() == 1 && av[0] == JsonV::Str("{items}"@)));
                assert(!is_paired_form(av));
            }
            let mut out: Vec<Json> = Vec::new();
            let mut i: usize = 0;
            while i < arr.len()
                invariant
                    0 <= i <= arr@.len(),
                    jsons_view(out@) == project_items(av.subrange(0, i as int), mv, docv, cv),
                decreases arr@.len() - i,
            {
                proof {
                    assert(av.subrange(0, i + 1).drop_last() =~= av.subrange(0, i as int));
                    assert(av.subrange(0, i + 1).last() == av[i as int]);
                    assert(av[i as int] == arr@[i as int]@);
                    assert(decreases_to!(*template => *arr));
                    assert(decreases_to!(*arr => arr@));
                    assert(decreases_to!(arr@ => arr@[i as int]));
                    assert(decreases_to!(*template => arr@[i as int]));
                }
                let ghost op = out@;
                let item = process_hierarchical_template(&arr[i], m, doc, clock);
                out.push(item);
                proof {
                    lemma_jsons_view_push(op, out@.last());
                    assert(out@ == op.push(out@.last()));
                }
                i = i + 1;
            }
            proof {
                assert(av.subrange(0, arr@.len() as int) =~= av);
            }
            Json::Arr(out)
        },
        Json::Str(s) => resolve_string(s.as_str(), m, clock),
        Json::Null => Json::Null,
        Json::Bool(b) => Json::Bool(*b),
        Json::Int(x) => Json::Int(*x),
        Json::Num(x) => Json::Num(x.clone()),
    }
}

/// Project the first output template and wrap the result in an array, as
/// the shaped output of a run.
pub fn generate_structured_output(
    m: &Vec<(String, Json)>,
    output_sample: &Vec<Json>,
    doc: &Vec<Node>,
    clock: &Clock,
) -> (r: Json)
    requires
        output_sample@.len() > 0,
    ensures
        r@ == JsonV::Arr(
            seq![
                project_spec(
                    crate::json::json_view(output_sample@[0]),
                    entries_view(m@),
                    nodes_view(doc@),
                    clock@,
                ),
            ],
        ),
{
    let r0 = process_hierarchical_template(&output_sample[0], m, doc, clock);
    let mut v: Vec<Json> = Vec::new();
    v.push(r0);
    let r = Json::Arr(v);
    proof {
        lemma_jsons_view(v@);
        assert(jsons_view(v@) =~= seq![
            project_spec(
                crate::json::json_view(output_sample@[0]),
                entries_view(m@),
                nodes_view(doc@),
                clock@,
            ),
        ]);
    }
    r
}

} // verus!
