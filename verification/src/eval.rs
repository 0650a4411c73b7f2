//! The rule evaluator: runs a rule against the document, and the calendar
//! day/month association resolver.

use vstd::prelude::*;
use crate::dom::{Elem, ElemV, Node, NodeV, attr_of, nodes_view, text_of_nodes,
    ser_nodes, append_text_of_nodes, get_attr, inner_markup};
use crate::json::{Json, JsonV, jsons_view, lemma_jsons_view, lemma_jsons_view_push};
use crate::selector::{SimpleSel, SimpleSelV, steps_view, elems_view, select_spec, select};
use crate::text::{trim_spec, trim_str, contains_sub, contains_str};

verus! {

/// The cardinality-collapse rule: no match is `null`, one match is the value
/// itself, several are the array of values in document order.
pub open spec fn collapse(vals: Seq<JsonV>) -> JsonV {
    if vals.len() == 0 {
        JsonV::Null
    } else if vals.len() == 1 {
        vals[0]
    } else {
        JsonV::Arr(vals)
    }
}

/// Turn an owned list of values into the collapsed value.
pub fn collapse_exec(vals: Vec<Json>) -> (r: Json)
    ensures
        r@ == collapse(jsons_view(vals@)),
{
    proof {
        lemma_jsons_view(vals@);
    }
    if vals.len() == 0 {
        Json::Null
    } else if vals.len() == 1 {
        let mut vals = vals;
        let v = vals.remove(0);
        v
    } else {
        Json::Arr(vals)
    }
}

/// A count as a JSON integer; counts over `i64::MAX` saturate there.
pub open spec fn count_json(n: nat) -> JsonV {
    if n <= i64::MAX {
        JsonV::Int(n as int)
    } else {
        JsonV::Int(i64::MAX as int)
    }
}

fn count_to_json(n: usize) -> (r: Json)
    ensures
        r@ == count_json(n as nat),
{
    let m = n as u64;
    if m <= 0x7fff_ffff_ffff_ffff {
        Json::Int(m as i64)
    } else {
        Json::Int(i64::MAX)
    }
}

/// The trimmed text of each element, empty ones dropped.
pub open spec fn trimmed_texts(es: Seq<ElemV>) -> Seq<Seq<char>>
    decreases es,
{
    if es.len() == 0 {
        Seq::empty()
    } else {
        trimmed_texts(es.drop_last()) + (if trim_spec(text_of_nodes(es.last().children)).len()
            > 0 {
            seq![trim_spec(text_of_nodes(es.last().children))]
        } else {
            Seq::empty()
        })
    }
}

/// The same texts as JSON strings.
pub open spec fn texts_of_elems(es: Seq<ElemV>) -> Seq<JsonV>
    decreases es,
{
    if es.len() == 0 {
        Seq::empty()
    } else {
        texts_of_elems(es.drop_last()) + (if trim_spec(text_of_nodes(es.last().children)).len()
            > 0 {
            seq![JsonV::Str(trim_spec(text_of_nodes(es.last().children)))]
        } else {
            Seq::empty()
        })
    }
}

/// The value of the named attribute on each element that carries it.
pub open spec fn attrs_of_elems(es: Seq<ElemV>, name: Seq<char>) -> Seq<JsonV>
    decreases es,
{
    if es.len() == 0 {
        Seq::empty()
    } else {
        attrs_of_elems(es.drop_last(), name) + (match attr_of(es.last().attrs, name) {
            Some(v) => seq![JsonV::Str(v)],
            None => Seq::empty(),
        })
    }
}

/// The serialized inner markup of each element.
pub open spec fn htmls_of_elems(es: Seq<ElemV>) -> Seq<JsonV>
    decreases es,
{
    if es.len() == 0 {
        Seq::empty()
    } else {
        htmls_of_elems(es.drop_last()).push(JsonV::Str(ser_nodes(es.last().children)))
    }
}

/// The whole character data of an element's subtree, untrimmed.
pub fn elem_text(e: &Elem) -> (r: String)
    ensures
        r@ == text_of_nodes(e@.children),
{
    let mut out = String::new();
    append_text_of_nodes(&e.children, &mut out);
    out
}

/// Trimmed non-empty texts of the elements.
#[verifier::loop_isolation(false)]
pub fn elem_trimmed_texts(es: &Vec<Elem>) -> (r: Vec<String>)
    ensures
        strs_view(r@) == trimmed_texts(elems_view(es@)),
{
    let ghost ev = elems_view(es@);
    let mut out: Vec<String> = Vec::new();
    let mut i: usize = 0;
    while i < es.len()
        invariant
            0 <= i <= es@.len(),
            strs_view(out@) =~= trimmed_texts(ev.subrange(0, i as int)),
        decreases es@.len() - i,
    {
        let t = elem_text(&es[i]);
        let tt = trim_str(t.as_str());
        if !tt.as_str().is_empty() {
            out.push(tt);
        }
        proof {
            let cur = ev.subrange(0, i + 1);
            assert(cur.drop_last() =~= ev.subrange(0, i as int));
            assert(cur.last() == ev[i as int]);
            assert(ev[i as int] == es@[i as int]@);
            assert(strs_view(out@) =~= trimmed_texts(cur));
        }
        i = i + 1;
    }
    proof {
        assert(ev.subrange(0, es@.len() as int) =~= ev);
    }
    out
}

/// Views of a list of strings.
pub open spec fn strs_view(s: Seq<String>) -> Seq<Seq<char>> {
    Seq::new(s.len(), |i: int| s[i]@)
}

/// Texts as JSON strings.
#[verifier::loop_isolation(false)]
pub fn extract_texts(es: &Vec<Elem>) -> (r: Vec<Json>)
    ensures
        jsons_view(r@) == texts_of_elems(elems_view(es@)),
{
    let ghost ev = elems_view(es@);
    let mut out: Vec<Json> = Vec::new();
    let mut i: usize = 0;
    while i < es.len()
        invariant
            0 <= i <= es@.len(),
            jsons_view(out@) =~= texts_of_elems(ev.subrange(0, i as int)),
        decreases es@.len() - i,
    {
        let t = elem_text(&es[i]);
        let tt = trim_str(t.as_str());
        let ghost op = out@;
        if !tt.as_str().is_empty() {
            out.push(Json::Str(tt));
        }
        proof {
            let cur = ev.subrange(0, i + 1);
            assert(cur.drop_last() =~= ev.subrange(0, i as int));
            assert(cur.last() == ev[i as int]);
            assert(ev[i as int] == es@[i as int]@);
            if out@.len() > op.len() {
                lemma_jsons_view_push(op, out@.last());
                assert(out@ == op.push(out@.last()));
            }
            assert(jsons_view(out@) =~= texts_of_elems(cur));
        }
        i = i + 1;
    }
    proof {
        assert(ev.subrange(0, es@.len() as int) =~= ev);
    }
    out
}

/// Attribute values as JSON strings.
#[verifier::loop_isolation(false)]
pub fn extract_attrs(es: &Vec<Elem>, name: &str) -> (r: Vec<Json>)
    ensures
        jsons_view(r@) == attrs_of_elems(elems_view(es@), name@),
{
    let ghost ev = elems_view(es@);
    let mut out: Vec<Json> = Vec::new();
    let mut i: usize = 0;
    while i < es.len()
        invariant
            0 <= i <= es@.len(),
            jsons_view(out@) =~= attrs_of_elems(ev.subrange(0, i as int), name@),
        decreases es@.len() - i,
    {
        let ghost op = out@;
        match get_attr(&es[i], name) {
            Some(v) => {
                out.push(Json::Str(v.clone()));
            },
            None => {},
        }
        proof {
            let cur = ev.subrange(0, i + 1);
            assert(cur.drop_last() =~= ev.subrange(0, i as int));
            assert(cur.last() == ev[i as int]);
            assert(ev[i as int] == es@[i as int]@);
            if out@.len() > op.len() {
                lemma_jsons_view_push(op, out@.last());
                assert(out@ == op.push(out@.last()));
            }
            assert(jsons_view(out@) =~= attrs_of_elems(cur, name@));
        }
        i = i + 1;
    }
    proof {
        assert(ev.subrange(0, es@.len() as int) =~= ev);
    }
    out
}

/// Inner markup as JSON strings.
#[verifier::loop_isolation(false)]
pub fn extract_htmls(es: &Vec<Elem>) -> (r: Vec<Json>)
    ensures
        jsons_view(r@) == htmls_of_elems(elems_view(es@)),
{
    let ghost ev = elems_view(es@);
    let mut out: Vec<Json> = Vec::new();
    let mut i: usize = 0;
    while i < es.len()
        invariant
            0 <= i <= es@.len(),
            jsons_view(out@) =~= htmls_of_elems(ev.subrange(0, i as int)),
        decreases es@.len() - i,
    {
        let h = inner_markup(&es[i]);
        let ghost op = out@;
        out.push(Json::Str(h));
        proof {
            let cur = ev.subrange(0, i + 1);
            assert(cur.drop_last() =~= ev.subrange(0, i as int));
            assert(cur.last() == ev[i as int]);
            assert(ev[i as int] == es@[i as int]@);
            if out@.len() > op.len() {
                lemma_jsons_view_push(op, out@.last());
                assert(out@ == op.push(out@.last()));
            }
            assert(jsons_view(out@) =~= htmls_of_elems(cur));
        }
        i = i + 1;
    }
    proof {
        assert(ev.subrange(0, es@.len() as int) =~= ev);
    }
    out
}

/// A one-step selector: a bare tag.
pub open spec fn tag_step(tag: Seq<char>) -> SimpleSelV {
    SimpleSelV { tag: Some(tag), classes: Seq::empty(), attrs: Seq::empty(), nth: None }
}

/// A one-step selector: a tag with one class.
pub open spec fn tag_class_step(tag: Seq<char>, class: Seq<char>) -> SimpleSelV {
    SimpleSelV { tag: Some(tag), classes: seq![class], attrs: Seq::empty(), nth: None }
}

fn tag_selector(tag: &str) -> (r: Vec<SimpleSel>)
    ensures
        steps_view(r@) == seq![tag_step(tag@)],
{
    let mut r: Vec<SimpleSel> = Vec::new();
    r.push(SimpleSel { tag: Some(tag.to_owned()), classes: Vec::new(), attrs: Vec::new(), nth: None });
    proof {
        assert(r@[0]@.classes =~= tag_step(tag@).classes);
        assert(r@[0]@.attrs =~= tag_step(tag@).attrs);
        assert(r@[0]@ =~= tag_step(tag@));
        assert(steps_view(r@) =~= seq![tag_step(tag@)]);
    }
    r
}

fn tag_class_selector(tag: &str, class: &str) -> (r: Vec<SimpleSel>)
    ensures
        steps_view(r@) == seq![tag_class_step(tag@, class@)],
{
    let mut cs: Vec<String> = Vec::new();
    cs.push(class.to_owned());
    let mut r: Vec<SimpleSel> = Vec::new();
    r.push(SimpleSel { tag: Some(tag.to_owned()), classes: cs, attrs: Vec::new(), nth: None });
    proof {
        assert(r@[0]@.classes =~= tag_class_step(tag@, class@).classes);
        assert(r@[0]@.attrs =~= tag_class_step(tag@, class@).attrs);
        assert(r@[0]@ =~= tag_class_step(tag@, class@));
        assert(steps_view(r@) =~= seq![tag_class_step(tag@, class@)]);
    }
    r
}

/// First index of `x` in the label list, or its length.
pub open spec fn index_of_label(s: Seq<Seq<char>>, x: Seq<char>) -> int
    decreases s.len(),
{
    if s.len() == 0 {
        0
    } else if s[0] == x {
        0
    } else {
        1 + index_of_label(s.drop_first(), x)
    }
}

pub proof fn lemma_index_of_label(s: Seq<Seq<char>>, x: Seq<char>)
    ensures
        0 <= index_of_label(s, x) <= s.len(),
        forall|j: int| 0 <= j < index_of_label(s, x) ==> s[j] != x,
        index_of_label(s, x) < s.len() ==> s[index_of_label(s, x)] == x,
    decreases s.len(),
{
    if s.len() > 0 && s[0] != x {
        lemma_index_of_label(s.drop_first(), x);
        assert forall|j: int| 0 <= j < index_of_label(s, x) implies s[j] != x by {
            if j > 0 {
                assert(s.drop_first()[j - 1] == s[j]);
            }
        }
        if index_of_label(s, x) < s.len() {
            assert(s.drop_first()[index_of_label(s.drop_first(), x)] == s[index_of_label(s, x)]);
        }
    }
}

/// First position of the label `x`, if present.
#[verifier::loop_isolation(false)]
fn find_label(v: &Vec<String>, x: &str) -> (r: Option<usize>)
    ensures
        match r {
            Some(i) => index_of_label(strs_view(v@), x@) == i && i < v@.len(),
            None => index_of_label(strs_view(v@), x@) == v@.len(),
        },
{
    proof {
        lemma_index_of_label(strs_view(v@), x@);
    }
    let mut i: usize = 0;
    while i < v.len()
        invariant
            0 <= i <= v@.len(),
            forall|j: int| 0 <= j < i ==> strs_view(v@)[j] != x@,
            i <= index_of_label(strs_view(v@), x@),
        decreases v@.len() - i,
    {
        if crate::text::str_eq(v[i].as_str(), x) {
            proof {
                assert(strs_view(v@)[i as int] == v@[i as int]@);
                assert(index_of_label(strs_view(v@), x@) == i);
            }
            return Some(i);
        }
        proof {
            assert(strs_view(v@)[i as int] == v@[i as int]@);
            if index_of_label(strs_view(v@), x@) == i {
                assert(strs_view(v@)[i as int] == x@);
            }
        }
        i = i + 1;
    }
    None
}

/// The link texts inside one item cell.
pub open spec fn cell_links(cell: ElemV) -> Seq<Seq<char>> {
    trimmed_texts(select_spec(cell.children, seq![tag_step("a"@)]))
}

/// The link texts of every item cell of a row, by column.
pub open spec fn cells_links(cells: Seq<ElemV>) -> Seq<Seq<Seq<char>>> {
    Seq::new(cells.len(), |i: int| cell_links(cells[i]))
}

/// The day-number labels of a row.
pub open spec fn row_daynums(row: ElemV) -> Seq<Seq<char>> {
    trimmed_texts(select_spec(row.children, seq![tag_class_step("td"@, "caltabletdnum"@)]))
}

/// The item cells of a row.
pub open spec fn row_cells(row: ElemV) -> Seq<ElemV> {
    select_spec(row.children, seq![tag_class_step("td"@, "caltabletdevt"@)])
}

/// Labels as JSON strings.
pub open spec fn strs_to_json(s: Seq<Seq<char>>) -> Seq<JsonV> {
    Seq::new(s.len(), |i: int| JsonV::Str(s[i]))
}

/// The items that row `k` contributes for the day label: when the row holds
/// the label among its day-number cells, the cell of the immediately
/// following row in the same column, read as link texts.
pub open spec fn row_contrib(rows: Seq<ElemV>, k: int, day: Seq<char>) -> Seq<JsonV> {
    let dn = row_daynums(rows[k]);
    let di = index_of_label(dn, day);
    if di < dn.len() && k + 1 < rows.len() {
        let cells = cells_links(row_cells(rows[k + 1]));
        if di < cells.len() && cells[di].len() > 0 {
            strs_to_json(cells[di])
        } else {
            Seq::empty()
        }
    } else {
        Seq::empty()
    }
}

/// The items contributed by the first `k` rows.
pub open spec fn rows_upto(rows: Seq<ElemV>, k: int, day: Seq<char>) -> Seq<JsonV>
    decreases k,
{
    if k <= 0 {
        Seq::empty()
    } else {
        rows_upto(rows, k - 1, day) + row_contrib(rows, k - 1, day)
    }
}

/// The items one table contributes: nothing unless its text marks it as a
/// calendar table (and names the month, when one is given).
pub open spec fn table_contrib(t: ElemV, day: Seq<char>, month: Option<Seq<char>>) -> Seq<JsonV> {
    let txt = text_of_nodes(t.children);
    if contains_sub(txt, "Ex-Dividend Calendar"@) && (match month {
        Some(m) => contains_sub(txt, m),
        None => true,
    }) {
        let rows = select_spec(t.children, seq![tag_step("tr"@)]);
        rows_upto(rows, rows.len() as int, day)
    } else {
        Seq::empty()
    }
}

/// The items contributed by the first `k` tables.
pub open spec fn tables_upto(
    ts: Seq<ElemV>,
    k: int,
    day: Seq<char>,
    month: Option<Seq<char>>,
) -> Seq<JsonV>
    decreases k,
{
    if k <= 0 {
        Seq::empty()
    } else {
        tables_upto(ts, k - 1, day, month) + table_contrib(ts[k - 1], day, month)
    }
}

/// The items belonging to the given day label, accumulated over every
/// qualifying calendar table in document order; scoped to one month's
/// tables when a month label is given.
pub open spec fn items_for_day(doc: Seq<NodeV>, day: Seq<char>, month: Option<Seq<char>>) -> Seq<
    JsonV,
> {
    let ts = select_spec(doc, seq![tag_step("table"@)]);
    tables_upto(ts, ts.len() as int, day, month)
}

/// Find the items for a day, optionally scoped to tables whose text names
/// the month.
#[verifier::loop_isolation(false)]
pub fn find_items_for_day_in_month(doc: &Vec<Node>, day: &str, month: Option<&String>) -> (r: Vec<
    Json,
>)
    ensures
        jsons_view(r@) == items_for_day(
            nodes_view(doc@),
            day@,
            match month {
                Some(m) => Some(m@),
                None => None,
            },
        ),
{
    let ghost monthv: Option<Seq<char>> = match month {
        Some(m) => Some(m@),
        None => None,
    };
    let table_sel = tag_selector("table");
    let tr_sel = tag_selector("tr");
    let daynum_sel = tag_class_selector("td", "caltabletdnum");
    let evt_sel = tag_class_selector("td", "caltabletdevt");
    let a_sel = tag_selector("a");
    let tables = select(doc, &table_sel);
    let ghost tsv = elems_view(tables@);
    let mut out: Vec<Json> = Vec::new();
    let mut i: usize = 0;
    while i < tables.len()
        invariant
            0 <= i <= tables@.len(),
            jsons_view(out@) =~= tables_upto(tsv, i as int, day@, monthv),
        decreases tables@.len() - i,
    {
        let txt = elem_text(&tables[i]);
        let is_cal = contains_str(txt.as_str(), "Ex-Dividend Calendar");
        let month_ok = match month {
            Some(m) => contains_str(txt.as_str(), m.as_str()),
            None => true,
        };
        proof {
            assert(tsv[i as int] == tables@[i as int]@);
        }
        if is_cal && month_ok {
            let rows = select(&tables[i].children, &tr_sel);
            let ghost rv = elems_view(rows@);
            let mut k: usize = 0;
            while k < rows.len()
                invariant
                    0 <= k <= rows@.len(),
                    jsons_view(out@) =~= tables_upto(tsv, i as int, day@, monthv) + rows_upto(
                        rv,
                        k as int,
                        day@,
                    ),
                decreases rows@.len() - k,
            {
                proof {
                    assert(rv[k as int] == rows@[k as int]@);
                }
                let tds = select(&rows[k].children, &daynum_sel);
                let day_nums = elem_trimmed_texts(&tds);
                match find_label(&day_nums, day) {
                    Some(di) => {
                        if k + 1 < rows.len() {
                            proof {
                                assert(rv[k + 1] == rows@[k + 1]@);
                            }
                            let cells = select(&rows[k + 1].children, &evt_sel);
                            let ghost cl = cells_links(elems_view(cells@));
                            if di < cells.len() {
                                proof {
                                    assert(elems_view(cells@)[di as int] == cells@[di as int]@);
                                    assert(cl[di as int] == cell_links(cells@[di as int]@));
                                }
                                let links = select(&cells[di].children, &a_sel);
                                let texts = elem_trimmed_texts(&links);
                                if texts.len() > 0 {
                                    let ghost out_pre = out@;
                                    let mut q: usize = 0;
                                    while q < texts.len()
                                        invariant
                                            0 <= q <= texts@.len(),
                                            jsons_view(out@) =~= jsons_view(out_pre)
                                                + strs_to_json(
                                                strs_view(texts@).subrange(0, q as int),
                                            ),
                                        decreases texts@.len() - q,
                                    {
                                        let ghost op = out@;
                                        out.push(Json::Str(texts[q].clone()));
                                        proof {
                                            lemma_jsons_view_push(op, out@.last());
                                            assert(out@ == op.push(out@.last()));
                                            assert(jsons_view(out@) =~= jsons_view(out_pre)
                                                + strs_to_json(
                                                strs_view(texts@).subrange(0, q + 1),
                                            ));
                                        }
                                        q = q + 1;
                                    }
                                    proof {
                                        assert(strs_view(texts@).subrange(
                                            0,
                                            texts@.len() as int,
                                        ) =~= strs_view(texts@));
                                        assert(strs_view(texts@) == cl[di as int]);
                                        assert(jsons_view(out@) =~= jsons_view(out_pre)
                                            + strs_to_json(cl[di as int]));
                                    }
                                }
                            }
                        }
                    },
                    None => {},
                }
                proof {
                    assert(jsons_view(out@) =~= tables_upto(tsv, i as int, day@, monthv)
                        + rows_upto(rv, k + 1, day@));
                }
                k = k + 1;
            }
            proof {
                assert(jsons_view(out@) =~= tables_upto(tsv, i + 1, day@, monthv));
            }
        } else {
            proof {
                assert(jsons_view(out@) =~= tables_upto(tsv, i + 1, day@, monthv));
            }
        }
        i = i + 1;
    }
    out
}

/// The items belonging to the given day label, over every calendar table.
pub fn find_items_for_day(doc: &Vec<Node>, day: &str) -> (r: Vec<Json>)
    ensures
        jsons_view(r@) == items_for_day(nodes_view(doc@), day@, None),
{
    find_items_for_day_in_month(doc, day, None)
}


/// The message for a rejected path expression.
pub open spec fn sel_err_msg(x: Seq<char>) -> Seq<char> {
    if trim_spec(x).len() == 0 {
        "empty path expression"@
    } else {
        "unsupported construct in path expression"@
    }
}

/// The message for an `Object` rule without child rules.
pub open spec fn obj_err_msg() -> Seq<char> {
    "object extraction requires 'children' or 'fields'"@
}

/// The value of a non-`Object` extraction over the matched elements.
pub open spec fn eval_simple(
    kind: crate::rules::ExtractType,
    attribute: Option<Seq<char>>,
    es: Seq<ElemV>,
) -> JsonV {
    match kind {
        crate::rules::ExtractType::Text => collapse(texts_of_elems(es)),
        crate::rules::ExtractType::Attribute => match attribute {
            Some(a) => collapse(attrs_of_elems(es, a)),
            None => JsonV::Null,
        },
        crate::rules::ExtractType::Html => collapse(htmls_of_elems(es)),
        crate::rules::ExtractType::Count => count_json(es.len()),
        crate::rules::ExtractType::Object => JsonV::Null,
    }
}

/// The object an `Object` rule builds for one matched element: each child
/// rule's value under its name, the child selector run against the
/// element's own subtree. A child whose expression is rejected fails the
/// whole rule.
pub open spec fn eval_children(e: ElemV, ch: Seq<crate::rules::XPathRuleV>) -> Result<
    Seq<(Seq<char>, JsonV)>,
    Seq<char>,
>
    decreases ch,
{
    if ch.len() == 0 {
        Ok(Seq::empty())
    } else {
        match eval_children(e, ch.drop_last()) {
            Err(m) => Err(m),
            Ok(acc) => match crate::xpath::translate_spec(ch.last().xpath) {
                None => Err(sel_err_msg(ch.last().xpath)),
                Some(steps) => Ok(
                    crate::json::map_set(
                        acc,
                        ch.last().name,
                        eval_simple(
                            ch.last().extract_type,
                            ch.last().attribute,
                            select_spec(e.children, steps),
                        ),
                    ),
                ),
            },
        }
    }
}

/// One object per matched element, in document order.
pub open spec fn eval_objects(es: Seq<ElemV>, ch: Seq<crate::rules::XPathRuleV>) -> Result<
    Seq<JsonV>,
    Seq<char>,
>
    decreases es,
{
    if es.len() == 0 {
        Ok(Seq::empty())
    } else {
        match eval_objects(es.drop_last(), ch) {
            Err(m) => Err(m),
            Ok(acc) => match eval_children(es.last(), ch) {
                Err(m) => Err(m),
                Ok(obj) => Ok(acc.push(JsonV::Obj(obj))),
            },
        }
    }
}

proof fn lemma_eval_children_err(e: ElemV, ch: Seq<crate::rules::XPathRuleV>, k: int, m: Seq<char>)
    requires
        0 <= k <= ch.len(),
        eval_children(e, ch.subrange(0, k)) == Err::<Seq<(Seq<char>, JsonV)>, Seq<char>>(m),
    ensures
        eval_children(e, ch) == Err::<Seq<(Seq<char>, JsonV)>, Seq<char>>(m),
    decreases ch.len() - k,
{
    if k < ch.len() {
        assert(ch.subrange(0, k + 1).drop_last() =~= ch.subrange(0, k));
        lemma_eval_children_err(e, ch, k + 1, m);
    } else {
        assert(ch.subrange(0, ch.len() as int) =~= ch);
    }
}

proof fn lemma_eval_objects_err(es: Seq<ElemV>, ch: Seq<crate::rules::XPathRuleV>, k: int, m: Seq<
    char,
>)
    requires
        0 <= k <= es.len(),
        eval_objects(es.subrange(0, k), ch) == Err::<Seq<JsonV>, Seq<char>>(m),
    ensures
        eval_objects(es, ch) == Err::<Seq<JsonV>, Seq<char>>(m),
    decreases es.len() - k,
{
    if k < es.len() {
        assert(es.subrange(0, k + 1).drop_last() =~= es.subrange(0, k));
        lemma_eval_objects_err(es, ch, k + 1, m);
    } else {
        assert(es.subrange(0, es.len() as int) =~= es);
    }
}

/// The per-item day association: each string item is read as a day label
/// and replaced by the array of that day's items.
pub open spec fn mapped_days(doc: Seq<NodeV>, items: Seq<JsonV>) -> Seq<JsonV>
    decreases items,
{
    if items.len() == 0 {
        Seq::empty()
    } else {
        mapped_days(doc, items.drop_last()) + (match items.last() {
            JsonV::Str(d) => seq![JsonV::Arr(items_for_day(doc, d, None))],
            _ => Seq::empty(),
        })
    }
}

/// The value a rule evaluates to, or the message of its failure.
pub open spec fn process_rule_spec(doc: Seq<NodeV>, rule: crate::rules::XPathRuleV) -> Result<
    JsonV,
    Seq<char>,
>
    decreases rule,
{
    match rule.for_each_item {
        Some(fei) => match process_rule_spec(doc, *fei) {
            Err(m) => Err(m),
            Ok(fer) => {
                if fei.map_item is Some {
                    let items = match fer {
                        JsonV::Arr(a) => a,
                        v => seq![v],
                    };
                    Ok(JsonV::Arr(mapped_days(doc, items)))
                } else {
                    Ok(fer)
                }
            },
        },
        None => {
            if rule.extract_type is Object {
                let ch = match rule.children {
                    Some(c) => Some(c),
                    None => match rule.fields {
                        Some(f) => Some(f),
                        None => None,
                    },
                };
                match ch {
                    None => Err(obj_err_msg()),
                    Some(c) => match crate::xpath::translate_spec(rule.xpath) {
                        None => Err(sel_err_msg(rule.xpath)),
                        Some(steps) => match eval_objects(select_spec(doc, steps), c) {
                            Err(m) => Err(m),
                            Ok(objs) => Ok(collapse(objs)),
                        },
                    },
                }
            } else {
                match crate::xpath::translate_spec(rule.xpath) {
                    None => Err(sel_err_msg(rule.xpath)),
                    Some(steps) => Ok(
                        eval_simple(rule.extract_type, rule.attribute, select_spec(doc, steps)),
                    ),
                }
            }
        },
    }
}

/// The value of a non-`Object` extraction over the matched elements.
pub fn eval_simple_exec(
    kind: crate::rules::ExtractType,
    attribute: &Option<String>,
    es: &Vec<Elem>,
) -> (r: Json)
    ensures
        r@ == eval_simple(
            kind,
            match attribute {
                Some(a) => Some(a@),
                None => None,
            },
            elems_view(es@),
        ),
{
    match kind {
        crate::rules::ExtractType::Text => collapse_exec(extract_texts(es)),
        crate::rules::ExtractType::Attribute => match attribute {
            Some(a) => collapse_exec(extract_attrs(es, a.as_str())),
            None => Json::Null,
        },
        crate::rules::ExtractType::Html => collapse_exec(extract_htmls(es)),
        crate::rules::ExtractType::Count => count_to_json(es.len()),
        crate::rules::ExtractType::Object => Json::Null,
    }
}

/// Evaluate the child rules of an `Object` rule against one element.
#[verifier::loop_isolation(false)]
fn eval_children_exec(e: &Elem, ch: &Vec<crate::rules::XPathRule>) -> (r: Result<
    Vec<(String, Json)>,
    String,
>)
    ensures
        match r {
            Ok(obj) => eval_children(e@, crate::rules::rules_view(ch@)) == Ok::<
                _,
                Seq<char>,
            >(crate::json::entries_view(obj@)),
            Err(m) => eval_children(e@, crate::rules::rules_view(ch@)) == Err::<
                Seq<(Seq<char>, JsonV)>,
                _,
            >(m@),
        },
{
    let ghost chv = crate::rules::rules_view(ch@);
    proof {
        crate::rules::lemma_rules_view(ch@);
    }
    let mut obj: Vec<(String, Json)> = Vec::new();
    let mut i: usize = 0;
    while i < ch.len()
        invariant
            0 <= i <= ch@.len(),
            eval_children(e@, chv.subrange(0, i as int)) == Ok::<_, Seq<char>>(
                crate::json::entries_view(obj@),
            ),
        decreases ch@.len() - i,
    {
        proof {
            assert(chv[i as int] == ch@[i as int]@);
            assert(chv.subrange(0, i + 1).drop_last() =~= chv.subrange(0, i as int));
            assert(chv.subrange(0, i + 1).last() == chv[i as int]);
        }
        let child = &ch[i];
        match crate::xpath::translate(child.xpath.as_str()) {
            Err(err) => {
                let m = err.message();
                proof {
                    assert(eval_children(e@, chv.subrange(0, i + 1)) == Err::<
                        Seq<(Seq<char>, JsonV)>,
                        _,
                    >(m@));
                    lemma_eval_children_err(e@, chv, i + 1, m@);
                }
                return Err(m);
            },
            Ok(steps) => {
                let ces = select(&e.children, &steps);
                let value = eval_simple_exec(child.extract_type, &child.attribute, &ces);
                crate::json::entries_set(&mut obj, child.name.clone(), value);
                proof {
                    assert(eval_children(e@, chv.subrange(0, i + 1)) == Ok::<_, Seq<char>>(
                        crate::json::entries_view(obj@),
                    ));
                }
            },
        }
        i = i + 1;
    }
    proof {
        assert(chv.subrange(0, ch@.len() as int) =~= chv);
    }
    Ok(obj)
}

/// Evaluate a rule against the document: its value, or the message of its
/// failure. A failure never crosses to sibling rules.
#[verifier::loop_isolation(false)]
#[verifier::rlimit(100)]
pub fn process_rule(doc: &Vec<Node>, rule: &crate::rules::XPathRule) -> (r: Result<Json, String>)
    ensures
        match r {
            Ok(v) => process_rule_spec(nodes_view(doc@), rule@) == Ok::<_, Seq<char>>(v@),
            Err(m) => process_rule_spec(nodes_view(doc@), rule@) == Err::<JsonV, _>(m@),
        },
    decreases *rule,
{
    let ghost docv = nodes_view(doc@);
    match &rule.for_each_item {
        Some(fei) => {
            proof {
                assert(rule@.for_each_item == Some(Box::new((**fei)@)));
                assert(decreases_to!(*rule => **fei));
            }
            let fer = match process_rule(doc, fei) {
                Ok(v) => v,
                Err(m) => {
                    return Err(m);
                },
            };
            if fei.map_item.is_some() {
                let ghost ferv = fer@;
                let items: Vec<Json> = match fer {
                    Json::Arr(a) => a,
                    other => {
                        let mut v: Vec<Json> = Vec::new();
                        v.push(other);
                        proof {
                            crate::json::lemma_jsons_view(v@);
                            assert(jsons_view(v@) =~= seq![ferv]);
                        }
                        v
                    },
                };
                let ghost itemsv = jsons_view(items@);
                let mut mapped: Vec<Json> = Vec::new();
                let mut i: usize = 0;
                proof {
                    lemma_jsons_view(items@);
                }
                while i < items.len()
                    invariant
                        0 <= i <= items@.len(),
                        jsons_view(mapped@) =~= mapped_days(docv, itemsv.subrange(0, i as int)),
                    decreases items@.len() - i,
                {
                    let ghost op = mapped@;
                    match &items[i] {
                        Json::Str(d) => {
                            let di = find_items_for_day(doc, d.as_str());
                            mapped.push(Json::Arr(di));
                        },
                        _ => {},
                    }
                    proof {
                        assert(itemsv.subrange(0, i + 1).drop_last() =~= itemsv.subrange(
                            0,
                            i as int,
                        ));
                        assert(itemsv.subrange(0, i + 1).last() == itemsv[i as int]);
                        assert(itemsv[i as int] == items@[i as int]@);
                        if mapped@.len() > op.len() {
                            lemma_jsons_view_push(op, mapped@.last());
                            assert(mapped@ == op.push(mapped@.last()));
                        }
                        assert(jsons_view(mapped@) =~= mapped_days(
                            docv,
                            itemsv.subrange(0, i + 1),
                        ));
                    }
                    i = i + 1;
                }
                proof {
                    assert(itemsv.subrange(0, items@.len() as int) =~= itemsv);
                }
                return Ok(Json::Arr(mapped));
            }
            Ok(fer)
        },
        None => {
            let is_object = match rule.extract_type {
                crate::rules::ExtractType::Object => true,
                _ => false,
            };
            if is_object {
                let children_opt: Option<&Vec<crate::rules::XPathRule>> = match &rule.children {
                    Some(c) => Some(c),
                    None => match &rule.fields {
                        Some(f) => Some(f),
                        None => None,
                    },
                };
                match children_opt {
                    None => Err("object extraction requires 'children' or 'fields'".to_owned()),
                    Some(ch) => {
                        match crate::xpath::translate(rule.xpath.as_str()) {
                            Err(err) => Err(err.message()),
                            Ok(steps) => {
                                let es = select(doc, &steps);
                                let ghost esv = elems_view(es@);
                                let ghost chv = crate::rules::rules_view(ch@);
                                let mut objs: Vec<Json> = Vec::new();
                                let mut i: usize = 0;
                                while i < es.len()
                                    invariant
                                        0 <= i <= es@.len(),
                                        eval_objects(esv.subrange(0, i as int), chv) == Ok::<
                                            _,
                                            Seq<char>,
                                        >(jsons_view(objs@)),
                                    decreases es@.len() - i,
                                {
                                    proof {
                                        assert(esv[i as int] == es@[i as int]@);
                                        assert(esv.subrange(0, i + 1).drop_last() =~= esv.subrange(
                                            0,
                                            i as int,
                                        ));
                                        assert(esv.subrange(0, i + 1).last() == esv[i as int]);
                                    }
                                    match eval_children_exec(&es[i], ch) {
                                        Err(m) => {
                                            proof {
                                                assert(eval_objects(esv.subrange(0, i + 1), chv)
                                                    == Err::<Seq<JsonV>, _>(m@));
                                                lemma_eval_objects_err(esv, chv, i + 1, m@);
                                            }
                                            return Err(m);
                                        },
                                        Ok(obj) => {
                                            let ghost op = objs@;
                                            objs.push(Json::Obj(obj));
                                            proof {
                                                lemma_jsons_view_push(op, objs@.last());
                                                assert(objs@ == op.push(objs@.last()));
                                                assert(jsons_view(objs@) =~= jsons_view(op).push(
                                                    JsonV::Obj(crate::json::entries_view(obj@)),
                                                ));
                                                assert(eval_objects(esv.subrange(0, i + 1), chv)
                                                    == Ok::<_, Seq<char>>(jsons_view(objs@)));
                                            }
                                        },
                                    }
                                    i = i + 1;
                                }
                                proof {
                                    assert(esv.subrange(0, es@.len() as int) =~= esv);
                                }
                                Ok(collapse_exec(objs))
                            },
                        }
                    },
                }
            } else {
                match crate::xpath::translate(rule.xpath.as_str()) {
                    Err(err) => Err(err.message()),
                    Ok(steps) => {
                        let es = select(doc, &steps);
                        Ok(eval_simple_exec(rule.extract_type, &rule.attribute, &es))
                    },
                }
            }
        },
    }
}

} // verus!
