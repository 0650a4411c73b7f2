//! The extraction run: evaluate every rule in order against the document,
//! collect per-rule errors, and project the output template.

use vstd::prelude::*;
use crate::dom::{Node, NodeV, nodes_view};
use crate::eval::{process_rule, process_rule_spec, sel_err_msg, collapse, texts_of_elems,
    extract_texts, collapse_exec, items_for_day, find_items_for_day};
use crate::selector::select_spec;
use crate::json::{Json, JsonV, jsons_view, lemma_jsons_view, entries_view, map_set, entries_set,
    json_clone};
use crate::project::{Clock, ClockV, project_spec, generate_structured_output};

use crate::rules::{XPathRuleV, XPathConfig, ExtractionResult, rules_view, lemma_rules_view};
use crate::selector::select;
use crate::eval::strs_view;

verus! {

/// The error line recorded for a failed rule.
pub open spec fn err_line(name: Seq<char>, msg: Seq<char>) -> Seq<char> {
    "Error processing rule '"@ + name + "': "@ + msg
}

fn err_line_exec(name: &str, msg: &str) -> (r: String)
    ensures
        r@ == err_line(name@, msg@),
{
    let mut r = String::new();
    r.append("Error processing rule '");
    r.append(name);
    r.append("': ");
    r.append(msg);
    proof {
        assert(r@ =~= err_line(name@, msg@));
    }
    r
}

/// The day-to-items mapping for the given day labels, in label order.
pub open spec fn day_map_of(doc: Seq<NodeV>, days: Seq<JsonV>) -> Seq<(Seq<char>, JsonV)>
    decreases days,
{
    if days.len() == 0 {
        Seq::empty()
    } else {
        let acc = day_map_of(doc, days.drop_last());
        match days.last() {
            JsonV::Str(d) => map_set(acc, d, JsonV::Arr(items_for_day(doc, d, None))),
            _ => acc,
        }
    }
}

/// The store and error list after one rule: a failed rule stores `null`
/// and one error line; the `months` rule with a nested iteration also
/// stores the `days` and `day_items` keys.
pub open spec fn apply_rule(
    doc: Seq<NodeV>,
    m: Seq<(Seq<char>, JsonV)>,
    errs: Seq<Seq<char>>,
    r: XPathRuleV,
) -> (Seq<(Seq<char>, JsonV)>, Seq<Seq<char>>) {
    match process_rule_spec(doc, r) {
        Err(msg) => (map_set(m, r.name, JsonV::Null), errs.push(err_line(r.name, msg))),
        Ok(v) => {
            if r.name == "months"@ && r.for_each_item is Some {
                match crate::xpath::translate_spec(r.xpath) {
                    None => (
                        map_set(m, r.name, JsonV::Null),
                        errs.push(err_line(r.name, sel_err_msg(r.xpath))),
                    ),
                    Some(steps) => {
                        let months_result = collapse(texts_of_elems(select_spec(doc, steps)));
                        let m1 = map_set(m, "months"@, months_result);
                        match r.for_each_item {
                            Some(fei) => match process_rule_spec(doc, *fei) {
                                Err(msg) => (m1, errs.push(err_line(r.name, msg))),
                                Ok(days_result) => {
                                    let m2 = map_set(m1, "days"@, days_result);
                                    if fei.map_item is Some {
                                        match days_result {
                                            JsonV::Arr(days_arr) => (
                                                map_set(
                                                    m2,
                                                    "day_items"@,
                                                    JsonV::Obj(day_map_of(doc, days_arr)),
                                                ),
                                                errs,
                                            ),
                                            _ => (
                                                m2,
                                                errs.push(
                                                    err_line(
                                                        r.name,
                                                        "days result is not an array"@,
                                                    ),
                                                ),
                                            ),
                                        }
                                    } else {
                                        (m2, errs)
                                    }
                                },
                            },
                            None => (m1, errs),
                        }
                    },
                }
            } else {
                (map_set(m, r.name, v), errs)
            }
        },
    }
}

/// The raw data store and error list after the rules, in rule order.
pub open spec fn process_rules(doc: Seq<NodeV>, rules: Seq<XPathRuleV>) -> (
    Seq<(Seq<char>, JsonV)>,
    Seq<Seq<char>>,
)
    decreases rules,
{
    if rules.len() == 0 {
        (Seq::empty(), Seq::empty())
    } else {
        let p = process_rules(doc, rules.drop_last());
        apply_rule(doc, p.0, p.1, rules.last())
    }
}

/// The shaped data of a run: the projected first template when one is
/// given, else the raw store as an object.
pub open spec fn result_data(
    store: Seq<(Seq<char>, JsonV)>,
    output_sample: Option<Seq<JsonV>>,
    doc: Seq<NodeV>,
    c: ClockV,
) -> JsonV {
    match output_sample {
        Some(ts) => if ts.len() > 0 {
            JsonV::Arr(seq![project_spec(ts[0], store, doc, c)])
        } else {
            JsonV::Obj(store)
        },
        None => JsonV::Obj(store),
    }
}

/// Run a configuration against the document: evaluate every rule in
/// declaration order, recording one error line per failed rule and `null`
/// for its value, then shape the output. A template list that is present
/// but empty shapes nothing, as if absent.
#[verifier::loop_isolation(false)]
#[verifier::rlimit(60)]
pub fn process_html(config: &XPathConfig, doc: &Vec<Node>, clock: &Clock) -> (r: ExtractionResult)
    ensures
        r.config_name@ == config.name@,
        ({
            let p = process_rules(nodes_view(doc@), rules_view(config.rules@));
            &&& strs_view(r.errors@) == p.1
            &&& r.data@ == result_data(
                p.0,
                match config.output_sample {
                    Some(ts) => Some(jsons_view(ts@)),
                    None => None,
                },
                nodes_view(doc@),
                clock@,
            )
        }),
{
    let ghost docv = nodes_view(doc@);
    let ghost rulesv = rules_view(config.rules@);
    proof {
        lemma_rules_view(config.rules@);
    }
    let mut store: Vec<(String, Json)> = Vec::new();
    let mut errors: Vec<String> = Vec::new();
    let mut i: usize = 0;
    while i < config.rules.len()
        invariant
            0 <= i <= config.rules@.len(),
            entries_view(store@) == process_rules(docv, rulesv.subrange(0, i as int)).0,
            strs_view(errors@) =~= process_rules(docv, rulesv.subrange(0, i as int)).1,
        decreases config.rules@.len() - i,
    {
        let rule = &config.rules[i];
        proof {
            assert(rulesv.subrange(0, i + 1).drop_last() =~= rulesv.subrange(0, i as int));
            assert(rulesv.subrange(0, i + 1).last() == rulesv[i as int]);
            assert(rulesv[i as int] == config.rules@[i as int]@);
        }
        match process_rule(doc, rule) {
            Err(msg) => {
                let line = err_line_exec(rule.name.as_str(), msg.as_str());
                errors.push(line);
                entries_set(&mut store, rule.name.clone(), Json::Null);
            },
            Ok(v) => {
                let is_months = crate::text::str_eq(rule.name.as_str(), "months");
                match (is_months, &rule.for_each_item) {
                    (true, Some(fei)) => {
                        proof {
                            assert(rule@.for_each_item == Some(Box::new((**fei)@)));
                        }
                        match crate::xpath::translate(rule.xpath.as_str()) {
                            Err(e) => {
                                let line = err_line_exec(rule.name.as_str(), e.message().as_str());
                                errors.push(line);
                                entries_set(&mut store, rule.name.clone(), Json::Null);
                            },
                            Ok(steps) => {
                                let es = select(doc, &steps);
                                let months_result = collapse_exec(extract_texts(&es));
                                entries_set(&mut store, "months".to_owned(), months_result);
                                match process_rule(doc, fei) {
                                    Err(msg) => {
                                        let line = err_line_exec(
                                            rule.name.as_str(),
                                            msg.as_str(),
                                        );
                                        errors.push(line);
                                    },
                                    Ok(days_result) => {
                                        let ghost drv = days_result@;
                                        let dr_copy = json_clone(&days_result);
                                        entries_set(&mut store, "days".to_owned(), dr_copy);
                                        if fei.map_item.is_some() {
                                            match days_result {
                                                Json::Arr(days_arr) => {
                                                    let ghost dav = jsons_view(days_arr@);
                                                    proof {
                                                        lemma_jsons_view(days_arr@);
                                                    }
                                                    let mut dm: Vec<(String, Json)> = Vec::new();
                                                    let mut q: usize = 0;
                                                    while q < days_arr.len()
                                                        invariant
                                                            0 <= q <= days_arr@.len(),
                                                            entries_view(dm@) == day_map_of(
                                                                docv,
                                                                dav.subrange(0, q as int),
                                                            ),
                                                        decreases days_arr@.len() - q,
                                                    {
                                                        proof {
                                                            assert(dav.subrange(
                                                                0,
                                                                q + 1,
                                                            ).drop_last() =~= dav.subrange(
                                                                0,
                                                                q as int,
                                                            ));
                                                            assert(dav.subrange(0, q + 1).last()
                                                                == dav[q as int]);
                                                            assert(dav[q as int]
                                                                == days_arr@[q as int]@);
                                                        }
                                                        match &days_arr[q] {
                                                            Json::Str(d) => {
                                                                let items = find_items_for_day(
                                                                    doc,
                                                                    d.as_str(),
                                                                );
                                                                entries_set(
                                                                    &mut dm,
                                                                    d.clone(),
                                                                    Json::Arr(items),
                                                                );
                                                            },
                                                            _ => {},
                                                        }
                                                        q = q + 1;
                                                    }
                                                    proof {
                                                        assert(dav.subrange(
                                                            0,
                                                            days_arr@.len() as int,
                                                        ) =~= dav);
                                                    }
                                                    entries_set(
                                                        &mut store,
                                                        "day_items".to_owned(),
                                                        Json::Obj(dm),
                                                    );
                                                },
                                                _ => {
                                                    let line = err_line_exec(
                                                        rule.name.as_str(),
                                                        "days result is not an array",
                                                    );
                                                    errors.push(line);
                                                },
                                            }
                                        }
                                    },
                                }
                            },
                        }
                    },
                    _ => {
                        entries_set(&mut store, rule.name.clone(), v);
                    },
                }
            },
        }
        proof {
            assert(strs_view(errors@) =~= process_rules(docv, rulesv.subrange(0, i + 1)).1);
            assert(entries_view(store@) == process_rules(docv, rulesv.subrange(0, i + 1)).0);
        }
        i = i + 1;
    }
    proof {
        assert(rulesv.subrange(0, config.rules@.len() as int) =~= rulesv);
    }
    let data = match &config.output_sample {
        Some(ts) => {
            if ts.len() > 0 {
                proof {
                    lemma_jsons_view(ts@);
                }
                generate_structured_output(&store, ts, doc, clock)
            } else {
                Json::Obj(store)
            }
        },
        None => Json::Obj(store),
    };
    ExtractionResult { config_name: config.name.clone(), data, errors }
}

} // verus!
