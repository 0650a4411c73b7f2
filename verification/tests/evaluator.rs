use xpath_to_json::dom::{Elem, Node};
use xpath_to_json::json::Json;
use xpath_to_json::rules::{ExtractType, XPathRule};
use xpath_to_json::eval::{process_rule, find_items_for_day};

fn el(tag: &str, attrs: Vec<(&str, &str)>, children: Vec<Node>) -> Node {
    Node::Elem(Elem {
        tag: tag.to_string(),
        attrs: attrs.iter().map(|(a, b)| (a.to_string(), b.to_string())).collect(),
        children,
    })
}

fn txt(s: &str) -> Node {
    Node::Text(s.to_string())
}

fn rule(name: &str, xpath: &str, extract_type: ExtractType) -> XPathRule {
    XPathRule {
        name: name.to_string(),
        xpath: xpath.to_string(),
        extract_type,
        attribute: None,
        iterate_over: None,
        children: None,
        fields: None,
        for_each_item: None,
        map_item: None,
    }
}

fn s(v: &str) -> Json {
    Json::Str(v.to_string())
}

#[test]
fn zero_matches_is_null() {
    let doc = vec![el("div", vec![], vec![txt("x")])];
    let r = process_rule(&doc, &rule("a", "//p", ExtractType::Text)).unwrap();
    assert_eq!(r, Json::Null);
}

#[test]
fn one_match_is_scalar() {
    let doc = vec![el("div", vec![], vec![el("p", vec![], vec![txt(" hi ")])])];
    let r = process_rule(&doc, &rule("a", "//p", ExtractType::Text)).unwrap();
    assert_eq!(r, s("hi"));
}

#[test]
fn several_matches_are_an_array_in_document_order() {
    let doc = vec![el(
        "div",
        vec![],
        vec![
            el("p", vec![], vec![txt("one")]),
            el("p", vec![], vec![txt("two")]),
        ],
    )];
    let r = process_rule(&doc, &rule("a", "//p", ExtractType::Text)).unwrap();
    assert_eq!(r, Json::Arr(vec![s("one"), s("two")]));
}

#[test]
fn empty_texts_are_dropped() {
    let doc = vec![el(
        "div",
        vec![],
        vec![
            el("p", vec![], vec![txt("   ")]),
            el("p", vec![], vec![txt("kept")]),
        ],
    )];
    let r = process_rule(&doc, &rule("a", "//p", ExtractType::Text)).unwrap();
    assert_eq!(r, s("kept"));
}

#[test]
fn attribute_extraction_skips_missing() {
    let doc = vec![el(
        "div",
        vec![],
        vec![
            el("a", vec![("href", "u1")], vec![]),
            el("a", vec![], vec![]),
            el("a", vec![("href", "u2")], vec![]),
        ],
    )];
    let mut r = rule("links", "//a", ExtractType::Attribute);
    r.attribute = Some("href".to_string());
    let v = process_rule(&doc, &r).unwrap();
    assert_eq!(v, Json::Arr(vec![s("u1"), s("u2")]));
}

#[test]
fn count_is_always_an_integer() {
    let doc = vec![el(
        "div",
        vec![],
        vec![el("p", vec![], vec![]), el("p", vec![], vec![])],
    )];
    let v = process_rule(&doc, &rule("n", "//p", ExtractType::Count)).unwrap();
    assert_eq!(v, Json::Int(2));
    let z = process_rule(&doc, &rule("n", "//table", ExtractType::Count)).unwrap();
    assert_eq!(z, Json::Int(0));
}

#[test]
fn html_extraction_serializes_inner_markup() {
    let doc = vec![el(
        "div",
        vec![],
        vec![el("b", vec![("class", "k")], vec![txt("hi")])],
    )];
    let v = process_rule(&doc, &rule("h", "//div", ExtractType::Html)).unwrap();
    assert_eq!(v, s("<b class=\"k\">hi</b>"));
}

#[test]
fn class_selection_requires_whole_token() {
    let doc = vec![el(
        "div",
        vec![],
        vec![
            el("p", vec![("class", "foobar")], vec![txt("no")]),
            el("p", vec![("class", "foo bar")], vec![txt("yes")]),
        ],
    )];
    let r = process_rule(
        &doc,
        &rule("a", "//p[contains(concat(' ', @class, ' '), ' foo ')]", ExtractType::Text),
    )
    .unwrap();
    assert_eq!(r, s("yes"));
}

#[test]
fn nth_child_is_structural() {
    let doc = vec![el(
        "table",
        vec![],
        vec![
            el("tr", vec![], vec![txt("first")]),
            el("tr", vec![], vec![txt("second")]),
        ],
    )];
    let r = process_rule(&doc, &rule("a", "//tr[2]", ExtractType::Text)).unwrap();
    assert_eq!(r, s("second"));
}

#[test]
fn object_rule_with_two_text_children_over_two_elements() {
    let doc = vec![el(
        "div",
        vec![],
        vec![
            el(
                "div",
                vec![("class", "row")],
                vec![
                    el("span", vec![("class", "k")], vec![txt("k1")]),
                    el("span", vec![("class", "v")], vec![txt("v1")]),
                ],
            ),
            el(
                "div",
                vec![("class", "row")],
                vec![
                    el("span", vec![("class", "k")], vec![txt("k2")]),
                    el("span", vec![("class", "v")], vec![txt("v2")]),
                ],
            ),
        ],
    )];
    let mut outer = rule("rows", "//div[contains(@class, 'row')]", ExtractType::Object);
    outer.children = Some(vec![
        rule("key", ".//span[contains(@class, 'k')]", ExtractType::Text),
        rule("value", ".//span[contains(@class, 'v')]", ExtractType::Text),
    ]);
    let v = process_rule(&doc, &outer).unwrap();
    assert_eq!(
        v,
        Json::Arr(vec![
            Json::Obj(vec![("key".to_string(), s("k1")), ("value".to_string(), s("v1"))]),
            Json::Obj(vec![("key".to_string(), s("k2")), ("value".to_string(), s("v2"))]),
        ])
    );
}

#[test]
fn object_rule_without_children_fails() {
    let doc = vec![el("div", vec![], vec![])];
    let r = process_rule(&doc, &rule("o", "//div", ExtractType::Object));
    assert_eq!(r, Err("object extraction requires 'children' or 'fields'".to_string()));
}

fn calendar_doc() -> Vec<Node> {
    vec![el(
        "table",
        vec![],
        vec![
            el("caption", vec![], vec![txt("October 2025 Ex-Dividend Calendar")]),
            el(
                "tr",
                vec![],
                vec![
                    el("td", vec![("class", "caltabletdnum")], vec![txt("1")]),
                    el("td", vec![("class", "caltabletdnum")], vec![txt("2")]),
                ],
            ),
            el(
                "tr",
                vec![],
                vec![
                    el(
                        "td",
                        vec![("class", "caltabletdevt")],
                        vec![el("a", vec![], vec![txt("AAA")])],
                    ),
                    el(
                        "td",
                        vec![("class", "caltabletdevt")],
                        vec![el("a", vec![], vec![txt("BBB")])],
                    ),
                ],
            ),
        ],
    )]
}

#[test]
fn items_are_read_from_the_row_below_the_day_row() {
    let doc = calendar_doc();
    assert_eq!(find_items_for_day(&doc, "1"), vec![s("AAA")]);
    assert_eq!(find_items_for_day(&doc, "2"), vec![s("BBB")]);
    assert_eq!(find_items_for_day(&doc, "3"), Vec::<Json>::new());
}

#[test]
fn for_each_item_with_map_item_collects_items_per_day() {
    let doc = calendar_doc();
    let mut days = rule(
        "days",
        "//td[contains(concat(' ', @class, ' '), ' caltabletdnum ')]",
        ExtractType::Text,
    );
    days.map_item = Some(Box::new(rule("item", "//a", ExtractType::Text)));
    let mut outer = rule("months", "//caption", ExtractType::Text);
    outer.for_each_item = Some(Box::new(days));
    let v = process_rule(&doc, &outer).unwrap();
    assert_eq!(
        v,
        Json::Arr(vec![
            Json::Arr(vec![s("AAA")]),
            Json::Arr(vec![s("BBB")]),
        ])
    );
}
