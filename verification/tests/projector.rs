use xpath_to_json::dom::Node;
use xpath_to_json::json::Json;
use xpath_to_json::project::{Clock, process_hierarchical_template, process_paired_data,
    process_days_with_items, process_numbered_days_with_items, process_day_range_with_items,
    process_template_variable};

fn clock() -> Clock {
    Clock {
        year: "2025".to_string(),
        month: "10".to_string(),
        day: "12".to_string(),
        date: "2025-10-12".to_string(),
    }
}

fn s(v: &str) -> Json {
    Json::Str(v.to_string())
}

fn entry(k: &str, v: Json) -> (String, Json) {
    (k.to_string(), v)
}

#[test]
fn projection_is_deterministic() {
    let doc: Vec<Node> = vec![];
    let store = vec![entry("title", s(" Hello "))];
    let template = Json::Obj(vec![entry("name", s("{title}"))]);
    let a = process_hierarchical_template(&template, &store, &doc, &clock());
    let b = process_hierarchical_template(&template, &store, &doc, &clock());
    assert_eq!(a, b);
    assert_eq!(a, Json::Obj(vec![entry("name", s("Hello"))]));
}

#[test]
fn literal_template_round_trips() {
    let doc: Vec<Node> = vec![];
    let store = vec![entry("anything", s("xyz"))];
    let template = Json::Obj(vec![
        entry("plain", s("text")),
        entry("number", Json::Int(7)),
        entry("flag", Json::Bool(true)),
        entry("nothing", Json::Null),
        entry("list", Json::Arr(vec![s("a"), Json::Int(1)])),
        entry("nested", Json::Obj(vec![entry("inner", s("deep"))])),
    ]);
    let out = process_hierarchical_template(&template, &store, &doc, &clock());
    assert_eq!(out, template);
}

#[test]
fn day_range_expansion_excludes_day_zero() {
    let doc: Vec<Node> = vec![];
    let store = vec![entry(
        "day_items",
        Json::Obj(vec![
            entry("0", Json::Arr(vec![s("Z")])),
            entry("1", Json::Arr(vec![s("A")])),
            entry("2", Json::Arr(vec![s("B")])),
        ]),
    )];
    let template = Json::Obj(vec![entry("{days0-2}", s("x"))]);
    let out = process_hierarchical_template(&template, &store, &doc, &clock());
    assert_eq!(
        out,
        Json::Obj(vec![
            entry("1", Json::Arr(vec![s("A")])),
            entry("2", Json::Arr(vec![s("B")])),
        ])
    );
}

#[test]
fn day_range_fills_missing_days_with_empty_arrays() {
    let store = vec![entry("day_items", Json::Obj(vec![entry("2", Json::Arr(vec![s("B")]))]))];
    let out = process_day_range_with_items(&store, 1, 3);
    assert_eq!(
        out,
        Json::Obj(vec![
            entry("1", Json::Arr(vec![])),
            entry("2", Json::Arr(vec![s("B")])),
            entry("3", Json::Arr(vec![])),
        ])
    );
}

#[test]
fn paired_zipping_stops_at_the_shorter_array() {
    let store = vec![
        entry("dates", Json::Arr(vec![s(" d1 "), s("d2"), s("d3")])),
        entry("values", Json::Arr(vec![s("v1"), s(" v2"), s("v3"), s("v4"), s("v5")])),
    ];
    let out = process_paired_data("{dates}", "{values}", &store);
    assert_eq!(
        out,
        Json::Arr(vec![
            Json::Obj(vec![entry("d1", s("v1"))]),
            Json::Obj(vec![entry("d2", s("v2"))]),
            Json::Obj(vec![entry("d3", s("v3"))]),
        ])
    );
}

#[test]
fn paired_zipping_through_the_array_template_form() {
    let doc: Vec<Node> = vec![];
    let store = vec![
        entry("k", Json::Arr(vec![s("a"), s("b")])),
        entry("v", Json::Arr(vec![s("1"), s("2"), s("3")])),
    ];
    let template = Json::Arr(vec![Json::Obj(vec![entry("{k}", s("{v}"))])]);
    let out = process_hierarchical_template(&template, &store, &doc, &clock());
    assert_eq!(
        out,
        Json::Arr(vec![
            Json::Obj(vec![entry("a", s("1"))]),
            Json::Obj(vec![entry("b", s("2"))]),
        ])
    );
}

#[test]
fn month_expansion_is_chronological() {
    let doc: Vec<Node> = vec![];
    let store = vec![entry(
        "months",
        Json::Arr(vec![s("March 2025"), s("January 2025")]),
    )];
    let template = Json::Obj(vec![entry("{months}", s("m"))]);
    let out = process_hierarchical_template(&template, &store, &doc, &clock());
    assert_eq!(
        out,
        Json::Obj(vec![entry("January", s("m")), entry("March", s("m"))])
    );
}

#[test]
fn items_group_round_robin_across_days() {
    let store = vec![
        entry("days", Json::Arr(vec![s("1"), s("2")])),
        entry("items", Json::Arr(vec![s("a"), s("b"), s("c")])),
    ];
    let out = process_days_with_items(&store);
    assert_eq!(
        out,
        Json::Obj(vec![
            entry("1", Json::Arr(vec![s("a"), s("c")])),
            entry("2", Json::Arr(vec![s("b")])),
        ])
    );
}

#[test]
fn numbered_day_takes_its_even_split_and_last_absorbs_remainder() {
    let store = vec![
        entry("days", Json::Arr(vec![s("1"), s("2")])),
        entry("items", Json::Arr(vec![s("a"), s("b"), s("c"), s("d"), s("e")])),
    ];
    let first = process_numbered_days_with_items(&store, 0);
    assert_eq!(first, Json::Arr(vec![s("a"), s("b")]));
    let last = process_numbered_days_with_items(&store, 1);
    assert_eq!(last, Json::Arr(vec![s("c"), s("d"), s("e")]));
    let oob = process_numbered_days_with_items(&store, 2);
    assert_eq!(oob, Json::Arr(vec![]));
}

#[test]
fn reserved_clock_identifiers_resolve() {
    let doc: Vec<Node> = vec![];
    let store: Vec<(String, Json)> = vec![];
    let template = Json::Obj(vec![
        entry("y", s("{currentYear}")),
        entry("d", s("{currentDate}")),
    ]);
    let out = process_hierarchical_template(&template, &store, &doc, &clock());
    assert_eq!(
        out,
        Json::Obj(vec![entry("y", s("2025")), entry("d", s("2025-10-12"))])
    );
}

#[test]
fn keys_are_placeholders_too() {
    let store = vec![entry("title", Json::Arr(vec![s(" Top "), s("rest")]))];
    let k = process_template_variable("{title}", &store, &clock());
    assert_eq!(k, "Top".to_string());
    let unresolved = process_template_variable("{missing}", &store, &clock());
    assert_eq!(unresolved, "{missing}".to_string());
    let plain = process_template_variable("plain", &store, &clock());
    assert_eq!(plain, "plain".to_string());
}

#[test]
fn unresolved_string_passes_through_unchanged() {
    let doc: Vec<Node> = vec![];
    let store: Vec<(String, Json)> = vec![];
    let template = s("{nothing-known}");
    let out = process_hierarchical_template(&template, &store, &doc, &clock());
    assert_eq!(out, s("{nothing-known}"));
}

#[test]
fn day_range_falls_back_to_even_split_without_day_items() {
    let store = vec![
        entry("days", Json::Arr(vec![s("7"), s("8")])),
        entry("items", Json::Arr(vec![s("a"), s("b"), s("c"), s("d")])),
    ];
    let out = process_day_range_with_items(&store, 0, 30);
    assert_eq!(
        out,
        Json::Obj(vec![
            entry("7", Json::Arr(vec![s("a"), s("b")])),
            entry("8", Json::Arr(vec![s("c"), s("d")])),
        ])
    );
}

#[test]
fn indexed_day_string_template_resolves_to_its_slice() {
    let doc: Vec<Node> = vec![];
    let store = vec![
        entry("days", Json::Arr(vec![s("1"), s("2")])),
        entry("items", Json::Arr(vec![s("a"), s("b"), s("c")])),
    ];
    let template = s("{days1}");
    let out = process_hierarchical_template(&template, &store, &doc, &clock());
    assert_eq!(out, Json::Arr(vec![s("b"), s("c")]));
}

#[test]
fn months_key_without_months_data_passes_through() {
    let doc: Vec<Node> = vec![];
    let store: Vec<(String, Json)> = vec![];
    let template = Json::Obj(vec![entry("{months}", s("x"))]);
    let out = process_hierarchical_template(&template, &store, &doc, &clock());
    assert_eq!(out, Json::Obj(vec![entry("{months}", s("x"))]));
}

#[test]
fn items_template_groups_by_day_through_the_array_form() {
    let doc: Vec<Node> = vec![];
    let store = vec![
        entry("days", Json::Arr(vec![s("1"), s("2")])),
        entry("items", Json::Arr(vec![s("a"), s("b")])),
    ];
    let template = Json::Arr(vec![s("{items}")]);
    let out = process_hierarchical_template(&template, &store, &doc, &clock());
    assert_eq!(
        out,
        Json::Obj(vec![
            entry("1", Json::Arr(vec![s("a")])),
            entry("2", Json::Arr(vec![s("b")])),
        ])
    );
}
