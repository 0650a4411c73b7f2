use xpath_to_json::dom::{Elem, Node};
use xpath_to_json::json::Json;
use xpath_to_json::rules::{ExtractType, XPathRule, XPathConfig};
use xpath_to_json::pipeline::process_html;
use xpath_to_json::project::Clock;
use xpath_to_json::encoding::{detect_encoding, decode_html, EncodingLabel};

fn el(tag: &str, attrs: Vec<(&str, &str)>, children: Vec<Node>) -> Node {
    Node::Elem(Elem {
        tag: tag.to_string(),
        attrs: attrs.iter().map(|(a, b)| (a.to_string(), b.to_string())).collect(),
        children,
    })
}

fn txt(s: &str) -> Node {
    Node::Text(s.to_string())
}

fn rule(name: &str, xpath: &str, extract_type: ExtractType) -> XPathRule {
    XPathRule {
        name: name.to_string(),
        xpath: xpath.to_string(),
        extract_type,
        attribute: None,
        iterate_over: None,
        children: None,
        fields: None,
        for_each_item: None,
        map_item: None,
    }
}

fn clock() -> Clock {
    Clock {
        year: "2025".to_string(),
        month: "10".to_string(),
        day: "12".to_string(),
        date: "2025-10-12".to_string(),
    }
}

fn s(v: &str) -> Json {
    Json::Str(v.to_string())
}

#[test]
fn failing_rule_reports_one_error_and_null_without_blocking_others() {
    let doc = vec![el("div", vec![], vec![el("p", vec![], vec![txt("ok")])])];
    let config = XPathConfig {
        name: "demo".to_string(),
        description: None,
        output_sample: None,
        rules: vec![
            rule("broken", "//p[last()]", ExtractType::Text),
            rule("good", "//p", ExtractType::Text),
        ],
    };
    let result = process_html(&config, &doc, &clock());
    assert_eq!(result.config_name, "demo".to_string());
    assert_eq!(
        result.errors,
        vec![
            "Error processing rule 'broken': unsupported construct in path expression"
                .to_string(),
        ]
    );
    assert_eq!(
        result.data,
        Json::Obj(vec![
            ("broken".to_string(), Json::Null),
            ("good".to_string(), s("ok")),
        ])
    );
}

#[test]
fn output_sample_shapes_the_result() {
    let doc = vec![el("h1", vec![], vec![txt(" Title ")])];
    let config = XPathConfig {
        name: "shaped".to_string(),
        description: Some("x".to_string()),
        output_sample: Some(vec![Json::Obj(vec![(
            "heading".to_string(),
            s("{title}"),
        )])]),
        rules: vec![rule("title", "//h1", ExtractType::Text)],
    };
    let result = process_html(&config, &doc, &clock());
    assert!(result.errors.is_empty());
    assert_eq!(
        result.data,
        Json::Arr(vec![Json::Obj(vec![("heading".to_string(), s("Title"))])])
    );
}

#[test]
fn months_rule_with_nested_iteration_stores_days_and_day_items() {
    let doc = vec![el(
        "table",
        vec![],
        vec![
            el("caption", vec![], vec![txt("October 2025 Ex-Dividend Calendar")]),
            el(
                "tr",
                vec![],
                vec![
                    el("td", vec![("class", "caltabletdnum")], vec![txt("1")]),
                    el("td", vec![("class", "caltabletdnum")], vec![txt("2")]),
                ],
            ),
            el(
                "tr",
                vec![],
                vec![
                    el(
                        "td",
                        vec![("class", "caltabletdevt")],
                        vec![el("a", vec![], vec![txt("AAA")])],
                    ),
                    el(
                        "td",
                        vec![("class", "caltabletdevt")],
                        vec![el("a", vec![], vec![txt("BBB")])],
                    ),
                ],
            ),
        ],
    )];
    let mut days = rule(
        "days",
        "//td[contains(concat(' ', @class, ' '), ' caltabletdnum ')]",
        ExtractType::Text,
    );
    days.map_item = Some(Box::new(rule("item", "//a", ExtractType::Text)));
    let mut months = rule("months", "//caption", ExtractType::Text);
    months.for_each_item = Some(Box::new(days));
    let config = XPathConfig {
        name: "cal".to_string(),
        description: None,
        output_sample: None,
        rules: vec![months],
    };
    let result = process_html(&config, &doc, &clock());
    assert!(result.errors.is_empty());
    assert_eq!(
        result.data,
        Json::Obj(vec![
            ("months".to_string(), s("October 2025 Ex-Dividend Calendar")),
            ("days".to_string(), Json::Arr(vec![s("1"), s("2")])),
            (
                "day_items".to_string(),
                Json::Obj(vec![
                    ("1".to_string(), Json::Arr(vec![s("AAA")])),
                    ("2".to_string(), Json::Arr(vec![s("BBB")])),
                ])
            ),
        ])
    );
}

#[test]
fn charset_detection_reads_the_meta_declaration() {
    assert_eq!(detect_encoding("<meta charset=utf-8>"), EncodingLabel::Utf8);
    assert_eq!(
        detect_encoding("<meta content=\"text/html; charset=windows-1252\">"),
        EncodingLabel::Windows1252
    );
    assert_eq!(
        detect_encoding("<meta content=\"text/html; charset=ISO-8859-1\">"),
        EncodingLabel::Windows1252
    );
    assert_eq!(detect_encoding("<meta charset=latin1>"), EncodingLabel::Windows1252);
    assert_eq!(detect_encoding("<p>no declaration</p>"), EncodingLabel::Utf8);
    assert_eq!(detect_encoding("<meta charset=koi8-r>"), EncodingLabel::Utf8);
    // a quoted value ends at the quote: nothing is read, and UTF-8 stands
    assert_eq!(detect_encoding("<meta charset=\"windows-1252\">"), EncodingLabel::Utf8);
}

#[test]
fn windows_1252_bytes_decode_through_the_declared_charset() {
    let mut bytes = b"<meta content=\"text/html; charset=windows-1252\"><p>caf".to_vec();
    bytes.push(0xE9);
    bytes.extend_from_slice(b"</p>");
    let decoded = decode_html(&bytes);
    assert!(decoded.contains("caf\u{e9}"));
}

#[test]
fn utf8_bytes_decode_unchanged() {
    let text = "<meta charset=utf-8><p>caf\u{e9}</p>";
    let decoded = decode_html(&text.as_bytes().to_vec());
    assert_eq!(decoded, text.to_string());
}
