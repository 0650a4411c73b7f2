use xpath_to_json::xpath::{xpath_to_css_selector, SelectorError};

#[test]
fn class_idiom_maps_to_class_selector() {
    let r = xpath_to_css_selector(
        "//table//td[contains(concat(' ', @class, ' '), ' caltabletdnum ')]",
    );
    assert_eq!(r, Ok("table td.caltabletdnum".to_string()));
}

#[test]
fn attribute_contains_maps_to_substring_selector() {
    let r = xpath_to_css_selector("//a[contains(@href, 'detail')]");
    assert_eq!(r, Ok("a[href*=\"detail\"]".to_string()));
}

#[test]
fn class_contains_maps_to_class_selector() {
    let r = xpath_to_css_selector("//td[contains(@class, 'caltabletdevt')]");
    assert_eq!(r, Ok("td.caltabletdevt".to_string()));
}

#[test]
fn conjunction_of_predicates() {
    let r = xpath_to_css_selector("//td[contains(@class, 'a') and contains(@data-x, 'b')]");
    assert_eq!(r, Ok("td.a[data-x*=\"b\"]".to_string()));
}

#[test]
fn fixed_index_maps_to_nth_child() {
    let r = xpath_to_css_selector("//tr[2]/td[1]");
    assert_eq!(r, Ok("tr:nth-child(2) td:nth-child(1)".to_string()));
}

#[test]
fn trailing_text_is_stripped() {
    let r = xpath_to_css_selector("//div/span/text()");
    assert_eq!(r, Ok("div span".to_string()));
}

#[test]
fn trailing_attribute_is_stripped() {
    let r = xpath_to_css_selector("//a/@href");
    assert_eq!(r, Ok("a".to_string()));
}

#[test]
fn child_separator_selects_descendants() {
    let r = xpath_to_css_selector("/html/body");
    assert_eq!(r, Ok("html body".to_string()));
}

#[test]
fn relative_descendant_prefix() {
    let r = xpath_to_css_selector(".//a");
    assert_eq!(r, Ok("a".to_string()));
}

#[test]
fn unsupported_function_is_rejected() {
    let r = xpath_to_css_selector("//td[position()=1]");
    assert_eq!(r, Err(SelectorError::Unsupported));
}

#[test]
fn unsupported_axis_is_rejected() {
    let r = xpath_to_css_selector(
        "//tr[td[@class='caltabletdnum']]/following-sibling::tr[1]",
    );
    assert_eq!(r, Err(SelectorError::Unsupported));
}

#[test]
fn index_outside_enumerated_set_is_rejected() {
    let r = xpath_to_css_selector("//tr[19]");
    assert_eq!(r, Err(SelectorError::Unsupported));
}

#[test]
fn text_content_predicate_is_rejected() {
    let r = xpath_to_css_selector("//table[contains(., 'Ex-Dividend Calendar')]//th");
    assert_eq!(r, Err(SelectorError::Unsupported));
}

#[test]
fn empty_expression_is_rejected() {
    assert_eq!(xpath_to_css_selector(""), Err(SelectorError::Empty));
    assert_eq!(xpath_to_css_selector("   "), Err(SelectorError::Empty));
}

#[test]
fn translation_is_pure() {
    let a = xpath_to_css_selector("//table//td[contains(@class, 'x')]");
    let b = xpath_to_css_selector("//table//td[contains(@class, 'x')]");
    assert_eq!(a, b);
}
