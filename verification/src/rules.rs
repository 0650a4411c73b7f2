//! The declarative rule model: what to select from the document and how to
//! shape it.

use vstd::prelude::*;
use crate::json::Json;

verus! {

/// What is read from a matched element.
#[derive(Debug, Clone, Copy, PartialEq, Eq, Structural)]
pub enum ExtractType {
    /// The concatenated descendant text, trimmed; empty strings are dropped.
    Text,
    /// The value of the named attribute; elements without it are skipped.
    Attribute,
    /// The serialized inner markup of the element.
    Html,
    /// The number of matches.
    Count,
    /// One object per match, built from the child rules.
    Object,
}

/// Mathematical model of an extraction rule.
#[verifier::ext_equal]
pub struct XPathRuleV {
    pub name: Seq<char>,
    pub xpath: Seq<char>,
    pub extract_type: ExtractType,
    pub attribute: Option<Seq<char>>,
    pub iterate_over: Option<Seq<char>>,
    pub children: Option<Seq<XPathRuleV>>,
    pub fields: Option<Seq<XPathRuleV>>,
    pub for_each_item: Option<Box<XPathRuleV>>,
    pub map_item: Option<Box<XPathRuleV>>,
}

/// One extraction rule: a name, a path expression, the extraction kind, and
/// the optional nested forms.
#[derive(Debug)]
pub struct XPathRule {
    /// Name under which the result is stored.
    pub name: String,
    /// The path expression to translate and evaluate.
    pub xpath: String,
    /// What to read from each matched element.
    pub extract_type: ExtractType,
    /// Attribute name, read when `extract_type` is `Attribute`.
    pub attribute: Option<String>,
    /// Back-reference to another rule's result (data only; carried through).
    pub iterate_over: Option<String>,
    /// Child rules, evaluated per matched element for `Object` rules.
    pub children: Option<Vec<XPathRule>>,
    /// Alias for `children`; consulted when `children` is absent.
    pub fields: Option<Vec<XPathRule>>,
    /// Nested rule whose result is iterated.
    pub for_each_item: Option<Box<XPathRule>>,
    /// Rule applied per iterated item (presence alone drives the day/month
    /// association).
    pub map_item: Option<Box<XPathRule>>,
}

pub open spec fn rule_view(r: XPathRule) -> XPathRuleV
    decreases r,
{
    XPathRuleV {
        name: r.name@,
        xpath: r.xpath@,
        extract_type: r.extract_type,
        attribute: match r.attribute {
            Some(a) => Some(a@),
            None => None,
        },
        iterate_over: match r.iterate_over {
            Some(a) => Some(a@),
            None => None,
        },
        children: match r.children {
            Some(c) => {
                proof {
                    assert(decreases_to!(r => c));
                    assert(decreases_to!(c => c@));
                }
                Some(rules_view(c@))
            },
            None => None,
        },
        fields: match r.fields {
            Some(c) => {
                proof {
                    assert(decreases_to!(r => c));
                    assert(decreases_to!(c => c@));
                }
                Some(rules_view(c@))
            },
            None => None,
        },
        for_each_item: match r.for_each_item {
            Some(b) => Some(Box::new(rule_view(*b))),
            None => None,
        },
        map_item: match r.map_item {
            Some(b) => Some(Box::new(rule_view(*b))),
            None => None,
        },
    }
}

/// Views of a rule list, in order.
pub open spec fn rules_view(s: Seq<XPathRule>) -> Seq<XPathRuleV>
    decreases s,
{
    if s.len() == 0 {
        Seq::empty()
    } else {
        rules_view(s.drop_last()).push(rule_view(s.last()))
    }
}

/// Pointwise reading of `rules_view`.
pub proof fn lemma_rules_view(s: Seq<XPathRule>)
    ensures
        rules_view(s).len() == s.len(),
        forall|i: int| 0 <= i < s.len() ==> rules_view(s)[i] == rule_view(#[trigger] s[i]),
    decreases s.len(),
{
    if s.len() > 0 {
        lemma_rules_view(s.drop_last());
        assert forall|i: int| 0 <= i < s.len() implies rules_view(s)[i] == rule_view(
            #[trigger] s[i],
        ) by {
            if i < s.len() - 1 {
                assert(s.drop_last()[i] == s[i]);
            }
        }
    }
}

impl View for XPathRule {
    type V = XPathRuleV;

    open spec fn view(&self) -> XPathRuleV {
        rule_view(*self)
    }
}

/// A rule configuration: named, with an optional projection template and the
/// ordered top-level rules.
#[derive(Debug)]
pub struct XPathConfig {
    /// Name of the configuration, copied into the result.
    pub name: String,
    /// Free-form description (data only).
    pub description: Option<String>,
    /// Projection templates; the first one, when present and non-empty,
    /// shapes the output.
    pub output_sample: Option<Vec<Json>>,
    /// The rules, evaluated in order.
    pub rules: Vec<XPathRule>,
}

/// What an extraction run returns: the configuration's name, the shaped
/// data, and the non-fatal per-rule errors in rule order.
#[derive(Debug)]
pub struct ExtractionResult {
    pub config_name: String,
    pub data: Json,
    pub errors: Vec<String>,
}

} // verus!
