//! The selector translator: turns a path expression of the restricted rule
//! language into an element selector.
//!
//! Supported: descendant (`//`) and child (`/`) separators (both select
//! descendants), tag names, attribute-contains predicates
//! (`contains(@attr, 'v')`), the class-list idiom
//! (`contains(concat(' ', @class, ' '), ' v ')`), conjunction with `and`,
//! fixed-index child predicates for an enumerated set of tag/index pairs,
//! a trailing `/text()` (stripped), and a trailing `/@attr` (stripped; the
//! attribute name travels out of band on the rule). Anything else is
//! rejected with an explicit error, never mis-translated.

use vstd::prelude::*;
use crate::selector::{SimpleSel, SimpleSelV, steps_view};
use crate::text::{match_at, is_digit, parse_usize_spec};

verus! {

/// A path expression that cannot be represented as an element selector.
#[derive(Debug, Clone, Copy, PartialEq, Eq, Structural)]
pub enum SelectorError {
    /// The expression is empty or holds no step.
    Empty,
    /// The expression uses an operator or form outside the supported subset.
    Unsupported,
}

impl SelectorError {
    /// A short description, used in per-rule error reports.
    pub fn message(&self) -> (r: String)
        ensures
            *self is Empty ==> r@ == "empty path expression"@,
            *self is Unsupported ==> r@ == "unsupported construct in path expression"@,
    {
        match self {
            SelectorError::Empty => "empty path expression".to_owned(),
            SelectorError::Unsupported => "unsupported construct in path expression".to_owned(),
        }
    }
}

pub open spec fn is_name_char(c: char) -> bool {
    ('a' <= c && c <= 'z') || ('A' <= c && c <= 'Z') || ('0' <= c && c <= '9') || c == '-' || c
        == '_'
}

fn is_name_char_exec(c: char) -> (r: bool)
    ensures
        r == is_name_char(c),
{
    ('a' <= c && c <= 'z') || ('A' <= c && c <= 'Z') || ('0' <= c && c <= '9') || c == '-' || c
        == '_'
}

/// First index at or after `i` holding no name character.
pub open spec fn name_end(s: Seq<char>, i: int) -> int
    decreases s.len() - i,
{
    if i < 0 || i >= s.len() {
        i
    } else if is_name_char(s[i]) {
        name_end(s, i + 1)
    } else {
        i
    }
}

pub proof fn lemma_name_end(s: Seq<char>, i: int)
    requires
        0 <= i <= s.len(),
    ensures
        i <= name_end(s, i) <= s.len(),
        forall|k: int| i <= k < name_end(s, i) ==> is_name_char(s[k]),
        name_end(s, i) < s.len() ==> !is_name_char(s[name_end(s, i)]),
    decreases s.len() - i,
{
    if i < s.len() && is_name_char(s[i]) {
        lemma_name_end(s, i + 1);
    }
}

fn name_end_exec(s: &str, i: usize) -> (r: usize)
    requires
        i <= s@.len(),
    ensures
        r == name_end(s@, i as int),
        i <= r <= s@.len(),
    decreases s@.len() - i,
{
    proof {
        lemma_name_end(s@, i as int);
    }
    let n = s.unicode_len();
    if i < n && is_name_char_exec(s.get_char(i)) {
        name_end_exec(s, i + 1)
    } else {
        i
    }
}

/// First index at or after `i` holding no digit.
pub open spec fn digits_end(s: Seq<char>, i: int) -> int
    decreases s.len() - i,
{
    if i < 0 || i >= s.len() {
        i
    } else if is_digit(s[i]) {
        digits_end(s, i + 1)
    } else {
        i
    }
}

pub proof fn lemma_digits_end(s: Seq<char>, i: int)
    requires
        0 <= i <= s.len(),
    ensures
        i <= digits_end(s, i) <= s.len(),
        forall|k: int| i <= k < digits_end(s, i) ==> is_digit(s[k]),
        digits_end(s, i) < s.len() ==> !is_digit(s[digits_end(s, i)]),
    decreases s.len() - i,
{
    if i < s.len() && is_digit(s[i]) {
        lemma_digits_end(s, i + 1);
    }
}

fn digits_end_exec(s: &str, i: usize) -> (r: usize)
    requires
        i <= s@.len(),
    ensures
        r == digits_end(s@, i as int),
        i <= r <= s@.len(),
    decreases s@.len() - i,
{
    proof {
        lemma_digits_end(s@, i as int);
    }
    let n = s.unicode_len();
    if i < n {
        let c = s.get_char(i);
        if '0' <= c && c <= '9' {
            return digits_end_exec(s, i + 1);
        }
    }
    i
}

/// First index at or after `i` holding `c`, or the length.
pub open spec fn upto_char(s: Seq<char>, i: int, c: char) -> int
    decreases s.len() - i,
{
    if i < 0 || i >= s.len() {
        s.len() as int
    } else if s[i] == c {
        i
    } else {
        upto_char(s, i + 1, c)
    }
}

pub proof fn lemma_upto_char(s: Seq<char>, i: int, c: char)
    requires
        0 <= i <= s.len(),
    ensures
        i <= upto_char(s, i, c) <= s.len(),
        forall|k: int| i <= k < upto_char(s, i, c) ==> s[k] != c,
        upto_char(s, i, c) < s.len() ==> s[upto_char(s, i, c)] == c,
    decreases s.len() - i,
{
    if i < s.len() && s[i] != c {
        lemma_upto_char(s, i + 1, c);
    }
}

pub fn upto_char_exec(s: &str, i: usize, c: char) -> (r: usize)
    requires
        i <= s@.len(),
    ensures
        r == upto_char(s@, i as int, c),
        i <= r <= s@.len(),
    decreases s@.len() - i,
{
    proof {
        lemma_upto_char(s@, i as int, c);
    }
    let n = s.unicode_len();
    if i >= n {
        n
    } else if s.get_char(i) == c {
        i
    } else {
        upto_char_exec(s, i + 1, c)
    }
}

/// Whether the literal occurs at position `i`.
fn lit_at(s: &str, i: usize, pat: &str) -> (r: bool)
    requires
        i <= s@.len(),
    ensures
        r == match_at(s@, pat@, i as int),
{
    let n = s.unicode_len();
    let m = pat.unicode_len();
    if m > n - i {
        return false;
    }
    crate::text::check_match_at(s, pat, i)
}


/// A fresh simple selector for the given tag.
pub open spec fn empty_sel(tag: Seq<char>) -> SimpleSelV {
    SimpleSelV { tag: Some(tag), classes: Seq::empty(), attrs: Seq::empty(), nth: None }
}

/// The tag/index pairs for which a fixed-index child predicate is
/// supported.
pub open spec fn nth_supported(tag: Option<Seq<char>>, v: int) -> bool {
    ||| (tag == Some("td"@) && 1 <= v <= 2)
    ||| (tag == Some("tr"@) && 1 <= v <= 18)
    ||| (tag == Some("font"@) && 1 <= v <= 2)
}

/// Parse one predicate conjunct at `i`, extending `sel`; yields the
/// extended selector and the index one past the conjunct.
pub open spec fn parse_one_pred_spec(s: Seq<char>, i: int, sel: SimpleSelV) -> Option<
    (SimpleSelV, int),
> {
    if match_at(s, "contains(concat(' ', @"@, i) {
        let p = i + "contains(concat(' ', @"@.len();
        let ne = name_end(s, p);
        if ne == p {
            None
        } else if !match_at(s, ", ' '), '"@, ne) {
            None
        } else {
            let q = ne + ", ' '), '"@.len();
            let v_end = upto_char(s, q, '\'');
            if v_end >= s.len() {
                None
            } else {
                let val = s.subrange(q, v_end);
                if !(val.len() >= 3 && val[0] == ' ' && val[val.len() - 1] == ' ') {
                    None
                } else if !match_at(s, "')"@, v_end) {
                    None
                } else {
                    let inner = val.subrange(1, val.len() - 1);
                    let name = s.subrange(p, ne);
                    let j = v_end + "')"@.len();
                    if name == "class"@ {
                        Some((SimpleSelV { classes: sel.classes.push(inner), ..sel }, j))
                    } else {
                        Some((SimpleSelV { attrs: sel.attrs.push((name, inner)), ..sel }, j))
                    }
                }
            }
        }
    } else if match_at(s, "contains(@"@, i) {
        let p = i + "contains(@"@.len();
        let ne = name_end(s, p);
        if ne == p {
            None
        } else if !match_at(s, ", '"@, ne) {
            None
        } else {
            let q = ne + ", '"@.len();
            let v_end = upto_char(s, q, '\'');
            if v_end >= s.len() {
                None
            } else {
                let val = s.subrange(q, v_end);
                if val.len() == 0 {
                    None
                } else if !match_at(s, "')"@, v_end) {
                    None
                } else {
                    let name = s.subrange(p, ne);
                    let j = v_end + "')"@.len();
                    if name == "class"@ {
                        Some((SimpleSelV { classes: sel.classes.push(val), ..sel }, j))
                    } else {
                        Some((SimpleSelV { attrs: sel.attrs.push((name, val)), ..sel }, j))
                    }
                }
            }
        }
    } else if 0 <= i < s.len() && is_digit(s[i]) {
        let de = digits_end(s, i);
        match parse_usize_spec(s.subrange(i, de)) {
            Some(v) => {
                if nth_supported(sel.tag, v as int) {
                    Some((SimpleSelV { nth: Some(v as int), ..sel }, de))
                } else {
                    None
                }
            },
            None => None,
        }
    } else {
        None
    }
}

pub proof fn lemma_parse_one_pred_advances(s: Seq<char>, i: int, sel: SimpleSelV)
    requires
        0 <= i <= s.len(),
    ensures
        match parse_one_pred_spec(s, i, sel) {
            Some(p) => i < p.1 <= s.len(),
            None => true,
        },
{
    reveal_strlit("contains(concat(' ', @");
    reveal_strlit("contains(@");
    reveal_strlit(", ' '), '");
    reveal_strlit(", '");
    reveal_strlit("')");
    if match_at(s, "contains(concat(' ', @"@, i) {
        let p = i + "contains(concat(' ', @"@.len();
        lemma_name_end(s, p);
        let ne = name_end(s, p);
        if ne != p && match_at(s, ", ' '), '"@, ne) {
            let q = ne + ", ' '), '"@.len();
            lemma_upto_char(s, q, '\'');
        }
    } else if match_at(s, "contains(@"@, i) {
        let p = i + "contains(@"@.len();
        lemma_name_end(s, p);
        let ne = name_end(s, p);
        if ne != p && match_at(s, ", '"@, ne) {
            let q = ne + ", '"@.len();
            lemma_upto_char(s, q, '\'');
        }
    } else if 0 <= i < s.len() && is_digit(s[i]) {
        lemma_digits_end(s, i);
    }
}

/// Parse the conjuncts of one bracketed predicate group, starting after the
/// opening bracket; yields the index one past the closing bracket.
pub open spec fn parse_conjs_spec(s: Seq<char>, i: int, sel: SimpleSelV) -> Option<
    (SimpleSelV, int),
>
    decreases s.len() - i,
{
    if !(0 <= i <= s.len()) {
        None
    } else {
        match parse_one_pred_spec(s, i, sel) {
            None => None,
            Some((sel2, j)) => {
                if match_at(s, " and "@, j) {
                    proof {
                        reveal_strlit(" and ");
                        lemma_parse_one_pred_advances(s, i, sel);
                    }
                    parse_conjs_spec(s, j + " and "@.len(), sel2)
                } else if j < s.len() && s[j] == ']' {
                    Some((sel2, j + 1))
                } else {
                    None
                }
            },
        }
    }
}

pub proof fn lemma_parse_conjs_advances(s: Seq<char>, i: int, sel: SimpleSelV)
    requires
        0 <= i <= s.len(),
    ensures
        match parse_conjs_spec(s, i, sel) {
            Some(p) => i < p.1 <= s.len(),
            None => true,
        },
    decreases s.len() - i,
{
    lemma_parse_one_pred_advances(s, i, sel);
    match parse_one_pred_spec(s, i, sel) {
        None => {},
        Some((sel2, j)) => {
            if match_at(s, " and "@, j) {
                reveal_strlit(" and ");
                lemma_parse_conjs_advances(s, j + " and "@.len(), sel2);
            }
        },
    }
}

/// Parse one step: a tag name with at most one predicate group.
pub open spec fn parse_step_spec(s: Seq<char>, i: int) -> Option<(SimpleSelV, int)> {
    if !(0 <= i <= s.len()) {
        None
    } else {
        let te = name_end(s, i);
        if te == i {
            None
        } else {
            let sel0 = empty_sel(s.subrange(i, te));
            if te < s.len() && s[te] == '[' {
                match parse_conjs_spec(s, te + 1, sel0) {
                    None => None,
                    Some((sel, j)) => {
                        if j < s.len() && s[j] == '[' {
                            None
                        } else {
                            Some((sel, j))
                        }
                    },
                }
            } else {
                Some((sel0, te))
            }
        }
    }
}

pub proof fn lemma_parse_step_advances(s: Seq<char>, i: int)
    requires
        0 <= i <= s.len(),
    ensures
        match parse_step_spec(s, i) {
            Some(p) => i < p.1 <= s.len(),
            None => true,
        },
{
    lemma_name_end(s, i);
    let te = name_end(s, i);
    if te != i && te < s.len() && s[te] == '[' {
        lemma_parse_conjs_advances(s, te + 1, empty_sel(s.subrange(i, te)));
    }
}

/// Parse the steps of the expression from `i` on, handling a trailing
/// `/text()` or `/@attr` by stripping it.
pub open spec fn parse_rest_spec(s: Seq<char>, i: int) -> Option<Seq<SimpleSelV>>
    decreases s.len() - i,
{
    if !(0 <= i <= s.len()) {
        None
    } else {
        match parse_step_spec(s, i) {
            None => None,
            Some((sel, j)) => {
                if j == s.len() {
                    Some(seq![sel])
                } else if s[j] != '/' {
                    None
                } else {
                    let j2 = if j + 1 < s.len() && s[j + 1] == '/' {
                        j + 2
                    } else {
                        j + 1
                    };
                    if match_at(s, "text()"@, j2) && j2 + "text()"@.len() == s.len() {
                        Some(seq![sel])
                    } else if j2 < s.len() && s[j2] == '@' {
                        let ne = name_end(s, j2 + 1);
                        if ne > j2 + 1 && ne == s.len() {
                            Some(seq![sel])
                        } else {
                            None
                        }
                    } else if j2 >= s.len() {
                        None
                    } else {
                        proof {
                            lemma_parse_step_advances(s, i);
                        }
                        match parse_rest_spec(s, j2) {
                            None => None,
                            Some(rest) => Some(seq![sel] + rest),
                        }
                    }
                }
            },
        }
    }
}

/// The translation of a whole (already trimmed) expression.
pub open spec fn parse_expr_spec(s: Seq<char>) -> Option<Seq<SimpleSelV>> {
    if s.len() == 0 {
        None
    } else {
        let i0: int = if s.len() >= 2 && s[0] == '.' && s[1] == '/' {
            1
        } else {
            0
        };
        let i1: int = if i0 < s.len() && s[i0] == '/' {
            if i0 + 1 < s.len() && s[i0 + 1] == '/' {
                i0 + 2
            } else {
                i0 + 1
            }
        } else {
            i0
        };
        if i1 >= s.len() {
            None
        } else {
            parse_rest_spec(s, i1)
        }
    }
}

/// The translation of an expression: trim it, then parse.
pub open spec fn translate_spec(s: Seq<char>) -> Option<Seq<SimpleSelV>> {
    parse_expr_spec(crate::text::trim_spec(s))
}


fn parse_one_pred(s: &str, i: usize, sel: SimpleSel) -> (r: Result<
    (SimpleSel, usize),
    SelectorError,
>)
    requires
        i <= s@.len(),
    ensures
        match r {
            Ok(p) => parse_one_pred_spec(s@, i as int, sel@) == Some((p.0@, p.1 as int)) && p.1
                <= s@.len(),
            Err(e) => parse_one_pred_spec(s@, i as int, sel@) is None && e is Unsupported,
        },
{
    let ghost sv = sel@;
    let n = s.unicode_len();
    proof {
        lemma_parse_one_pred_advances(s@, i as int, sv);
    }
    if lit_at(s, i, "contains(concat(' ', @") {
        let p = i + "contains(concat(' ', @".unicode_len();
        let ne = name_end_exec(s, p);
        if ne == p {
            return Err(SelectorError::Unsupported);
        }
        if !lit_at(s, ne, ", ' '), '") {
            return Err(SelectorError::Unsupported);
        }
        let q = ne + ", ' '), '".unicode_len();
        let v_end = upto_char_exec(s, q, '\'');
        if v_end >= n {
            return Err(SelectorError::Unsupported);
        }
        let ghost val = s@.subrange(q as int, v_end as int);
        proof {
            assert(val.len() == v_end - q);
            if val.len() >= 3 {
                assert(val[0] == s@[q as int]);
                assert(val[val.len() - 1] == s@[v_end - 1]);
            }
        }
        if !(v_end - q >= 3 && s.get_char(q) == ' ' && s.get_char(v_end - 1) == ' ') {
            return Err(SelectorError::Unsupported);
        }
        if !lit_at(s, v_end, "')") {
            return Err(SelectorError::Unsupported);
        }
        let j = v_end + "')".unicode_len();
        let name_s = s.substring_char(p, ne);
        let inner_s = s.substring_char(q + 1, v_end - 1);
        proof {
            assert(inner_s@ =~= val.subrange(1, val.len() - 1));
        }
        let mut out = sel;
        if crate::text::str_eq(name_s, "class") {
            out.classes.push(inner_s.to_owned());
            proof {
                assert(out@.classes =~= sv.classes.push(val.subrange(1, val.len() - 1)));
                assert(out@.attrs =~= sv.attrs);
                assert(out@ =~= SimpleSelV { classes: sv.classes.push(val.subrange(1, val.len() - 1)), ..sv });
            }
            Ok((out, j))
        } else {
            out.attrs.push((name_s.to_owned(), inner_s.to_owned()));
            proof {
                assert(out@.attrs =~= sv.attrs.push(
                    (s@.subrange(p as int, ne as int), val.subrange(1, val.len() - 1)),
                ));
                assert(out@.classes =~= sv.classes);
                assert(out@ =~= SimpleSelV {
                    attrs: sv.attrs.push(
                        (s@.subrange(p as int, ne as int), val.subrange(1, val.len() - 1)),
                    ),
                    ..sv
                });
            }
            Ok((out, j))
        }
    } else if lit_at(s, i, "contains(@") {
        let p = i + "contains(@".unicode_len();
        let ne = name_end_exec(s, p);
        if ne == p {
            return Err(SelectorError::Unsupported);
        }
        if !lit_at(s, ne, ", '") {
            return Err(SelectorError::Unsupported);
        }
        let q = ne + ", '".unicode_len();
        let v_end = upto_char_exec(s, q, '\'');
        if v_end >= n {
            return Err(SelectorError::Unsupported);
        }
        let ghost val = s@.subrange(q as int, v_end as int);
        if v_end - q == 0 {
            return Err(SelectorError::Unsupported);
        }
        if !lit_at(s, v_end, "')") {
            return Err(SelectorError::Unsupported);
        }
        let j = v_end + "')".unicode_len();
        let name_s = s.substring_char(p, ne);
        let val_s = s.substring_char(q, v_end);
        let mut out = sel;
        if crate::text::str_eq(name_s, "class") {
            out.classes.push(val_s.to_owned());
            proof {
                assert(out@.classes =~= sv.classes.push(val));
                assert(out@.attrs =~= sv.attrs);
                assert(out@ =~= SimpleSelV { classes: sv.classes.push(val), ..sv });
            }
            Ok((out, j))
        } else {
            out.attrs.push((name_s.to_owned(), val_s.to_owned()));
            proof {
                assert(out@.attrs =~= sv.attrs.push((s@.subrange(p as int, ne as int), val)));
                assert(out@.classes =~= sv.classes);
                assert(out@ =~= SimpleSelV {
                    attrs: sv.attrs.push((s@.subrange(p as int, ne as int), val)),
                    ..sv
                });
            }
            Ok((out, j))
        }
    } else if i < n && {
        let c = s.get_char(i);
        '0' <= c && c <= '9'
    } {
        let de = digits_end_exec(s, i);
        let num_s = s.substring_char(i, de);
        match crate::text::parse_usize(num_s) {
            None => Err(SelectorError::Unsupported),
            Some(v) => {
                let supported = match &sel.tag {
                    Some(t) => {
                        (crate::text::str_eq(t.as_str(), "td") && 1 <= v && v <= 2)
                            || (crate::text::str_eq(t.as_str(), "tr") && 1 <= v && v <= 18)
                            || (crate::text::str_eq(t.as_str(), "font") && 1 <= v && v <= 2)
                    },
                    None => false,
                };
                if supported {
                    let mut out = sel;
                    out.nth = Some(v);
                    proof {
                        assert(out@.classes =~= sv.classes);
                        assert(out@.attrs =~= sv.attrs);
                        assert(out@ =~= SimpleSelV { nth: Some(v as int), ..sv });
                    }
                    Ok((out, de))
                } else {
                    Err(SelectorError::Unsupported)
                }
            },
        }
    } else {
        Err(SelectorError::Unsupported)
    }
}

fn parse_conjs(s: &str, i: usize, sel: SimpleSel) -> (r: Result<
    (SimpleSel, usize),
    SelectorError,
>)
    requires
        i <= s@.len(),
    ensures
        match r {
            Ok(p) => parse_conjs_spec(s@, i as int, sel@) == Some((p.0@, p.1 as int)) && p.1
                <= s@.len(),
            Err(e) => parse_conjs_spec(s@, i as int, sel@) is None && e is Unsupported,
        },
    decreases s@.len() - i,
{
    let ghost sv = sel@;
    let n = s.unicode_len();
    proof {
        lemma_parse_one_pred_advances(s@, i as int, sv);
    }
    match parse_one_pred(s, i, sel) {
        Err(e) => Err(e),
        Ok((sel2, j)) => {
            if lit_at(s, j, " and ") {
                proof {
                    lemma_parse_conjs_advances(s@, i as int, sv);
                }
                parse_conjs(s, j + " and ".unicode_len(), sel2)
            } else {
                if j < n && s.get_char(j) == ']' {
                    Ok((sel2, j + 1))
                } else {
                    Err(SelectorError::Unsupported)
                }
            }
        },
    }
}

fn parse_step(s: &str, i: usize) -> (r: Result<(SimpleSel, usize), SelectorError>)
    requires
        i <= s@.len(),
    ensures
        match r {
            Ok(p) => parse_step_spec(s@, i as int) == Some((p.0@, p.1 as int)) && p.1 <= s@.len(),
            Err(e) => parse_step_spec(s@, i as int) is None && e is Unsupported,
        },
{
    proof {
        lemma_parse_step_advances(s@, i as int);
    }
    let te = name_end_exec(s, i);
    if te == i {
        return Err(SelectorError::Unsupported);
    }
    let tag_s = s.substring_char(i, te);
    let sel0 = SimpleSel {
        tag: Some(tag_s.to_owned()),
        classes: Vec::new(),
        attrs: Vec::new(),
        nth: None,
    };
    proof {
        assert(sel0@.classes =~= empty_sel(s@.subrange(i as int, te as int)).classes);
        assert(sel0@.attrs =~= empty_sel(s@.subrange(i as int, te as int)).attrs);
        assert(sel0@ =~= empty_sel(s@.subrange(i as int, te as int)));
    }
    let n = s.unicode_len();
    if te < n && s.get_char(te) == '[' {
        match parse_conjs(s, te + 1, sel0) {
            Err(e) => Err(e),
            Ok((sel, j)) => {
                if j < n && s.get_char(j) == '[' {
                    Err(SelectorError::Unsupported)
                } else {
                    Ok((sel, j))
                }
            },
        }
    } else {
        Ok((sel0, te))
    }
}

fn parse_rest(s: &str, i: usize) -> (r: Result<Vec<SimpleSel>, SelectorError>)
    requires
        i <= s@.len(),
    ensures
        match r {
            Ok(v) => parse_rest_spec(s@, i as int) == Some(steps_view(v@)),
            Err(e) => parse_rest_spec(s@, i as int) is None && e is Unsupported,
        },
    decreases s@.len() - i,
{
    proof {
        lemma_parse_step_advances(s@, i as int);
    }
    match parse_step(s, i) {
        Err(e) => Err(e),
        Ok((sel, j)) => {
            let ghost selv = sel@;
            let n = s.unicode_len();
            if j == n {
                let mut v: Vec<SimpleSel> = Vec::new();
                v.push(sel);
                proof {
                    assert(steps_view(v@) =~= seq![selv]);
                }
                return Ok(v);
            }
            if s.get_char(j) != '/' {
                return Err(SelectorError::Unsupported);
            }
            let j1 = j + 1;
            let j2 = if j1 < n && s.get_char(j1) == '/' {
                j1 + 1
            } else {
                j1
            };
            if lit_at(s, j2, "text()") && j2 + "text()".unicode_len() == n {
                let mut v: Vec<SimpleSel> = Vec::new();
                v.push(sel);
                proof {
                    assert(steps_view(v@) =~= seq![selv]);
                }
                Ok(v)
            } else {
                let at_attr = j2 < n && s.get_char(j2) == '@';
                if at_attr {
                    let ne = name_end_exec(s, j2 + 1);
                    if ne > j2 + 1 && ne == n {
                        let mut v: Vec<SimpleSel> = Vec::new();
                        v.push(sel);
                        proof {
                            assert(steps_view(v@) =~= seq![selv]);
                        }
                        Ok(v)
                    } else {
                        Err(SelectorError::Unsupported)
                    }
                } else if j2 >= n {
                    Err(SelectorError::Unsupported)
                } else {
                    match parse_rest(s, j2) {
                        Err(e) => Err(e),
                        Ok(mut rest) => {
                            let ghost restv = rest@;
                            rest.insert(0, sel);
                            proof {
                                assert(steps_view(rest@) =~= seq![selv] + steps_view(restv));
                            }
                            Ok(rest)
                        },
                    }
                }
            }
        },
    }
}

/// Translate a path expression into selector steps; `Err` exactly when the
/// expression is outside the supported subset (`Empty` when, after
/// trimming, nothing is left).
pub fn translate(x: &str) -> (r: Result<Vec<SimpleSel>, SelectorError>)
    ensures
        match r {
            Ok(v) => translate_spec(x@) == Some(steps_view(v@)),
            Err(e) => translate_spec(x@) is None && (e is Empty <==> crate::text::trim_spec(
                x@,
            ).len() == 0),
        },
{
    let t = crate::text::trim_str(x);
    let ts = t.as_str();
    let n = ts.unicode_len();
    if n == 0 {
        return Err(SelectorError::Empty);
    }
    let i0: usize = if n >= 2 && ts.get_char(0) == '.' && ts.get_char(1) == '/' {
        1
    } else {
        0
    };
    let i1: usize = if ts.get_char(i0) == '/' {
        if i0 + 1 < n && ts.get_char(i0 + 1) == '/' {
            i0 + 2
        } else {
            i0 + 1
        }
    } else {
        i0
    };
    if i1 >= n {
        return Err(SelectorError::Unsupported);
    }
    parse_rest(ts, i1)
}

/// The selector string of the classes: `.c` for each class.
pub open spec fn css_of_classes(cs: Seq<Seq<char>>) -> Seq<char>
    decreases cs,
{
    if cs.len() == 0 {
        Seq::empty()
    } else {
        css_of_classes(cs.drop_last()) + "."@ + cs.last()
    }
}

/// The selector string of the attribute requirements: `[name*="value"]`.
pub open spec fn css_of_attrs(ats: Seq<(Seq<char>, Seq<char>)>) -> Seq<char>
    decreases ats,
{
    if ats.len() == 0 {
        Seq::empty()
    } else {
        css_of_attrs(ats.drop_last()) + "["@ + ats.last().0 + "*=\""@ + ats.last().1 + "\"]"@
    }
}

/// The selector string of one step.
pub open spec fn css_of_sel(v: SimpleSelV) -> Seq<char> {
    (match v.tag {
        Some(t) => t,
        None => Seq::empty(),
    }) + css_of_classes(v.classes) + css_of_attrs(v.attrs) + (match v.nth {
        Some(k) => ":nth-child("@ + crate::text::dec_of(k as nat) + ")"@,
        None => Seq::empty(),
    })
}

/// The selector string of a step sequence, joined with single spaces.
pub open spec fn css_of_steps(s: Seq<SimpleSelV>) -> Seq<char>
    decreases s,
{
    if s.len() == 0 {
        Seq::empty()
    } else if s.len() == 1 {
        css_of_sel(s[0])
    } else {
        css_of_steps(s.drop_last()) + " "@ + css_of_sel(s.last())
    }
}

/// Print one step into `out`.
#[verifier::loop_isolation(false)]
#[verifier::rlimit(60)]
fn append_css_of_sel(sel: &SimpleSel, out: &mut String)
    ensures
        final(out)@ == old(out)@ + css_of_sel(sel@),
{
    let ghost out0 = out@;
    match &sel.tag {
        Some(t) => {
            out.append(t.as_str());
        },
        None => {},
    }
    let ghost after_tag = out@;
    let mut i: usize = 0;
    while i < sel.classes.len()
        invariant
            0 <= i <= sel.classes@.len(),
            out@ == after_tag + css_of_classes(sel@.classes.subrange(0, i as int)),
        decreases sel.classes@.len() - i,
    {
        out.append(".");
        out.append(sel.classes[i].as_str());
        proof {
            let pre = sel@.classes.subrange(0, i as int);
            let cur = sel@.classes.subrange(0, i + 1);
            assert(cur.drop_last() =~= pre);
            assert(cur.last() == sel@.classes[i as int]);
            assert(sel@.classes[i as int] == sel.classes@[i as int]@);
            assert(out@ =~= after_tag + css_of_classes(cur));
        }
        i = i + 1;
    }
    proof {
        assert(sel@.classes.subrange(0, sel.classes@.len() as int) =~= sel@.classes);
    }
    let ghost after_classes = out@;
    let mut i: usize = 0;
    while i < sel.attrs.len()
        invariant
            0 <= i <= sel.attrs@.len(),
            out@ == after_classes + css_of_attrs(sel@.attrs.subrange(0, i as int)),
        decreases sel.attrs@.len() - i,
    {
        out.append("[");
        out.append(sel.attrs[i].0.as_str());
        out.append("*=\"");
        out.append(sel.attrs[i].1.as_str());
        out.append("\"]");
        proof {
            let pre = sel@.attrs.subrange(0, i as int);
            let cur = sel@.attrs.subrange(0, i + 1);
            assert(cur.drop_last() =~= pre);
            assert(cur.last() == sel@.attrs[i as int]);
            assert(sel@.attrs[i as int] == (sel.attrs@[i as int].0@, sel.attrs@[i as int].1@));
            assert(out@ =~= after_classes + css_of_attrs(cur));
        }
        i = i + 1;
    }
    proof {
        assert(sel@.attrs.subrange(0, sel.attrs@.len() as int) =~= sel@.attrs);
    }
    match sel.nth {
        Some(k) => {
            out.append(":nth-child(");
            let ks = crate::text::usize_to_string(k);
            out.append(ks.as_str());
            out.append(")");
            proof {
                assert(out@ =~= out0 + css_of_sel(sel@));
            }
        },
        None => {
            proof {
                assert(out@ =~= out0 + css_of_sel(sel@));
            }
        },
    }
}

/// Print the steps, joined with single spaces.
#[verifier::loop_isolation(false)]
fn css_of_steps_exec(v: &Vec<SimpleSel>) -> (r: String)
    ensures
        r@ == css_of_steps(steps_view(v@)),
{
    let mut out = String::new();
    let mut i: usize = 0;
    while i < v.len()
        invariant
            0 <= i <= v@.len(),
            out@ == css_of_steps(steps_view(v@).subrange(0, i as int)),
        decreases v@.len() - i,
    {
        if i > 0 {
            out.append(" ");
        }
        append_css_of_sel(&v[i], &mut out);
        proof {
            let pre = steps_view(v@).subrange(0, i as int);
            let cur = steps_view(v@).subrange(0, i + 1);
            assert(cur.drop_last() =~= pre);
            assert(cur.last() == v@[i as int]@);
            if i == 0 {
                assert(out@ =~= css_of_steps(cur));
            } else {
                assert(out@ =~= css_of_steps(cur));
            }
        }
        i = i + 1;
    }
    proof {
        assert(steps_view(v@).subrange(0, v@.len() as int) =~= steps_view(v@));
    }
    out
}

/// Translate a path expression of the restricted rule language into an
/// equivalent element-selector string, or fail for any construct outside
/// the supported subset.
pub fn xpath_to_css_selector(x: &str) -> (r: Result<String, SelectorError>)
    ensures
        match r {
            Ok(css) => match translate_spec(x@) {
                Some(st) => css@ == css_of_steps(st),
                None => false,
            },
            Err(e) => translate_spec(x@) is None && (e is Empty <==> crate::text::trim_spec(
                x@,
            ).len() == 0),
        },
{
    match translate(x) {
        Ok(v) => Ok(css_of_steps_exec(&v)),
        Err(e) => Err(e),
    }
}

} // verus!
