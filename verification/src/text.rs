//! Verified helpers over `&str` / `String`, used by the selector translator,
//! the rule evaluator and the template projector.

use vstd::prelude::*;

verus! {

/// Whitespace in the sense of `char::is_whitespace`, restricted to the ASCII
/// range plus the usual Unicode space separators the documents may contain.
pub open spec fn is_space(c: char) -> bool {
    c == ' ' || c == '\t' || c == '\n' || c == '\r' || c == '\u{0b}' || c == '\u{0c}'
        || c == '\u{a0}'
}

pub fn is_space_char(c: char) -> (r: bool)
    ensures
        r == is_space(c),
{
    c == ' ' || c == '\t' || c == '\n' || c == '\r' || c == '\u{0b}' || c == '\u{0c}'
        || c == '\u{a0}'
}

/// Index of the first non-space character, or `s.len()` if all are spaces.
pub open spec fn first_non_space(s: Seq<char>) -> int
    decreases s.len(),
{
    if s.len() == 0 {
        0
    } else if is_space(s[0]) {
        1 + first_non_space(s.drop_first())
    } else {
        0
    }
}

/// Index one past the last non-space character, or 0 if all are spaces.
pub open spec fn last_non_space_end(s: Seq<char>) -> int
    decreases s.len(),
{
    if s.len() == 0 {
        0
    } else if is_space(s[s.len() - 1]) {
        last_non_space_end(s.drop_last())
    } else {
        s.len() as int
    }
}

pub proof fn lemma_first_non_space_bounds(s: Seq<char>)
    ensures
        0 <= first_non_space(s) <= s.len(),
        forall|i: int| 0 <= i < first_non_space(s) ==> is_space(s[i]),
        first_non_space(s) < s.len() ==> !is_space(s[first_non_space(s)]),
    decreases s.len(),
{
    if s.len() > 0 && is_space(s[0]) {
        lemma_first_non_space_bounds(s.drop_first());
        assert forall|i: int| 0 <= i < first_non_space(s) implies is_space(s[i]) by {
            if i > 0 {
                assert(s.drop_first()[i - 1] == s[i]);
            }
        }
        if first_non_space(s) < s.len() {
            assert(s.drop_first()[first_non_space(s) - 1] == s[first_non_space(s)]);
        }
    }
}

pub proof fn lemma_last_non_space_end_bounds(s: Seq<char>)
    ensures
        0 <= last_non_space_end(s) <= s.len(),
        forall|i: int| last_non_space_end(s) <= i < s.len() ==> is_space(s[i]),
        last_non_space_end(s) > 0 ==> !is_space(s[last_non_space_end(s) - 1]),
    decreases s.len(),
{
    if s.len() > 0 && is_space(s[s.len() - 1]) {
        lemma_last_non_space_end_bounds(s.drop_last());
        assert forall|i: int| last_non_space_end(s) <= i < s.len() implies is_space(s[i]) by {
            if i < s.len() - 1 {
                assert(s.drop_last()[i] == s[i]);
            }
        }
    }
}

/// What `str::trim` leaves: the substring from the first to the last
/// non-space character.
pub open spec fn trim_spec(s: Seq<char>) -> Seq<char> {
    if first_non_space(s) == s.len() {
        Seq::empty()
    } else {
        s.subrange(first_non_space(s), last_non_space_end(s))
    }
}

/// Trim leading and trailing whitespace.
pub fn trim_str(s: &str) -> (r: String)
    ensures
        r@ == trim_spec(s@),
{
    let n = s.unicode_len();
    let mut start: usize = 0;
    proof {
        lemma_first_non_space_bounds(s@);
    }
    while start < n && is_space_char(s.get_char(start))
        invariant
            n == s@.len(),
            0 <= start <= n,
            forall|i: int| 0 <= i < start ==> is_space(s@[i]),
            start <= first_non_space(s@),
        decreases n - start,
    {
        proof {
            lemma_first_non_space_bounds(s@);
            assert(start < first_non_space(s@) || start == first_non_space(s@));
        }
        start = start + 1;
        proof {
            lemma_first_non_space_bounds(s@);
            if start > first_non_space(s@) {
                assert(!is_space(s@[first_non_space(s@)]));
            }
        }
    }
    proof {
        lemma_first_non_space_bounds(s@);
        if start < n {
            assert(start >= first_non_space(s@));
            assert(start == first_non_space(s@));
        } else {
            assert(start == n);
            if first_non_space(s@) < s@.len() {
                assert(is_space(s@[first_non_space(s@)]));
                assert(false);
            }
        }
    }
    if start == n {
        let r = String::new();
        proof {
            assert(r@ =~= trim_spec(s@));
        }
        return r;
    }
    let mut end: usize = n;
    proof {
        lemma_last_non_space_end_bounds(s@);
    }
    while end > start && is_space_char(s.get_char(end - 1))
        invariant
            n == s@.len(),
            start < n,
            start <= end <= n,
            forall|i: int| end <= i < n ==> is_space(s@[i]),
            end >= last_non_space_end(s@),
            start == first_non_space(s@),
            !is_space(s@[start as int]),
        decreases end,
    {
        proof {
            lemma_last_non_space_end_bounds(s@);
            if last_non_space_end(s@) == end {
                assert(!is_space(s@[end - 1]));
            }
        }
        end = end - 1;
    }
    proof {
        lemma_last_non_space_end_bounds(s@);
        if end > start {
            assert(!is_space(s@[end - 1]));
            assert(end == last_non_space_end(s@));
        } else {
            assert(end == start);
            assert(!is_space(s@[start as int]));
            assert(end < n);
            assert(last_non_space_end(s@) > start);
            assert(false);
        }
    }
    let sub = s.substring_char(start, end);
    let r = sub.to_owned();
    proof {
        assert(r@ =~= trim_spec(s@));
    }
    r
}

/// Relies on `String::push`: appends the character at the end of the string.
#[verifier::external_body]
pub fn push_char(s: &mut String, c: char)
    ensures
        final(s)@ == old(s)@.push(c),
{
    s.push(c);
}

/// Character-for-character equality of two string slices.
pub fn str_eq(a: &str, b: &str) -> (r: bool)
    ensures
        r == (a@ == b@),
{
    let na = a.unicode_len();
    let nb = b.unicode_len();
    if na != nb {
        return false;
    }
    let mut i: usize = 0;
    while i < na
        invariant
            na == a@.len(),
            na == b@.len(),
            0 <= i <= na,
            forall|k: int| 0 <= k < i ==> a@[k] == b@[k],
        decreases na - i,
    {
        if a.get_char(i) != b.get_char(i) {
            return false;
        }
        i = i + 1;
    }
    proof {
        assert(a@ =~= b@);
    }
    true
}

/// The pattern occurs in `s` starting at position `i`.
pub open spec fn match_at(s: Seq<char>, pat: Seq<char>, i: int) -> bool {
    0 <= i && i + pat.len() <= s.len() && s.subrange(i, i + pat.len()) == pat
}

/// The pattern occurs somewhere in `s`.
pub open spec fn contains_sub(s: Seq<char>, pat: Seq<char>) -> bool {
    exists|i: int| match_at(s, pat, i)
}

pub fn check_match_at(s: &str, pat: &str, i: usize) -> (r: bool)
    requires
        i + pat@.len() <= s@.len(),
        s@.len() <= usize::MAX,
    ensures
        r == match_at(s@, pat@, i as int),
{
    let m = pat.unicode_len();
    let mut k: usize = 0;
    while k < m
        invariant
            m == pat@.len(),
            i + m <= s@.len(),
            s@.len() <= usize::MAX,
            0 <= k <= m,
            forall|j: int| 0 <= j < k ==> s@[i + j] == pat@[j],
        decreases m - k,
    {
        if s.get_char(i + k) != pat.get_char(k) {
            proof {
                assert(s@.subrange(i as int, i + pat@.len())[k as int] == s@[i + k]);
            }
            return false;
        }
        k = k + 1;
    }
    proof {
        assert(s@.subrange(i as int, i + pat@.len()) =~= pat@);
    }
    true
}

/// Position of the first occurrence of `pat` in `s`, if any.
pub fn find_sub(s: &str, pat: &str) -> (r: Option<usize>)
    ensures
        match r {
            Some(i) => match_at(s@, pat@, i as int) && forall|j: int|
                0 <= j < i ==> !match_at(s@, pat@, j),
            None => !contains_sub(s@, pat@),
        },
{
    let n = s.unicode_len();
    let m = pat.unicode_len();
    if m > n {
        proof {
            assert forall|i: int| !match_at(s@, pat@, i) by {}
        }
        return None;
    }
    if m == 0 {
        proof {
            assert(s@.subrange(0, 0) =~= pat@);
        }
        return Some(0);
    }
    let mut i: usize = 0;
    while i <= n - m
        invariant
            n == s@.len(),
            m == pat@.len(),
            0 < m <= n,
            0 <= i <= n - m + 1,
            forall|j: int| 0 <= j < i ==> !match_at(s@, pat@, j),
        decreases n - i,
    {
        if check_match_at(s, pat, i) {
            return Some(i);
        }
        i = i + 1;
    }
    proof {
        assert forall|j: int| !match_at(s@, pat@, j) by {
            if 0 <= j <= n - m {
                assert(!match_at(s@, pat@, j));
            }
        }
    }
    None
}

/// Whether `pat` occurs somewhere in `s`.
pub fn contains_str(s: &str, pat: &str) -> (r: bool)
    ensures
        r == contains_sub(s@, pat@),
{
    find_sub(s, pat).is_some()
}

pub open spec fn starts_with(s: Seq<char>, pat: Seq<char>) -> bool {
    pat.len() <= s.len() && s.subrange(0, pat.len() as int) == pat
}

pub open spec fn ends_with(s: Seq<char>, pat: Seq<char>) -> bool {
    pat.len() <= s.len() && s.subrange(s.len() - pat.len(), s.len() as int) == pat
}

pub fn starts_with_str(s: &str, pat: &str) -> (r: bool)
    ensures
        r == starts_with(s@, pat@),
{
    let n = s.unicode_len();
    let m = pat.unicode_len();
    if m > n {
        return false;
    }
    check_match_at(s, pat, 0)
}

pub fn ends_with_str(s: &str, pat: &str) -> (r: bool)
    ensures
        r == ends_with(s@, pat@),
{
    let n = s.unicode_len();
    let m = pat.unicode_len();
    if m > n {
        return false;
    }
    check_match_at(s, pat, n - m)
}

/// ASCII upper-case letters fold to lower case; everything else is unchanged.
pub open spec fn lower_char(c: char) -> char {
    if 'A' <= c && c <= 'Z' {
        (((c as u8) + 32) as u8) as char
    } else {
        c
    }
}

pub open spec fn lower_spec(s: Seq<char>) -> Seq<char> {
    s.map_values(|c: char| lower_char(c))
}

/// ASCII-lower-case the string.
pub fn to_lower(s: &str) -> (r: String)
    ensures
        r@ == lower_spec(s@),
{
    let n = s.unicode_len();
    let mut r = String::new();
    let mut i: usize = 0;
    while i < n
        invariant
            n == s@.len(),
            0 <= i <= n,
            r@ == lower_spec(s@.subrange(0, i as int)),
        decreases n - i,
    {
        let c = s.get_char(i);
        let lc: char = if 'A' <= c && c <= 'Z' {
            ((c as u8) + 32) as char
        } else {
            c
        };
        push_char(&mut r, lc);
        proof {
            assert(lc == lower_char(s@[i as int]));
            assert(s@.subrange(0, i + 1).drop_last() =~= s@.subrange(0, i as int));
            assert(r@ =~= lower_spec(s@.subrange(0, i + 1)));
        }
        i = i + 1;
    }
    proof {
        assert(s@.subrange(0, n as int) =~= s@);
    }
    r
}

pub open spec fn is_digit(c: char) -> bool {
    '0' <= c && c <= '9'
}

pub open spec fn digit_val(c: char) -> nat {
    (c as nat - 48) as nat
}

pub open spec fn dec_digit(d: nat) -> char {
    ((48 + d) as u8) as char
}

/// The decimal numeral of `n`, without sign or leading zeros.
pub open spec fn dec_of(n: nat) -> Seq<char>
    decreases n,
{
    if n < 10 {
        seq![dec_digit(n)]
    } else {
        dec_of(n / 10).push(dec_digit(n % 10))
    }
}

/// Format `n` in decimal.
pub fn usize_to_string(n: usize) -> (r: String)
    ensures
        r@ == dec_of(n as nat),
    decreases n,
{
    if n < 10 {
        let mut r = String::new();
        push_char(&mut r, ((48 + (n as u8)) as char));
        proof {
            assert(r@ =~= dec_of(n as nat));
        }
        r
    } else {
        let mut r = usize_to_string(n / 10);
        push_char(&mut r, ((48 + ((n % 10) as u8)) as char));
        r
    }
}

/// The value of a digit string read in decimal.
pub open spec fn dec_val(s: Seq<char>) -> nat
    decreases s.len(),
{
    if s.len() == 0 {
        0
    } else {
        dec_val(s.drop_last()) * 10 + digit_val(s.last())
    }
}

pub open spec fn all_digits(s: Seq<char>) -> bool {
    forall|i: int| 0 <= i < s.len() ==> is_digit(#[trigger] s[i])
}

/// A numeral parses exactly when it is non-empty, all digits, and its value
/// fits in `usize`.
pub open spec fn parse_usize_spec(s: Seq<char>) -> Option<usize> {
    if s.len() > 0 && all_digits(s) && dec_val(s) <= usize::MAX {
        Some(dec_val(s) as usize)
    } else {
        None
    }
}

proof fn lemma_dec_val_monotone(s: Seq<char>, i: int)
    requires
        0 <= i < s.len(),
    ensures
        dec_val(s.subrange(0, i + 1)) == dec_val(s.subrange(0, i)) * 10 + digit_val(s[i]),
        dec_val(s) >= dec_val(s.subrange(0, i + 1)),
    decreases s.len() - i,
{
    assert(s.subrange(0, i + 1).drop_last() =~= s.subrange(0, i));
    assert(s.subrange(0, i + 1).last() == s[i]);
    if i + 1 < s.len() {
        lemma_dec_val_monotone(s, i + 1);
        assert(dec_val(s.subrange(0, i + 2)) == dec_val(s.subrange(0, i + 1)) * 10 + digit_val(
            s[i + 1],
        ));
        assert(dec_val(s.subrange(0, i + 1)) * 10 >= dec_val(s.subrange(0, i + 1))) by (
        nonlinear_arith);
    } else {
        assert(s.subrange(0, i + 1) =~= s);
    }
}

/// Parse a decimal numeral; `None` for an empty string, a non-digit, or a
/// value over `usize::MAX`.
pub fn parse_usize(s: &str) -> (r: Option<usize>)
    ensures
        r == parse_usize_spec(s@),
{
    let n = s.unicode_len();
    if n == 0 {
        return None;
    }
    let mut acc: usize = 0;
    let mut i: usize = 0;
    while i < n
        invariant
            n == s@.len(),
            0 < n,
            0 <= i <= n,
            forall|k: int| 0 <= k < i ==> is_digit(#[trigger] s@[k]),
            acc as nat == dec_val(s@.subrange(0, i as int)),
        decreases n - i,
    {
        let c = s.get_char(i);
        if !('0' <= c && c <= '9') {
            return None;
        }
        let d: usize = ((c as u8) - 48) as usize;
        if acc > (usize::MAX - d) / 10 {
            proof {
                lemma_dec_val_monotone(s@, i as int);
                assert(acc * 10 + d > usize::MAX) by (nonlinear_arith)
                    requires
                        acc > (usize::MAX - d) / 10,
                        d <= 9,
                ;
                assert(dec_val(s@) > usize::MAX);
            }
            return None;
        }
        proof {
            lemma_dec_val_monotone(s@, i as int);
            assert(acc * 10 + d <= usize::MAX) by (nonlinear_arith)
                requires
                    acc <= (usize::MAX - d) / 10,
                    d <= 9,
            ;
        }
        acc = acc * 10 + d;
        i = i + 1;
    }
    proof {
        assert(s@.subrange(0, n as int) =~= s@);
    }
    Some(acc)
}

/// The first whitespace-separated token of `s`, if `s` holds any non-space
/// character.
pub open spec fn first_token(s: Seq<char>) -> Option<Seq<char>> {
    if first_non_space(s) == s.len() {
        None
    } else {
        Some(
            s.subrange(
                first_non_space(s),
                first_non_space(s) + first_space_after(s, first_non_space(s)),
            ),
        )
    }
}

/// Length of the run of non-space characters starting at `i`.
pub open spec fn first_space_after(s: Seq<char>, i: int) -> int
    decreases s.len() - i,
{
    if i < 0 || i >= s.len() {
        0
    } else if is_space(s[i]) {
        0
    } else {
        1 + first_space_after(s, i + 1)
    }
}

proof fn lemma_first_space_after_bounds(s: Seq<char>, i: int)
    requires
        0 <= i <= s.len(),
    ensures
        0 <= first_space_after(s, i) <= s.len() - i,
        forall|k: int| i <= k < i + first_space_after(s, i) ==> !is_space(s[k]),
        i + first_space_after(s, i) < s.len() ==> is_space(s[i + first_space_after(s, i)]),
    decreases s.len() - i,
{
    if i < s.len() && !is_space(s[i]) {
        lemma_first_space_after_bounds(s, i + 1);
    }
}

/// First whitespace-separated token, as `str::split_whitespace().next()`
/// gives it.
pub fn first_token_str(s: &str) -> (r: Option<String>)
    ensures
        match r {
            Some(t) => first_token(s@) == Some(t@),
            None => first_token(s@) is None,
        },
{
    let n = s.unicode_len();
    let mut start: usize = 0;
    proof {
        lemma_first_non_space_bounds(s@);
    }
    while start < n && is_space_char(s.get_char(start))
        invariant
            n == s@.len(),
            0 <= start <= n,
            start <= first_non_space(s@),
            forall|i: int| 0 <= i < start ==> is_space(s@[i]),
        decreases n - start,
    {
        proof {
            lemma_first_non_space_bounds(s@);
        }
        start = start + 1;
    }
    proof {
        lemma_first_non_space_bounds(s@);
        if start < n {
            assert(start == first_non_space(s@));
        } else if first_non_space(s@) < s@.len() {
            assert(is_space(s@[first_non_space(s@)]));
            assert(false);
        }
    }
    if start == n {
        return None;
    }
    let mut end: usize = start;
    proof {
        lemma_first_space_after_bounds(s@, start as int);
    }
    while end < n && !is_space_char(s.get_char(end))
        invariant
            n == s@.len(),
            0 <= start <= end <= n,
            forall|k: int| start <= k < end ==> !is_space(s@[k]),
            end <= start + first_space_after(s@, start as int),
        decreases n - end,
    {
        proof {
            lemma_first_space_after_bounds(s@, start as int);
            if end == start + first_space_after(s@, start as int) {
                assert(is_space(s@[end as int]));
            }
        }
        end = end + 1;
    }
    proof {
        lemma_first_space_after_bounds(s@, start as int);
        if end < n {
            assert(is_space(s@[end as int]));
            assert(end >= start + first_space_after(s@, start as int));
        } else {
            assert(start + first_space_after(s@, start as int) <= n);
        }
        assert(end == start + first_space_after(s@, start as int));
    }
    let sub = s.substring_char(start, end);
    Some(sub.to_owned())
}

} // verus!
