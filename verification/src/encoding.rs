//! Character-encoding detection and decoding for the document bytes: the
//! charset is sniffed from the markup's own `charset=` declaration, and the
//! bytes are decoded accordingly.

use vstd::prelude::*;
use crate::text::{match_at, contains_sub, trim_spec, lower_spec, to_lower, trim_str, find_sub};

verus! {

/// The encodings the loader distinguishes; everything unrecognized reads
/// as UTF-8.
#[derive(Debug, Clone, Copy, PartialEq, Eq, Structural)]
pub enum EncodingLabel {
    Utf8,
    Windows1252,
}

/// First index at or after `i` holding a charset-value delimiter
/// (a quote, a tag close, or a space), or the length.
pub open spec fn delim_end(s: Seq<char>, i: int) -> int
    decreases s.len() - i,
{
    if i < 0 || i >= s.len() {
        s.len() as int
    } else if s[i] == '"' || s[i] == '>' || s[i] == ' ' {
        i
    } else {
        delim_end(s, i + 1)
    }
}

proof fn lemma_delim_end(s: Seq<char>, i: int)
    requires
        0 <= i <= s.len(),
    ensures
        i <= delim_end(s, i) <= s.len(),
    decreases s.len() - i,
{
    if i < s.len() && !(s[i] == '"' || s[i] == '>' || s[i] == ' ') {
        lemma_delim_end(s, i + 1);
    }
}

fn delim_end_exec(s: &str, i: usize) -> (r: usize)
    requires
        i <= s@.len(),
    ensures
        r == delim_end(s@, i as int),
        i <= r <= s@.len(),
    decreases s@.len() - i,
{
    proof {
        lemma_delim_end(s@, i as int);
    }
    let n = s.unicode_len();
    if i >= n {
        n
    } else {
        let c = s.get_char(i);
        if c == '"' || c == '>' || c == ' ' {
            i
        } else {
            delim_end_exec(s, i + 1)
        }
    }
}

/// First index at or after `i` where `charset=` occurs, or the length.
pub open spec fn charset_pos_from(s: Seq<char>, i: int) -> int
    decreases s.len() - i,
{
    if i < 0 || i >= s.len() {
        s.len() as int
    } else if match_at(s, "charset="@, i) {
        i
    } else {
        charset_pos_from(s, i + 1)
    }
}

proof fn lemma_charset_pos_from(s: Seq<char>, i: int)
    requires
        0 <= i <= s.len(),
    ensures
        i <= charset_pos_from(s, i) <= s.len(),
        forall|j: int| i <= j < charset_pos_from(s, i) ==> !match_at(s, "charset="@, j),
        charset_pos_from(s, i) < s.len() ==> match_at(s, "charset="@, charset_pos_from(s, i)),
    decreases s.len() - i,
{
    if i < s.len() && !match_at(s, "charset="@, i) {
        lemma_charset_pos_from(s, i + 1);
    }
}

/// The charset value named at the first `charset=` declaration, folded to
/// lower case, if there is one.
pub open spec fn charset_of(s: Seq<char>) -> Option<Seq<char>> {
    let p = charset_pos_from(s, 0);
    if p < s.len() {
        let start = p + "charset="@.len();
        let end = delim_end(s, start);
        Some(lower_spec(trim_spec(s.subrange(start, end))))
    } else {
        None
    }
}

/// The encoding the markup declares: `windows-1252` and its aliases, else
/// UTF-8 (also when no charset is declared).
pub open spec fn detect_encoding_spec(s: Seq<char>) -> EncodingLabel {
    match charset_of(s) {
        Some(cs) => {
            if cs == "windows-1252"@ || cs == "iso-8859-1"@ || cs == "latin1"@ {
                EncodingLabel::Windows1252
            } else {
                EncodingLabel::Utf8
            }
        },
        None => EncodingLabel::Utf8,
    }
}

/// Read the declared charset out of the markup and name the encoding.
pub fn detect_encoding(html: &str) -> (r: EncodingLabel)
    ensures
        r == detect_encoding_spec(html@),
{
    let n = html.unicode_len();
    proof {
        lemma_charset_pos_from(html@, 0);
    }
    match find_sub(html, "charset=") {
        None => {
            proof {
                if charset_pos_from(html@, 0) < html@.len() {
                    assert(match_at(html@, "charset="@, charset_pos_from(html@, 0)));
                    assert(contains_sub(html@, "charset="@));
                    assert(false);
                }
            }
            EncodingLabel::Utf8
        },
        Some(pos) => {
            proof {
                reveal_strlit("charset=");
                assert(match_at(html@, "charset="@, pos as int));
                let w = charset_pos_from(html@, 0);
                if w < pos {
                    assert(!match_at(html@, "charset="@, w));
                    assert(w < html@.len());
                    assert(false);
                }
                if w > pos {
                    assert(!match_at(html@, "charset="@, pos as int));
                    assert(false);
                }
                assert(w == pos);
            }
            let start = pos + "charset=".unicode_len();
            let end = delim_end_exec(html, start);
            let raw = html.substring_char(start, end);
            let cs = to_lower(trim_str(raw).as_str());
            proof {
                assert(raw@ == html@.subrange(
                    charset_pos_from(html@, 0) + "charset="@.len(),
                    delim_end(html@, charset_pos_from(html@, 0) + "charset="@.len()),
                ));
                assert(cs@ == lower_spec(trim_spec(raw@)));
                assert(charset_of(html@) == Some(cs@));
            }
            let w = crate::text::str_eq(cs.as_str(), "windows-1252") || crate::text::str_eq(
                cs.as_str(),
                "iso-8859-1",
            ) || crate::text::str_eq(cs.as_str(), "latin1");
            if w {
                EncodingLabel::Windows1252
            } else {
                EncodingLabel::Utf8
            }
        },
    }
}

/// What the lossy UTF-8 reading of the bytes is; used only to sniff the
/// charset declaration.
pub uninterp spec fn utf8_lossy_of(bytes: Seq<u8>) -> Seq<char>;

/// Relies on `String::from_utf8_lossy`: the result is a function of the
/// bytes alone.
#[verifier::external_body]
fn utf8_lossy(bytes: &Vec<u8>) -> (r: String)
    ensures
        r@ == utf8_lossy_of(bytes@),
{
    String::from_utf8_lossy(bytes).to_string()
}

/// What decoding the bytes as UTF-8 yields.
pub uninterp spec fn decode_utf8_of(bytes: Seq<u8>) -> Seq<char>;

/// Relies on encoding_rs's `UTF_8.decode`: the result is a function of the
/// bytes alone.
#[verifier::external_body]
fn decode_utf8(bytes: &Vec<u8>) -> (r: String)
    ensures
        r@ == decode_utf8_of(bytes@),
{
    let (s, _, _) = encoding_rs::UTF_8.decode(bytes);
    s.into_owned()
}

/// What decoding the bytes as windows-1252 yields.
pub uninterp spec fn decode_windows1252_of(bytes: Seq<u8>) -> Seq<char>;

/// Relies on encoding_rs's `WINDOWS_1252.decode`: the result is a function
/// of the bytes alone.
#[verifier::external_body]
fn decode_windows1252(bytes: &Vec<u8>) -> (r: String)
    ensures
        r@ == decode_windows1252_of(bytes@),
{
    let (s, _, _) = encoding_rs::WINDOWS_1252.decode(bytes);
    s.into_owned()
}

/// What the bytes decode to under the given label.
pub open spec fn decoded_of(label: EncodingLabel, bytes: Seq<u8>) -> Seq<char> {
    match label {
        EncodingLabel::Utf8 => decode_utf8_of(bytes),
        EncodingLabel::Windows1252 => decode_windows1252_of(bytes),
    }
}

/// Decode the document bytes: sniff the charset from the lossy UTF-8
/// reading, then decode the bytes under the detected encoding.
pub fn decode_html(bytes: &Vec<u8>) -> (r: String)
    ensures
        r@ == decoded_of(detect_encoding_spec(utf8_lossy_of(bytes@)), bytes@),
{
    let sniff = utf8_lossy(bytes);
    let label = detect_encoding(sniff.as_str());
    match label {
        EncodingLabel::Utf8 => decode_utf8(bytes),
        EncodingLabel::Windows1252 => decode_windows1252(bytes),
    }
}

} // verus!
