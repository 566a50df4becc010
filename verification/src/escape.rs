//! HTML escaping of raw text before it is inserted into block output.

use vstd::prelude::*;

verus! {

/// What one character of HTML text becomes: `&`, `<` and `>` turn into
/// their entities, every other character is kept as it is.
pub open spec fn escape_char(c: char) -> Seq<char> {
    if c == '&' {
        "&amp;"@
    } else if c == '<' {
        "&lt;"@
    } else if c == '>' {
        "&gt;"@
    } else {
        seq![c]
    }
}

/// The HTML-escaped form of `s`.
pub open spec fn escape_seq(s: Seq<char>) -> Seq<char>
    decreases s.len(),
{
    if s.len() == 0 {
        Seq::empty()
    } else {
        escape_char(s[0]) + escape_seq(s.skip(1))
    }
}

/// Relies on html_escape::encode_text: `&`, `<` and `>` become `&amp;`,
/// `&lt;` and `&gt;`, and every other character is kept unchanged.
#[verifier::external_body]
pub(crate) fn escape_chars(v: &Vec<char>) -> (r: Vec<char>)
    ensures
        r@ == escape_seq(v@),
{
    let s: String = v.iter().collect();
    html_escape::encode_text(&s).chars().collect()
}

} // verus!
