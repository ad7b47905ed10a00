//! Token interpretation of the syntax-level sequence parser, which also
//! accepts guillemet-quoted names.
use vstd::prelude::*;
use crate::sequence::sequence_parser::{unquoted, unstereotyped};
use crate::text::{
    chars_of, string_of, trimmed_chars, strip_lead_char, strip_trail_char, trim_start_char,
    trim_end_char, trim_start_pat, trim_end_pat,
};

verus! {

/// A name without its double quotes and then its `«` `»` quotes.
pub open spec fn unquoted_any(s: Seq<char>) -> Seq<char> {
    strip_trail_char(strip_lead_char(unquoted(s), '«'), '»')
}

/// Builds sequence statements at the syntax level.
pub struct PumlSequenceParser;

impl PumlSequenceParser {
    /// A quoted name without its quotes.
    pub fn extract_quoted_string(s: &str) -> (r: String)
        ensures
            r@ == unquoted_any(s@),
    {
        let v = chars_of(s);
        let t = trimmed_chars(v.as_slice());
        let a = trim_start_char(t.as_slice(), '"');
        let b = trim_end_char(a.as_slice(), '"');
        let c = trim_start_char(b.as_slice(), '«');
        let d = trim_end_char(c.as_slice(), '»');
        string_of(d.as_slice())
    }

    /// A stereotype without its `<<` `>>` delimiters.
    pub fn extract_stereotype(s: &str) -> (r: String)
        ensures
            r@ == unstereotyped(s@),
    {
        let v = chars_of(s);
        let t = trimmed_chars(v.as_slice());
        let open = chars_of("<<");
        let close = chars_of(">>");
        proof {
            reveal_strlit("<<");
            reveal_strlit(">>");
        }
        let a = trim_start_pat(t.as_slice(), open.as_slice());
        let b = trim_end_pat(a.as_slice(), close.as_slice());
        string_of(b.as_slice())
    }
}

} // verus!
