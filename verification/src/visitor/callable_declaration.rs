//! Text rules applied to the parameter types of callable declarations.
use vstd::prelude::*;
use crate::text::{chars_of, matches_at, trimmed_chars, string_of, has_prefix, trim};

verus! {

/// `s` with every `...` removed, matches taken left to right without overlap.
pub open spec fn without_ellipses(s: Seq<char>) -> Seq<char>
    decreases s.len(),
{
    if s.len() == 0 {
        s
    } else if has_prefix(s, seq!['.', '.', '.']) {
        without_ellipses(s.subrange(3, s.len() as int))
    } else {
        seq![s[0]] + without_ellipses(s.subrange(1, s.len() as int))
    }
}

/// The type of a parameter pack's element: the parameter type with every
/// `...` removed and the surrounding whitespace trimmed.
pub fn normalize_pack_expansion_type(param_type: &str) -> (r: String)
    ensures
        r@ == trim(without_ellipses(param_type@)),
{
    let v = chars_of(param_type);
    let dots: [char; 3] = ['.', '.', '.'];
    let mut out: Vec<char> = Vec::new();
    let mut i: usize = 0;
    assert(v@.subrange(0, v@.len() as int) == v@);
    assert(out@ + without_ellipses(v@) == without_ellipses(v@));
    while i < v.len()
        invariant
            i <= v@.len(),
            dots@ == seq!['.', '.', '.'],
            without_ellipses(v@) == out@ + without_ellipses(v@.subrange(i as int, v@.len() as int)),
        decreases v@.len() - i,
    {
        let ghost rest = v@.subrange(i as int, v@.len() as int);
        if matches_at(v.as_slice(), i, dots.as_slice()) {
            assert(rest.subrange(0, 3) == v@.subrange(i as int, i + 3));
            assert(rest.subrange(3, rest.len() as int) == v@.subrange(i + 3, v@.len() as int));
            i = i + 3;
        } else {
            assert(!has_prefix(rest, seq!['.', '.', '.'])) by {
                if 3 <= rest.len() {
                    assert(rest.subrange(0, 3) == v@.subrange(i as int, i + 3));
                }
            }
            assert(rest.subrange(1, rest.len() as int) == v@.subrange(i + 1, v@.len() as int));
            out.push(v[i]);
            i = i + 1;
        }
    }
    let t = trimmed_chars(out.as_slice());
    string_of(t.as_slice())
}

} // verus!
