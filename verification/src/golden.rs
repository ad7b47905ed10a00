//! Golden-file expectations of the diagram test cases, and the text
//! normalization they are compared under.
use vstd::prelude::*;
use crate::text::{
    chars_of, string_of, lines_of, trimmed_chars, push_joined_chars, char_views, join_seq, text_lines,
    trim,
};

verus! {

/// What a test case expects of a diagram: a text, or a value.
pub enum Expected<Output> {
    Text(String),
    Ast(Output),
}

/// The trimmed non-empty lines among `ls`, in order.
pub open spec fn kept_yaml_lines(ls: Seq<Seq<char>>) -> Seq<Seq<char>>
    decreases ls.len(),
{
    if ls.len() == 0 {
        Seq::empty()
    } else {
        let prev = kept_yaml_lines(ls.drop_last());
        let t = trim(ls.last());
        if t.len() > 0 {
            prev.push(t)
        } else {
            prev
        }
    }
}

/// The normal form of a text: its lines trimmed, the empty ones dropped, each
/// ended by a newline.
pub open spec fn yaml_text(s: Seq<char>) -> Seq<char> {
    join_seq(kept_yaml_lines(text_lines(s)), seq!['\n']).push('\n')
}

/// The normal form two texts are compared in (see `yaml_text`).
pub fn normalize_yaml_text(s: &str) -> (r: String)
    ensures
        r@ == yaml_text(s@),
{
    let v = chars_of(s);
    let lines = lines_of(v.as_slice());
    let mut kept: Vec<Vec<char>> = Vec::new();
    let mut i: usize = 0;
    while i < lines.len()
        invariant
            i <= lines@.len(),
            char_views(kept@) == kept_yaml_lines(char_views(lines@).subrange(0, i as int)),
        decreases lines@.len() - i,
    {
        let t = trimmed_chars(lines[i].as_slice());
        proof {
            let s = char_views(lines@).subrange(0, i + 1);
            assert(s.drop_last() == char_views(lines@).subrange(0, i as int));
            assert(s.last() == lines@[i as int]@);
        }
        if t.len() > 0 {
            let ghost before = kept@;
            kept.push(t);
            assert(char_views(kept@) == char_views(before).push(kept@.last()@));
        }
        i = i + 1;
    }
    assert(char_views(lines@).subrange(0, lines@.len() as int) == char_views(lines@));
    let sep: [char; 1] = ['\n'];
    let mut out: Vec<char> = Vec::new();
    assert(sep@ == seq!['\n']);
    push_joined_chars(&mut out, &kept, sep.as_slice());
    assert(out@ == join_seq(kept_yaml_lines(text_lines(s@)), seq!['\n']));
    out.push('\n');
    string_of(out.as_slice())
}

} // verus!
