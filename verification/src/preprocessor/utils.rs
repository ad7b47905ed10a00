//! Path normalisation and diagram-frame stripping for included files.
use vstd::prelude::*;
use crate::text::{
    split_on, lemma_split_nonempty, char_views, push_joined_chars, join_seq, chars_of, string_of,
    trim_start, has_prefix, skip_ws, starts_with_literal_at, push_all, strip_cr, text_lines,
};

verus! {

/// The effect of one path component on the stack of kept components:
/// empty and `.` components are dropped, `..` removes the last kept one
/// (never going above the start), anything else is kept.
pub open spec fn norm_step(stack: Seq<Seq<char>>, seg: Seq<char>) -> Seq<Seq<char>> {
    if seg.len() == 0 || seg == seq!['.'] {
        stack
    } else if seg == seq!['.', '.'] {
        if stack.len() > 0 {
            stack.drop_last()
        } else {
            stack
        }
    } else {
        stack.push(seg)
    }
}

/// The components kept after applying `norm_step` to each of `segs` in order.
pub open spec fn norm_all(segs: Seq<Seq<char>>) -> Seq<Seq<char>>
    decreases segs.len(),
{
    if segs.len() == 0 {
        Seq::empty()
    } else {
        norm_step(norm_all(segs.drop_last()), segs.last())
    }
}

/// Whether a path is absolute (starts at the root).
pub open spec fn is_absolute(s: Seq<char>) -> bool {
    s.len() > 0 && s[0] == '/'
}

/// `s` with `.` and `..` resolved lexically: the root (if any), then the kept
/// components separated by `/`.
pub open spec fn normalized(s: Seq<char>) -> Seq<char> {
    (if is_absolute(s) { seq!['/'] } else { Seq::empty() }) + join_seq(
        norm_all(split_on(s, '/')),
        seq!['/'],
    )
}

/// Applies one component to the stack of kept components.
fn apply_component(stack: &mut Vec<Vec<char>>, seg: Vec<char>)
    ensures
        char_views(final(stack)@) == norm_step(char_views(old(stack)@), seg@),
{
    let n = seg.len();
    if n == 0 || (n == 1 && seg[0] == '.') {
        assert(n == 1 ==> seg@ == seq![seg@[0]]);
        return ;
    }
    if n == 2 && seg[0] == '.' && seg[1] == '.' {
        assert(seg@ == seq!['.', '.']);
        if stack.len() > 0 {
            stack.pop();
            assert(char_views(stack@) == char_views(old(stack)@).drop_last());
        }
        return ;
    }
    assert(seg@ != seq!['.', '.'] && seg@ != seq!['.']) by {
        if seg@ == seq!['.', '.'] {
            assert(seg@[0] == '.' && seg@[1] == '.');
        }
        if seg@ == seq!['.'] {
            assert(seg@[0] == '.');
        }
    }
    stack.push(seg);
    assert(char_views(stack@) == char_views(old(stack)@).push(seg@));
}

/// Normalises a `/`-separated path, resolving `.` and `..` without touching the file system.
pub fn normalize_path(path: &str) -> (r: String)
    ensures
        r@ == normalized(path@),
{
    let v = chars_of(path);
    let mut stack: Vec<Vec<char>> = Vec::new();
    let mut cur: Vec<char> = Vec::new();
    let mut i: usize = 0;
    while i < v.len()
        invariant
            i <= v@.len(),
            split_on(v@.subrange(0, i as int), '/').len() >= 1,
            char_views(stack@) == norm_all(split_on(v@.subrange(0, i as int), '/').drop_last()),
            cur@ == split_on(v@.subrange(0, i as int), '/').last(),
        decreases v@.len() - i,
    {
        let c = v[i];
        let ghost pre = v@.subrange(0, i as int);
        let ghost post = v@.subrange(0, i + 1);
        proof {
            assert(post.drop_last() == pre);
            assert(post.last() == c);
        }
        if c == '/' {
            let seg = cur;
            cur = Vec::new();
            apply_component(&mut stack, seg);
            proof {
                let sp = split_on(pre, '/');
                let sq = split_on(post, '/');
                assert(sq == sp.push(Seq::empty()));
                assert(sq.drop_last() == sp);
                assert(sp.drop_last() == sp.drop_last());
            }
        } else {
            cur.push(c);
            proof {
                let sp = split_on(pre, '/');
                let sq = split_on(post, '/');
                assert(sq.drop_last() == sp.drop_last());
            }
        }
        i = i + 1;
    }
    assert(v@.subrange(0, v@.len() as int) == v@);
    proof {
        lemma_split_nonempty(v@, '/');
        let sp = split_on(v@, '/');
        assert(sp.drop_last().push(sp.last()) == sp);
    }
    apply_component(&mut stack, cur);
    let mut out: Vec<char> = Vec::new();
    if v.len() > 0 && v[0] == '/' {
        out.push('/');
    }
    let mut sep: Vec<char> = Vec::new();
    sep.push('/');
    assert(sep@ == seq!['/']);
    push_joined_chars(&mut out, &stack, sep.as_slice());
    string_of(out.as_slice())
}

/// Whether a line is kept: it does not open or close a diagram.
pub open spec fn is_frame_free(l: Seq<char>) -> bool {
    !has_prefix(trim_start(l), "@startuml"@) && !has_prefix(trim_start(l), "@enduml"@)
}

/// The kept lines of `ls`, each followed by `\n`.
pub open spec fn kept_lines(ls: Seq<Seq<char>>) -> Seq<char>
    decreases ls.len(),
{
    if ls.len() == 0 {
        Seq::empty()
    } else {
        kept_lines(ls.drop_last()) + (if is_frame_free(ls.last()) {
            ls.last().push('\n')
        } else {
            Seq::empty()
        })
    }
}

/// Whether the line `l` is kept.
fn line_is_frame_free(l: &[char]) -> (r: bool)
    ensures
        r == is_frame_free(l@),
{
    let i = skip_ws(l, 0);
    assert(l@.subrange(0, l@.len() as int) == l@);
    !starts_with_literal_at(l, i, "@startuml") && !starts_with_literal_at(l, i, "@enduml")
}

/// Appends `l` and a newline to `out` when the line is kept.
fn emit_line(out: &mut Vec<char>, l: &Vec<char>)
    ensures
        final(out)@ == old(out)@ + (if is_frame_free(l@) {
            l@.push('\n')
        } else {
            Seq::empty()
        }),
{
    if line_is_frame_free(l.as_slice()) {
        push_all(out, l.as_slice());
        out.push('\n');
    }
}

/// Removes the `@startuml` and `@enduml` lines from `text`; every other line
/// is kept and ends with a newline.
pub fn strip_start_end(text: &str) -> (r: String)
    ensures
        r@ == kept_lines(text_lines(text@)),
{
    let v = chars_of(text);
    let mut out: Vec<char> = Vec::new();
    let mut cur: Vec<char> = Vec::new();
    let mut i: usize = 0;
    while i < v.len()
        invariant
            i <= v@.len(),
            split_on(v@.subrange(0, i as int), '\n').len() >= 1,
            out@ == kept_lines(
                split_on(v@.subrange(0, i as int), '\n').drop_last().map_values(
                    |l: Seq<char>| strip_cr(l),
                ),
            ),
            cur@ == split_on(v@.subrange(0, i as int), '\n').last(),
        decreases v@.len() - i,
    {
        let c = v[i];
        let ghost pre = v@.subrange(0, i as int);
        let ghost post = v@.subrange(0, i + 1);
        proof {
            assert(post.drop_last() == pre);
            assert(post.last() == c);
        }
        if c == '\n' {
            let n = cur.len();
            if n > 0 && cur[n - 1] == '\r' {
                cur.pop();
            }
            emit_line(&mut out, &cur);
            proof {
                let sp = split_on(pre, '\n');
                let sq = split_on(post, '\n');
                let f = |l: Seq<char>| strip_cr(l);
                assert(sq.drop_last() == sp);
                let a = sp.drop_last().map_values(f);
                let b = sp.map_values(f);
                assert(b.drop_last() == a);
                assert(b.last() == strip_cr(sp.last()));
            }
            cur = Vec::new();
        } else {
            cur.push(c);
            proof {
                let sp = split_on(pre, '\n');
                let sq = split_on(post, '\n');
                assert(sq.drop_last() == sp.drop_last());
            }
        }
        i = i + 1;
    }
    assert(v@.subrange(0, v@.len() as int) == v@);
    proof {
        let p = split_on(v@, '\n');
        let m = p.drop_last().map_values(|l: Seq<char>| strip_cr(l));
        if p.last().len() > 0 {
            assert((m + seq![p.last()]).drop_last() == m);
        } else {
            assert(m + Seq::<Seq<char>>::empty() == m);
        }
    }
    if cur.len() > 0 {
        emit_line(&mut out, &cur);
    }
    string_of(out.as_slice())
}

} // verus!
