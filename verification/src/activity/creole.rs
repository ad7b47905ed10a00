//! Creole markup (PlantUML's rich-text syntax) reduced to plain text.
use vstd::prelude::*;
use crate::text::{
    is_ws, is_whitespace, trim, trim_start, has_prefix, occurs_at, split_on, join_seq, collapse_ws,
    collapse_whitespace, char_views, push_all, push_joined_chars, chars_of, string_of, copy_range,
    trim_bounds, skip_ws, text_lines, lines_of, lead_from, trail_from, count_leading,
    count_trailing, find_from, lemma_find_from, find_at, lemma_trim_len, is_literal,
    starts_with_literal, lemma_split_nonempty,
};

verus! {

/// A line made only of at least four dashes.
pub open spec fn is_hrule(t: Seq<char>) -> bool {
    t.len() >= 4 && forall|i: int| 0 <= i < t.len() ==> t[i] == '-'
}

/// The text between the `=` runs of a heading line, if it is one.
pub open spec fn heading_body(t: Seq<char>) -> Option<Seq<char>> {
    let l = lead_from(t, 0, '=');
    let r = trail_from(t, t.len() as int, '=');
    if l == 0 || r == 0 || t.len() <= l + r {
        None
    } else {
        Some(t.subrange(l as int, t.len() - r))
    }
}

/// A line framed by `|` on both sides.
pub open spec fn is_table_row(t: Seq<char>) -> bool {
    t.len() >= 2 && t[0] == '|' && t.last() == '|'
}

/// Bullet characters of list items.
pub open spec fn is_list_char(c: char) -> bool {
    c == '*' || c == '#'
}

/// The number of bullet characters at the start of `t` from `i` on.
pub open spec fn list_from(t: Seq<char>, i: int) -> nat
    decreases t.len() - i,
{
    if 0 <= i < t.len() && is_list_char(t[i]) {
        1 + list_from(t, i + 1)
    } else {
        0
    }
}

/// The item text of a list line: bullets, then whitespace, then the text.
pub open spec fn list_body(t: Seq<char>) -> Option<Seq<char>> {
    let m = list_from(t, 0);
    if m == 0 || m >= t.len() || !is_ws(t[m as int]) {
        None
    } else {
        Some(trim_start(t.subrange(m as int, t.len() as int)))
    }
}

/// Characters that, doubled, toggle an inline style.
pub open spec fn is_marker_char(c: char) -> bool {
    c == '*' || c == '/' || c == '_' || c == '~' || c == '"' || c == '#' || c == '^' || c == ','
}

/// The style marker (a doubled marker character) at position `i`, if any.
pub open spec fn marker_at(t: Seq<char>, i: int) -> Option<char> {
    if 0 <= i && i + 1 < t.len() && is_marker_char(t[i]) && t[i + 1] == t[i] {
        Some(t[i])
    } else {
        None
    }
}

/// Whether the marker `c c` at `i` opens a style: it is followed by a
/// non-blank character, is not the `//` of a URL scheme, and is closed later.
pub open spec fn may_open(t: Seq<char>, i: int, c: char) -> bool {
    &&& i + 2 < t.len()
    &&& !is_ws(t[i + 2])
    &&& !(c == '/' && i > 0 && t[i - 1] == ':')
    &&& find_from(t, seq![c, c], i + 2) is Some
}

/// The style state after the marker at `i`: closing the open style, opening a
/// new one, or `None` when the marker is plain text.
pub open spec fn marker_step(t: Seq<char>, i: int, active: Option<char>) -> Option<Option<char>> {
    match marker_at(t, i) {
        Some(m) => if active == Some(m) {
            Some(None)
        } else if active is None && may_open(t, i, m) {
            Some(Some(m))
        } else {
            None
        },
        None => None,
    }
}

/// For a `o o ... c c` bracket starting at `i`, the position of the closing pair.
pub open spec fn bracket_close(t: Seq<char>, i: int, o: char, c: char) -> Option<int> {
    if 0 <= i && i + 1 < t.len() && t[i] == o && t[i + 1] == o {
        find_from(t, seq![c, c], i + 2)
    } else {
        None
    }
}

/// ASCII lower-casing of one character.
pub open spec fn ascii_lower(c: char) -> char {
    if 'A' <= c && c <= 'Z' {
        ((c as u32) + 32) as char
    } else {
        c
    }
}

/// Formatting tags that are dropped from the text.
pub open spec fn known_tag(tag: Seq<char>) -> bool {
    ||| tag == "b"@
    ||| tag == "/b"@
    ||| tag == "i"@
    ||| tag == "/i"@
    ||| tag == "u"@
    ||| tag == "/u"@
    ||| tag == "s"@
    ||| tag == "/s"@
    ||| tag == "w"@
    ||| tag == "/w"@
    ||| tag == "img"@
    ||| tag == "/img"@
    ||| tag == "font"@
    ||| tag == "/font"@
    ||| has_prefix(tag, "color:"@)
    ||| has_prefix(tag, "back:"@)
    ||| has_prefix(tag, "size:"@)
}

/// For a known `<tag>` starting at `i`, the position just after its `>`.
pub open spec fn tag_end(t: Seq<char>, i: int) -> Option<int> {
    if 0 <= i < t.len() && t[i] == '<' {
        match find_from(t, seq!['>'], i) {
            Some(e) => if known_tag(trim(t.subrange(i + 1, e)).map_values(|c: char| ascii_lower(c))) {
                Some(e + 1)
            } else {
                None
            },
            None => None,
        }
    } else {
        None
    }
}

/// The first position from `i` on where whitespace occurs outside `{...}`.
pub open spec fn split_ws_index(s: Seq<char>, i: int, depth: int) -> Option<int>
    decreases s.len() - i,
{
    if i < 0 || i >= s.len() {
        None
    } else if s[i] == '{' {
        split_ws_index(s, i + 1, depth + 1)
    } else if s[i] == '}' && depth > 0 {
        split_ws_index(s, i + 1, depth - 1)
    } else if depth == 0 && is_ws(s[i]) {
        Some(i)
    } else {
        split_ws_index(s, i + 1, depth)
    }
}

/// A link target without its `{tooltip}`.
pub open spec fn strip_tooltip(s: Seq<char>) -> Seq<char> {
    match find_from(s, seq!['{'], 0) {
        Some(k) => s.subrange(0, k),
        None => s,
    }
}

/// The plain text of the inline markup `t`.
pub open spec fn inline_text(t: Seq<char>) -> Seq<char>
    decreases t.len(), 2int, 0int,
{
    collapse_ws(scan(t, 0, None, Seq::empty()))
}

/// The text produced from position `i` on, after `acc`, with style `active` open.
pub open spec fn scan(t: Seq<char>, i: int, active: Option<char>, acc: Seq<char>) -> Seq<char>
    decreases t.len(), 1int, t.len() - i,
{
    if i < 0 || i >= t.len() {
        acc
    } else {
        match bracket_close(t, i, '[', ']') {
            Some(e) => {
                proof {
                    lemma_find_from(t, seq![']', ']'], i + 2);
                }
                scan(t, e + 2, active, acc + link_text(t.subrange(i + 2, e)))
            },
            None => match bracket_close(t, i, '{', '}') {
                Some(e) => {
                    proof {
                        lemma_find_from(t, seq!['}', '}'], i + 2);
                    }
                    scan(t, e + 2, active, acc + image_text(t.subrange(i + 2, e)))
                },
                None => match tag_end(t, i) {
                    Some(n) => {
                        proof {
                            lemma_find_from(t, seq!['>'], i);
                        }
                        scan(t, n, active, acc)
                    },
                    None => match marker_step(t, i, active) {
                        Some(a) => scan(t, i + 2, a, acc),
                        None => if t[i] == '~' {
                            if i + 1 < t.len() {
                                scan(t, i + 2, active, acc.push(t[i + 1]))
                            } else {
                                scan(t, i + 1, active, acc)
                            }
                        } else {
                            scan(t, i + 1, active, acc.push(t[i]))
                        },
                    },
                },
            },
        }
    }
}

/// The text of a `[[target label]]` link: its label, else its target without tooltip.
pub open spec fn link_text(c: Seq<char>) -> Seq<char>
    decreases c.len(), 3int, 0int,
{
    let tr = trim(c);
    proof {
        lemma_trim_len(c);
        lemma_split_ws_index(tr, 0, 0);
    }
    match split_ws_index(tr, 0, 0) {
        Some(k) => {
            let tail = trim(tr.subrange(k, tr.len() as int));
            proof {
                lemma_trim_len(tr.subrange(k, tr.len() as int));
                lemma_trim_len(tail);
            }
            if tail.len() > 0 {
                inline_text(trim(tail))
            } else {
                strip_tooltip(trim(tr.subrange(0, k)))
            }
        },
        None => strip_tooltip(trim(tr)),
    }
}

/// The text of a `{{source|caption}}` image: its caption, else nothing.
pub open spec fn image_text(c: Seq<char>) -> Seq<char>
    decreases c.len(), 3int, 0int,
{
    let tr = trim(c);
    proof {
        lemma_trim_len(c);
        lemma_find_from(tr, seq!['|'], 0);
    }
    match find_from(tr, seq!['|'], 0) {
        Some(k) => {
            proof {
                lemma_trim_len(tr.subrange(k + 1, tr.len() as int));
            }
            inline_text(trim(tr.subrange(k + 1, tr.len() as int)))
        },
        None => Seq::empty(),
    }
}

/// A split position lies within the text.
pub proof fn lemma_split_ws_index(s: Seq<char>, i: int, depth: int)
    ensures
        split_ws_index(s, i, depth) matches Some(k) ==> 0 <= i <= k < s.len(),
    decreases s.len() - i,
{
    if !(i < 0 || i >= s.len()) {
        lemma_split_ws_index(s, i + 1, depth + 1);
        lemma_split_ws_index(s, i + 1, depth - 1);
        lemma_split_ws_index(s, i + 1, depth);
    }
}

/// `t` with its outer `c` characters removed from both ends.
pub open spec fn trim_char(t: Seq<char>, c: char) -> Seq<char> {
    let l = lead_from(t, 0, c);
    if l >= t.len() {
        Seq::empty()
    } else {
        t.subrange(l as int, t.len() - trail_from(t, t.len() as int, c))
    }
}

/// A table cell's text: trimmed, without leading `=` header marks.
pub open spec fn clean_cell(c: Seq<char>) -> Seq<char> {
    let a = trim(c);
    trim(a.subrange(lead_from(a, 0, '=') as int, a.len() as int))
}

/// The rendered non-empty cells of a row, in order.
pub open spec fn table_parts(cells: Seq<Seq<char>>) -> Seq<Seq<char>>
    decreases cells.len(),
{
    if cells.len() == 0 {
        Seq::empty()
    } else {
        let prev = table_parts(cells.drop_last());
        let c = clean_cell(cells.last());
        if c.len() == 0 {
            prev
        } else {
            prev.push(inline_text(c))
        }
    }
}

/// A table row as its cells joined by ` | `.
pub open spec fn table_row_text(t: Seq<char>) -> Seq<char> {
    join_seq(table_parts(split_on(trim_char(t, '|'), '|')), " | "@)
}

/// The plain text of one line of creole.
pub open spec fn line_text(l: Seq<char>) -> Seq<char> {
    let t = trim(l);
    if t.len() == 0 || is_hrule(t) {
        Seq::empty()
    } else {
        match heading_body(t) {
            Some(h) => inline_text(trim(h)),
            None => if is_table_row(t) {
                table_row_text(t)
            } else {
                match list_body(t) {
                    Some(b) => inline_text(b),
                    None => inline_text(t),
                }
            },
        }
    }
}

/// `ls` without its trailing empty lines.
pub open spec fn drop_trailing_empty(ls: Seq<Seq<char>>) -> Seq<Seq<char>>
    decreases ls.len(),
{
    if ls.len() > 0 && ls.last().len() == 0 {
        drop_trailing_empty(ls.drop_last())
    } else {
        ls
    }
}

/// The plain text of a creole document: each line reduced, trailing empty
/// lines dropped, lines joined by newlines.
pub open spec fn creole_text(s: Seq<char>) -> Seq<char> {
    join_seq(
        drop_trailing_empty(text_lines(s).map_values(|l: Seq<char>| line_text(l))),
        seq!['\n'],
    )
}

/// Whether `c` is one of the characters that, doubled, mark an inline style:
/// `**` bold, `//` italics, `__` underline, `~~` wave, `""` monospace,
/// `##` stroke, `^^` superscript, `,,` subscript.
pub open spec fn style_marker_char(c: char) -> bool {
    ||| c == '*'
    ||| c == '/'
    ||| c == '_'
    ||| c == '~'
    ||| c == '"'
    ||| c == '#'
    ||| c == '^'
    ||| c == ','
}

/// Whether `c` is plain text for inline markup: no style marker character and
/// no opener of a link, image or tag.
pub open spec fn plain_char(c: char) -> bool {
    !style_marker_char(c) && c != '[' && c != '{' && c != '<'
}

/// Whether every character of `x` is plain.
pub open spec fn plain_text(x: Seq<char>) -> bool {
    forall|k: int| 0 <= k < x.len() ==> plain_char(#[trigger] x[k])
}

/// Plain characters are copied one by one.
proof fn lemma_scan_plain(t: Seq<char>, i: int, n: int, active: Option<char>, acc: Seq<char>)
    requires
        0 <= i <= n <= t.len(),
        forall|k: int| i <= k < n ==> plain_char(#[trigger] t[k]),
    ensures
        scan(t, i, active, acc) == scan(t, n, active, acc + t.subrange(i, n)),
    decreases n - i,
{
    if i < n {
        assert(plain_char(t[i]));
        assert(marker_at(t, i) is None);
        assert(scan(t, i, active, acc) == scan(t, i + 1, active, acc.push(t[i])));
        lemma_scan_plain(t, i + 1, n, active, acc.push(t[i]));
        assert(acc.push(t[i]) + t.subrange(i + 1, n) =~= acc + t.subrange(i, n));
    } else {
        assert(acc + t.subrange(i, n) =~= acc);
    }
}

/// The first occurrence found from `j` is at `n` when none starts in between.
proof fn lemma_find_first_at(s: Seq<char>, p: Seq<char>, j: int, n: int)
    requires
        0 <= j <= n,
        occurs_at(s, p, n),
        forall|k: int| j <= k < n ==> !occurs_at(s, p, k),
    ensures
        find_from(s, p, j) == Some(n),
    decreases n - j,
{
    if j < n {
        lemma_find_first_at(s, p, j + 1, n);
    }
}

/// Plain text reads as itself, up to whitespace collapsing.
pub proof fn lemma_plain_inline_text(x: Seq<char>)
    requires
        plain_text(x),
    ensures
        inline_text(x) == collapse_ws(x),
{
    lemma_scan_plain(x, 0, x.len() as int, None, Seq::empty());
    assert(Seq::<char>::empty() + x.subrange(0, x.len() as int) =~= x);
}

/// An inline style pair (`**`, `//`, `__`, `~~`, `""`, `##`, `^^` or `,,`)
/// that opens before a non-blank character and is closed later is removed,
/// keeping only the text between it: `//x//` reads as `x`.
pub proof fn lemma_style_pair_removed(c: char, x: Seq<char>)
    requires
        style_marker_char(c),
        x.len() > 0,
        !is_ws(x[0]),
        plain_text(x),
    ensures
        inline_text(seq![c, c] + x + seq![c, c]) == inline_text(x),
        inline_text(seq![c, c] + x + seq![c, c]) == collapse_ws(x),
{
    let t = seq![c, c] + x + seq![c, c];
    let l = x.len() as int;
    assert(t.len() == l + 4);
    assert(forall|k: int| 2 <= k < 2 + l ==> t[k] == x[k - 2]);
    assert(t[0] == c && t[1] == c && t[2 + l] == c && t[3 + l] == c);
    // the opening pair opens a style, closed by the pair after `x`
    assert(occurs_at(t, seq![c, c], 2 + l)) by {
        assert(t.subrange(2 + l, 4 + l) =~= seq![c, c]);
    }
    assert forall|k: int| 2 <= k < 2 + l implies !occurs_at(t, seq![c, c], k) by {
        assert(plain_char(x[k - 2]));
        if occurs_at(t, seq![c, c], k) {
            assert(t.subrange(k, k + 2)[0] == t[k]);
        }
    }
    lemma_find_first_at(t, seq![c, c], 2, 2 + l);
    assert(marker_at(t, 0) == Some(c));
    assert(may_open(t, 0, c));
    assert(scan(t, 0, None, Seq::empty()) == scan(t, 2, Some(c), Seq::empty()));
    lemma_scan_plain(t, 2, 2 + l, Some(c), Seq::empty());
    assert(t.subrange(2, 2 + l) =~= x);
    assert(Seq::<char>::empty() + x =~= x);
    assert(marker_at(t, 2 + l) == Some(c));
    assert(scan(t, 2 + l, Some(c), x) == scan(t, 4 + l, None, x));
    assert(scan(t, 0, None, Seq::empty()) == x);
    lemma_plain_inline_text(x);
}

/// ASCII lower-casing of one character.
fn to_ascii_lower(c: char) -> (r: char)
    ensures
        r == ascii_lower(c),
{
    if 'A' <= c && c <= 'Z' {
        let b = c as u8;
        (b + 32) as char
    } else {
        c
    }
}

/// Whether `t` is a horizontal rule.
fn is_horizontal_rule(t: &[char]) -> (r: bool)
    ensures
        r == is_hrule(t@),
{
    if t.len() < 4 {
        return false;
    }
    let mut i: usize = 0;
    while i < t.len()
        invariant
            i <= t@.len(),
            forall|k: int| 0 <= k < i ==> t@[k] == '-',
        decreases t@.len() - i,
    {
        if t[i] != '-' {
            return false;
        }
        i = i + 1;
    }
    true
}

/// The number of bullet characters at the start of `t`.
fn count_list_marks(t: &[char]) -> (r: usize)
    ensures
        r == list_from(t@, 0),
        r <= t@.len(),
{
    let mut i: usize = 0;
    while i < t.len() && (t[i] == '*' || t[i] == '#')
        invariant
            i <= t@.len(),
            list_from(t@, 0) == i + list_from(t@, i as int),
        decreases t@.len() - i,
    {
        i = i + 1;
    }
    i
}

/// Whether `c` is a style marker character.
fn is_marker_char_exec(c: char) -> (r: bool)
    ensures
        r == is_marker_char(c),
{
    c == '*' || c == '/' || c == '_' || c == '~' || c == '"' || c == '#' || c == '^' || c == ','
}

/// A two-character pattern `c c`.
fn pair(c: char) -> (r: Vec<char>)
    ensures
        r@ == seq![c, c],
{
    let mut p: Vec<char> = Vec::new();
    p.push(c);
    p.push(c);
    p
}

/// A one-character pattern.
fn single(c: char) -> (r: Vec<char>)
    ensures
        r@ == seq![c],
{
    let mut p: Vec<char> = Vec::new();
    p.push(c);
    p
}

/// Whether the marker `c c` at `i` opens a style.
fn should_open_inline_marker(t: &[char], i: usize, c: char) -> (r: bool)
    requires
        i + 1 < t@.len(),
    ensures
        r == may_open(t@, i as int, c),
{
    let n = t.len();
    let after = i + 2;
    if after >= t.len() || is_whitespace(t[after]) {
        return false;
    }
    if c == '/' && i > 0 && t[i - 1] == ':' {
        return false;
    }
    let p = pair(c);
    find_at(t, p.as_slice(), after).is_some()
}

/// The style state after the marker at `i` (see `marker_step`).
fn marker_step_at(t: &[char], i: usize, active: Option<char>) -> (r: Option<Option<char>>)
    requires
        i < t@.len(),
    ensures
        r == marker_step(t@, i as int, active),
{
    let n = t.len();
    if i + 1 < n && is_marker_char_exec(t[i]) && t[i + 1] == t[i] {
        let m = t[i];
        match active {
            Some(a) => {
                if a == m {
                    Some(None)
                } else {
                    None
                }
            },
            None => {
                if should_open_inline_marker(t, i, m) {
                    Some(Some(m))
                } else {
                    None
                }
            },
        }
    } else {
        None
    }
}

/// The content of a doubled bracket `o o ... c c` opening at `i`.
fn extract_bracketed_content(t: &[char], i: usize, o: char, c: char) -> (r: Option<Vec<char>>)
    requires
        i < t@.len(),
    ensures
        match bracket_close(t@, i as int, o, c) {
            Some(e) => r matches Some(v) && i + 2 <= e && e + 2 <= t@.len() && v@ == t@.subrange(i + 2, e),
            None => r is None,
        },
{
    let n = t.len();
    if i + 1 < n && t[i] == o && t[i + 1] == o {
        let p = pair(c);
        match find_at(t, p.as_slice(), i + 2) {
            Some(e) => {
                proof {
                    lemma_find_from(t@, p@, i + 2);
                }
                Some(copy_range(t, i + 2, e))
            },
            None => None,
        }
    } else {
        None
    }
}

/// Whether `tag` is one of the dropped formatting tags.
fn is_known_tag(tag: &[char]) -> (r: bool)
    ensures
        r == known_tag(tag@),
{
    is_literal(tag, "b") || is_literal(tag, "/b") || is_literal(tag, "i") || is_literal(tag, "/i")
        || is_literal(tag, "u") || is_literal(tag, "/u") || is_literal(tag, "s") || is_literal(
        tag,
        "/s",
    ) || is_literal(tag, "w") || is_literal(tag, "/w") || is_literal(tag, "img") || is_literal(
        tag,
        "/img",
    ) || is_literal(tag, "font") || is_literal(tag, "/font") || starts_with_literal(tag, "color:")
        || starts_with_literal(tag, "back:") || starts_with_literal(tag, "size:")
}

/// For a known tag opening at `i`, its length (see `tag_end`).
fn creole_tag_length(t: &[char], i: usize) -> (r: Option<usize>)
    requires
        i < t@.len(),
    ensures
        match r {
            Some(n) => tag_end(t@, i as int) == Some(i + n),
            None => tag_end(t@, i as int) is None,
        },
{
    if t[i] != '<' {
        return None;
    }
    let p = single('>');
    match find_at(t, p.as_slice(), i) {
        None => None,
        Some(e) => {
            proof {
                lemma_find_from(t@, seq!['>'], i as int);
                assert(t@.subrange(e as int, e + 1)[0] == t@[e as int]);
            }
            let (a, b) = trim_bounds(t, i + 1, e);
            let mut low: Vec<char> = Vec::new();
            let mut k = a;
            while k < b
                invariant
                    a <= k <= b <= t@.len(),
                    low@ == t@.subrange(a as int, k as int).map_values(|c: char| ascii_lower(c)),
                decreases b - k,
            {
                let ghost before = low@;
                low.push(to_ascii_lower(t[k]));
                assert(t@.subrange(a as int, k + 1).map_values(|c: char| ascii_lower(c)) == before.push(
                    ascii_lower(t@[k as int]),
                ));
                k = k + 1;
            }
            if is_known_tag(low.as_slice()) {
                Some(e + 1 - i)
            } else {
                None
            }
        },
    }
}

/// The split position of a link (see `split_ws_index`).
fn split_first_unescaped_whitespace(s: &[char]) -> (r: Option<usize>)
    ensures
        match r {
            Some(k) => split_ws_index(s@, 0, 0) == Some(k as int),
            None => split_ws_index(s@, 0, 0) is None,
        },
{
    let mut depth: usize = 0;
    let mut i: usize = 0;
    while i < s.len()
        invariant
            i <= s@.len(),
            depth <= i,
            split_ws_index(s@, 0, 0) == split_ws_index(s@, i as int, depth as int),
        decreases s@.len() - i,
    {
        let c = s[i];
        if c == '{' {
            depth = depth + 1;
        } else if c == '}' && depth > 0 {
            depth = depth - 1;
        } else if depth == 0 && is_whitespace(c) {
            return Some(i);
        }
        i = i + 1;
    }
    None
}

/// A link target without its tooltip.
fn strip_tooltip_exec(s: &[char]) -> (r: Vec<char>)
    ensures
        r@ == strip_tooltip(s@),
{
    let p = single('{');
    match find_at(s, p.as_slice(), 0) {
        Some(k) => {
            proof {
                lemma_find_from(s@, seq!['{'], 0);
            }
            copy_range(s, 0, k)
        },
        None => {
            assert(s@.subrange(0, s@.len() as int) == s@);
            copy_range(s, 0, s.len())
        },
    }
}

/// `v` with surrounding whitespace removed.
fn trimmed(v: &[char]) -> (r: Vec<char>)
    ensures
        r@ == trim(v@),
{
    let (a, b) = trim_bounds(v, 0, v.len());
    assert(v@.subrange(0, v@.len() as int) == v@);
    copy_range(v, a, b)
}

/// The text of a link's content.
fn normalize_link_content(content: &[char]) -> (r: Vec<char>)
    ensures
        r@ == link_text(content@),
    decreases content@.len(), 2int,
{
    let tr = trimmed(content);
    proof {
        lemma_trim_len(content@);
    }
    match split_first_unescaped_whitespace(tr.as_slice()) {
        Some(k) => {
            proof {
                lemma_split_ws_index(tr@, 0, 0);
            }
            let (x, y) = trim_bounds(tr.as_slice(), k, tr.len());
            if x < y {
                let tail = copy_range(tr.as_slice(), x, y);
                let label = trimmed(tail.as_slice());
                proof {
                    lemma_trim_len(tail@);
                }
                normalize_creole_inline(label.as_slice())
            } else {
                let target = copy_range(tr.as_slice(), 0, k);
                let t2 = trimmed(target.as_slice());
                strip_tooltip_exec(t2.as_slice())
            }
        },
        None => {
            let t2 = trimmed(tr.as_slice());
            strip_tooltip_exec(t2.as_slice())
        },
    }
}

/// The text of an image's content.
fn normalize_image_content(content: &[char]) -> (r: Vec<char>)
    ensures
        r@ == image_text(content@),
    decreases content@.len(), 2int,
{
    let tr = trimmed(content);
    proof {
        lemma_trim_len(content@);
    }
    let p = single('|');
    match find_at(tr.as_slice(), p.as_slice(), 0) {
        Some(k) => {
            proof {
                lemma_find_from(tr@, seq!['|'], 0);
            }
            let m = tr.len();
            let tail = copy_range(tr.as_slice(), k + 1, m);
            let caption = trimmed(tail.as_slice());
            proof {
                lemma_trim_len(tail@);
            }
            normalize_creole_inline(caption.as_slice())
        },
        None => Vec::new(),
    }
}

/// The plain text of inline creole markup.
fn normalize_creole_inline(t: &[char]) -> (r: Vec<char>)
    ensures
        r@ == inline_text(t@),
    decreases t@.len(), 1int,
{
    let mut out: Vec<char> = Vec::new();
    let mut active: Option<char> = None;
    let mut i: usize = 0;
    while i < t.len()
        invariant
            i <= t@.len(),
            scan(t@, i as int, active, out@) == scan(t@, 0, None, Seq::empty()),
        decreases t@.len() - i,
    {
        if let Some(content) = extract_bracketed_content(t, i, '[', ']') {
            proof {
                lemma_find_from(t@, seq![']', ']'], i + 2);
            }
            let l = normalize_link_content(content.as_slice());
            push_all(&mut out, l.as_slice());
            i = i + content.len() + 4;
        } else if let Some(content) = extract_bracketed_content(t, i, '{', '}') {
            proof {
                lemma_find_from(t@, seq!['}', '}'], i + 2);
            }
            let l = normalize_image_content(content.as_slice());
            push_all(&mut out, l.as_slice());
            i = i + content.len() + 4;
        } else if let Some(n) = creole_tag_length(t, i) {
            proof {
                lemma_find_from(t@, seq!['>'], i as int);
            }
            i = i + n;
        } else if let Some(a) = marker_step_at(t, i, active) {
            active = a;
            i = i + 2;
        } else if t[i] == '~' {
            if i + 1 < t.len() {
                out.push(t[i + 1]);
                i = i + 2;
            } else {
                i = i + 1;
            }
        } else {
            out.push(t[i]);
            i = i + 1;
        }
    }
    collapse_whitespace(out.as_slice())
}

/// A run counted from `i` stops at the end or at a different character.
proof fn lemma_lead_stop(t: Seq<char>, i: int, c: char)
    requires
        0 <= i <= t.len(),
    ensures
        i + lead_from(t, i, c) <= t.len(),
        i + lead_from(t, i, c) < t.len() ==> t[i + lead_from(t, i, c)] != c,
    decreases t.len() - i,
{
    if i < t.len() && t[i] == c {
        lemma_lead_stop(t, i + 1, c);
    }
}

/// A trailing run ending at `j` cannot reach past a different character at `k`.
proof fn lemma_trail_bound(t: Seq<char>, j: int, k: int, c: char)
    requires
        0 <= k < j <= t.len(),
        t[k] != c,
    ensures
        trail_from(t, j, c) <= j - k - 1,
    decreases j,
{
    if t[j - 1] == c {
        lemma_trail_bound(t, j - 1, k, c);
    }
}

/// Cleans one table cell and, when it is not empty, appends its rendering.
fn add_cell(parts: &mut Vec<Vec<char>>, cell: &Vec<char>)
    ensures
        char_views(final(parts)@) == (if clean_cell(cell@).len() == 0 {
            char_views(old(parts)@)
        } else {
            char_views(old(parts)@).push(inline_text(clean_cell(cell@)))
        }),
{
    let a = trimmed(cell.as_slice());
    let l = count_leading(a.as_slice(), '=');
    let m = a.len();
    let rest = copy_range(a.as_slice(), l, m);
    let c = trimmed(rest.as_slice());
    if c.len() > 0 {
        let r = normalize_creole_inline(c.as_slice());
        let ghost before = parts@;
        parts.push(r);
        assert(char_views(parts@) == char_views(before).push(r@));
    }
}

/// A table row rendered as its non-empty cells joined by ` | `.
fn normalize_table_row(t: &[char]) -> (r: Vec<char>)
    ensures
        r@ == table_row_text(t@),
{
    let n = t.len();
    let l = count_leading(t, '|');
    let inner: Vec<char> = if l >= n {
        Vec::new()
    } else {
        let rc = count_trailing(t, '|');
        proof {
            lemma_lead_stop(t@, 0, '|');
            lemma_trail_bound(t@, n as int, l as int, '|');
        }
        copy_range(t, l, n - rc)
    };
    assert(inner@ == trim_char(t@, '|'));
    let mut parts: Vec<Vec<char>> = Vec::new();
    let mut cur: Vec<char> = Vec::new();
    let mut i: usize = 0;
    while i < inner.len()
        invariant
            i <= inner@.len(),
            split_on(inner@.subrange(0, i as int), '|').len() >= 1,
            char_views(parts@) == table_parts(split_on(inner@.subrange(0, i as int), '|').drop_last()),
            cur@ == split_on(inner@.subrange(0, i as int), '|').last(),
        decreases inner@.len() - i,
    {
        let c = inner[i];
        let ghost pre = inner@.subrange(0, i as int);
        let ghost post = inner@.subrange(0, i + 1);
        proof {
            assert(post.drop_last() == pre);
            assert(post.last() == c);
        }
        if c == '|' {
            add_cell(&mut parts, &cur);
            proof {
                let sp = split_on(pre, '|');
                let sq = split_on(post, '|');
                assert(sq.drop_last() == sp);
                assert(sp.drop_last().push(sp.last()) == sp);
            }
            cur = Vec::new();
        } else {
            cur.push(c);
            proof {
                let sp = split_on(pre, '|');
                let sq = split_on(post, '|');
                assert(sq.drop_last() == sp.drop_last());
            }
        }
        i = i + 1;
    }
    assert(inner@.subrange(0, inner@.len() as int) == inner@);
    add_cell(&mut parts, &cur);
    proof {
        lemma_split_nonempty(inner@, '|');
        let sp = split_on(inner@, '|');
        assert(sp.drop_last().push(sp.last()) == sp);
    }
    let sep = chars_of(" | ");
    let mut out: Vec<char> = Vec::new();
    push_joined_chars(&mut out, &parts, sep.as_slice());
    out
}

/// The text between the `=` runs of a heading line, if it is one.
fn strip_heading_markup(t: &[char]) -> (r: Option<Vec<char>>)
    ensures
        match heading_body(t@) {
            Some(h) => r matches Some(v) && v@ == h,
            None => r is None,
        },
{
    let n = t.len();
    let lc = count_leading(t, '=');
    let rc = count_trailing(t, '=');
    if lc == 0 || rc == 0 || n - lc <= rc {
        None
    } else {
        Some(copy_range(t, lc, n - rc))
    }
}

/// Whether a line is framed by `|` on both sides.
fn looks_like_table_row(t: &[char]) -> (r: bool)
    ensures
        r == is_table_row(t@),
{
    let n = t.len();
    n >= 2 && t[0] == '|' && t[n - 1] == '|'
}

/// The item text of a list line, if it is one.
fn strip_list_marker(t: &[char]) -> (r: Option<Vec<char>>)
    ensures
        match list_body(t@) {
            Some(b) => r matches Some(v) && v@ == b,
            None => r is None,
        },
{
    let n = t.len();
    let m = count_list_marks(t);
    if m > 0 && m < n && is_whitespace(t[m]) {
        let s = skip_ws(t, m);
        Some(copy_range(t, s, n))
    } else {
        None
    }
}

/// The plain text of one line of creole.
fn normalize_creole_line(line: &[char]) -> (r: Vec<char>)
    ensures
        r@ == line_text(line@),
{
    let t = trimmed(line);
    if t.len() == 0 || is_horizontal_rule(t.as_slice()) {
        return Vec::new();
    }
    match strip_heading_markup(t.as_slice()) {
        Some(h) => {
            let hh = trimmed(h.as_slice());
            return normalize_creole_inline(hh.as_slice());
        },
        None => {},
    }
    if looks_like_table_row(t.as_slice()) {
        return normalize_table_row(t.as_slice());
    }
    match strip_list_marker(t.as_slice()) {
        Some(body) => normalize_creole_inline(body.as_slice()),
        None => normalize_creole_inline(t.as_slice()),
    }
}

/// Reduces creole text to plain text: each line is stripped of its block and
/// inline markup, trailing empty lines are dropped, and the lines are joined
/// with newlines.
pub fn normalize_creole_text(text: &str) -> (r: String)
    ensures
        r@ == creole_text(text@),
{
    let v = chars_of(text);
    let out = normalize_creole_chars(v.as_slice());
    string_of(out.as_slice())
}

/// Reduces creole text to plain text (see `normalize_creole_text`).
pub fn normalize_creole_chars(v: &[char]) -> (r: Vec<char>)
    ensures
        r@ == creole_text(v@),
{
    let lines = lines_of(v);
    let mut outl: Vec<Vec<char>> = Vec::new();
    let mut i: usize = 0;
    while i < lines.len()
        invariant
            i <= lines@.len(),
            char_views(outl@) == char_views(lines@).subrange(0, i as int).map_values(|l: Seq<char>| line_text(l)),
        decreases lines@.len() - i,
    {
        let nl = normalize_creole_line(lines[i].as_slice());
        let ghost before = outl@;
        outl.push(nl);
        proof {
            assert(char_views(outl@) == char_views(before).push(nl@));
            assert(char_views(lines@)[i as int] == lines@[i as int]@);
            assert(char_views(lines@).subrange(0, i + 1).map_values(|l: Seq<char>| line_text(l)) == char_views(lines@).subrange(
                0,
                i as int,
            ).map_values(|l: Seq<char>| line_text(l)).push(line_text(lines@[i as int]@)));
        }
        i = i + 1;
    }
    assert(char_views(lines@).subrange(0, lines@.len() as int) == char_views(lines@));
    let ghost all = char_views(outl@);
    while outl.len() > 0 && outl[outl.len() - 1].len() == 0
        invariant
            drop_trailing_empty(all) == drop_trailing_empty(char_views(outl@)),
        decreases outl@.len(),
    {
        let ghost before = outl@;
        outl.pop();
        assert(char_views(outl@) == char_views(before).drop_last());
    }
    let sep = single('\n');
    let mut out: Vec<char> = Vec::new();
    push_joined_chars(&mut out, &outl, sep.as_slice());
    out
}

} // verus!
