//! Character-level text primitives shared by the parsers and renderers.
//!
//! Text is modelled as a sequence of `char`s (the view of `String` and `str`).
use vstd::prelude::*;
use vstd::string::*;

verus! {

/// The Unicode `White_Space` property, which is what `char::is_whitespace` tests.
pub open spec fn is_ws(c: char) -> bool {
    ||| ('\u{9}' <= c && c <= '\u{d}')
    ||| c == ' '
    ||| c == '\u{85}'
    ||| c == '\u{a0}'
    ||| c == '\u{1680}'
    ||| ('\u{2000}' <= c && c <= '\u{200a}')
    ||| c == '\u{2028}'
    ||| c == '\u{2029}'
    ||| c == '\u{202f}'
    ||| c == '\u{205f}'
    ||| c == '\u{3000}'
}

/// Whether `c` is Unicode whitespace.
pub fn is_whitespace(c: char) -> (b: bool)
    ensures
        b == is_ws(c),
{
    ('\u{9}' <= c && c <= '\u{d}') || c == ' ' || c == '\u{85}' || c == '\u{a0}' || c == '\u{1680}'
        || ('\u{2000}' <= c && c <= '\u{200a}') || c == '\u{2028}' || c == '\u{2029}' || c
        == '\u{202f}' || c == '\u{205f}' || c == '\u{3000}'
}

/// `s` without its leading whitespace.
pub open spec fn trim_start(s: Seq<char>) -> Seq<char>
    decreases s.len(),
{
    if s.len() > 0 && is_ws(s[0]) {
        trim_start(s.drop_first())
    } else {
        s
    }
}

/// `s` without its trailing whitespace.
pub open spec fn trim_end(s: Seq<char>) -> Seq<char>
    decreases s.len(),
{
    if s.len() > 0 && is_ws(s.last()) {
        trim_end(s.drop_last())
    } else {
        s
    }
}

/// `s` without leading and trailing whitespace.
pub open spec fn trim(s: Seq<char>) -> Seq<char> {
    trim_end(trim_start(s))
}

/// Whether `p` is a prefix of `s`.
pub open spec fn has_prefix(s: Seq<char>, p: Seq<char>) -> bool {
    p.len() <= s.len() && s.subrange(0, p.len() as int) == p
}

/// Whether `p` is a suffix of `s`.
pub open spec fn has_suffix(s: Seq<char>, p: Seq<char>) -> bool {
    p.len() <= s.len() && s.subrange(s.len() - p.len(), s.len() as int) == p
}

/// Whether `p` occurs in `s` starting at position `i`.
pub open spec fn occurs_at(s: Seq<char>, p: Seq<char>, i: int) -> bool {
    0 <= i && i + p.len() <= s.len() && s.subrange(i, i + p.len()) == p
}

/// Whether `p` occurs anywhere in `s`.
pub open spec fn contains_seq(s: Seq<char>, p: Seq<char>) -> bool {
    exists|i: int| occurs_at(s, p, i)
}

/// The characters of a string slice, in order.
pub fn chars_of(s: &str) -> (v: Vec<char>)
    ensures
        v@ == s@,
{
    let n = s.unicode_len();
    let mut v: Vec<char> = Vec::new();
    let mut i: usize = 0;
    while i < n
        invariant
            n == s@.len(),
            i <= n,
            v@ == s@.subrange(0, i as int),
        decreases n - i,
    {
        v.push(s.get_char(i));
        i = i + 1;
    }
    v
}

/// Appends one character to a `String` (`String::push`).
#[verifier::external_body]
fn push_char(s: &mut String, c: char)
    ensures
        final(s)@ == old(s)@.push(c),
{
    s.push(c);
}

/// The lowercase equivalent of a text as `str::to_lowercase` computes it
/// (by the Unicode `Lowercase` property; one character may map to several).
pub uninterp spec fn lowercase(s: Seq<char>) -> Seq<char>;

/// Whether every character of `s` is ASCII.
pub open spec fn ascii_text(s: Seq<char>) -> bool {
    forall|i: int| 0 <= i < s.len() ==> (#[trigger] s[i] as u32) < 128
}

/// `c` with `A`-`Z` turned into `a`-`z`.
pub open spec fn ascii_lower_char(c: char) -> char {
    if 'A' <= c && c <= 'Z' {
        ((c as u32) + 32) as char
    } else {
        c
    }
}

/// `s` with `A`-`Z` turned into `a`-`z` and every other character kept.
pub open spec fn ascii_lower(s: Seq<char>) -> Seq<char> {
    s.map_values(|c: char| ascii_lower_char(c))
}

/// `str::to_lowercase`: the lowercase equivalent of `s`. The contract names
/// the result; of the Unicode mapping it states only that ASCII text maps
/// `A`-`Z` to `a`-`z` one for one and keeps every other character (the
/// Unicode lowercase of an ASCII letter is that letter's ASCII lowercase, and
/// no other ASCII character has a lowercase mapping).
#[verifier::external_body]
pub(crate) fn to_lowercase(s: &str) -> (r: String)
    ensures
        r@ == lowercase(s@),
        ascii_text(s@) ==> r@ == ascii_lower(s@),
{
    s.to_lowercase()
}

/// A `String` holding exactly the characters of `v`.
pub fn string_of(v: &[char]) -> (s: String)
    ensures
        s@ == v@,
{
    let mut s = String::new();
    let mut i: usize = 0;
    while i < v.len()
        invariant
            i <= v@.len(),
            s@ == v@.subrange(0, i as int),
        decreases v@.len() - i,
    {
        push_char(&mut s, v[i]);
        i = i + 1;
    }
    s
}

/// Appends all characters of `src` to `out`.
pub fn push_all(out: &mut Vec<char>, src: &[char])
    ensures
        final(out)@ == old(out)@ + src@,
{
    let mut i: usize = 0;
    while i < src.len()
        invariant
            i <= src@.len(),
            out@ == old(out)@ + src@.subrange(0, i as int),
        decreases src@.len() - i,
    {
        out.push(src[i]);
        i = i + 1;
        assert(src@.subrange(0, i as int) == src@.subrange(0, i - 1) + seq![src@[i - 1]]);
    }
    assert(src@.subrange(0, src@.len() as int) == src@);
}

/// Bounds `(a, b)` such that `v[a..b]` is `v[lo..hi]` with surrounding whitespace removed.
pub fn trim_bounds(v: &[char], lo: usize, hi: usize) -> (r: (usize, usize))
    requires
        lo <= hi <= v@.len(),
    ensures
        lo <= r.0 <= r.1 <= hi,
        v@.subrange(r.0 as int, r.1 as int) == trim(v@.subrange(lo as int, hi as int)),
        r.0 == hi || !is_ws(v@[r.0 as int]),
{
    let mut i = lo;
    while i < hi && is_whitespace(v[i])
        invariant
            lo <= i <= hi <= v@.len(),
            trim_start(v@.subrange(lo as int, hi as int)) == trim_start(v@.subrange(i as int, hi as int)),
        decreases hi - i,
    {
        assert(v@.subrange(i as int, hi as int).drop_first() == v@.subrange(i + 1, hi as int));
        i = i + 1;
    }
    assert(trim_start(v@.subrange(i as int, hi as int)) == v@.subrange(i as int, hi as int));
    let mut j = hi;
    while j > i && is_whitespace(v[j - 1])
        invariant
            lo <= i <= j <= hi <= v@.len(),
            trim_end(v@.subrange(i as int, hi as int)) == trim_end(v@.subrange(i as int, j as int)),
        decreases j - i,
    {
        assert(v@.subrange(i as int, j as int).drop_last() == v@.subrange(i as int, j - 1));
        j = j - 1;
    }
    assert(trim_end(v@.subrange(i as int, j as int)) == v@.subrange(i as int, j as int));
    (i, j)
}

/// Whether `p` occurs in `v` at position `i`.
pub fn matches_at(v: &[char], i: usize, p: &[char]) -> (b: bool)
    ensures
        b == occurs_at(v@, p@, i as int),
{
    if i > v.len() || p.len() > v.len() - i {
        return false;
    }
    let mut k: usize = 0;
    while k < p.len()
        invariant
            i + p@.len() <= v@.len(),
            v@.len() == v.len(),
            k <= p@.len(),
            forall|m: int| 0 <= m < k ==> v@[i + m] == p@[m],
        decreases p@.len() - k,
    {
        if v[i + k] != p[k] {
            assert(v@.subrange(i as int, i + p@.len())[k as int] != p@[k as int]);
            return false;
        }
        k = k + 1;
    }
    assert(v@.subrange(i as int, i + p@.len()) =~= p@);
    true
}

/// Whether two character slices are equal.
pub fn chars_eq(a: &[char], b: &[char]) -> (r: bool)
    ensures
        r == (a@ == b@),
{
    if a.len() != b.len() {
        return false;
    }
    let mut i: usize = 0;
    while i < a.len()
        invariant
            a@.len() == b@.len(),
            i <= a@.len(),
            forall|k: int| 0 <= k < i ==> a@[k] == b@[k],
        decreases a@.len() - i,
    {
        if a[i] != b[i] {
            return false;
        }
        i = i + 1;
    }
    assert(a@ =~= b@);
    true
}

/// Whether `s` equals the literal `lit`.
pub fn is_literal(s: &[char], lit: &str) -> (r: bool)
    ensures
        r == (s@ == lit@),
{
    let l = chars_of(lit);
    chars_eq(s, l.as_slice())
}

/// Whether `needle` occurs somewhere in `hay`.
pub fn contains_chars(hay: &[char], needle: &[char]) -> (r: bool)
    ensures
        r == contains_seq(hay@, needle@),
{
    if needle.len() == 0 {
        assert(hay@.subrange(0, 0) =~= needle@);
        assert(occurs_at(hay@, needle@, 0));
        return true;
    }
    if needle.len() > hay.len() {
        assert forall|k: int| !occurs_at(hay@, needle@, k) by {}
        return false;
    }
    let last = hay.len() - needle.len();
    let mut i: usize = 0;
    while i <= last
        invariant
            hay@.len() == hay.len(),
            last == hay@.len() - needle@.len(),
            needle@.len() > 0,
            forall|k: int| 0 <= k < i ==> !occurs_at(hay@, needle@, k),
        decreases last + 1 - i,
    {
        if matches_at(hay, i, needle) {
            return true;
        }
        i = i + 1;
    }
    assert forall|k: int| !occurs_at(hay@, needle@, k) by {}
    false
}

/// Whether `s` contains the literal `lit`.
pub fn contains_literal(s: &[char], lit: &str) -> (r: bool)
    ensures
        r == contains_seq(s@, lit@),
{
    let l = chars_of(lit);
    contains_chars(s, l.as_slice())
}

/// Whether `s` starts with the literal `lit`.
pub fn starts_with_literal(s: &[char], lit: &str) -> (r: bool)
    ensures
        r == has_prefix(s@, lit@),
{
    let l = chars_of(lit);
    matches_at(s, 0, l.as_slice())
}

/// Whether `s` ends with the literal `lit`.
pub fn ends_with_literal(s: &[char], lit: &str) -> (r: bool)
    ensures
        r == has_suffix(s@, lit@),
{
    let l = chars_of(lit);
    if l.len() > s.len() {
        return false;
    }
    matches_at(s, s.len() - l.len(), l.as_slice())
}

/// The character views of a sequence of strings.
pub open spec fn views(parts: Seq<String>) -> Seq<Seq<char>> {
    parts.map_values(|s: String| s@)
}

/// `parts` joined with `sep` between consecutive elements.
pub open spec fn join_seq(parts: Seq<Seq<char>>, sep: Seq<char>) -> Seq<char>
    decreases parts.len(),
{
    if parts.len() == 0 {
        Seq::empty()
    } else if parts.len() == 1 {
        parts[0]
    } else {
        join_seq(parts.drop_last(), sep) + sep + parts.last()
    }
}

/// Appends `parts` joined by `sep` to `out`.
pub fn push_joined(out: &mut Vec<char>, parts: &Vec<String>, sep: &str)
    ensures
        final(out)@ == old(out)@ + join_seq(views(parts@), sep@),
{
    let sepv = chars_of(sep);
    let mut i: usize = 0;
    while i < parts.len()
        invariant
            i <= parts@.len(),
            sepv@ == sep@,
            out@ == old(out)@ + join_seq(views(parts@.subrange(0, i as int)), sep@),
        decreases parts@.len() - i,
    {
        let ghost before = views(parts@.subrange(0, i as int));
        if i > 0 {
            push_all(out, &sepv);
        }
        let pv = chars_of(parts[i].as_str());
        push_all(out, &pv);
        proof {
            let after = views(parts@.subrange(0, i + 1));
            assert(after.drop_last() =~= before);
            assert(after.last() == parts@[i as int]@);
        }
        i = i + 1;
    }
    assert(parts@.subrange(0, parts@.len() as int) == parts@);
}

/// `parts` joined by `sep`.
pub fn join_strings(parts: &Vec<String>, sep: &str) -> (r: String)
    ensures
        r@ == join_seq(views(parts@), sep@),
{
    let mut out: Vec<char> = Vec::new();
    push_joined(&mut out, parts, sep);
    string_of(&out)
}

/// The maximal runs of non-whitespace characters of `s`, in order
/// (what `str::split_whitespace` yields).
pub open spec fn words(s: Seq<char>) -> Seq<Seq<char>>
    decreases s.len(),
{
    if s.len() == 0 {
        Seq::empty()
    } else {
        let prev = words(s.drop_last());
        let c = s.last();
        if is_ws(c) {
            prev
        } else if s.len() > 1 && !is_ws(s[s.len() - 2]) {
            prev.update(prev.len() - 1, prev.last().push(c))
        } else {
            prev.push(seq![c])
        }
    }
}

/// `s` with whitespace runs collapsed to single blanks and no outer whitespace.
pub open spec fn collapse_ws(s: Seq<char>) -> Seq<char> {
    join_seq(words(s), seq![' '])
}

/// A word continues at the end of `s` exactly when its last character is not whitespace.
pub proof fn lemma_words_nonempty(s: Seq<char>)
    requires
        s.len() > 0,
        !is_ws(s.last()),
    ensures
        words(s).len() > 0,
    decreases s.len(),
{
    if s.len() > 1 && !is_ws(s[s.len() - 2]) {
        assert(s.drop_last().last() == s[s.len() - 2]);
        lemma_words_nonempty(s.drop_last());
    }
}

/// Joining after extending the last part extends the joined text.
pub proof fn lemma_join_extend_last(parts: Seq<Seq<char>>, sep: Seq<char>, c: char)
    requires
        parts.len() > 0,
    ensures
        join_seq(parts.update(parts.len() - 1, parts.last().push(c)), sep) == join_seq(parts, sep).push(c),
{
    let q = parts.update(parts.len() - 1, parts.last().push(c));
    if parts.len() > 1 {
        assert(q.drop_last() == parts.drop_last());
    }
}

/// `s` with whitespace runs collapsed to single blanks and no outer whitespace.
pub fn collapse_whitespace(v: &[char]) -> (r: Vec<char>)
    ensures
        r@ == collapse_ws(v@),
{
    let mut out: Vec<char> = Vec::new();
    let mut i: usize = 0;
    while i < v.len()
        invariant
            i <= v@.len(),
            out@ == collapse_ws(v@.subrange(0, i as int)),
        decreases v@.len() - i,
    {
        let c = v[i];
        let ghost pre = v@.subrange(0, i as int);
        let ghost post = v@.subrange(0, i + 1);
        proof {
            assert(post.drop_last() == pre);
            assert(post.last() == c);
        }
        if is_whitespace(c) {
        } else if i > 0 && !is_whitespace(v[i - 1]) {
            proof {
                assert(pre.last() == v@[i - 1]);
                lemma_words_nonempty(pre);
                assert(post[post.len() - 2] == v@[i - 1]);
                lemma_join_extend_last(words(pre), seq![' '], c);
            }
            out.push(c);
        } else {
            if out.len() > 0 {
                out.push(' ');
            }
            out.push(c);
            proof {
                let w = words(pre);
                lemma_words_nonempty_parts(pre);
                lemma_join_empty_iff(w, seq![' ']);
                assert(w.push(seq![c]).drop_last() == w);
                assert(out@ =~= join_seq(w.push(seq![c]), seq![' ']));
            }
        }
        i = i + 1;
    }
    assert(v@.subrange(0, v@.len() as int) == v@);
    out
}

/// The whitespace-separated words of `v`, in order.
pub fn split_words(v: &[char]) -> (r: Vec<Vec<char>>)
    ensures
        char_views(r@) == words(v@),
{
    let mut out: Vec<Vec<char>> = Vec::new();
    let mut i: usize = 0;
    while i < v.len()
        invariant
            i <= v@.len(),
            char_views(out@) == words(v@.subrange(0, i as int)),
        decreases v@.len() - i,
    {
        let c = v[i];
        let ghost pre = v@.subrange(0, i as int);
        let ghost post = v@.subrange(0, i + 1);
        proof {
            assert(post.drop_last() == pre);
            assert(post.last() == c);
        }
        if is_whitespace(c) {
        } else if i > 0 && !is_whitespace(v[i - 1]) {
            proof {
                assert(pre.last() == v@[i - 1]);
                lemma_words_nonempty(pre);
                assert(post[post.len() - 2] == v@[i - 1]);
            }
            let ghost before = out@;
            let mut w = match out.pop() {
                Some(w) => w,
                None => Vec::new(),
            };
            w.push(c);
            out.push(w);
            proof {
                assert(char_views(out@) =~= char_views(before).update(
                    before.len() - 1,
                    char_views(before).last().push(c),
                ));
            }
        } else {
            let ghost before = out@;
            let mut w: Vec<char> = Vec::new();
            w.push(c);
            out.push(w);
            proof {
                assert(w@ =~= seq![c]);
                assert(char_views(out@) =~= char_views(before).push(seq![c]));
            }
        }
        i = i + 1;
    }
    assert(v@.subrange(0, v@.len() as int) == v@);
    out
}

/// Whether `c` is an ASCII decimal digit.
pub open spec fn is_digit(c: char) -> bool {
    '0' <= c && c <= '9'
}

/// The value of the decimal digits `d`.
pub open spec fn digits_value(d: Seq<char>) -> nat
    decreases d.len(),
{
    if d.len() == 0 {
        0
    } else {
        digits_value(d.drop_last()) * 10 + ((d.last() as nat) - ('0' as nat)) as nat
    }
}

/// The digits of a `u32` text: after an optional leading `+`.
pub open spec fn u32_digits(t: Seq<char>) -> Seq<char> {
    if t.len() > 0 && t[0] == '+' {
        t.subrange(1, t.len() as int)
    } else {
        t
    }
}

/// The `u32` a text denotes as `str::parse::<u32>` reads it: an optional
/// `+` and one or more decimal digits whose value fits; `None` otherwise.
pub open spec fn u32_value(t: Seq<char>) -> Option<u32> {
    let d = u32_digits(t);
    if d.len() > 0 && (forall|i: int| 0 <= i < d.len() ==> is_digit(#[trigger] d[i])) && digits_value(d)
        <= u32::MAX {
        Some(digits_value(d) as u32)
    } else {
        None
    }
}

/// Reads a `u32` from its decimal text, as `str::parse::<u32>` does.
pub fn parse_u32(v: &[char]) -> (r: Option<u32>)
    ensures
        r == u32_value(v@),
{
    let start: usize = if v.len() > 0 && v[0] == '+' {
        1
    } else {
        0
    };
    let ghost d = u32_digits(v@);
    assert(d =~= v@.subrange(start as int, v@.len() as int));
    if start >= v.len() {
        return None;
    }
    let mut acc: u64 = 0;
    let mut over = false;
    let mut i: usize = start;
    while i < v.len()
        invariant
            start <= i <= v@.len(),
            start < v@.len(),
            d == u32_digits(v@),
            d == v@.subrange(start as int, v@.len() as int),
            forall|k: int| 0 <= k < i - start ==> is_digit(#[trigger] d[k]),
            over ==> digits_value(d.take(i - start)) > u32::MAX,
            !over ==> acc == digits_value(d.take(i - start)) && acc <= u32::MAX,
        decreases v@.len() - i,
    {
        let c = v[i];
        proof {
            assert(d[i - start] == c);
            assert(d.take(i - start + 1).drop_last() =~= d.take(i - start));
        }
        if !('0' <= c && c <= '9') {
            proof {
                assert(!is_digit(d[i - start]));
                assert(!(forall|k: int| 0 <= k < d.len() ==> is_digit(#[trigger] d[k])));
            }
            return None;
        }
        let digit: u64 = (c as u64) - ('0' as u64);
        if !over {
            let next: u64 = acc * 10 + digit;
            if next > 4294967295 {
                over = true;
            } else {
                acc = next;
            }
        } else {
            proof {
                assert(digits_value(d.take(i - start + 1)) >= digits_value(d.take(i - start)) * 10) by (nonlinear_arith)
                    requires
                        digits_value(d.take(i - start + 1)) == digits_value(d.take(i - start)) * 10 + ((c as nat)
                            - ('0' as nat)) as nat,
                ;
            }
        }
        i = i + 1;
    }
    proof {
        assert(d.take(d.len() as int) =~= d);
    }
    if over {
        None
    } else {
        Some(acc as u32)
    }
}

/// The digits of an `i64` text: after an optional leading `+` or `-`.
pub open spec fn i64_digits(t: Seq<char>) -> Seq<char> {
    if t.len() > 0 && (t[0] == '+' || t[0] == '-') {
        t.subrange(1, t.len() as int)
    } else {
        t
    }
}

/// Whether an `i64` text is negative.
pub open spec fn i64_negative(t: Seq<char>) -> bool {
    t.len() > 0 && t[0] == '-'
}

/// The `i64` a text denotes as `str::parse::<i64>` reads it: an optional
/// sign and one or more decimal digits whose value fits; `None` otherwise.
pub open spec fn i64_value(t: Seq<char>) -> Option<i64> {
    let d = i64_digits(t);
    if d.len() > 0 && (forall|i: int| 0 <= i < d.len() ==> is_digit(#[trigger] d[i])) {
        let v: int = if i64_negative(t) {
            -digits_value(d)
        } else {
            digits_value(d) as int
        };
        if i64::MIN <= v <= i64::MAX {
            Some(v as i64)
        } else {
            None
        }
    } else {
        None
    }
}

/// Reads an `i64` from its decimal text, as `str::parse::<i64>` does.
pub fn parse_i64(v: &[char]) -> (r: Option<i64>)
    ensures
        r == i64_value(v@),
{
    let negative = v.len() > 0 && v[0] == '-';
    let start: usize = if v.len() > 0 && (v[0] == '+' || v[0] == '-') {
        1
    } else {
        0
    };
    let ghost d = i64_digits(v@);
    assert(d =~= v@.subrange(start as int, v@.len() as int));
    if start >= v.len() {
        return None;
    }
    let mut acc: u64 = 0;
    let mut over = false;
    let mut i: usize = start;
    while i < v.len()
        invariant
            start <= i <= v@.len(),
            start < v@.len(),
            d == i64_digits(v@),
            d == v@.subrange(start as int, v@.len() as int),
            forall|k: int| 0 <= k < i - start ==> is_digit(#[trigger] d[k]),
            over ==> digits_value(d.take(i - start)) > 9223372036854775808,
            !over ==> acc == digits_value(d.take(i - start)) && acc <= 9223372036854775808,
        decreases v@.len() - i,
    {
        let c = v[i];
        proof {
            assert(d[i - start] == c);
            assert(d.take(i - start + 1).drop_last() =~= d.take(i - start));
        }
        if !('0' <= c && c <= '9') {
            proof {
                assert(!is_digit(d[i - start]));
                assert(!(forall|k: int| 0 <= k < d.len() ==> is_digit(#[trigger] d[k])));
            }
            return None;
        }
        let digit: u64 = (c as u64) - ('0' as u64);
        if !over {
            if acc > 922337203685477580 || (acc == 922337203685477580 && digit > 8) {
                over = true;
                proof {
                    assert(digits_value(d.take(i - start + 1)) == acc * 10 + digit);
                }
            } else {
                acc = acc * 10 + digit;
            }
        } else {
            proof {
                assert(digits_value(d.take(i - start + 1)) >= digits_value(d.take(i - start)) * 10) by (nonlinear_arith)
                    requires
                        digits_value(d.take(i - start + 1)) == digits_value(d.take(i - start)) * 10 + ((c as nat)
                            - ('0' as nat)) as nat,
                ;
            }
        }
        i = i + 1;
    }
    proof {
        assert(d.take(d.len() as int) =~= d);
    }
    if over {
        None
    } else if negative {
        if acc == 9223372036854775808 {
            Some(i64::MIN)
        } else {
            Some(-(acc as i64))
        }
    } else if acc > 9223372036854775807 {
        None
    } else {
        Some(acc as i64)
    }
}

/// Whether `char::is_alphanumeric` holds of `c` (alphabetic or numeric by
/// the Unicode properties).
pub uninterp spec fn alphanumeric(c: char) -> bool;

/// `char::is_alphanumeric`: whether `c` is alphabetic or numeric. Of ASCII
/// characters exactly the letters and digits are; for other characters the
/// Unicode classification is named, not stated.
#[verifier::external_body]
pub(crate) fn is_alphanumeric(c: char) -> (r: bool)
    ensures
        r == alphanumeric(c),
        (c as u32) < 128 ==> (r <==> (('a' <= c && c <= 'z') || ('A' <= c && c <= 'Z') || ('0' <= c && c <= '9'))),
{
    c.is_alphanumeric()
}

/// A join of words is empty exactly when there are no words.
pub proof fn lemma_join_empty_iff(parts: Seq<Seq<char>>, sep: Seq<char>)
    requires
        sep.len() > 0,
        forall|i: int| 0 <= i < parts.len() ==> #[trigger] parts[i].len() > 0,
    ensures
        (join_seq(parts, sep).len() == 0) == (parts.len() == 0),
    decreases parts.len(),
{
    if parts.len() > 1 {
        lemma_join_empty_iff(parts.drop_last(), sep);
    }
}

/// Every word is non-empty.
pub proof fn lemma_words_nonempty_parts(s: Seq<char>)
    ensures
        forall|i: int| 0 <= i < words(s).len() ==> #[trigger] words(s)[i].len() > 0,
    decreases s.len(),
{
    if s.len() > 0 {
        lemma_words_nonempty_parts(s.drop_last());
        let prev = words(s.drop_last());
        let c = s.last();
        if is_ws(c) {
        } else if s.len() > 1 && !is_ws(s[s.len() - 2]) {
            assert(s.drop_last().last() == s[s.len() - 2]);
            lemma_words_nonempty(s.drop_last());
            let q = prev.update(prev.len() - 1, prev.last().push(c));
            assert forall|i: int| 0 <= i < q.len() implies #[trigger] q[i].len() > 0 by {
                if i < prev.len() - 1 {
                    assert(q[i] == prev[i]);
                }
            }
        } else {
            let q = prev.push(seq![c]);
            assert forall|i: int| 0 <= i < q.len() implies #[trigger] q[i].len() > 0 by {
                if i < prev.len() {
                    assert(q[i] == prev[i]);
                }
            }
        }
    }
}

/// The pieces of `s` between occurrences of `sep` (what `str::split` yields):
/// one more piece than there are separators.
pub open spec fn split_on(s: Seq<char>, sep: char) -> Seq<Seq<char>>
    decreases s.len(),
{
    if s.len() == 0 {
        seq![Seq::empty()]
    } else {
        let prev = split_on(s.drop_last(), sep);
        if s.last() == sep {
            prev.push(Seq::empty())
        } else {
            prev.update(prev.len() - 1, prev.last().push(s.last()))
        }
    }
}

/// Splitting always yields at least one piece.
pub proof fn lemma_split_nonempty(s: Seq<char>, sep: char)
    ensures
        split_on(s, sep).len() >= 1,
    decreases s.len(),
{
    if s.len() > 0 {
        lemma_split_nonempty(s.drop_last(), sep);
    }
}

/// The character views of a sequence of character vectors.
pub open spec fn char_views(parts: Seq<Vec<char>>) -> Seq<Seq<char>> {
    parts.map_values(|v: Vec<char>| v@)
}

/// Appends `parts` joined by the single character `sep` to `out`.
pub fn push_joined_chars(out: &mut Vec<char>, parts: &Vec<Vec<char>>, sep: &[char])
    ensures
        final(out)@ == old(out)@ + join_seq(char_views(parts@), sep@),
{
    let mut i: usize = 0;
    while i < parts.len()
        invariant
            i <= parts@.len(),
            out@ == old(out)@ + join_seq(char_views(parts@.subrange(0, i as int)), sep@),
        decreases parts@.len() - i,
    {
        let ghost before = char_views(parts@.subrange(0, i as int));
        if i > 0 {
            push_all(out, sep);
        }
        push_all(out, parts[i].as_slice());
        proof {
            let after = char_views(parts@.subrange(0, i + 1));
            assert(after.drop_last() =~= before);
            assert(after.last() == parts@[i as int]@);
        }
        i = i + 1;
    }
    assert(parts@.subrange(0, parts@.len() as int) == parts@);
}

/// Index of the first non-whitespace character of `v` at or after `lo`.
pub fn skip_ws(v: &[char], lo: usize) -> (r: usize)
    requires
        lo <= v@.len(),
    ensures
        lo <= r <= v@.len(),
        v@.subrange(r as int, v@.len() as int) == trim_start(v@.subrange(lo as int, v@.len() as int)),
{
    let mut i = lo;
    while i < v.len() && is_whitespace(v[i])
        invariant
            lo <= i <= v@.len(),
            trim_start(v@.subrange(lo as int, v@.len() as int)) == trim_start(
                v@.subrange(i as int, v@.len() as int),
            ),
        decreases v@.len() - i,
    {
        assert(v@.subrange(i as int, v@.len() as int).drop_first() == v@.subrange(
            i + 1,
            v@.len() as int,
        ));
        i = i + 1;
    }
    i
}

/// Whether the text of `v` from `i` on starts with the literal `lit`.
pub fn starts_with_literal_at(v: &[char], i: usize, lit: &str) -> (r: bool)
    requires
        i <= v@.len(),
    ensures
        r == has_prefix(v@.subrange(i as int, v@.len() as int), lit@),
{
    let l = chars_of(lit);
    let r = matches_at(v, i, l.as_slice());
    proof {
        let t = v@.subrange(i as int, v@.len() as int);
        if l@.len() <= t.len() {
            assert(t.subrange(0, l@.len() as int) == v@.subrange(i as int, i + l@.len()));
        }
    }
    r
}

/// A line without the carriage return of a `\r\n` ending.
pub open spec fn strip_cr(l: Seq<char>) -> Seq<char> {
    if l.len() > 0 && l.last() == '\r' {
        l.drop_last()
    } else {
        l
    }
}

/// The lines of `s` as `str::lines` yields them: split at `\n`, a `\r` before
/// the `\n` removed, and no empty line after a final `\n`.
pub open spec fn text_lines(s: Seq<char>) -> Seq<Seq<char>> {
    let p = split_on(s, '\n');
    p.drop_last().map_values(|l: Seq<char>| strip_cr(l)) + (if p.last().len() > 0 {
        seq![p.last()]
    } else {
        Seq::empty()
    })
}

/// Copies `v[lo..hi]` into a new vector.
pub fn copy_range(v: &[char], lo: usize, hi: usize) -> (r: Vec<char>)
    requires
        lo <= hi <= v@.len(),
    ensures
        r@ == v@.subrange(lo as int, hi as int),
{
    let mut r: Vec<char> = Vec::new();
    let mut i = lo;
    while i < hi
        invariant
            lo <= i <= hi <= v@.len(),
            r@ == v@.subrange(lo as int, i as int),
        decreases hi - i,
    {
        r.push(v[i]);
        i = i + 1;
    }
    r
}

/// The lines of `v` (see `text_lines`).
pub fn lines_of(v: &[char]) -> (r: Vec<Vec<char>>)
    ensures
        char_views(r@) == text_lines(v@),
{
    let mut out: Vec<Vec<char>> = Vec::new();
    let mut cur: Vec<char> = Vec::new();
    let mut i: usize = 0;
    while i < v.len()
        invariant
            i <= v@.len(),
            split_on(v@.subrange(0, i as int), '\n').len() >= 1,
            char_views(out@) == split_on(v@.subrange(0, i as int), '\n').drop_last().map_values(
                |l: Seq<char>| strip_cr(l),
            ),
            cur@ == split_on(v@.subrange(0, i as int), '\n').last(),
        decreases v@.len() - i,
    {
        let c = v[i];
        let ghost pre = v@.subrange(0, i as int);
        let ghost post = v@.subrange(0, i + 1);
        proof {
            assert(post.drop_last() == pre);
            assert(post.last() == c);
        }
        if c == '\n' {
            let n = cur.len();
            if n > 0 && cur[n - 1] == '\r' {
                cur.pop();
            }
            let ghost old_out = out@;
            out.push(cur);
            proof {
                let sp = split_on(pre, '\n');
                let sq = split_on(post, '\n');
                let f = |l: Seq<char>| strip_cr(l);
                assert(sq.drop_last() == sp);
                assert(char_views(out@) == char_views(old_out).push(out@.last()@));
                assert(sp.map_values(f) == sp.drop_last().map_values(f).push(strip_cr(sp.last())));
            }
            cur = Vec::new();
        } else {
            cur.push(c);
            proof {
                let sp = split_on(pre, '\n');
                let sq = split_on(post, '\n');
                assert(sq.drop_last() == sp.drop_last());
            }
        }
        i = i + 1;
    }
    assert(v@.subrange(0, v@.len() as int) == v@);
    if cur.len() > 0 {
        let ghost old_out = out@;
        out.push(cur);
        assert(char_views(out@) == char_views(old_out).push(out@.last()@));
    } else {
        assert(char_views(out@) == char_views(out@) + Seq::<Seq<char>>::empty());
    }
    out
}

/// The number of consecutive characters equal to `c` starting at `i`.
pub open spec fn lead_from(t: Seq<char>, i: int, c: char) -> nat
    decreases t.len() - i,
{
    if 0 <= i < t.len() && t[i] == c {
        1 + lead_from(t, i + 1, c)
    } else {
        0
    }
}

/// The number of consecutive characters equal to `c` ending just before `j`.
pub open spec fn trail_from(t: Seq<char>, j: int, c: char) -> nat
    decreases j,
{
    if 0 < j <= t.len() && t[j - 1] == c {
        1 + trail_from(t, j - 1, c)
    } else {
        0
    }
}

/// The length of the run of `c` at the start of `t`.
pub fn count_leading(t: &[char], c: char) -> (r: usize)
    ensures
        r == lead_from(t@, 0, c),
        r <= t@.len(),
{
    let mut i: usize = 0;
    while i < t.len() && t[i] == c
        invariant
            i <= t@.len(),
            lead_from(t@, 0, c) == i + lead_from(t@, i as int, c),
        decreases t@.len() - i,
    {
        i = i + 1;
    }
    i
}

/// The length of the run of `c` at the end of `t`.
pub fn count_trailing(t: &[char], c: char) -> (r: usize)
    ensures
        r == trail_from(t@, t@.len() as int, c),
        r <= t@.len(),
{
    let n = t.len();
    let mut j: usize = n;
    while j > 0 && t[j - 1] == c
        invariant
            j <= n == t@.len(),
            trail_from(t@, n as int, c) == (n - j) + trail_from(t@, j as int, c),
        decreases j,
    {
        j = j - 1;
    }
    n - j
}

/// The first position at or after `i` where `p` occurs in `s`.
pub open spec fn find_from(s: Seq<char>, p: Seq<char>, i: int) -> Option<int>
    decreases s.len() + 1 - i,
{
    if i < 0 || i + p.len() > s.len() {
        None
    } else if occurs_at(s, p, i) {
        Some(i)
    } else {
        find_from(s, p, i + 1)
    }
}

/// A found position lies at or after the start and holds an occurrence.
pub proof fn lemma_find_from(s: Seq<char>, p: Seq<char>, i: int)
    ensures
        find_from(s, p, i) matches Some(k) ==> i <= k && k + p.len() <= s.len() && occurs_at(s, p, k),
    decreases s.len() + 1 - i,
{
    if !(i < 0 || i + p.len() > s.len()) && !occurs_at(s, p, i) {
        lemma_find_from(s, p, i + 1);
    }
}

/// The first position at or after `from` where the non-empty `p` occurs in `v`.
pub fn find_at(v: &[char], p: &[char], from: usize) -> (r: Option<usize>)
    requires
        p@.len() > 0,
    ensures
        match r {
            Some(k) => find_from(v@, p@, from as int) == Some(k as int),
            None => find_from(v@, p@, from as int) is None,
        },
{
    if p.len() > v.len() {
        return None;
    }
    let last = v.len() - p.len();
    let mut j = from;
    while j <= last
        invariant
            from <= j,
            p@.len() > 0,
            last == v@.len() - p@.len(),
            v@.len() == v.len(),
            find_from(v@, p@, from as int) == find_from(v@, p@, j as int),
        decreases last + 1 - j,
    {
        if matches_at(v, j, p) {
            return Some(j);
        }
        j = j + 1;
    }
    None
}

/// Lengths never grow under trimming.
pub proof fn lemma_trim_len(s: Seq<char>)
    ensures
        trim_start(s).len() <= s.len(),
        trim_end(s).len() <= s.len(),
        trim(s).len() <= s.len(),
{
    lemma_trim_start_len(s);
    lemma_trim_end_len(s);
    lemma_trim_end_len(trim_start(s));
}

proof fn lemma_trim_start_len(s: Seq<char>)
    ensures
        trim_start(s).len() <= s.len(),
    decreases s.len(),
{
    if s.len() > 0 {
        lemma_trim_start_len(s.drop_first());
    }
}

proof fn lemma_trim_end_len(s: Seq<char>)
    ensures
        trim_end(s).len() <= s.len(),
    decreases s.len(),
{
    if s.len() > 0 {
        lemma_trim_end_len(s.drop_last());
    }
}

/// The pieces of `v` between occurrences of `sep` (see `split_on`).
pub fn split_chars(v: &[char], sep: char) -> (r: Vec<Vec<char>>)
    ensures
        char_views(r@) == split_on(v@, sep),
{
    let mut out: Vec<Vec<char>> = Vec::new();
    let mut cur: Vec<char> = Vec::new();
    let mut i: usize = 0;
    while i < v.len()
        invariant
            i <= v@.len(),
            split_on(v@.subrange(0, i as int), sep).len() >= 1,
            char_views(out@) == split_on(v@.subrange(0, i as int), sep).drop_last(),
            cur@ == split_on(v@.subrange(0, i as int), sep).last(),
        decreases v@.len() - i,
    {
        let c = v[i];
        let ghost pre = v@.subrange(0, i as int);
        let ghost post = v@.subrange(0, i + 1);
        proof {
            assert(post.drop_last() == pre);
            assert(post.last() == c);
        }
        if c == sep {
            let ghost old_out = out@;
            out.push(cur);
            proof {
                let sp = split_on(pre, sep);
                assert(split_on(post, sep).drop_last() == sp);
                assert(char_views(out@) == char_views(old_out).push(out@.last()@));
                assert(sp.drop_last().push(sp.last()) == sp);
            }
            cur = Vec::new();
        } else {
            cur.push(c);
            proof {
                assert(split_on(post, sep).drop_last() == split_on(pre, sep).drop_last());
            }
        }
        i = i + 1;
    }
    assert(v@.subrange(0, v@.len() as int) == v@);
    let ghost old_out = out@;
    out.push(cur);
    proof {
        let sp = split_on(v@, sep);
        assert(char_views(out@) == char_views(old_out).push(out@.last()@));
        assert(sp.drop_last().push(sp.last()) == sp);
    }
    out
}

/// `v` with surrounding whitespace removed.
pub fn trimmed_chars(v: &[char]) -> (r: Vec<char>)
    ensures
        r@ == trim(v@),
{
    let (a, b) = trim_bounds(v, 0, v.len());
    assert(v@.subrange(0, v@.len() as int) == v@);
    copy_range(v, a, b)
}

/// The text `prefix` followed by `tail`.
pub fn concat_text(prefix: &str, tail: &[char]) -> (r: String)
    ensures
        r@ == prefix@ + tail@,
{
    let mut m = chars_of(prefix);
    push_all(&mut m, tail);
    string_of(m.as_slice())
}

/// `s` without its leading run of `c`.
pub open spec fn strip_lead_char(s: Seq<char>, c: char) -> Seq<char> {
    s.subrange(lead_from(s, 0, c) as int, s.len() as int)
}

/// `s` without its trailing run of `c`.
pub open spec fn strip_trail_char(s: Seq<char>, c: char) -> Seq<char> {
    s.subrange(0, s.len() - trail_from(s, s.len() as int, c))
}

/// `s` without the repetitions of `p` at its start.
pub open spec fn strip_lead_pat(s: Seq<char>, p: Seq<char>) -> Seq<char>
    decreases s.len(),
{
    if p.len() > 0 && has_prefix(s, p) {
        strip_lead_pat(s.subrange(p.len() as int, s.len() as int), p)
    } else {
        s
    }
}

/// `s` without the repetitions of `p` at its end.
pub open spec fn strip_trail_pat(s: Seq<char>, p: Seq<char>) -> Seq<char>
    decreases s.len(),
{
    if p.len() > 0 && has_suffix(s, p) {
        strip_trail_pat(s.subrange(0, s.len() - p.len()), p)
    } else {
        s
    }
}

/// `v` without its leading run of `c` (`trim_start_matches` with a character).
pub fn trim_start_char(v: &[char], c: char) -> (r: Vec<char>)
    ensures
        r@ == strip_lead_char(v@, c),
{
    let l = count_leading(v, c);
    copy_range(v, l, v.len())
}

/// `v` without its trailing run of `c` (`trim_end_matches` with a character).
pub fn trim_end_char(v: &[char], c: char) -> (r: Vec<char>)
    ensures
        r@ == strip_trail_char(v@, c),
{
    let t = count_trailing(v, c);
    copy_range(v, 0, v.len() - t)
}

/// `v` without the repetitions of the non-empty `p` at its start.
pub fn trim_start_pat(v: &[char], p: &[char]) -> (r: Vec<char>)
    requires
        p@.len() > 0,
    ensures
        r@ == strip_lead_pat(v@, p@),
{
    let mut i: usize = 0;
    assert(v@.subrange(0, v@.len() as int) == v@);
    while matches_at(v, i, p)
        invariant
            i <= v@.len(),
            v@.len() == v.len(),
            p@.len() > 0,
            strip_lead_pat(v@, p@) == strip_lead_pat(v@.subrange(i as int, v@.len() as int), p@),
        decreases v@.len() - i,
    {
        proof {
            let s = v@.subrange(i as int, v@.len() as int);
            assert(s.subrange(0, p@.len() as int) == v@.subrange(i as int, i + p@.len()));
            assert(s.subrange(p@.len() as int, s.len() as int) == v@.subrange(i + p@.len(), v@.len() as int));
        }
        i = i + p.len();
    }
    proof {
        let s = v@.subrange(i as int, v@.len() as int);
        if has_prefix(s, p@) {
            assert(s.subrange(0, p@.len() as int) == v@.subrange(i as int, i + p@.len()));
        }
    }
    copy_range(v, i, v.len())
}

/// `v` without the repetitions of the non-empty `p` at its end.
pub fn trim_end_pat(v: &[char], p: &[char]) -> (r: Vec<char>)
    requires
        p@.len() > 0,
    ensures
        r@ == strip_trail_pat(v@, p@),
{
    let mut j: usize = v.len();
    assert(v@.subrange(0, v@.len() as int) == v@);
    while j >= p.len() && matches_at(v, j - p.len(), p)
        invariant
            j <= v@.len(),
            p@.len() > 0,
            strip_trail_pat(v@, p@) == strip_trail_pat(v@.subrange(0, j as int), p@),
        decreases j,
    {
        proof {
            let s = v@.subrange(0, j as int);
            assert(s.subrange(s.len() - p@.len(), s.len() as int) == v@.subrange(j - p@.len(), j as int));
            assert(s.subrange(0, s.len() - p@.len()) == v@.subrange(0, j - p@.len()));
        }
        j = j - p.len();
    }
    proof {
        let s = v@.subrange(0, j as int);
        if has_suffix(s, p@) {
            assert(s.subrange(s.len() - p@.len(), s.len() as int) == v@.subrange(j - p@.len(), j as int));
        }
    }
    copy_range(v, 0, j)
}

/// The character of a decimal digit `d < 10`.
pub open spec fn digit_char(d: nat) -> char {
    ((48 + d) as u8) as char
}

/// Decimal rendering of a natural number.
pub open spec fn decimal(n: nat) -> Seq<char>
    decreases n,
{
    if n < 10 {
        seq![digit_char(n)]
    } else {
        decimal(n / 10).push(digit_char(n % 10))
    }
}

/// Decimal rendering of an integer, with a leading `-` when negative.
pub open spec fn int_text(n: int) -> Seq<char> {
    if n < 0 {
        seq!['-'] + decimal((-n) as nat)
    } else {
        decimal(n as nat)
    }
}

/// Appends the decimal digits of `n`.
pub fn push_decimal_u64(n: u64, out: &mut Vec<char>)
    ensures
        final(out)@ == old(out)@ + decimal(n as nat),
    decreases n,
{
    if n >= 10 {
        push_decimal_u64(n / 10, out);
    }
    let d = (n % 10) as u8;
    out.push((48u8 + d) as char);
}

/// Appends the decimal rendering of `n` (what `i64::to_string` gives).
pub fn push_int(n: i64, out: &mut Vec<char>)
    ensures
        final(out)@ == old(out)@ + int_text(n as int),
{
    if n < 0 {
        out.push('-');
        let m: u64 = if n == i64::MIN {
            9223372036854775808u64
        } else {
            (-n) as u64
        };
        let ghost mid = out@;
        push_decimal_u64(m, out);
        assert(out@ == old(out)@ + (seq!['-'] + decimal((-(n as int)) as nat)));
    } else {
        push_decimal_u64(n as u64, out);
    }
}

} // verus!
