//! Decisions of the command-line front end: which parse attempt explains a
//! diagram no parser accepted, and which inputs a fault-tree run takes.
use vstd::prelude::*;
use crate::text::{
    chars_of, string_of, push_all, push_joined, join_seq, views, text_lines, trim, trim_start, trim_end, trimmed_chars,
    lines_of, char_views, decimal, push_decimal_u64,
};

verus! {

/// One failed attempt to parse a diagram: the parser's name, its error
/// message, and the (line, column) where it stopped, if it reports one.
#[derive(Debug, Clone, PartialEq)]
pub struct ParseAttempt {
    pub parser: String,
    pub error: String,
    pub location: Option<(usize, usize)>,
}

/// The line an attempt reached (0 without a location).
pub open spec fn attempt_line(a: ParseAttempt) -> nat {
    match a.location {
        Some(loc) => loc.0 as nat,
        None => 0,
    }
}

/// Whether an attempt's location, if any, counts lines from 1.
pub open spec fn line_based(a: ParseAttempt) -> bool {
    match a.location {
        Some(loc) => loc.0 >= 1,
        None => true,
    }
}

/// The index of the attempt that reached the furthest line; of several, the
/// last one. `-1` when there is no attempt.
pub open spec fn best_attempt(atts: Seq<ParseAttempt>) -> int
    decreases atts.len(),
{
    if atts.len() == 0 {
        -1
    } else {
        let p = best_attempt(atts.drop_last());
        if p < 0 || attempt_line(atts.last()) >= attempt_line(atts[p]) {
            atts.len() - 1
        } else {
            p
        }
    }
}

/// The names of the parsers tried.
pub open spec fn parser_names(atts: Seq<ParseAttempt>) -> Seq<Seq<char>> {
    atts.map_values(|a: ParseAttempt| a.parser@)
}

/// Line `n` (1-based) of `content`, trimmed, or `<unknown>` past the end.
pub open spec fn source_line(content: Seq<char>, n: nat) -> Seq<char> {
    let ls = text_lines(content);
    if 1 <= n <= ls.len() {
        trim(ls[n - 1])
    } else {
        "<unknown>"@
    }
}

/// The explanation appended to the failure: the parsers tried, the one with
/// the longest match, where it failed and why.
pub open spec fn failure_detail(content: Seq<char>, atts: Seq<ParseAttempt>) -> Seq<char> {
    let b = best_attempt(atts);
    if b < 0 {
        Seq::empty()
    } else {
        let a = atts[b];
        let head = "\n  Parsers tried: "@ + join_seq(parser_names(atts), ", "@)
            + "\n  Parser with longest match: "@ + a.parser@;
        match a.location {
            Some(loc) => head + "\n  Failed at line "@ + decimal(loc.0 as nat) + ": "@ + source_line(
                content,
                loc.0 as nat,
            ) + "\n  Error: "@ + a.error@,
            None => head + "\n  Error: "@ + a.error@,
        }
    }
}

/// The error reported when no parser accepts the diagram at `path`.
pub open spec fn failure_message(path: Seq<char>, content: Seq<char>, atts: Seq<ParseAttempt>) -> Seq<char> {
    "Failed to parse "@ + path + " with any available parser"@ + failure_detail(content, atts)
}

/// The index of the attempt that reached the furthest line (see `best_attempt`).
fn best_attempt_index(atts: &Vec<ParseAttempt>) -> (r: Option<usize>)
    ensures
        match r {
            Some(i) => best_attempt(atts@) == i as int && i < atts@.len(),
            None => best_attempt(atts@) < 0,
        },
{
    let mut best: Option<usize> = None;
    let mut best_line: usize = 0;
    let mut i: usize = 0;
    while i < atts.len()
        invariant
            i <= atts@.len(),
            match best {
                Some(b) => best_attempt(atts@.subrange(0, i as int)) == b as int && b < i
                    && best_line == attempt_line(atts@[b as int]),
                None => best_attempt(atts@.subrange(0, i as int)) < 0 && i == 0,
            },
        decreases atts@.len() - i,
    {
        let line: usize = match atts[i].location {
            Some(loc) => loc.0,
            None => 0,
        };
        proof {
            let s = atts@.subrange(0, i + 1);
            assert(s.drop_last() == atts@.subrange(0, i as int));
            assert(s.last() == atts@[i as int]);
            if let Some(b) = best {
                assert(s[b as int] == atts@[b as int]);
            }
        }
        match best {
            None => {
                best = Some(i);
                best_line = line;
            },
            Some(_) => {
                if line >= best_line {
                    best = Some(i);
                    best_line = line;
                }
            },
        }
        i = i + 1;
    }
    assert(atts@.subrange(0, atts@.len() as int) == atts@);
    best
}

/// The error of `parse_in_order` when every parser rejected the diagram at
/// `path` (its text `content`): which parsers were tried, which got furthest,
/// the source line it stopped at and its error.
pub fn parse_failure_message(path: &str, content: &str, attempts: &Vec<ParseAttempt>) -> (r: String)
    requires
        forall|k: int| 0 <= k < attempts@.len() ==> line_based(#[trigger] attempts@[k]),
    ensures
        r@ == failure_message(path@, content@, attempts@),
{
    let mut out = chars_of("Failed to parse ");
    let pv = chars_of(path);
    push_all(&mut out, &pv);
    let tail = chars_of(" with any available parser");
    push_all(&mut out, &tail);
    let ghost prefix = out@;
    match best_attempt_index(attempts) {
        None => {},
        Some(b) => {
            let a = &attempts[b];
            let mut names: Vec<String> = Vec::new();
            let mut k: usize = 0;
            while k < attempts.len()
                invariant
                    k <= attempts@.len(),
                    views(names@) == parser_names(attempts@.subrange(0, k as int)),
                decreases attempts@.len() - k,
            {
                let ghost before = names@;
                names.push(attempts[k].parser.clone());
                assert(views(names@) == views(before).push(attempts@[k as int].parser@));
                assert(parser_names(attempts@.subrange(0, k + 1)) == parser_names(
                    attempts@.subrange(0, k as int),
                ).push(attempts@[k as int].parser@));
                k = k + 1;
            }
            assert(attempts@.subrange(0, attempts@.len() as int) == attempts@);
            let t1 = chars_of("\n  Parsers tried: ");
            push_all(&mut out, &t1);
            push_joined(&mut out, &names, ", ");
            let t2 = chars_of("\n  Parser with longest match: ");
            push_all(&mut out, &t2);
            let nv = chars_of(a.parser.as_str());
            push_all(&mut out, &nv);
            match a.location {
                Some(loc) => {
                    let line_no = loc.0;
                    assert(line_based(attempts@[b as int]));
                    let t3 = chars_of("\n  Failed at line ");
                    push_all(&mut out, &t3);
                    push_decimal_u64(line_no as u64, &mut out);
                    let t4 = chars_of(": ");
                    push_all(&mut out, &t4);
                    let cv = chars_of(content);
                    let lines = lines_of(cv.as_slice());
                    if line_no - 1 < lines.len() {
                        assert(char_views(lines@)[line_no - 1] == lines@[line_no - 1]@);
                        let t = trimmed_chars(lines[line_no - 1].as_slice());
                        push_all(&mut out, &t);
                    } else {
                        let u = chars_of("<unknown>");
                        proof {
                            reveal_strlit("<unknown>");
                            assert(trim_start("<unknown>"@) == "<unknown>"@);
                            assert(trim_end("<unknown>"@) == "<unknown>"@);
                        }
                        push_all(&mut out, &u);
                    }
                },
                None => {},
            }
            let t5 = chars_of("\n  Error: ");
            push_all(&mut out, &t5);
            let ev = chars_of(a.error.as_str());
            push_all(&mut out, &ev);
        },
    }
    string_of(out.as_slice())
}

/// What `{:?}` renders of a string: the string in double quotes, with
/// escapes.
pub uninterp spec fn str_debug(s: Seq<char>) -> Seq<char>;

/// Whether `s` is made of printable ASCII characters other than `"` and a backslash,
/// which `{:?}` renders as they are.
pub open spec fn plain_ascii(s: Seq<char>) -> bool {
    forall|i: int|
        0 <= i < s.len() ==> ' ' <= #[trigger] s[i] <= '~' && s[i] != '"' && s[i] != '\\'
}

/// The `Debug` rendering of `s`, as `format!("{:?}", s)` gives it: the name of
/// the result, and, for printable ASCII text without `"` or a backslash, that text in
/// double quotes (escapes and non-printable characters are not stated).
#[verifier::external_body]
fn debug_text(s: &str) -> (r: String)
    ensures
        r@ == str_debug(s@),
        plain_ascii(s@) ==> r@ == seq!['"'] + s@ + seq!['"'],
{
    format!("{:?}", s)
}

/// The fault-tree inputs to process, by index into `names` (their basenames
/// in processing order): every one but the metamodel. `Err` holds the first
/// basename that repeats.
pub open spec fn fta_plan(names: Seq<Seq<char>>) -> Result<Seq<int>, Seq<char>>
    decreases names.len(),
{
    if names.len() == 0 {
        Ok(Seq::empty())
    } else {
        match fta_plan(names.drop_last()) {
            Err(d) => Err(d),
            Ok(idx) => {
                let n = names.last();
                if n == "fta_metamodel.puml"@ {
                    Ok(idx)
                } else if exists|k: int| 0 <= k < idx.len() && names[#[trigger] idx[k]] == n {
                    Err(n)
                } else {
                    Ok(idx.push(names.len() - 1))
                }
            },
        }
    }
}

/// The error of a basename that two inputs share.
pub open spec fn duplicate_basename_message(name: Seq<char>, output_dir: Seq<char>) -> Seq<char> {
    "duplicate FTA diagram basename "@ + str_debug(name)
        + ": inputs in different directories would be indistinguishable in "@ + output_dir
}

/// Which inputs a fault-tree run processes, given their basenames in
/// processing order: all but the metamodel (`fta_metamodel.puml`, which only
/// defines procedures). Two inputs with the same basename cannot be told
/// apart in the outputs written to `output_dir`: that is an error.
pub fn fta_inputs(basenames: &Vec<String>, output_dir: &str) -> (r: Result<Vec<usize>, String>)
    ensures
        match fta_plan(views(basenames@)) {
            Ok(idx) => r matches Ok(v) && v@.len() == idx.len() && forall|k: int|
                0 <= k < idx.len() ==> v@[k] as int == #[trigger] idx[k],
            Err(d) => r matches Err(m) && m@ == duplicate_basename_message(d, output_dir@),
        },
{
    let ghost names = views(basenames@);
    let meta = "fta_metamodel.puml".to_owned();
    let mut out: Vec<usize> = Vec::new();
    let mut i: usize = 0;
    while i < basenames.len()
        invariant
            i <= basenames@.len(),
            names == views(basenames@),
            meta@ == "fta_metamodel.puml"@,
            fta_plan(names.subrange(0, i as int)) matches Ok(idx) && out@.len() == idx.len() && forall|k: int|
                0 <= k < idx.len() ==> out@[k] as int == #[trigger] idx[k] && 0 <= idx[k] < i,
        decreases basenames@.len() - i,
    {
        let ghost pre = names.subrange(0, i as int);
        let ghost post = names.subrange(0, i + 1);
        let ghost idx = fta_plan(pre)->Ok_0;
        proof {
            assert(post.drop_last() == pre);
            assert(post.last() == basenames@[i as int]@);
        }
        let n = &basenames[i];
        if *n == meta {
            i = i + 1;
            continue;
        }
        let mut k: usize = 0;
        let mut dup = false;
        while k < out.len()
            invariant
                k <= out@.len(),
                out@.len() == idx.len(),
                forall|m: int| 0 <= m < idx.len() ==> out@[m] as int == #[trigger] idx[m] && 0 <= idx[m] < i,
                i < basenames@.len(),
                names == views(basenames@),
                !dup ==> forall|m: int| 0 <= m < k ==> names[#[trigger] idx[m]] != n@,
                dup ==> exists|m: int| 0 <= m < idx.len() && names[#[trigger] idx[m]] == n@,
            decreases out@.len() - k,
        {
            assert(out@[k as int] as int == idx[k as int]);
            if basenames[out[k]] == *n {
                assert(names[idx[k as int]] == n@);
                dup = true;
            }
            k = k + 1;
        }
        proof {
            assert forall|m: int| 0 <= m < idx.len() implies post[#[trigger] idx[m]] == names[idx[m]] by {}
        }
        if dup {
            let d = debug_text(n.as_str());
            let mut msg = chars_of("duplicate FTA diagram basename ");
            let dv = chars_of(d.as_str());
            push_all(&mut msg, &dv);
            let t = chars_of(": inputs in different directories would be indistinguishable in ");
            push_all(&mut msg, &t);
            let ov = chars_of(output_dir);
            push_all(&mut msg, &ov);
            proof {
                lemma_fta_plan_err_sticks(names, i as int + 1);
                assert(names.subrange(0, basenames@.len() as int) == names);
            }
            return Err(string_of(msg.as_slice()));
        }
        out.push(i);
        i = i + 1;
    }
    assert(names.subrange(0, basenames@.len() as int) == names);
    Ok(out)
}

/// A repeated basename stays the error as more inputs follow.
proof fn lemma_fta_plan_err_sticks(names: Seq<Seq<char>>, i: int)
    requires
        0 <= i <= names.len(),
        fta_plan(names.subrange(0, i)) is Err,
    ensures
        fta_plan(names) == fta_plan(names.subrange(0, i)),
    decreases names.len() - i,
{
    if i < names.len() {
        let post = names.subrange(0, i + 1);
        assert(post.drop_last() == names.subrange(0, i));
        lemma_fta_plan_err_sticks(names, i + 1);
    } else {
        assert(names.subrange(0, i) == names);
    }
}

} // verus!
