//! Builds the include layer of a PlantUML file from the parse tree the
//! include grammar produces.
use vstd::prelude::*;
use crate::parser_core::parse_tree::{
    ParseNode, Rule, find_first, find_last, first_with, last_with, lemma_first_with, lemma_last_with,
    lemma_take_step, text_with,
};
use crate::preprocessor::include_ast::{
    FileView, IncludeFile, IncludeKind, IncludeStmt, IncludeSuffix, StmtView, SubBlock, SuffixView, file_view,
    file_views, include_stmt_view, lemma_sub_block_view, suffix_view,
};
use crate::text::{
    chars_of, has_prefix, is_literal, parse_u32, starts_with_literal, string_of, trim, trim_start, trimmed_chars,
    u32_value,
};

verus! {

/// Why the include layer of a file could not be read.
#[derive(Debug, Clone, PartialEq)]
pub enum IncludeParseError {
    /// A text line that starts with an include keyword but is no directive.
    InvalidTextLine { line: String, file: String },
}

/// The kind an include keyword names.
pub open spec fn keyword_kind(t: Seq<char>) -> Option<IncludeKind> {
    if t == "!include"@ {
        Some(IncludeKind::Include)
    } else if t == "!include_once"@ {
        Some(IncludeKind::IncludeOnce)
    } else if t == "!include_many"@ {
        Some(IncludeKind::IncludeMany)
    } else {
        None
    }
}

/// `!include`, `!include_once` and `!include_many` name the plain, once-only
/// and repeatable includes, and no other keyword names any.
pub proof fn lemma_include_keywords(t: Seq<char>)
    ensures
        keyword_kind(t) == Some(IncludeKind::Include) <==> (t == "!include"@),
        keyword_kind(t) == Some(IncludeKind::IncludeOnce) <==> (t == "!include_once"@),
        keyword_kind(t) == Some(IncludeKind::IncludeMany) <==> (t == "!include_many"@),
        keyword_kind(t) is None <==> !(t == "!include"@ || t == "!include_once"@ || t == "!include_many"@),
{
    reveal_strlit("!include");
    reveal_strlit("!include_once");
    reveal_strlit("!include_many");
    assert("!include"@ != "!include_once"@) by {
        assert("!include"@.len() == 8 && "!include_once"@.len() == 13);
    }
    assert("!include"@ != "!include_many"@) by {
        assert("!include"@.len() == 8 && "!include_many"@.len() == 13);
    }
    assert("!include_once"@ != "!include_many"@) by {
        assert("!include_once"@[9] != "!include_many"@[9]);
    }
}

/// Whether an include directive has the shape the grammar gives it: only
/// known keywords and paths, with at least one of each.
pub open spec fn directive_ok(d: ParseNode) -> bool {
    &&& forall|k: int|
        0 <= k < d.children@.len() ==> ((#[trigger] d.children@[k]).rule == Rule::include_keyword && keyword_kind(
            d.children@[k].text@,
        ) is Some) || d.children@[k].rule == Rule::include_path
    &&& text_with(d.children@, Rule::include_keyword) is Some
    &&& text_with(d.children@, Rule::include_path) is Some
}

/// The kind of the last keyword and the trimmed last path of an include directive.
pub open spec fn directive_model(d: ParseNode) -> (IncludeKind, Seq<char>) {
    (
        keyword_kind(text_with(d.children@, Rule::include_keyword)->Some_0)->Some_0,
        trim(text_with(d.children@, Rule::include_path)->Some_0),
    )
}

/// Whether a sub block selector has the shape the grammar gives it: an index
/// that fits a `u32`, or a label.
pub open spec fn suffix_ok(s: ParseNode) -> bool {
    &&& s.children@.len() > 0
    &&& {
        let c = s.children@[0];
        (c.rule == Rule::include_index && u32_value(c.text@) is Some) || c.rule == Rule::include_label
    }
}

/// The selector a suffix match denotes: its first part, as index or label.
pub open spec fn suffix_model(s: ParseNode) -> SuffixView {
    let c = s.children@[0];
    if c.rule == Rule::include_index {
        SuffixView::Index(u32_value(c.text@)->Some_0)
    } else {
        SuffixView::Label(c.text@)
    }
}

/// Whether an `!includesub` directive has the shape the grammar gives it:
/// only paths and well-shaped selectors, with at least one of each.
pub open spec fn sub_directive_ok(d: ParseNode) -> bool {
    &&& forall|k: int|
        0 <= k < d.children@.len() ==> (#[trigger] d.children@[k]).rule == Rule::include_path || (
        d.children@[k].rule == Rule::include_suffix && suffix_ok(d.children@[k]))
    &&& text_with(d.children@, Rule::include_path) is Some
    &&& last_with(d.children@, Rule::include_suffix) is Some
}

/// The trimmed last path and last selector of an `!includesub` directive.
pub open spec fn sub_directive_model(d: ParseNode) -> (Seq<char>, SuffixView) {
    let cs = d.children@;
    (trim(text_with(cs, Rule::include_path)->Some_0), suffix_model(cs[last_with(cs, Rule::include_suffix)->Some_0]))
}

/// Whether an include line holds a well-shaped include directive.
pub open spec fn include_line_ok(n: ParseNode) -> bool {
    first_with(n.children@, Rule::include_directive) matches Some(i) && directive_ok(n.children@[i])
}

/// Whether an includesub line holds a well-shaped `!includesub` directive.
pub open spec fn includesub_line_ok(n: ParseNode) -> bool {
    first_with(n.children@, Rule::includesub_directive) matches Some(i) && sub_directive_ok(n.children@[i])
}

/// The directive an include line denotes.
pub open spec fn include_line_model(n: ParseNode) -> StmtView {
    let d = directive_model(n.children@[first_with(n.children@, Rule::include_directive)->Some_0]);
    StmtView::Include(d.0, d.1)
}

/// The directive an includesub line denotes.
pub open spec fn includesub_line_model(n: ParseNode) -> StmtView {
    let d = sub_directive_model(n.children@[first_with(n.children@, Rule::includesub_directive)->Some_0]);
    StmtView::IncludeSub(d.0, d.1)
}

/// Whether a line's directive, if it is one, has its shape.
pub open spec fn line_ok(c: ParseNode) -> bool {
    &&& c.rule == Rule::include_line ==> include_line_ok(c)
    &&& c.rule == Rule::includesub_line ==> includesub_line_ok(c)
}

/// The nodes the lines `cs` of a sub block denote: directives, and text lines
/// that are not blank.
pub open spec fn block_content(cs: Seq<ParseNode>) -> Seq<FileView>
    decreases cs.len(),
{
    if cs.len() == 0 {
        Seq::empty()
    } else {
        let rest = block_content(cs.drop_last());
        let c = cs.last();
        if c.rule == Rule::include_line {
            rest.push(FileView::Include(include_line_model(c)))
        } else if c.rule == Rule::includesub_line {
            rest.push(FileView::Include(includesub_line_model(c)))
        } else if c.rule == Rule::text_line && trim(c.text@).len() > 0 {
            rest.push(FileView::Text(c.text@))
        } else {
            rest
        }
    }
}

/// Whether a sub block has the shape the grammar gives it: a well-shaped
/// name selector first, then well-shaped lines.
pub open spec fn sub_block_ok(n: ParseNode) -> bool {
    &&& n.children@.len() > 0
    &&& suffix_ok(n.children@[0])
    &&& forall|k: int| 1 <= k < n.children@.len() ==> line_ok(#[trigger] n.children@[k])
}

/// The sub block a match denotes: named by its first part, holding the nodes
/// of the lines after it.
pub open spec fn sub_block_model(n: ParseNode) -> FileView {
    FileView::SubBlock(suffix_model(n.children@[0]), block_content(n.children@.skip(1)))
}

/// Whether a text line starts, after leading whitespace, with an include keyword.
pub open spec fn starts_with_keyword(t: Seq<char>) -> bool {
    let s = trim_start(t);
    has_prefix(s, "!include"@) || has_prefix(s, "!include_once"@) || has_prefix(s, "!include_many"@) || has_prefix(
        s,
        "!includesub"@,
    )
}

/// The nodes the lines `items` of a file denote, or the first text line that
/// looks like an include directive but is none.
pub open spec fn file_fold(items: Seq<ParseNode>) -> Result<Seq<FileView>, Seq<char>>
    decreases items.len(),
{
    if items.len() == 0 {
        Ok(Seq::empty())
    } else {
        match file_fold(items.drop_last()) {
            Err(t) => Err(t),
            Ok(v) => {
                let c = items.last();
                if c.rule == Rule::include_line {
                    Ok(v.push(FileView::Include(include_line_model(c))))
                } else if c.rule == Rule::includesub_line {
                    Ok(v.push(FileView::Include(includesub_line_model(c))))
                } else if c.rule == Rule::sub_block {
                    Ok(v.push(sub_block_model(c)))
                } else if c.rule == Rule::text_line {
                    if starts_with_keyword(c.text@) {
                        Err(c.text@)
                    } else if trim(c.text@).len() > 0 {
                        Ok(v.push(FileView::Text(c.text@)))
                    } else {
                        Ok(v)
                    }
                } else {
                    Ok(v)
                }
            },
        }
    }
}

/// Whether every line of a file that is read has its shape: each line up to
/// and including the first refused one.
pub open spec fn file_ok(items: Seq<ParseNode>) -> bool
    decreases items.len(),
{
    if items.len() == 0 {
        true
    } else {
        &&& file_ok(items.drop_last())
        &&& file_fold(items.drop_last()) is Ok ==> {
            let c = items.last();
            &&& line_ok(c)
            &&& c.rule == Rule::sub_block ==> sub_block_ok(c)
        }
    }
}

/// The lines of the top-level matches `pairs`, in order.
pub open spec fn file_items(pairs: Seq<ParseNode>) -> Seq<ParseNode>
    decreases pairs.len(),
{
    if pairs.len() == 0 {
        Seq::empty()
    } else {
        file_items(pairs.drop_last()) + pairs.last().children@
    }
}

proof fn lemma_file_items_concat(a: Seq<ParseNode>, b: Seq<ParseNode>)
    ensures
        file_items(a + b) == file_items(a) + file_items(b),
    decreases b.len(),
{
    if b.len() == 0 {
        assert(a + b =~= a);
        assert(file_items(a) + file_items(b) =~= file_items(a));
    } else {
        assert((a + b).drop_last() =~= a + b.drop_last());
        lemma_file_items_concat(a, b.drop_last());
        assert(file_items(a) + (file_items(b.drop_last()) + b.last().children@) =~= (file_items(a) + file_items(
            b.drop_last(),
        )) + b.last().children@);
    }
}

proof fn lemma_file_fold_extend(a: Seq<ParseNode>, b: Seq<ParseNode>)
    ensures
        file_fold(a) matches Err(t) ==> file_fold(a + b) == Err::<Seq<FileView>, Seq<char>>(t),
    decreases b.len(),
{
    if b.len() == 0 {
        assert(a + b =~= a);
    } else {
        assert((a + b).drop_last() =~= a + b.drop_last());
        lemma_file_fold_extend(a, b.drop_last());
    }
}

/// The shape of a prefix's lines follows from the whole's.
proof fn lemma_file_ok_prefix(a: Seq<ParseNode>, b: Seq<ParseNode>)
    requires
        file_ok(a + b),
    ensures
        file_ok(a),
    decreases b.len(),
{
    if b.len() == 0 {
        assert(a + b =~= a);
    } else {
        assert((a + b).drop_last() =~= a + b.drop_last());
        lemma_file_ok_prefix(a, b.drop_last());
    }
}

/// The contents of concatenated nodes are those of each, concatenated.
proof fn lemma_file_views_push(a: Seq<IncludeFile>, x: IncludeFile)
    ensures
        file_views(a.push(x)) == file_views(a).push(file_view(x)),
{
    assert(file_views(a.push(x)) =~= file_views(a).push(file_view(x)));
}

/// Reads the include layer of PlantUML files.
pub struct IncludeParserService;

impl IncludeParserService {
    /// The trimmed text of an include path.
    pub fn extract_path(&self, node: &ParseNode) -> (r: String)
        ensures
            r@ == trim(node.text@),
    {
        let v = chars_of(node.text.as_str());
        let t = trimmed_chars(v.as_slice());
        string_of(t.as_slice())
    }

    /// Reads a sub block selector: an index or a label.
    pub fn extract_suffix(&self, node: &ParseNode) -> (r: IncludeSuffix)
        requires
            suffix_ok(*node),
        ensures
            suffix_view(r) == suffix_model(*node),
    {
        let inner = &node.children[0];
        if inner.rule == Rule::include_index {
            let v = chars_of(inner.text.as_str());
            match parse_u32(v.as_slice()) {
                Some(i) => IncludeSuffix::Index(i),
                None => IncludeSuffix::Index(0),
            }
        } else {
            IncludeSuffix::Label(inner.text.clone())
        }
    }

    /// Reads an include directive: its kind and path.
    pub fn parse_include_directive(&self, node: &ParseNode) -> (r: (IncludeKind, String))
        requires
            directive_ok(*node),
        ensures
            (r.0, r.1@) == directive_model(*node),
    {
        let cs = &node.children;
        proof {
            lemma_last_with(cs@, Rule::include_keyword);
            lemma_last_with(cs@, Rule::include_path);
        }
        let mut kind = IncludeKind::Include;
        match find_last(cs, Rule::include_keyword) {
            Some(i) => {
                let v = chars_of(cs[i].text.as_str());
                if is_literal(v.as_slice(), "!include") {
                    kind = IncludeKind::Include;
                } else if is_literal(v.as_slice(), "!include_once") {
                    kind = IncludeKind::IncludeOnce;
                } else {
                    kind = IncludeKind::IncludeMany;
                }
            },
            None => {},
        }
        let path = match find_last(cs, Rule::include_path) {
            Some(i) => self.extract_path(&cs[i]),
            None => String::new(),
        };
        (kind, path)
    }

    /// Reads an `!includesub` directive: its path and selector.
    pub fn parse_includesub_directive(&self, node: &ParseNode) -> (r: (String, IncludeSuffix))
        requires
            sub_directive_ok(*node),
        ensures
            (r.0@, suffix_view(r.1)) == sub_directive_model(*node),
    {
        let cs = &node.children;
        proof {
            lemma_last_with(cs@, Rule::include_suffix);
            lemma_last_with(cs@, Rule::include_path);
        }
        let path = match find_last(cs, Rule::include_path) {
            Some(i) => self.extract_path(&cs[i]),
            None => String::new(),
        };
        let suffix = match find_last(cs, Rule::include_suffix) {
            Some(i) => self.extract_suffix(&cs[i]),
            None => IncludeSuffix::Index(0),
        };
        (path, suffix)
    }

    /// Reads an include line.
    pub fn parse_include_line(&self, node: &ParseNode) -> (r: IncludeStmt)
        requires
            include_line_ok(*node),
        ensures
            include_stmt_view(r) == include_line_model(*node),
    {
        proof {
            lemma_first_with(node.children@, Rule::include_directive);
        }
        match find_first(&node.children, Rule::include_directive) {
            Some(i) => {
                let (kind, path) = self.parse_include_directive(&node.children[i]);
                IncludeStmt::Include { kind, path }
            },
            None => IncludeStmt::Include { kind: IncludeKind::Include, path: String::new() },
        }
    }

    /// Reads an includesub line.
    pub fn parse_includesub_line(&self, node: &ParseNode) -> (r: IncludeStmt)
        requires
            includesub_line_ok(*node),
        ensures
            include_stmt_view(r) == includesub_line_model(*node),
    {
        proof {
            lemma_first_with(node.children@, Rule::includesub_directive);
        }
        match find_first(&node.children, Rule::includesub_directive) {
            Some(i) => {
                let (path, suffix) = self.parse_includesub_directive(&node.children[i]);
                IncludeStmt::IncludeSub { path, suffix }
            },
            None => IncludeStmt::IncludeSub { path: String::new(), suffix: IncludeSuffix::Index(0) },
        }
    }

    /// Reads a sub block: its name selector and the nodes of its lines.
    pub fn parse_sub_block(&self, node: &ParseNode) -> (r: SubBlock)
        requires
            sub_block_ok(*node),
        ensures
            file_view(IncludeFile::SubBlock(r)) == sub_block_model(*node),
    {
        let cs = &node.children;
        let name = self.extract_suffix(&cs[0]);
        let ghost rest = cs@.skip(1);
        let mut content: Vec<IncludeFile> = Vec::new();
        proof {
            assert(file_views(content@) =~= Seq::<FileView>::empty());
            assert(rest.take(0) =~= Seq::<ParseNode>::empty());
        }
        let mut i: usize = 1;
        while i < cs.len()
            invariant
                1 <= i <= cs@.len(),
                cs == node.children,
                rest == cs@.skip(1),
                sub_block_ok(*node),
                file_views(content@) == block_content(rest.take(i - 1)),
            decreases cs@.len() - i,
        {
            proof {
                lemma_take_step(rest, i - 1);
                assert(rest[i - 1] == cs@[i as int]);
                assert(line_ok(cs@[i as int]));
            }
            let c = &cs[i];
            let ghost before = content@;
            if c.rule == Rule::include_line {
                let x = IncludeFile::Include(self.parse_include_line(c));
                content.push(x);
                proof {
                    lemma_file_views_push(before, x);
                }
            } else if c.rule == Rule::includesub_line {
                let x = IncludeFile::Include(self.parse_includesub_line(c));
                content.push(x);
                proof {
                    lemma_file_views_push(before, x);
                }
            } else if c.rule == Rule::text_line {
                let v = chars_of(c.text.as_str());
                let t = trimmed_chars(v.as_slice());
                if t.len() > 0 {
                    let x = IncludeFile::Text(c.text.clone());
                    content.push(x);
                    proof {
                        lemma_file_views_push(before, x);
                    }
                }
            }
            i = i + 1;
        }
        proof {
            assert(rest.take(cs@.len() - 1) =~= rest);
        }
        let b = SubBlock { name, content };
        proof {
            lemma_sub_block_view(b);
        }
        b
    }

    /// Reads the include layer of the file `file` from its top-level matches
    /// `pairs`: directives, sub blocks and non-blank text lines in order; a
    /// text line that starts with an include keyword refuses the file.
    pub fn parse_file(&mut self, pairs: &Vec<ParseNode>, file: &str) -> (r: Result<
        Vec<IncludeFile>,
        IncludeParseError,
    >)
        requires
            file_ok(file_items(pairs@)),
        ensures
            match file_fold(file_items(pairs@)) {
                Ok(v) => r matches Ok(x) && file_views(x@) == v,
                Err(t) => r matches Err(IncludeParseError::InvalidTextLine { line, file: f }) && line@ == t && f@
                    == file@,
            },
    {
        let mut stmts: Vec<IncludeFile> = Vec::new();
        proof {
            assert(file_views(stmts@) =~= Seq::<FileView>::empty());
            assert(pairs@.take(0) =~= Seq::<ParseNode>::empty());
        }
        let mut i: usize = 0;
        while i < pairs.len()
            invariant
                i <= pairs@.len(),
                file_ok(file_items(pairs@)),
                file_fold(file_items(pairs@.take(i as int))) matches Ok(v) && file_views(stmts@) == v,
            decreases pairs@.len() - i,
        {
            proof {
                lemma_take_step(pairs@, i as int);
            }
            let pair = &pairs[i];
            let cs = &pair.children;
            let ghost prior = file_items(pairs@.take(i as int));
            proof {
                assert(prior + cs@.take(0) =~= prior);
                assert(pairs@ =~= pairs@.take(i + 1) + pairs@.skip(i + 1));
                lemma_file_items_concat(pairs@.take(i + 1), pairs@.skip(i + 1));
                lemma_file_ok_prefix(file_items(pairs@.take(i + 1)), file_items(pairs@.skip(i + 1)));
            }
            let mut j: usize = 0;
            while j < cs.len()
                invariant
                    j <= cs@.len(),
                    cs == pair.children,
                    *pair == pairs@[i as int],
                    i < pairs@.len(),
                    prior == file_items(pairs@.take(i as int)),
                    file_items(pairs@.take(i + 1)) == prior + cs@,
                    file_ok(prior + cs@),
                    file_ok(file_items(pairs@)),
                    file_items(pairs@) == file_items(pairs@.take(i + 1)) + file_items(pairs@.skip(i + 1)),
                    file_fold(prior + cs@.take(j as int)) matches Ok(v) && file_views(stmts@) == v,
                decreases cs@.len() - j,
            {
                let ghost seen = prior + cs@.take(j + 1);
                proof {
                    lemma_take_step(cs@, j as int);
                    assert(seen.drop_last() =~= prior + cs@.take(j as int));
                    assert(seen.last() == cs@[j as int]);
                    assert(cs@ =~= cs@.take(j + 1) + cs@.skip(j + 1));
                    assert(prior + cs@ =~= seen + cs@.skip(j + 1));
                    lemma_file_ok_prefix(seen, cs@.skip(j + 1));
                }
                let c = &cs[j];
                let ghost before = stmts@;
                if c.rule == Rule::include_line {
                    let x = IncludeFile::Include(self.parse_include_line(c));
                    stmts.push(x);
                    proof {
                        lemma_file_views_push(before, x);
                    }
                } else if c.rule == Rule::includesub_line {
                    let x = IncludeFile::Include(self.parse_includesub_line(c));
                    stmts.push(x);
                    proof {
                        lemma_file_views_push(before, x);
                    }
                } else if c.rule == Rule::sub_block {
                    let x = IncludeFile::SubBlock(self.parse_sub_block(c));
                    stmts.push(x);
                    proof {
                        lemma_file_views_push(before, x);
                    }
                } else if c.rule == Rule::text_line {
                    let v = chars_of(c.text.as_str());
                    let lead = trimmed_start_chars(v.as_slice());
                    if starts_with_literal(lead.as_slice(), "!include") || starts_with_literal(
                        lead.as_slice(),
                        "!include_once",
                    ) || starts_with_literal(lead.as_slice(), "!include_many") || starts_with_literal(
                        lead.as_slice(),
                        "!includesub",
                    ) {
                        proof {
                            assert(file_fold(seen) == Err::<Seq<FileView>, Seq<char>>(c.text@));
                            let rest = cs@.skip(j + 1) + file_items(pairs@.skip(i + 1));
                            assert(file_items(pairs@) =~= seen + rest);
                            lemma_file_fold_extend(seen, rest);
                        }
                        return Err(IncludeParseError::InvalidTextLine { line: c.text.clone(), file: file.to_owned() });
                    }
                    let t = trimmed_chars(v.as_slice());
                    if t.len() > 0 {
                        let x = IncludeFile::Text(c.text.clone());
                        stmts.push(x);
                        proof {
                            lemma_file_views_push(before, x);
                        }
                    }
                }
                j = j + 1;
            }
            proof {
                assert(cs@.take(cs@.len() as int) =~= cs@);
            }
            i = i + 1;
        }
        assert(pairs@.take(pairs@.len() as int) =~= pairs@);
        Ok(stmts)
    }
}

/// `v` without its leading whitespace.
fn trimmed_start_chars(v: &[char]) -> (r: Vec<char>)
    ensures
        r@ == trim_start(v@),
{
    let s = crate::text::skip_ws(v, 0);
    assert(v@.subrange(0, v@.len() as int) =~= v@);
    crate::text::copy_range(v, s, v.len())
}

} // verus!
