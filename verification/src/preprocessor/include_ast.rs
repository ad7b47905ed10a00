//! Syntax tree of the include layer of a PlantUML file.
use vstd::prelude::*;

verus! {

/// The selector of an `!includesub` target or the name of a sub block.
#[derive(Debug, Clone, PartialEq, Eq)]
pub enum IncludeSuffix {
    Label(String),
    Index(u32),
}

/// Which flavour of `!include` a statement uses.
#[derive(Debug, Clone, Copy, PartialEq, Eq)]
pub enum IncludeKind {
    Include,
    IncludeOnce,
    IncludeMany,
}

/// An include directive.
#[derive(Debug, Clone, PartialEq, Eq)]
pub enum IncludeStmt {
    Include { kind: IncludeKind, path: String },
    IncludeSub { path: String, suffix: IncludeSuffix },
}

/// A `!startsub` ... `!endsub` block.
#[derive(Debug, PartialEq, Eq)]
pub struct SubBlock {
    pub name: IncludeSuffix,
    pub content: Vec<IncludeFile>,
}

/// One node of an include-layer file: a directive, raw text, or a sub block.
#[derive(Debug, PartialEq, Eq)]
pub enum IncludeFile {
    Include(IncludeStmt),
    Text(String),
    SubBlock(SubBlock),
}

/// The text a node renders to: text verbatim, sub blocks by their content,
/// directives as nothing.
pub open spec fn rendered(f: IncludeFile) -> Seq<char>
    decreases f,
{
    match f {
        IncludeFile::Text(t) => t@,
        IncludeFile::SubBlock(sub) => rendered_list(sub.content@),
        IncludeFile::Include(_) => Seq::empty(),
    }
}

/// The concatenated rendering of a sequence of nodes.
pub open spec fn rendered_list(items: Seq<IncludeFile>) -> Seq<char>
    decreases items,
{
    if items.len() == 0 {
        Seq::empty()
    } else {
        rendered_list(items.drop_last()) + rendered(items.last())
    }
}

/// The content of a sub block selector.
pub enum SuffixView {
    Label(Seq<char>),
    Index(u32),
}

/// The content of a sub block selector.
pub open spec fn suffix_view(s: IncludeSuffix) -> SuffixView {
    match s {
        IncludeSuffix::Label(l) => SuffixView::Label(l@),
        IncludeSuffix::Index(i) => SuffixView::Index(i),
    }
}

/// The content of an include directive.
pub enum StmtView {
    Include(IncludeKind, Seq<char>),
    IncludeSub(Seq<char>, SuffixView),
}

/// The content of an include directive.
pub open spec fn include_stmt_view(s: IncludeStmt) -> StmtView {
    match s {
        IncludeStmt::Include { kind, path } => StmtView::Include(kind, path@),
        IncludeStmt::IncludeSub { path, suffix } => StmtView::IncludeSub(path@, suffix_view(suffix)),
    }
}

/// The content of an include-layer node.
pub enum FileView {
    Include(StmtView),
    Text(Seq<char>),
    SubBlock(SuffixView, Seq<FileView>),
}

/// The content of an include-layer node.
pub open spec fn file_view(f: IncludeFile) -> FileView
    decreases f,
{
    match f {
        IncludeFile::Include(s) => FileView::Include(include_stmt_view(s)),
        IncludeFile::Text(t) => FileView::Text(t@),
        IncludeFile::SubBlock(b) => FileView::SubBlock(
            suffix_view(b.name),
            Seq::new(
                b.content@.len(),
                |i: int|
                    if 0 <= i < b.content@.len() {
                        file_view(b.content@[i])
                    } else {
                        FileView::Text(Seq::empty())
                    },
            ),
        ),
    }
}

/// The contents of include-layer nodes.
pub open spec fn file_views(v: Seq<IncludeFile>) -> Seq<FileView> {
    Seq::new(v.len(), |i: int| file_view(v[i]))
}

/// The content of a sub block, with its nodes' contents.
pub proof fn lemma_sub_block_view(b: SubBlock)
    ensures
        file_view(IncludeFile::SubBlock(b)) == FileView::SubBlock(suffix_view(b.name), file_views(b.content@)),
{
    if let FileView::SubBlock(_, inner) = file_view(IncludeFile::SubBlock(b)) {
        assert(inner =~= file_views(b.content@));
    }
}

impl IncludeFile {
    /// Appends the rendering of this node to `out`.
    pub fn render(&self, out: &mut String)
        ensures
            final(out)@ == old(out)@ + rendered(*self),
        decreases self,
    {
        match self {
            IncludeFile::Text(text) => out.append(text.as_str()),
            IncludeFile::SubBlock(sub) => {
                let mut i: usize = 0;
                while i < sub.content.len()
                    invariant
                        i <= sub.content@.len(),
                        *self == IncludeFile::SubBlock(*sub),
                        out@ == old(out)@ + rendered_list(sub.content@.subrange(0, i as int)),
                    decreases sub.content@.len() - i,
                {
                    proof {
                        assert(decreases_to!(*self => self->SubBlock_0));
                        assert(*sub == self->SubBlock_0);
                        assert(decreases_to!(*sub => sub.content));
                        assert(decreases_to!(sub.content => sub.content@));
                        assert(decreases_to!(sub.content@ => sub.content@[i as int]));
                    }
                    sub.content[i].render(out);
                    proof {
                        let s = sub.content@.subrange(0, i + 1);
                        assert(s.drop_last() == sub.content@.subrange(0, i as int));
                    }
                    i = i + 1;
                }
                assert(sub.content@.subrange(0, sub.content@.len() as int) == sub.content@);
            },
            IncludeFile::Include(_) => {},
        }
    }
}

} // verus!
