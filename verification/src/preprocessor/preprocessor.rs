//! The two preprocessing passes over a diagram file: include expansion, then
//! procedure expansion of the result.
use vstd::prelude::*;
use crate::preprocessor::include_ast::IncludeFile;
use crate::preprocessor::include_expander::{
    exp_target, paths_view, IncState, IncludeExpandError, IncludeExpander,
};
use crate::preprocessor::procedure_ast::ProcedureFile;
use crate::preprocessor::procedure_expander::{
    expand_stmts, ProcedureExpandError, ProcedureExpander, DEFAULT_MACRO_DEPTH,
};

verus! {

/// Why preprocessing failed.
#[derive(Debug, Clone, PartialEq)]
pub enum PreprocessError {
    IncludeFailed(IncludeExpandError),
    ProcedureFailed(ProcedureExpandError),
}

/// Runs both passes; the syntax trees of the include layer are supplied with
/// `add_ast`, the procedure layer of each include-expanded text is parsed by
/// the caller.
pub struct Preprocessor {
    include_expander: IncludeExpander,
    procedure_expander: ProcedureExpander,
}

impl Preprocessor {
    /// The include-layer syntax trees supplied so far.
    pub closed spec fn trees(&self) -> Seq<(Seq<char>, Seq<IncludeFile>)> {
        self.include_expander.trees()
    }

    /// The nesting limit of procedure calls.
    pub closed spec fn depth_limit(&self) -> usize {
        self.procedure_expander.depth_limit()
    }

    /// A preprocessor with no syntax trees and the default nesting limit.
    pub fn new() -> (r: Self)
        ensures
            r.trees() == Seq::<(Seq<char>, Seq<IncludeFile>)>::empty(),
            r.depth_limit() == DEFAULT_MACRO_DEPTH,
    {
        Preprocessor { include_expander: IncludeExpander::new(), procedure_expander: ProcedureExpander::new() }
    }

    /// Supplies the include-layer syntax tree of file `path`.
    pub fn add_ast(&mut self, path: String, ast: Vec<IncludeFile>)
        ensures
            final(self).trees() == old(self).trees().push((path@, ast@)),
            final(self).depth_limit() == old(self).depth_limit(),
    {
        self.include_expander.add_ast(path, ast);
    }

    /// The include pass over `file` of `file_list`.
    pub fn expand_includes(&self, file: &String, file_list: &Vec<String>) -> (r: Result<String, PreprocessError>)
        ensures
            match exp_target(
                self.trees(),
                paths_view(file_list@),
                file@,
                Seq::empty(),
                Seq::empty(),
                IncState { once: Set::empty(), dflt: Set::empty() },
            ).0 {
                Ok(t) => r matches Ok(x) && x@ == t,
                Err(e) => r matches Err(PreprocessError::IncludeFailed(x)) && x@ == e,
            },
    {
        match self.include_expander.expand(file, file_list) {
            Ok(t) => Ok(t),
            Err(e) => Err(PreprocessError::IncludeFailed(e)),
        }
    }

    /// The procedure pass over the parsed procedure layer of an include-expanded text.
    pub fn expand_procedures(&self, parsed: &ProcedureFile) -> (r: Result<String, PreprocessError>)
        ensures
            match expand_stmts(parsed.stmts@, self.depth_limit() as int, parsed.stmts@) {
                Ok(t) => r matches Ok(x) && x@ == t,
                Err(e) => r matches Err(PreprocessError::ProcedureFailed(x)) && x@ == e,
            },
    {
        match self.procedure_expander.expand(parsed) {
            Ok(t) => Ok(t),
            Err(e) => Err(PreprocessError::ProcedureFailed(e)),
        }
    }
}

} // verus!
