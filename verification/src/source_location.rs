//! Where an element was declared.
use vstd::prelude::*;

verus! {

/// A source file and a line in it.
#[derive(Debug, Clone, PartialEq)]
pub struct SourceLocation {
    pub file: String,
    pub line: u32,
}

impl SourceLocation {
    /// The location `line` of `file`.
    pub fn new(file: &str, line: u32) -> (r: SourceLocation)
        ensures
            r.file@ == file@,
            r.line == line,
    {
        SourceLocation { file: file.to_owned(), line }
    }
}

impl Default for SourceLocation {
    /// No file, line 0.
    fn default() -> (r: Self)
        ensures
            r.file@.len() == 0,
            r.line == 0,
    {
        SourceLocation { file: String::new(), line: 0 }
    }
}

} // verus!
