//! Keys by which the visitor recognises an entity or a callable it has
//! already seen.
use vstd::prelude::*;
use crate::cpp::resolved_type::ResolvedType;
use crate::diagram_model::{Method, SimpleEntity};
use crate::source_location::SourceLocation;

verus! {

/// Identifies an AST entity within one parser run by its source position.
///
/// This key deduplicates project header declarations and definitions visible
/// through several translation units. It is not stable across source revisions.
#[derive(Debug, Clone, PartialEq, Eq, Hash)]
pub struct SourceEntityKey {
    pub source_file: String,
    pub source_offset: u32,
}

/// Identifies a callable declaration by its owner and logical signature.
#[derive(Debug, Clone, PartialEq, Eq, Hash)]
pub struct CallableDeclarationKey {
    pub owner: CallableOwnerKey,
    pub signature: CallableSignatureKey,
}

/// A callable's name and parameters.
#[derive(Debug, Clone, PartialEq, Eq, Hash)]
pub struct CallableSignatureKey {
    pub name: String,
    pub parameters: Vec<CallableArgumentKey>,
}

/// What a callable belongs to.
#[derive(Debug, Clone, PartialEq, Eq, Hash)]
pub enum CallableOwnerKey {
    FreeFunction { enclosing_namespace_id: Option<String>, linkage_scope: CallableLinkageScope },
    Method { class_id: String },
}

/// Distinguishes free functions whose identity spans translation units from
/// those local to one.
#[derive(Debug, Clone, PartialEq, Eq, Hash)]
pub enum CallableLinkageScope {
    /// External linkage: declarations from different translation units are
    /// the same callable when their logical signatures are.
    External,
    /// Translation-unit-local linkage: declarations from different source
    /// files stay distinct.
    TranslationUnitLocal { source_file: String },
}

/// One parameter of a callable signature.
#[derive(Debug, Clone, PartialEq, Eq, Hash)]
pub struct CallableArgumentKey {
    pub param_type: Option<String>,
    pub is_variadic: bool,
    pub is_pack_expansion: bool,
}

/// A base class of a visited class, with where it is named.
#[derive(Debug)]
pub struct ParsedBaseClass {
    pub resolved_type: ResolvedType,
    pub source_location: SourceLocation,
}

/// The type of a member variable of a visited class.
#[derive(Debug)]
pub struct ParsedVariableType {
    pub name: String,
    pub resolved_type: ResolvedType,
    pub source_location: SourceLocation,
}

/// The types of a method of a visited class.
#[derive(Debug)]
pub struct ParsedMethodType {
    pub name: String,
    pub return_type: ResolvedType,
    pub parameter_types: Vec<ResolvedType>,
    pub source_location: SourceLocation,
}

/// What the visitor gathered of one class for relationship resolution.
#[derive(Debug)]
pub struct ParsedClassInfo {
    /// The class's fully qualified id.
    pub id: String,
    pub base_classes: Vec<ParsedBaseClass>,
    pub variable_types: Vec<ParsedVariableType>,
    pub method_types: Vec<ParsedMethodType>,
    pub has_abstract_methods: bool,
    pub has_concrete_methods: bool,
}

/// The state of a visit that relationship resolution works on: the entities
/// by their type name, and the gathered class information.
#[derive(Debug)]
pub struct VisitContext {
    pub types: Vec<(String, SimpleEntity)>,
    pub parsed_class_info: Vec<ParsedClassInfo>,
}

/// A method declaration found by the function visitor, for its owning class.
#[derive(Debug)]
pub struct ExtractedMethodDeclaration {
    pub class_id: String,
    pub method: Method,
    pub method_type: ParsedMethodType,
    pub signature_key: CallableSignatureKey,
}

} // verus!
