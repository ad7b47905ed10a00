//! The resolved diagram models the identifier maps are computed from: the
//! components of a component diagram and the entities of a class diagram.
use vstd::prelude::*;
use crate::source_location::SourceLocation;

verus! {

/// The kind of a component-diagram element.
#[derive(Debug, Clone, Copy, PartialEq, Eq, Structural)]
pub enum ComponentType {
    Component,
    Interface,
    Package,
}

/// A resolved component-diagram element.
#[derive(Debug, Clone, PartialEq)]
pub struct LogicComponent {
    /// Fully-qualified id.
    pub id: String,
    pub name: Option<String>,
    pub alias: Option<String>,
    /// Id of the enclosing element, if any.
    pub parent_id: Option<String>,
    pub element_type: ComponentType,
}

/// The kind of a class relationship.
#[derive(Debug, Clone, Copy, PartialEq, Eq, Structural)]
pub enum RelationType {
    Association,
    Inheritance,
    Implementation,
    Composition,
    Aggregation,
    Dependency,
}

/// A relationship between two class-diagram entities, by id.
#[derive(Debug, Clone, PartialEq)]
pub struct Relationship {
    pub source: String,
    pub target: String,
    pub relation_type: RelationType,
    pub source_multiplicity: Option<String>,
    pub target_multiplicity: Option<String>,
    /// Where the relationship is declared.
    pub source_location: SourceLocation,
}

impl Default for Relationship {
    fn default() -> (r: Self)
        ensures
            r.source@.len() == 0 && r.target@.len() == 0,
            r.relation_type == RelationType::Association,
            r.source_multiplicity is None && r.target_multiplicity is None,
            r.source_location.file@.len() == 0 && r.source_location.line == 0,
    {
        Relationship {
            source: String::new(),
            target: String::new(),
            relation_type: RelationType::Association,
            source_multiplicity: None,
            target_multiplicity: None,
            source_location: SourceLocation::default(),
        }
    }
}

/// A field of a class-diagram entity.
#[derive(Debug, Clone, PartialEq)]
pub struct MemberVariable {
    pub name: String,
    pub var_type: Option<String>,
}

impl Default for MemberVariable {
    fn default() -> (r: Self)
        ensures
            r.name@.len() == 0 && r.var_type is None,
    {
        MemberVariable { name: String::new(), var_type: None }
    }
}

/// A qualifier of a method.
#[derive(Debug, Clone, Copy, PartialEq, Eq, Structural)]
pub enum MethodModifier {
    Static,
    Virtual,
    Abstract,
    Override,
    Noexcept,
    Final,
    Constructor,
    Destructor,
}

/// A method of a class-diagram entity.
#[derive(Debug, Clone, PartialEq)]
pub struct Method {
    pub name: String,
    pub return_type: Option<String>,
    /// Its qualifiers.
    pub modifiers: Vec<MethodModifier>,
}

impl Default for Method {
    fn default() -> (r: Self)
        ensures
            r.name@.len() == 0 && r.return_type is None && r.modifiers@.len() == 0,
    {
        Method { name: String::new(), return_type: None, modifiers: Vec::new() }
    }
}

/// The kind of a class-diagram entity.
#[derive(Debug, Clone, Copy, PartialEq, Eq, Structural)]
pub enum EntityType {
    Class,
    Struct,
    Interface,
    Enum,
    AbstractClass,
}

/// A resolved class-diagram entity.
#[derive(Debug, Clone, PartialEq)]
pub struct SimpleEntity {
    /// Fully-qualified id.
    pub id: String,
    pub name: String,
    /// Fully-qualified id of the enclosing namespace or package, if any.
    pub enclosing_namespace_id: Option<String>,
    pub methods: Vec<Method>,
    pub variables: Vec<MemberVariable>,
    pub relationships: Vec<Relationship>,
    /// What kind of entity this is.
    pub entity_type: EntityType,
    /// Where the entity is declared.
    pub source_location: SourceLocation,
}

impl Default for SimpleEntity {
    fn default() -> (r: Self)
        ensures
            r.id@.len() == 0 && r.name@.len() == 0 && r.enclosing_namespace_id is None,
            r.methods@.len() == 0 && r.variables@.len() == 0 && r.relationships@.len() == 0,
            r.entity_type == EntityType::Class,
            r.source_location.file@.len() == 0 && r.source_location.line == 0,
    {
        SimpleEntity {
            id: String::new(),
            name: String::new(),
            enclosing_namespace_id: None,
            methods: Vec::new(),
            variables: Vec::new(),
            relationships: Vec::new(),
            entity_type: EntityType::Class,
            source_location: SourceLocation::default(),
        }
    }
}

/// A resolved class diagram: its `@startuml` name and its entities.
#[derive(Debug, Clone, PartialEq)]
pub struct ClassDiagram {
    pub name: String,
    pub entities: Vec<SimpleEntity>,
}

} // verus!
