//! The element tree of a class diagram.
use vstd::prelude::*;
use crate::parser_core::common_ast::{Arrow, ArrowView, arrow_view};

verus! {

/// Member visibility markers: `+`, `-`, `#`, `~`.
#[derive(Debug, Clone, Copy, PartialEq, Eq, Structural)]
pub enum Visibility {
    Public,
    Private,
    Protected,
    Package,
}

/// A type definition.
#[derive(Debug, PartialEq)]
pub enum Element {
    ClassDef(ClassDef),
    StructDef(StructDef),
    EnumDef(EnumDef),
    InterfaceDef(InterfaceDef),
}

/// The namespace a definition is declared in.
pub open spec fn namespace_of(e: Element) -> String {
    match e {
        Element::ClassDef(d) => d.namespace,
        Element::StructDef(d) => d.namespace,
        Element::EnumDef(d) => d.namespace,
        Element::InterfaceDef(d) => d.namespace,
    }
}

/// The package a definition is declared in.
pub open spec fn package_of(e: Element) -> String {
    match e {
        Element::ClassDef(d) => d.package,
        Element::StructDef(d) => d.package,
        Element::EnumDef(d) => d.package,
        Element::InterfaceDef(d) => d.package,
    }
}

/// `e` with its namespace replaced by `ns`.
pub open spec fn with_namespace(e: Element, ns: String) -> Element {
    match e {
        Element::ClassDef(d) => Element::ClassDef(ClassDef { namespace: ns, ..d }),
        Element::StructDef(d) => Element::StructDef(StructDef { namespace: ns, ..d }),
        Element::EnumDef(d) => Element::EnumDef(EnumDef { namespace: ns, ..d }),
        Element::InterfaceDef(d) => Element::InterfaceDef(InterfaceDef { namespace: ns, ..d }),
    }
}

/// `e` with its package replaced by `pkg`.
pub open spec fn with_package(e: Element, pkg: String) -> Element {
    match e {
        Element::ClassDef(d) => Element::ClassDef(ClassDef { package: pkg, ..d }),
        Element::StructDef(d) => Element::StructDef(StructDef { package: pkg, ..d }),
        Element::EnumDef(d) => Element::EnumDef(EnumDef { package: pkg, ..d }),
        Element::InterfaceDef(d) => Element::InterfaceDef(InterfaceDef { package: pkg, ..d }),
    }
}

impl Element {
    /// Records the namespace the definition is declared in; nothing else changes.
    pub fn set_namespace(&mut self, ns: String)
        ensures
            *final(self) == with_namespace(*old(self), ns),
    {
        match self {
            Element::ClassDef(def) => def.namespace = ns,
            Element::StructDef(def) => def.namespace = ns,
            Element::EnumDef(def) => def.namespace = ns,
            Element::InterfaceDef(def) => def.namespace = ns,
        }
    }

    /// Records the package the definition is declared in; nothing else changes.
    pub fn set_package(&mut self, ns: String)
        ensures
            *final(self) == with_package(*old(self), ns),
    {
        match self {
            Element::ClassDef(def) => def.package = ns,
            Element::StructDef(def) => def.package = ns,
            Element::EnumDef(def) => def.package = ns,
            Element::InterfaceDef(def) => def.package = ns,
        }
    }
}

/// A top-level entry of a class diagram.
#[derive(Debug, PartialEq)]
pub enum ClassUmlTopLevel {
    Types(Element),
    Enum(EnumDef),
    Namespace(Namespace),
    Package(Package),
}

/// The value of an enum item.
#[derive(Debug, PartialEq)]
pub enum EnumValue {
    Literal(String),
    Description(String),
}

/// An element name with its optional display text.
#[derive(Debug, PartialEq)]
pub struct Name {
    pub internal: String,
    pub display: Option<String>,
}

impl Name {
    /// Sets both the internal name and the display text.
    pub fn write_name(&mut self, internal: String, display: Option<String>)
        ensures
            final(self).internal == internal,
            final(self).display == display,
    {
        self.internal = internal;
        self.display = display;
    }
}

/// A relation between two elements.
#[derive(Debug, PartialEq, Clone)]
pub struct Relationship {
    pub left: String,
    pub right: String,
    pub arrow: Arrow,
    pub label: Option<String>,
}

/// A method parameter.
#[derive(Debug, PartialEq)]
pub struct Param {
    pub name: Option<String>,
    pub param_type: String,
    pub varargs: bool,
}

/// A field.
#[derive(Debug, PartialEq)]
pub struct Attribute {
    pub visibility: Visibility,
    pub name: String,
    pub data_type: Option<String>,
}

/// A method.
#[derive(Debug, PartialEq)]
pub struct Method {
    pub visibility: Visibility,
    pub name: String,
    pub generic_params: Vec<String>,
    pub params: Vec<Param>,
    pub data_type: Option<String>,
}

/// A `class`.
#[derive(Debug, PartialEq)]
pub struct ClassDef {
    pub name: Name,
    pub namespace: String,
    pub package: String,
    pub attributes: Vec<Attribute>,
    pub methods: Vec<Method>,
}

/// A `struct`.
#[derive(Debug, PartialEq)]
pub struct StructDef {
    pub name: Name,
    pub namespace: String,
    pub package: String,
    pub attributes: Vec<Attribute>,
    pub methods: Vec<Method>,
}

/// An `interface`.
#[derive(Debug, PartialEq)]
pub struct InterfaceDef {
    pub name: Name,
    pub namespace: String,
    pub package: String,
    pub attributes: Vec<Attribute>,
    pub methods: Vec<Method>,
}

/// An `enum`.
#[derive(Debug, PartialEq)]
pub struct EnumDef {
    pub name: Name,
    pub namespace: String,
    pub package: String,
    pub stereotypes: Vec<String>,
    pub items: Vec<EnumItem>,
}

/// One item of an enum.
#[derive(Debug, PartialEq)]
pub struct EnumItem {
    pub visibility: Option<Visibility>,
    pub name: String,
    pub value: Option<EnumValue>,
}

/// A `namespace` block.
#[derive(Debug, PartialEq)]
pub struct Namespace {
    pub name: Name,
    pub types: Vec<Element>,
    pub namespaces: Vec<Namespace>,
}

/// A `package` block.
#[derive(Debug, PartialEq)]
pub struct Package {
    pub name: Name,
    pub types: Vec<Element>,
    pub relationships: Vec<Relationship>,
    pub packages: Vec<Package>,
}

/// A parsed class diagram.
#[derive(Debug, PartialEq)]
pub struct ClassUmlFile {
    pub name: String,
    pub elements: Vec<ClassUmlTopLevel>,
    pub relationships: Vec<Relationship>,
}

impl ClassUmlFile {
    /// Whether the diagram declares nothing.
    pub fn is_empty(&self) -> (r: bool)
        ensures
            r == (self.elements@.len() == 0 && self.relationships@.len() == 0),
    {
        self.elements.len() == 0 && self.relationships.len() == 0
    }
}

/// The content of a name.
pub struct NameView {
    pub internal: Seq<char>,
    pub display: Option<Seq<char>>,
}

/// The content of a field.
pub struct AttributeView {
    pub visibility: Visibility,
    pub name: Seq<char>,
    pub data_type: Option<Seq<char>>,
}

/// The content of a parameter.
pub struct ParamView {
    pub name: Option<Seq<char>>,
    pub param_type: Seq<char>,
    pub varargs: bool,
}

/// The content of a method.
pub struct MethodView {
    pub visibility: Visibility,
    pub name: Seq<char>,
    pub generic_params: Seq<Seq<char>>,
    pub params: Seq<ParamView>,
    pub data_type: Option<Seq<char>>,
}

/// The content of a class, struct or interface.
pub struct TypeDefView {
    pub name: NameView,
    pub namespace: Seq<char>,
    pub package: Seq<char>,
    pub attributes: Seq<AttributeView>,
    pub methods: Seq<MethodView>,
}

/// The content of an enum value.
pub enum EnumValueView {
    Literal(Seq<char>),
    Description(Seq<char>),
}

/// The content of an enum item.
pub struct EnumItemView {
    pub visibility: Option<Visibility>,
    pub name: Seq<char>,
    pub value: Option<EnumValueView>,
}

/// The content of an enum.
pub struct EnumDefView {
    pub name: NameView,
    pub namespace: Seq<char>,
    pub package: Seq<char>,
    pub stereotypes: Seq<Seq<char>>,
    pub items: Seq<EnumItemView>,
}

/// The content of a type definition.
pub enum ElementView {
    Class(TypeDefView),
    Struct(TypeDefView),
    Enum(EnumDefView),
    Interface(TypeDefView),
}

/// The content of a relation.
pub struct RelationshipView {
    pub left: Seq<char>,
    pub right: Seq<char>,
    pub arrow: ArrowView,
    pub label: Option<Seq<char>>,
}

/// The content of a namespace block.
#[verifier::ext_equal]
pub struct NamespaceView {
    pub name: NameView,
    pub types: Seq<ElementView>,
    pub namespaces: Seq<NamespaceView>,
}

/// The content of a package block.
#[verifier::ext_equal]
pub struct PackageView {
    pub name: NameView,
    pub types: Seq<ElementView>,
    pub relationships: Seq<RelationshipView>,
    pub packages: Seq<PackageView>,
}

/// The content of a top-level entry.
pub enum TopLevelView {
    Types(ElementView),
    Enum(EnumDefView),
    Namespace(NamespaceView),
    Package(PackageView),
}

/// The content of a class diagram.
#[verifier::ext_equal]
pub struct FileView {
    pub name: Seq<char>,
    pub elements: Seq<TopLevelView>,
    pub relationships: Seq<RelationshipView>,
}

/// An optional text's content.
pub open spec fn opt_text(o: Option<String>) -> Option<Seq<char>> {
    match o {
        Some(s) => Some(s@),
        None => None,
    }
}

/// The content of a name.
pub open spec fn name_view(n: Name) -> NameView {
    NameView { internal: n.internal@, display: opt_text(n.display) }
}

/// The content of a field.
pub open spec fn attribute_view(a: Attribute) -> AttributeView {
    AttributeView { visibility: a.visibility, name: a.name@, data_type: opt_text(a.data_type) }
}

/// The content of a parameter.
pub open spec fn param_view(p: Param) -> ParamView {
    ParamView { name: opt_text(p.name), param_type: p.param_type@, varargs: p.varargs }
}

/// The content of a method.
pub open spec fn method_view(m: Method) -> MethodView {
    MethodView {
        visibility: m.visibility,
        name: m.name@,
        generic_params: m.generic_params@.map_values(|g: String| g@),
        params: m.params@.map_values(|p: Param| param_view(p)),
        data_type: opt_text(m.data_type),
    }
}

/// The content of a class, struct or interface from its parts.
pub open spec fn type_def_view(
    name: Name,
    namespace: String,
    package: String,
    attributes: Seq<Attribute>,
    methods: Seq<Method>,
) -> TypeDefView {
    TypeDefView {
        name: name_view(name),
        namespace: namespace@,
        package: package@,
        attributes: attributes.map_values(|a: Attribute| attribute_view(a)),
        methods: methods.map_values(|m: Method| method_view(m)),
    }
}

/// The content of an enum value.
pub open spec fn enum_value_view(v: EnumValue) -> EnumValueView {
    match v {
        EnumValue::Literal(t) => EnumValueView::Literal(t@),
        EnumValue::Description(t) => EnumValueView::Description(t@),
    }
}

/// The content of an enum item.
pub open spec fn enum_item_view(i: EnumItem) -> EnumItemView {
    EnumItemView {
        visibility: i.visibility,
        name: i.name@,
        value: match i.value {
            Some(v) => Some(enum_value_view(v)),
            None => None,
        },
    }
}

/// The content of an enum.
pub open spec fn enum_def_view(d: EnumDef) -> EnumDefView {
    EnumDefView {
        name: name_view(d.name),
        namespace: d.namespace@,
        package: d.package@,
        stereotypes: d.stereotypes@.map_values(|s: String| s@),
        items: d.items@.map_values(|i: EnumItem| enum_item_view(i)),
    }
}

/// The content of a type definition.
pub open spec fn element_view(e: Element) -> ElementView {
    match e {
        Element::ClassDef(d) => ElementView::Class(
            type_def_view(d.name, d.namespace, d.package, d.attributes@, d.methods@),
        ),
        Element::StructDef(d) => ElementView::Struct(
            type_def_view(d.name, d.namespace, d.package, d.attributes@, d.methods@),
        ),
        Element::EnumDef(d) => ElementView::Enum(enum_def_view(d)),
        Element::InterfaceDef(d) => ElementView::Interface(
            type_def_view(d.name, d.namespace, d.package, d.attributes@, d.methods@),
        ),
    }
}

/// The content of a relation.
pub open spec fn relationship_view(r: Relationship) -> RelationshipView {
    RelationshipView { left: r.left@, right: r.right@, arrow: arrow_view(r.arrow), label: opt_text(r.label) }
}

/// A definition's content with its namespace replaced by `ns`.
pub open spec fn with_namespace_view(e: ElementView, ns: Seq<char>) -> ElementView {
    match e {
        ElementView::Class(d) => ElementView::Class(TypeDefView { namespace: ns, ..d }),
        ElementView::Struct(d) => ElementView::Struct(TypeDefView { namespace: ns, ..d }),
        ElementView::Enum(d) => ElementView::Enum(EnumDefView { namespace: ns, ..d }),
        ElementView::Interface(d) => ElementView::Interface(TypeDefView { namespace: ns, ..d }),
    }
}

/// A definition's content with its package replaced by `pkg`.
pub open spec fn with_package_view(e: ElementView, pkg: Seq<char>) -> ElementView {
    match e {
        ElementView::Class(d) => ElementView::Class(TypeDefView { package: pkg, ..d }),
        ElementView::Struct(d) => ElementView::Struct(TypeDefView { package: pkg, ..d }),
        ElementView::Enum(d) => ElementView::Enum(EnumDefView { package: pkg, ..d }),
        ElementView::Interface(d) => ElementView::Interface(TypeDefView { package: pkg, ..d }),
    }
}

/// The content of a namespace block.
pub open spec fn namespace_view(ns: Namespace) -> NamespaceView
    decreases ns,
{
    NamespaceView {
        name: name_view(ns.name),
        types: ns.types@.map_values(|e: Element| element_view(e)),
        namespaces: Seq::new(
            ns.namespaces@.len(),
            |i: int|
                if 0 <= i < ns.namespaces@.len() {
                    namespace_view(ns.namespaces@[i])
                } else {
                    NamespaceView {
                        name: NameView { internal: Seq::empty(), display: None },
                        types: Seq::empty(),
                        namespaces: Seq::empty(),
                    }
                },
        ),
    }
}

/// The content of a package block.
pub open spec fn package_view(p: Package) -> PackageView
    decreases p,
{
    PackageView {
        name: name_view(p.name),
        types: p.types@.map_values(|e: Element| element_view(e)),
        relationships: p.relationships@.map_values(|r: Relationship| relationship_view(r)),
        packages: Seq::new(
            p.packages@.len(),
            |i: int|
                if 0 <= i < p.packages@.len() {
                    package_view(p.packages@[i])
                } else {
                    PackageView {
                        name: NameView { internal: Seq::empty(), display: None },
                        types: Seq::empty(),
                        relationships: Seq::empty(),
                        packages: Seq::empty(),
                    }
                },
        ),
    }
}

/// The content of a top-level entry.
pub open spec fn top_level_view(t: ClassUmlTopLevel) -> TopLevelView {
    match t {
        ClassUmlTopLevel::Types(e) => TopLevelView::Types(element_view(e)),
        ClassUmlTopLevel::Enum(d) => TopLevelView::Enum(enum_def_view(d)),
        ClassUmlTopLevel::Namespace(n) => TopLevelView::Namespace(namespace_view(n)),
        ClassUmlTopLevel::Package(p) => TopLevelView::Package(package_view(p)),
    }
}

/// The content of a class diagram.
pub open spec fn file_view(f: ClassUmlFile) -> FileView {
    FileView {
        name: f.name@,
        elements: f.elements@.map_values(|t: ClassUmlTopLevel| top_level_view(t)),
        relationships: f.relationships@.map_values(|r: Relationship| relationship_view(r)),
    }
}

} // verus!
