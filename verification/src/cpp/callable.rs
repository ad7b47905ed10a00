//! Callable identities and control-flow kinds in the C++ semantic model.
use vstd::prelude::*;
use crate::text::{chars_of, join_seq, push_all, string_of, views};
use crate::cpp::control_flow::BodyItem;
use crate::cpp::resolved_type::ResolvedType;

verus! {

/// The semantic scope that declares a C++ callable.
#[derive(Debug, Clone, PartialEq, Eq, Hash)]
pub enum Scope {
    /// The C++ global namespace (`::`).
    Global,
    /// A namespace path, such as `company::network`.
    Namespace(Vec<String>),
    /// A type, optionally nested in namespaces and other types.
    Type { namespace: Vec<String>, type_path: Vec<String> },
}

/// The qualified name of a scope: its path segments joined by `::`, empty for the
/// global namespace.
pub open spec fn scope_name(scope: Scope) -> Seq<char> {
    match scope {
        Scope::Global => Seq::empty(),
        Scope::Namespace(path) => join_seq(views(path@), "::"@),
        Scope::Type { namespace, type_path } => join_seq(views(namespace@ + type_path@), "::"@),
    }
}

impl Scope {
    /// Returns this scope's C++ qualified name without a leading `::`.
    pub fn qualified_name(&self) -> (r: String)
        ensures
            r@ == scope_name(*self),
    {
        match self {
            Scope::Global => String::new(),
            Scope::Namespace(path) => crate::text::join_strings(path, "::"),
            Scope::Type { namespace, type_path } => {
                let mut all: Vec<String> = Vec::new();
                let mut i: usize = 0;
                while i < namespace.len()
                    invariant
                        i <= namespace@.len(),
                        all@ == namespace@.subrange(0, i as int),
                    decreases namespace@.len() - i,
                {
                    all.push(namespace[i].clone());
                    i = i + 1;
                }
                let mut j: usize = 0;
                while j < type_path.len()
                    invariant
                        j <= type_path@.len(),
                        all@ == namespace@ + type_path@.subrange(0, j as int),
                    decreases type_path@.len() - j,
                {
                    all.push(type_path[j].clone());
                    j = j + 1;
                }
                assert(type_path@.subrange(0, type_path@.len() as int) == type_path@);
                crate::text::join_strings(&all, "::")
            },
        }
    }
}

/// The C++ kind of a callable definition.
#[derive(Debug, Clone, Copy, PartialEq, Eq)]
pub enum FunctionKind {
    Free,
    Method,
    StaticMethod,
    Constructor,
    Destructor,
    Conversion,
}

/// Stable semantic identity of a C++ callable.
#[derive(Debug, Clone, PartialEq, Eq, Hash)]
pub struct FunctionId {
    pub scope: Scope,
    pub name: String,
}

/// The qualified name of a callable: `scope::name`, or just `name` in an unnamed scope.
pub open spec fn function_name(id: FunctionId) -> Seq<char> {
    let scope = scope_name(id.scope);
    if scope.len() == 0 {
        id.name@
    } else {
        scope + "::"@ + id.name@
    }
}

impl FunctionId {
    /// Returns the function's C++ qualified name without a leading `::`.
    pub fn qualified_name(&self) -> (r: String)
        ensures
            r@ == function_name(*self),
    {
        let scope = self.scope.qualified_name();
        if scope.as_str().unicode_len() == 0 {
            self.name.clone()
        } else {
            let mut out = chars_of(scope.as_str());
            let sep = chars_of("::");
            push_all(&mut out, &sep);
            let name = chars_of(self.name.as_str());
            push_all(&mut out, &name);
            string_of(&out)
        }
    }
}

/// The control-flow form of a loop statement.
#[derive(Debug, Clone, Copy, PartialEq, Eq)]
pub enum LoopKind {
    For,
    While,
    DoWhile,
}

/// A callable definition: its identity and kind, its return type (none for
/// constructors and destructors), and its body in execution order.
#[derive(Debug)]
pub struct FunctionDef {
    pub id: FunctionId,
    pub kind: FunctionKind,
    pub return_type: Option<ResolvedType>,
    pub body: Vec<BodyItem>,
}

/// The content of a scope.
pub enum ScopeView {
    Global,
    Namespace(Seq<Seq<char>>),
    Type(Seq<Seq<char>>, Seq<Seq<char>>),
}

/// The content of a scope.
pub open spec fn scope_view(s: Scope) -> ScopeView {
    match s {
        Scope::Global => ScopeView::Global,
        Scope::Namespace(p) => ScopeView::Namespace(views(p@)),
        Scope::Type { namespace, type_path } => ScopeView::Type(views(namespace@), views(type_path@)),
    }
}

/// Whether two lists of names are equal.
fn same_names(a: &Vec<String>, b: &Vec<String>) -> (r: bool)
    ensures
        r == (views(a@) == views(b@)),
{
    if a.len() != b.len() {
        assert(views(a@).len() != views(b@).len());
        return false;
    }
    let mut i: usize = 0;
    while i < a.len()
        invariant
            i <= a@.len(),
            a@.len() == b@.len(),
            forall|k: int| 0 <= k < i ==> a@[k]@ == b@[k]@,
        decreases a@.len() - i,
    {
        if a[i] != b[i] {
            assert(views(a@)[i as int] != views(b@)[i as int]);
            return false;
        }
        i = i + 1;
    }
    assert(views(a@) =~= views(b@));
    true
}

/// Whether two scopes are the same.
pub fn same_scope(a: &Scope, b: &Scope) -> (r: bool)
    ensures
        r == (scope_view(*a) == scope_view(*b)),
{
    match (a, b) {
        (Scope::Global, Scope::Global) => true,
        (Scope::Namespace(p), Scope::Namespace(q)) => same_names(p, q),
        (Scope::Type { namespace: n1, type_path: t1 }, Scope::Type { namespace: n2, type_path: t2 }) => {
            same_names(n1, n2) && same_names(t1, t2)
        },
        _ => false,
    }
}

} // verus!
