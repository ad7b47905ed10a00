//! Naming, path and display helpers used when turning libclang types into the model.
use vstd::prelude::*;
pub use crate::cpp::resolved_type::ResolvedType;
use crate::cpp::resolved_type::{display_spacing, rendered, strip_scope_prefix};
use crate::text::{
    chars_of, chars_eq, contains_literal, contains_seq, has_prefix, is_literal, starts_with_literal,
    string_of,
};

verus! {

/// Whether `c` is an ASCII letter or digit.
pub open spec fn is_ascii_alnum(c: char) -> bool {
    ('a' <= c && c <= 'z') || ('A' <= c && c <= 'Z') || ('0' <= c && c <= '9')
}

/// Whether a namespace segment is a standard-library implementation detail such as `__1`:
/// `__` followed by at least one ASCII alphanumeric or `_`, and nothing else.
pub open spec fn std_internal_segment(name: Seq<char>) -> bool {
    &&& name.len() > 2
    &&& name[0] == '_'
    &&& name[1] == '_'
    &&& forall|i: int| 2 <= i < name.len() ==> is_ascii_alnum(#[trigger] name[i]) || name[i] == '_'
}

/// Whether a segment is dropped: an internal namespace right after `std`.
pub open spec fn skipped_segment(is_namespace: bool, name: Seq<char>, previous: Option<Seq<char>>) -> bool {
    is_namespace && previous == Some("std"@) && std_internal_segment(name)
}

/// The names kept from the first `n` `(name, is_namespace)` parts.
pub open spec fn collapsed(parts: Seq<(String, bool)>, n: nat) -> Seq<Seq<char>>
    decreases n,
{
    if n == 0 || n > parts.len() {
        Seq::empty()
    } else {
        let kept = collapsed(parts, (n - 1) as nat);
        let previous = if kept.len() == 0 { None } else { Some(kept.last()) };
        if skipped_segment(parts[n - 1].1, parts[n - 1].0@, previous) {
            kept
        } else {
            kept.push(parts[n - 1].0@)
        }
    }
}

/// Whether a path lies under a system include directory.
pub open spec fn system_header_path(path: Seq<char>) -> bool {
    has_prefix(path, "/usr/include"@) || has_prefix(path, "/usr/local/include"@) || has_prefix(
        path,
        "/opt/"@,
    ) || contains_seq(path, "/gcc/"@)
}

/// Whether a path belongs to a system header or an external dependency.
pub open spec fn external_or_system_path(path: Seq<char>) -> bool {
    system_header_path(path) || contains_seq(path, "/external/"@) || contains_seq(path, "external/"@)
        || contains_seq(path, "_virtual_includes/"@) || (contains_seq(path, "bazel-out/"@)
        && contains_seq(path, "/external/"@))
}

/// Whether a resolved type contains a template anywhere in its tree.
pub open spec fn has_template(t: ResolvedType) -> bool
    decreases t, 0nat,
{
    match t {
        ResolvedType::Template { .. } => true,
        ResolvedType::Function { return_type, parameter_types, .. } => has_template(*return_type)
            || any_has_template(parameter_types@, parameter_types@.len()),
        ResolvedType::FunctionPointer(inner) => has_template(*inner),
        ResolvedType::FunctionReference(inner) => has_template(*inner),
        ResolvedType::Pointer(inner) => has_template(*inner),
        ResolvedType::Reference(inner) => has_template(*inner),
        ResolvedType::RValueReference(inner) => has_template(*inner),
        ResolvedType::Const(inner) => has_template(*inner),
        ResolvedType::Volatile(inner) => has_template(*inner),
        ResolvedType::Array { element, .. } => has_template(*element),
        _ => false,
    }
}

/// Whether one of the first `n` types of `ts` contains a template.
pub open spec fn any_has_template(ts: Seq<ResolvedType>, n: nat) -> bool
    decreases ts, n,
{
    if n == 0 || n > ts.len() {
        false
    } else {
        any_has_template(ts, (n - 1) as nat) || has_template(ts[n - 1])
    }
}

/// Whether the source spelling of a type is shown instead of its normalized rendering:
/// only for types declared in external or system headers, never for templates, and
/// only when the spelling differs from the rendering.
pub open spec fn prefers_source_display(
    declaration_path: Option<Seq<char>>,
    source_display: Seq<char>,
    resolved: ResolvedType,
) -> bool {
    &&& declaration_path matches Some(path) && external_or_system_path(path)
    &&& !has_template(resolved)
    &&& source_display != rendered(resolved)
}

proof fn lemma_any_has_template_monotone(ts: Seq<ResolvedType>, m: nat, n: nat)
    requires
        m <= n <= ts.len(),
        any_has_template(ts, m),
    ensures
        any_has_template(ts, n),
    decreases n,
{
    if m < n {
        lemma_any_has_template_monotone(ts, m, (n - 1) as nat);
    }
}

/// Whether `resolved` contains a template type anywhere.
pub fn contains_template_type(resolved: &ResolvedType) -> (r: bool)
    ensures
        r == has_template(*resolved),
    decreases resolved,
{
    match resolved {
        ResolvedType::Template { .. } => true,
        ResolvedType::Function { return_type, parameter_types, .. } => {
            contains_template_type(return_type) || any_contains_template(resolved, parameter_types)
        },
        ResolvedType::FunctionPointer(inner) | ResolvedType::FunctionReference(inner)
        | ResolvedType::Pointer(inner) | ResolvedType::Reference(inner)
        | ResolvedType::RValueReference(inner) | ResolvedType::Const(inner)
        | ResolvedType::Volatile(inner) => contains_template_type(inner),
        ResolvedType::Array { element, .. } => contains_template_type(element),
        ResolvedType::Builtin(_) | ResolvedType::UserDefined(_) | ResolvedType::Unknown(_)
        | ResolvedType::Dependent(_) => false,
    }
}

fn any_contains_template(parent: &ResolvedType, ts: &Vec<ResolvedType>) -> (r: bool)
    requires
        decreases_to!(*parent => *ts),
    ensures
        r == any_has_template(ts@, ts@.len()),
    decreases parent, 1nat,
{
    let mut i: usize = 0;
    while i < ts.len()
        invariant
            i <= ts@.len(),
            !any_has_template(ts@, i as nat),
            decreases_to!(*parent => *ts),
        decreases ts@.len() - i,
    {
        proof {
            assert(decreases_to!(*ts => ts@[i as int]));
        }
        if contains_template_type(&ts[i]) {
            proof {
                lemma_any_has_template_monotone(ts@, (i + 1) as nat, ts@.len());
            }
            return true;
        }
        i = i + 1;
    }
    false
}

/// Whether `path` lies under a system include directory.
pub fn is_system_header_path(path: &str) -> (r: bool)
    ensures
        r == system_header_path(path@),
{
    let p = chars_of(path);
    starts_with_literal(&p, "/usr/include") || starts_with_literal(&p, "/usr/local/include")
        || starts_with_literal(&p, "/opt/") || contains_literal(&p, "/gcc/")
}

/// Whether `path` belongs to a system header or an external dependency.
pub fn is_external_or_system_path(path: &str) -> (r: bool)
    ensures
        r == external_or_system_path(path@),
{
    let p = chars_of(path);
    is_system_header_path(path) || contains_literal(&p, "/external/") || contains_literal(
        &p,
        "external/",
    ) || contains_literal(&p, "_virtual_includes/") || (contains_literal(&p, "bazel-out/")
        && contains_literal(&p, "/external/"))
}

/// Whether the source spelling of a type is preferred over its normalized rendering.
///
/// `declaration_path` is the presumed file of the type's declaration, if it has one.
pub fn should_prefer_source_display_name(
    declaration_path: Option<&str>,
    source_display: &str,
    resolved: &ResolvedType,
) -> (r: bool)
    ensures
        r == prefers_source_display(
            match declaration_path {
                Some(p) => Some(p@),
                None => None,
            },
            source_display@,
            *resolved,
        ),
{
    let declared_external = match declaration_path {
        Some(path) => is_external_or_system_path(path),
        None => false,
    };
    if !declared_external {
        return false;
    }
    if contains_template_type(resolved) {
        return false;
    }
    let shown = chars_of(source_display);
    let rendered_text = resolved.render();
    let normalized = chars_of(rendered_text.as_str());
    !chars_eq(&shown, &normalized)
}

/// The display text of a type: its source spelling where that is preferred, otherwise
/// its normalized rendering.
pub fn render_type_for_display(
    declaration_path: Option<&str>,
    source_display: &str,
    resolved: &ResolvedType,
) -> (r: String)
    ensures
        prefers_source_display(
            match declaration_path {
                Some(p) => Some(p@),
                None => None,
            },
            source_display@,
            *resolved,
        ) ==> r@ == source_display@,
        !prefers_source_display(
            match declaration_path {
                Some(p) => Some(p@),
                None => None,
            },
            source_display@,
            *resolved,
        ) ==> r@ == display_spacing(rendered(*resolved)),
{
    if should_prefer_source_display_name(declaration_path, source_display, resolved) {
        let v = chars_of(source_display);
        string_of(&v)
    } else {
        resolved.render_for_display()
    }
}

/// `name` with every leading `::` removed.
pub fn strip_global_scope_prefix(name: &str) -> (r: String)
    ensures
        r@ == strip_scope_prefix(name@),
{
    let v = chars_of(name);
    let mut i: usize = 0;
    assert(v@.skip(0) == v@);
    loop
        invariant
            i <= v@.len(),
            v@.len() == v.len(),
            v@ == name@,
            strip_scope_prefix(v@.skip(i as int)) == strip_scope_prefix(name@),
        decreases v@.len() - i,
    {
        let ghost t = v@.skip(i as int);
        if v.len() - i >= 2 && v[i] == ':' && v[i + 1] == ':' {
            assert(t[0] == ':' && t[1] == ':');
            assert(t.skip(2) == v@.skip(i + 2));
            i = i + 2;
        } else {
            assert(!(t.len() >= 2 && t[0] == ':' && t[1] == ':'));
            let mut rest: Vec<char> = Vec::new();
            let mut k = i;
            while k < v.len()
                invariant
                    i <= k <= v@.len(),
                    v@.len() == v.len(),
                    rest@ == v@.subrange(i as int, k as int),
                decreases v@.len() - k,
            {
                rest.push(v[k]);
                k = k + 1;
            }
            assert(rest@ == t);
            return string_of(&rest);
        }
    }
}

/// Whether `name` is a standard-library implementation-detail segment such as `__1`.
pub fn is_std_internal_namespace_segment(name: &str) -> (r: bool)
    ensures
        r == std_internal_segment(name@),
{
    let v = chars_of(name);
    if v.len() <= 2 || v[0] != '_' || v[1] != '_' {
        return false;
    }
    let mut i: usize = 2;
    while i < v.len()
        invariant
            2 <= i <= v@.len(),
            v@ == name@,
            forall|k: int| 2 <= k < i ==> is_ascii_alnum(#[trigger] v@[k]) || v@[k] == '_',
        decreases v@.len() - i,
    {
        let c = v[i];
        if !(('a' <= c && c <= 'z') || ('A' <= c && c <= 'Z') || ('0' <= c && c <= '9') || c == '_') {
            return false;
        }
        i = i + 1;
    }
    true
}

/// Whether a segment is dropped while collapsing: an internal namespace right after `std`.
pub fn should_skip_std_internal_namespace(
    is_namespace: bool,
    name: &str,
    previous_segment: Option<&str>,
) -> (r: bool)
    ensures
        r == skipped_segment(
            is_namespace,
            name@,
            match previous_segment {
                Some(p) => Some(p@),
                None => None,
            },
        ),
{
    if !is_namespace {
        return false;
    }
    let previous_is_std = match previous_segment {
        Some(p) => {
            let pv = chars_of(p);
            is_literal(&pv, "std")
        },
        None => false,
    };
    previous_is_std && is_std_internal_namespace_segment(name)
}

/// Drops standard-library implementation-detail namespaces such as `std::__1`.
pub fn collapse_std_internal_namespaces(parts: Vec<(String, bool)>) -> (r: Vec<String>)
    ensures
        r@.len() == collapsed(parts@, parts@.len()).len(),
        forall|i: int| 0 <= i < r@.len() ==> #[trigger] r@[i]@ == collapsed(parts@, parts@.len())[i],
{
    let mut collapsed_names: Vec<String> = Vec::new();
    let mut i: usize = 0;
    while i < parts.len()
        invariant
            i <= parts@.len(),
            collapsed_names@.len() == collapsed(parts@, i as nat).len(),
            forall|k: int|
                0 <= k < collapsed_names@.len() ==> #[trigger] collapsed_names@[k]@ == collapsed(
                    parts@,
                    i as nat,
                )[k],
        decreases parts@.len() - i,
    {
        let n = collapsed_names.len();
        let skip = if n == 0 {
            should_skip_std_internal_namespace(parts[i].1, parts[i].0.as_str(), None)
        } else {
            should_skip_std_internal_namespace(
                parts[i].1,
                parts[i].0.as_str(),
                Some(collapsed_names[n - 1].as_str()),
            )
        };
        if !skip {
            collapsed_names.push(parts[i].0.clone());
        }
        i = i + 1;
    }
    collapsed_names
}

} // verus!
