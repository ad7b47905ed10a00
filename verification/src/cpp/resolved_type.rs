//! Language-level representation of C++ types and their display rendering.
use vstd::prelude::*;
use crate::text::{chars_of, is_literal, push_all, string_of, decimal, digit_char};

verus! {

/// Identifier of an entity in the extracted model.
pub type EntityId = String;

/// Language-level representation of a C++ type after libclang extraction.
#[derive(Debug)]
pub enum ResolvedType {
    Builtin(String),
    UserDefined(EntityId),
    Template { base: EntityId, args: Vec<ResolvedType> },
    Function { return_type: Box<ResolvedType>, parameter_types: Vec<ResolvedType>, is_variadic: bool },
    FunctionPointer(Box<ResolvedType>),
    FunctionReference(Box<ResolvedType>),
    Pointer(Box<ResolvedType>),
    Reference(Box<ResolvedType>),
    RValueReference(Box<ResolvedType>),
    Const(Box<ResolvedType>),
    Volatile(Box<ResolvedType>),
    Array { element: Box<ResolvedType>, size: Option<usize> },
    Unknown(String),
    /// A type that is structurally unresolvable without template instantiation,
    /// e.g. `decltype(some_trait_impl(std::declval<T>()))` inside an uninstantiated
    /// template. It is an expected, permanent limitation of AST-only analysis.
    Dependent(String),
}

// ---------------------------------------------------------------------------
// Specification
// ---------------------------------------------------------------------------

/// `s` with every leading `::` removed (`str::trim_start_matches("::")`).
pub open spec fn strip_scope_prefix(s: Seq<char>) -> Seq<char>
    decreases s.len(),
{
    if s.len() >= 2 && s[0] == ':' && s[1] == ':' {
        strip_scope_prefix(s.skip(2))
    } else {
        s
    }
}

/// Structural equality of two types, comparing names by their characters.
pub open spec fn same_type(a: ResolvedType, b: ResolvedType) -> bool
    decreases a, 0nat,
{
    match (a, b) {
        (ResolvedType::Builtin(x), ResolvedType::Builtin(y)) => x@ == y@,
        (ResolvedType::UserDefined(x), ResolvedType::UserDefined(y)) => x@ == y@,
        (ResolvedType::Unknown(x), ResolvedType::Unknown(y)) => x@ == y@,
        (ResolvedType::Dependent(x), ResolvedType::Dependent(y)) => x@ == y@,
        (
            ResolvedType::Template { base: b1, args: a1 },
            ResolvedType::Template { base: b2, args: a2 },
        ) => b1@ == b2@ && a1@.len() == a2@.len() && same_types(a1@, a2@, a1@.len()),
        (
            ResolvedType::Function { return_type: r1, parameter_types: p1, is_variadic: v1 },
            ResolvedType::Function { return_type: r2, parameter_types: p2, is_variadic: v2 },
        ) => same_type(*r1, *r2) && p1@.len() == p2@.len() && same_types(p1@, p2@, p1@.len())
            && v1 == v2,
        (ResolvedType::FunctionPointer(x), ResolvedType::FunctionPointer(y)) => same_type(*x, *y),
        (ResolvedType::FunctionReference(x), ResolvedType::FunctionReference(y)) => same_type(*x, *y),
        (ResolvedType::Pointer(x), ResolvedType::Pointer(y)) => same_type(*x, *y),
        (ResolvedType::Reference(x), ResolvedType::Reference(y)) => same_type(*x, *y),
        (ResolvedType::RValueReference(x), ResolvedType::RValueReference(y)) => same_type(*x, *y),
        (ResolvedType::Const(x), ResolvedType::Const(y)) => same_type(*x, *y),
        (ResolvedType::Volatile(x), ResolvedType::Volatile(y)) => same_type(*x, *y),
        (
            ResolvedType::Array { element: e1, size: s1 },
            ResolvedType::Array { element: e2, size: s2 },
        ) => same_type(*e1, *e2) && s1 == s2,
        _ => false,
    }
}

/// Pairwise structural equality of the first `n` types of `xs` and `ys`.
pub open spec fn same_types(xs: Seq<ResolvedType>, ys: Seq<ResolvedType>, n: nat) -> bool
    decreases xs, n,
{
    if n == 0 || n > xs.len() || n > ys.len() {
        n == 0
    } else {
        same_types(xs, ys, (n - 1) as nat) && same_type(xs[n - 1], ys[n - 1])
    }
}

/// Standard wrappers that are modelled as non-owning by policy.
pub open spec fn is_non_owning_wrapper(base: Seq<char>) -> bool {
    let b = strip_scope_prefix(base);
    b == "std::weak_ptr"@ || b == "std::shared_ptr"@ || b == "std::reference_wrapper"@
        || b == "std::observer_ptr"@
}

/// Whether a type is non-owning for relationship inference.
pub open spec fn non_owning(t: ResolvedType) -> bool
    decreases t, 0nat,
{
    match t {
        ResolvedType::Pointer(_) => true,
        ResolvedType::Reference(_) => true,
        ResolvedType::RValueReference(_) => true,
        ResolvedType::FunctionPointer(_) => true,
        ResolvedType::FunctionReference(_) => true,
        ResolvedType::Const(inner) => non_owning(*inner),
        ResolvedType::Volatile(inner) => non_owning(*inner),
        ResolvedType::Function { return_type, parameter_types, .. } => non_owning(*return_type)
            || any_non_owning(parameter_types@, parameter_types@.len()),
        ResolvedType::Array { element, .. } => non_owning(*element),
        ResolvedType::Template { base, args } => is_non_owning_wrapper(base@) || any_non_owning(
            args@,
            args@.len(),
        ),
        _ => false,
    }
}

/// The standard wrappers `std::weak_ptr`, `std::shared_ptr`,
/// `std::reference_wrapper` and `std::observer_ptr`, written with or without
/// a leading `::`, are non-owning whatever they wrap.
pub proof fn lemma_standard_wrappers_are_non_owning(base: String, args: Vec<ResolvedType>)
    ensures
        (base@ == "std::weak_ptr"@ || base@ == "::std::weak_ptr"@) ==> non_owning(
            ResolvedType::Template { base, args },
        ),
        (base@ == "std::shared_ptr"@ || base@ == "::std::shared_ptr"@) ==> non_owning(
            ResolvedType::Template { base, args },
        ),
        (base@ == "std::reference_wrapper"@ || base@ == "::std::reference_wrapper"@) ==> non_owning(
            ResolvedType::Template { base, args },
        ),
        (base@ == "std::observer_ptr"@ || base@ == "::std::observer_ptr"@) ==> non_owning(
            ResolvedType::Template { base, args },
        ),
{
    reveal_strlit("std::weak_ptr");
    reveal_strlit("::std::weak_ptr");
    reveal_strlit("std::shared_ptr");
    reveal_strlit("::std::shared_ptr");
    reveal_strlit("std::reference_wrapper");
    reveal_strlit("::std::reference_wrapper");
    reveal_strlit("std::observer_ptr");
    reveal_strlit("::std::observer_ptr");
    if base@ == "::std::weak_ptr"@ {
        assert(base@.skip(2) =~= "std::weak_ptr"@);
        assert(strip_scope_prefix("std::weak_ptr"@) == "std::weak_ptr"@) by {
            assert("std::weak_ptr"@[0] == 's');
        }
    }
    if base@ == "std::weak_ptr"@ {
        assert(base@[0] == 's');
    }
    if base@ == "::std::shared_ptr"@ {
        assert(base@.skip(2) =~= "std::shared_ptr"@);
        assert(strip_scope_prefix("std::shared_ptr"@) == "std::shared_ptr"@) by {
            assert("std::shared_ptr"@[0] == 's');
        }
    }
    if base@ == "std::shared_ptr"@ {
        assert(base@[0] == 's');
    }
    if base@ == "::std::reference_wrapper"@ {
        assert(base@.skip(2) =~= "std::reference_wrapper"@);
        assert(strip_scope_prefix("std::reference_wrapper"@) == "std::reference_wrapper"@) by {
            assert("std::reference_wrapper"@[0] == 's');
        }
    }
    if base@ == "std::reference_wrapper"@ {
        assert(base@[0] == 's');
    }
    if base@ == "::std::observer_ptr"@ {
        assert(base@.skip(2) =~= "std::observer_ptr"@);
        assert(strip_scope_prefix("std::observer_ptr"@) == "std::observer_ptr"@) by {
            assert("std::observer_ptr"@[0] == 's');
        }
    }
    if base@ == "std::observer_ptr"@ {
        assert(base@[0] == 's');
    }
}

/// Pointers, references (lvalue and rvalue) and function pointers and
/// references never own what they point to; `const`, `volatile` and arrays
/// own exactly when their element does; a named or builtin type, an unknown
/// or a dependent one, owns; an owning template base with owning arguments owns.
pub proof fn lemma_ownership_by_shape(inner: ResolvedType, name: String, args: Vec<ResolvedType>, size: Option<usize>)
    ensures
        non_owning(ResolvedType::Pointer(Box::new(inner))),
        non_owning(ResolvedType::Reference(Box::new(inner))),
        non_owning(ResolvedType::RValueReference(Box::new(inner))),
        non_owning(ResolvedType::FunctionPointer(Box::new(inner))),
        non_owning(ResolvedType::FunctionReference(Box::new(inner))),
        non_owning(ResolvedType::Const(Box::new(inner))) == non_owning(inner),
        non_owning(ResolvedType::Volatile(Box::new(inner))) == non_owning(inner),
        non_owning(ResolvedType::Array { element: Box::new(inner), size }) == non_owning(inner),
        !non_owning(ResolvedType::Builtin(name)),
        !non_owning(ResolvedType::UserDefined(name)),
        !non_owning(ResolvedType::Unknown(name)),
        !non_owning(ResolvedType::Dependent(name)),
        !is_non_owning_wrapper(name@) && !any_non_owning(args@, args@.len()) ==> !non_owning(
            ResolvedType::Template { base: name, args },
        ),
{
}

/// Whether one of the first `n` types of `ts` is non-owning.
pub open spec fn any_non_owning(ts: Seq<ResolvedType>, n: nat) -> bool
    decreases ts, n,
{
    if n == 0 || n > ts.len() {
        false
    } else {
        any_non_owning(ts, (n - 1) as nat) || non_owning(ts[n - 1])
    }
}

/// Once one of a prefix of types is non-owning, so is one of every longer prefix.
pub proof fn lemma_any_non_owning_monotone(ts: Seq<ResolvedType>, m: nat, n: nat)
    requires
        m <= n <= ts.len(),
        any_non_owning(ts, m),
    ensures
        any_non_owning(ts, n),
    decreases n,
{
    if m < n {
        lemma_any_non_owning_monotone(ts, m, (n - 1) as nat);
    }
}

/// The candidate relationship target of a type: template arguments before the
/// template base, return type before parameter types, wrappers delegate inward.
pub open spec fn relationship_target(t: ResolvedType) -> Option<Seq<char>>
    decreases t, 0nat,
{
    match t {
        ResolvedType::Builtin(_) => None,
        ResolvedType::Unknown(_) => None,
        ResolvedType::Dependent(_) => None,
        ResolvedType::UserDefined(id) => Some(id@),
        ResolvedType::Template { base, args } => match first_target(args@, args@.len()) {
            Some(x) => Some(x),
            None => Some(base@),
        },
        ResolvedType::Function { return_type, parameter_types, .. } => match relationship_target(
            *return_type,
        ) {
            Some(x) => Some(x),
            None => first_target(parameter_types@, parameter_types@.len()),
        },
        ResolvedType::FunctionPointer(inner) => relationship_target(*inner),
        ResolvedType::FunctionReference(inner) => relationship_target(*inner),
        ResolvedType::Pointer(inner) => relationship_target(*inner),
        ResolvedType::Reference(inner) => relationship_target(*inner),
        ResolvedType::RValueReference(inner) => relationship_target(*inner),
        ResolvedType::Const(inner) => relationship_target(*inner),
        ResolvedType::Volatile(inner) => relationship_target(*inner),
        ResolvedType::Array { element, .. } => relationship_target(*element),
    }
}

/// The target of the first of the first `n` types of `ts` that has one.
pub open spec fn first_target(ts: Seq<ResolvedType>, n: nat) -> Option<Seq<char>>
    decreases ts, n,
{
    if n == 0 || n > ts.len() {
        None
    } else {
        match first_target(ts, (n - 1) as nat) {
            Some(x) => Some(x),
            None => relationship_target(ts[n - 1]),
        }
    }
}

/// Once a prefix of types yields a target, every longer prefix yields the same one.
pub proof fn lemma_first_target_monotone(ts: Seq<ResolvedType>, m: nat, n: nat)
    requires
        m <= n <= ts.len(),
        first_target(ts, m) is Some,
    ensures
        first_target(ts, n) == first_target(ts, m),
    decreases n,
{
    if m < n {
        lemma_first_target_monotone(ts, m, (n - 1) as nat);
    }
}

/// The view of an optional string slice.
pub open spec fn opt_str_view(o: Option<&str>) -> Option<Seq<char>> {
    match o {
        Some(s) => Some(s@),
        None => None,
    }
}

/// The core entity-bearing node under all qualifier, indirection and array wrappers.
pub open spec fn entity_root(t: ResolvedType) -> ResolvedType
    decreases t,
{
    match t {
        ResolvedType::FunctionPointer(inner) => entity_root(*inner),
        ResolvedType::FunctionReference(inner) => entity_root(*inner),
        ResolvedType::Pointer(inner) => entity_root(*inner),
        ResolvedType::Reference(inner) => entity_root(*inner),
        ResolvedType::RValueReference(inner) => entity_root(*inner),
        ResolvedType::Const(inner) => entity_root(*inner),
        ResolvedType::Volatile(inner) => entity_root(*inner),
        ResolvedType::Array { element, .. } => entity_root(*element),
        _ => t,
    }
}

/// The entity referenced for base-type lookups (template base for templates).
pub open spec fn referenced_entity(t: ResolvedType) -> Option<Seq<char>> {
    match entity_root(t) {
        ResolvedType::UserDefined(id) => Some(id@),
        ResolvedType::Template { base, .. } => Some(base@),
        _ => None,
    }
}

/// Source-like rendering of a type.
pub open spec fn rendered(t: ResolvedType) -> Seq<char>
    decreases t, 0nat,
{
    match t {
        ResolvedType::Builtin(name) => name@,
        ResolvedType::UserDefined(name) => name@,
        ResolvedType::Unknown(name) => name@,
        ResolvedType::Dependent(name) => name@,
        ResolvedType::Template { base, args } => base@ + "<"@ + joined(args@, args@.len()) + ">"@,
        ResolvedType::Function { return_type, parameter_types, is_variadic } => rendered(
            *return_type,
        ) + "("@ + parameter_list(parameter_types@, is_variadic) + ")"@,
        ResolvedType::FunctionPointer(inner) => match *inner {
            ResolvedType::Function { return_type, parameter_types, is_variadic } => rendered(
                *return_type,
            ) + " (*)("@ + parameter_list(parameter_types@, is_variadic) + ")"@,
            _ => rendered(*inner) + "*"@,
        },
        ResolvedType::FunctionReference(inner) => match *inner {
            ResolvedType::Function { return_type, parameter_types, is_variadic } => rendered(
                *return_type,
            ) + " (&)("@ + parameter_list(parameter_types@, is_variadic) + ")"@,
            _ => rendered(*inner) + "&"@,
        },
        ResolvedType::Pointer(inner) => rendered(*inner) + "*"@,
        ResolvedType::Reference(inner) => rendered(*inner) + "&"@,
        ResolvedType::RValueReference(inner) => rendered(*inner) + "&&"@,
        ResolvedType::Const(inner) => match *inner {
            ResolvedType::Pointer(pointee) => rendered(*pointee) + "*const"@,
            _ => "const "@ + rendered(*inner),
        },
        ResolvedType::Volatile(inner) => "volatile "@ + rendered(*inner),
        ResolvedType::Array { element, size } => match size {
            Some(n) => rendered(*element) + "["@ + decimal(n as nat) + "]"@,
            None => rendered(*element) + "[]"@,
        },
    }
}

/// The renderings of the first `n` types of `ts`, separated by `", "`.
pub open spec fn joined(ts: Seq<ResolvedType>, n: nat) -> Seq<char>
    decreases ts, n,
{
    if n == 0 || n > ts.len() {
        Seq::empty()
    } else if n == 1 {
        rendered(ts[0])
    } else {
        joined(ts, (n - 1) as nat) + ", "@ + rendered(ts[n - 1])
    }
}

/// A rendered parameter list, with a trailing `...` for variadic functions.
pub open spec fn parameter_list(ts: Seq<ResolvedType>, variadic: bool) -> Seq<char>
    decreases ts, ts.len() + 1,
{
    if variadic {
        if ts.len() == 0 {
            "..."@
        } else {
            joined(ts, ts.len()) + ", ..."@
        }
    } else {
        joined(ts, ts.len())
    }
}

/// The last character of a spaced prefix is the last character of the input prefix.
pub proof fn lemma_spaced_last(s: Seq<char>, n: nat)
    requires
        0 < n <= s.len(),
    ensures
        spaced(s, n).len() > 0,
        spaced(s, n).last() == s[n - 1],
{
}

/// Whether `c` is a pointer or reference marker.
pub open spec fn is_marker(c: char) -> bool {
    c == '*' || c == '&'
}

/// Whether the marker at `i` is the `*`/`&` of a function pointer/reference `(*)`/`(&)`.
pub open spec fn is_function_marker(s: Seq<char>, i: int) -> bool {
    0 < i && i + 1 < s.len() && is_marker(s[i]) && s[i - 1] == '(' && s[i + 1] == ')'
}

/// Whether the `(` at `i` opens a function pointer/reference marker `(*)`/`(&)`.
pub open spec fn opens_function_marker(s: Seq<char>, i: int) -> bool {
    0 <= i && s[i] == '(' && is_function_marker(s, i + 1)
}

/// Whether display spacing puts a blank before position `i`: the first marker of a
/// run of markers, not a function marker, not already after a blank or `(`; or the
/// `(` of a function marker `(*)`/`(&)` that follows other text, not already after
/// a blank or `(`.
pub open spec fn needs_space(s: Seq<char>, i: int) -> bool {
    ||| {
        &&& is_marker(s[i])
        &&& !is_function_marker(s, i)
        &&& (i == 0 || !(is_marker(s[i - 1]) || s[i - 1] == ' ' || s[i - 1] == '('))
    }
    ||| {
        &&& opens_function_marker(s, i)
        &&& i > 0
        &&& !(s[i - 1] == ' ' || s[i - 1] == '(')
    }
}

/// The display spacing of the first `n` characters of `s`.
pub open spec fn spaced(s: Seq<char>, n: nat) -> Seq<char>
    decreases n,
{
    if n == 0 || n > s.len() {
        Seq::empty()
    } else if needs_space(s, n - 1) {
        spaced(s, (n - 1) as nat) + seq![' ', s[n - 1]]
    } else {
        spaced(s, (n - 1) as nat) + seq![s[n - 1]]
    }
}

/// `s` with one blank inserted before each pointer/reference marker run and before
/// each function pointer/reference marker `(*)`/`(&)` that follows other text.
pub open spec fn display_spacing(s: Seq<char>) -> Seq<char> {
    spaced(s, s.len())
}

/// A shorter prefix of the input is spaced into a prefix of the spacing of a longer one.
pub proof fn lemma_spaced_prefix(s: Seq<char>, n: nat, m: nat)
    requires
        n <= m <= s.len(),
    ensures
        spaced(s, n).len() <= spaced(s, m).len(),
        spaced(s, m).take(spaced(s, n).len() as int) == spaced(s, n),
    decreases m,
{
    if m > n {
        lemma_spaced_prefix(s, n, (m - 1) as nat);
        assert(spaced(s, m).take(spaced(s, n).len() as int) =~= spaced(s, (m - 1) as nat).take(
            spaced(s, n).len() as int,
        ));
    } else {
        assert(spaced(s, m).take(spaced(s, n).len() as int) =~= spaced(s, m));
    }
}

/// Where the character at `k` lands in the display spacing of `s`, and what precedes it.
pub proof fn lemma_spaced_at(s: Seq<char>, k: nat)
    requires
        k < s.len(),
    ensures
        ({
            let t = display_spacing(s);
            let j = spaced(s, k).len();
            &&& j < t.len()
            &&& needs_space(s, k as int) ==> {
                &&& t[j as int] == ' '
                &&& t[j + 1int] == s[k as int]
                &&& spaced(s, k + 1).len() == j + 2
            }
            &&& !needs_space(s, k as int) ==> {
                &&& t[j as int] == s[k as int]
                &&& spaced(s, k + 1).len() == j + 1
            }
            &&& k == 0 ==> j == 0
            &&& k > 0 ==> j > 0 && t[j - 1] == s[k - 1]
        }),
{
    let t = display_spacing(s);
    lemma_spaced_prefix(s, k + 1, s.len());
    lemma_spaced_prefix(s, k, s.len());
    let j = spaced(s, k).len();
    assert(t.take(spaced(s, k + 1).len() as int) == spaced(s, k + 1));
    if needs_space(s, k as int) {
        assert(t[j as int] == spaced(s, k + 1)[j as int]);
        assert(t[j + 1int] == spaced(s, k + 1)[j + 1int]);
    } else {
        assert(t[j as int] == spaced(s, k + 1)[j as int]);
    }
    if k > 0 {
        lemma_spaced_last(s, k);
        assert(t[j - 1] == spaced(s, k)[j - 1]);
    }
}

/// Spacing the display spacing again leaves each spaced prefix as it is.
proof fn lemma_spacing_settles(s: Seq<char>, n: nat)
    requires
        n <= s.len(),
    ensures
        spaced(display_spacing(s), spaced(s, n).len()) == spaced(s, n),
    decreases n,
{
    let t = display_spacing(s);
    lemma_spaced_prefix(s, n, s.len());
    if n > 0 {
        let k = (n - 1) as nat;
        lemma_spacing_settles(s, k);
        let j = spaced(s, k).len();
        lemma_spaced_at(s, k);
        if needs_space(s, k as int) {
            assert(!needs_space(t, j as int));
            assert(spaced(t, j + 1) == spaced(t, j).push(' '));
            assert(!needs_space(t, j + 1int));
            assert(spaced(t, j + 2) =~= spaced(s, n));
        } else {
            if s[k as int] == '(' && k > 0 && !(s[k - 1] == ' ' || s[k - 1] == '(') {
                assert(!opens_function_marker(s, k as int));
                if k + 1 < s.len() {
                    lemma_spaced_at(s, k + 1);
                    if !needs_space(s, k + 1int) {
                        if k + 2 < s.len() {
                            lemma_spaced_at(s, k + 2);
                        } else {
                            assert(t.len() == spaced(s, k + 2).len());
                        }
                    }
                } else {
                    assert(t.len() == spaced(s, k + 1).len());
                }
                assert(!opens_function_marker(t, j as int));
            }
            assert(!needs_space(t, j as int));
            assert(spaced(t, j + 1) =~= spaced(s, n));
        }
    }
}

/// Display spacing is idempotent: spacing an already spaced text changes nothing.
pub proof fn lemma_display_spacing_idempotent(s: Seq<char>)
    ensures
        display_spacing(display_spacing(s)) == display_spacing(s),
{
    lemma_spacing_settles(s, s.len());
}

/// The non-blank characters of a spaced prefix are those of the input prefix.
proof fn lemma_spaced_blanks(s: Seq<char>, n: nat)
    requires
        n <= s.len(),
    ensures
        spaced(s, n).filter(|c: char| c != ' ') == s.take(n as int).filter(|c: char| c != ' '),
    decreases n,
{
    let p = |c: char| c != ' ';
    if n == 0 {
        assert(s.take(0) =~= Seq::<char>::empty());
        reveal_with_fuel(Seq::filter, 1);
    } else {
        let k = (n - 1) as nat;
        lemma_spaced_blanks(s, k);
        assert(s.take(n as int) =~= s.take(k as int) + seq![s[k as int]]);
        Seq::filter_distributes_over_add(s.take(k as int), seq![s[k as int]], p);
        reveal_with_fuel(Seq::filter, 3);
        if needs_space(s, k as int) {
            Seq::filter_distributes_over_add(spaced(s, k), seq![' ', s[k as int]], p);
            assert(seq![' ', s[k as int]].drop_last() =~= seq![' ']);
            assert(seq![' '].drop_last() =~= Seq::<char>::empty());
            assert(seq![s[k as int]].drop_last() =~= Seq::<char>::empty());
            assert(seq![' ', s[k as int]].filter(p) == seq![s[k as int]].filter(p));
        } else {
            Seq::filter_distributes_over_add(spaced(s, k), seq![s[k as int]], p);
        }
    }
}

/// Display spacing only adds blanks: without blanks, the result reads as the input.
pub proof fn lemma_display_spacing_adds_only_blanks(s: Seq<char>)
    ensures
        display_spacing(s).filter(|c: char| c != ' ') == s.filter(|c: char| c != ' '),
{
    lemma_spaced_blanks(s, s.len());
    assert(s.take(s.len() as int) =~= s);
}

// ---------------------------------------------------------------------------
// Implementation
// ---------------------------------------------------------------------------

fn strip_scope_prefix_exec(s: &[char]) -> (r: usize)
    ensures
        r <= s@.len(),
        s@.skip(r as int) == strip_scope_prefix(s@),
{
    let mut i: usize = 0;
    assert(s@.skip(0) == s@);
    loop
        invariant
            i <= s@.len(),
            s@.len() == s.len(),
            strip_scope_prefix(s@.skip(i as int)) == strip_scope_prefix(s@),
        decreases s@.len() - i,
    {
        let ghost t = s@.skip(i as int);
        if s.len() - i >= 2 && s[i] == ':' && s[i + 1] == ':' {
            assert(t[0] == ':' && t[1] == ':');
            assert(t.skip(2) == s@.skip(i + 2));
            i = i + 2;
        } else {
            assert(!(t.len() >= 2 && t[0] == ':' && t[1] == ':'));
            return i;
        }
    }
}

fn is_non_owning_wrapper_exec(base: &String) -> (r: bool)
    ensures
        r == is_non_owning_wrapper(base@),
{
    let chars = chars_of(base.as_str());
    let start = strip_scope_prefix_exec(chars.as_slice());
    let mut rest: Vec<char> = Vec::new();
    let mut i = start;
    while i < chars.len()
        invariant
            start <= i <= chars@.len(),
            rest@ == chars@.subrange(start as int, i as int),
        decreases chars@.len() - i,
    {
        rest.push(chars[i]);
        i = i + 1;
    }
    assert(rest@ == chars@.skip(start as int));
    is_literal(rest.as_slice(), "std::weak_ptr") || is_literal(rest.as_slice(), "std::shared_ptr")
        || is_literal(rest.as_slice(), "std::reference_wrapper") || is_literal(
        rest.as_slice(),
        "std::observer_ptr",
    )
}

fn push_decimal(n: usize, out: &mut Vec<char>)
    ensures
        final(out)@ == old(out)@ + decimal(n as nat),
    decreases n,
{
    if n >= 10 {
        push_decimal(n / 10, out);
    }
    let d = (n % 10) as u8;
    out.push((48u8 + d) as char);
}

fn push_str(out: &mut Vec<char>, s: &str)
    ensures
        final(out)@ == old(out)@ + s@,
{
    let v = chars_of(s);
    push_all(out, v.as_slice());
}

impl Clone for ResolvedType {
    fn clone(&self) -> (r: Self)
        ensures
            same_type(r, *self),
    {
        self.duplicate()
    }
}

impl ResolvedType {
    /// A structurally equal copy of this type.
    pub fn duplicate(&self) -> (r: Self)
        ensures
            same_type(r, *self),
        decreases self,
    {
        match self {
            ResolvedType::Builtin(s) => ResolvedType::Builtin(s.clone()),
            ResolvedType::UserDefined(s) => ResolvedType::UserDefined(s.clone()),
            ResolvedType::Unknown(s) => ResolvedType::Unknown(s.clone()),
            ResolvedType::Dependent(s) => ResolvedType::Dependent(s.clone()),
            ResolvedType::Template { base, args } => ResolvedType::Template {
                base: base.clone(),
                args: clone_types(self, args),
            },
            ResolvedType::Function { return_type, parameter_types, is_variadic } => {
                ResolvedType::Function {
                    return_type: Box::new(return_type.duplicate()),
                    parameter_types: clone_types(self, parameter_types),
                    is_variadic: *is_variadic,
                }
            },
            ResolvedType::FunctionPointer(i) => ResolvedType::FunctionPointer(Box::new(i.duplicate())),
            ResolvedType::FunctionReference(i) => ResolvedType::FunctionReference(
                Box::new(i.duplicate()),
            ),
            ResolvedType::Pointer(i) => ResolvedType::Pointer(Box::new(i.duplicate())),
            ResolvedType::Reference(i) => ResolvedType::Reference(Box::new(i.duplicate())),
            ResolvedType::RValueReference(i) => ResolvedType::RValueReference(Box::new(i.duplicate())),
            ResolvedType::Const(i) => ResolvedType::Const(Box::new(i.duplicate())),
            ResolvedType::Volatile(i) => ResolvedType::Volatile(Box::new(i.duplicate())),
            ResolvedType::Array { element, size } => ResolvedType::Array {
                element: Box::new(element.duplicate()),
                size: *size,
            },
        }
    }
}

proof fn lemma_same_types_prefix(xs: Seq<ResolvedType>, zs: Seq<ResolvedType>, ys: Seq<ResolvedType>, n: nat)
    requires
        n <= xs.len(),
        n <= zs.len(),
        xs.subrange(0, n as int) == zs.subrange(0, n as int),
    ensures
        same_types(xs, ys, n) == same_types(zs, ys, n),
    decreases n,
{
    if n > 0 {
        assert(xs[n - 1] == xs.subrange(0, n as int)[n - 1]);
        assert(zs[n - 1] == zs.subrange(0, n as int)[n - 1]);
        assert(xs.subrange(0, n - 1) == xs.subrange(0, n as int).subrange(0, n - 1));
        assert(zs.subrange(0, n - 1) == zs.subrange(0, n as int).subrange(0, n - 1));
        lemma_same_types_prefix(xs, zs, ys, (n - 1) as nat);
    }
}

fn clone_types(parent: &ResolvedType, ts: &Vec<ResolvedType>) -> (r: Vec<ResolvedType>)
    requires
        decreases_to!(*parent => *ts),
    ensures
        r@.len() == ts@.len(),
        same_types(r@, ts@, ts@.len()),
    decreases parent, 1nat,
{
    let mut r: Vec<ResolvedType> = Vec::new();
    let mut i: usize = 0;
    while i < ts.len()
        invariant
            i <= ts@.len(),
            r@.len() == i,
            same_types(r@, ts@, i as nat),
            decreases_to!(*parent => *ts),
        decreases ts@.len() - i,
    {
        proof {
            assert(decreases_to!(*ts => ts@[i as int]));
        }
        let ghost before = r@;
        r.push(ts[i].duplicate());
        proof {
            assert(r@.subrange(0, i as int) == before.subrange(0, i as int));
            lemma_same_types_prefix(r@, before, ts@, i as nat);
        }
        i = i + 1;
    }
    r
}

impl ResolvedType {
    /// Returns whether this type should be treated as non-owning for relationship inference.
    ///
    /// Pointer/reference/function-pointer wrappers are always non-owning; qualifiers and
    /// containers recurse into the wrapped type; a few standard wrappers are non-owning by
    /// policy.
    pub fn is_non_owning(&self) -> (r: bool)
        ensures
            r == non_owning(*self),
        decreases self,
    {
        match self {
            ResolvedType::Pointer(_) | ResolvedType::Reference(_) | ResolvedType::RValueReference(_)
            | ResolvedType::FunctionPointer(_) | ResolvedType::FunctionReference(_) => true,
            ResolvedType::Const(inner) => inner.is_non_owning(),
            ResolvedType::Volatile(inner) => inner.is_non_owning(),
            ResolvedType::Function { return_type, parameter_types, .. } => {
                return_type.is_non_owning() || Self::any_is_non_owning(self, parameter_types)
            },
            ResolvedType::Array { element, .. } => element.is_non_owning(),
            ResolvedType::Template { base, args } => {
                is_non_owning_wrapper_exec(base) || Self::any_is_non_owning(self, args)
            },
            _ => false,
        }
    }

    /// Extracts a candidate relationship target entity id from a resolved type tree.
    ///
    /// Templates prefer the first resolvable argument and fall back to the template
    /// base; functions prefer the return type, then parameter types; wrapper,
    /// qualifier and array nodes delegate to their inner element.
    pub fn relationship_target_entity_id(&self) -> (r: Option<&str>)
        ensures
            opt_str_view(r) == relationship_target(*self),
        decreases self,
    {
        match self {
            ResolvedType::Builtin(_) | ResolvedType::Unknown(_) | ResolvedType::Dependent(_) => None,
            ResolvedType::UserDefined(id) => Some(id.as_str()),
            ResolvedType::Template { base, args } => {
                match Self::first_target_of(self, args) {
                    Some(x) => Some(x),
                    None => Some(base.as_str()),
                }
            },
            ResolvedType::Function { return_type, parameter_types, .. } => {
                match return_type.relationship_target_entity_id() {
                    Some(x) => Some(x),
                    None => Self::first_target_of(self, parameter_types),
                }
            },
            ResolvedType::FunctionPointer(inner) => inner.relationship_target_entity_id(),
            ResolvedType::FunctionReference(inner) => inner.relationship_target_entity_id(),
            ResolvedType::Pointer(inner) => inner.relationship_target_entity_id(),
            ResolvedType::Reference(inner) => inner.relationship_target_entity_id(),
            ResolvedType::RValueReference(inner) => inner.relationship_target_entity_id(),
            ResolvedType::Const(inner) => inner.relationship_target_entity_id(),
            ResolvedType::Volatile(inner) => inner.relationship_target_entity_id(),
            ResolvedType::Array { element, .. } => element.relationship_target_entity_id(),
        }
    }

    fn first_target_of<'a>(parent: &ResolvedType, ts: &'a Vec<ResolvedType>) -> (r: Option<&'a str>)
        requires
            decreases_to!(*parent => *ts),
        ensures
            opt_str_view(r) == first_target(ts@, ts@.len()),
        decreases parent, 1nat,
    {
        let mut i: usize = 0;
        while i < ts.len()
            invariant
                i <= ts@.len(),
                first_target(ts@, i as nat) is None,
                decreases_to!(*parent => *ts),
            decreases ts@.len() - i,
        {
            proof {
                assert(decreases_to!(*ts => ts@[i as int]));
            }
            let found = ts[i].relationship_target_entity_id();
            if found.is_some() {
                proof {
                    lemma_first_target_monotone(ts@, (i + 1) as nat, ts@.len());
                }
                return found;
            }
            i = i + 1;
        }
        None
    }

    /// Returns a direct referenced entity id for base-type style lookups; unlike
    /// `relationship_target_entity_id` it keeps template-base semantics.
    pub fn referenced_entity_id(&self) -> (r: Option<&str>)
        ensures
            opt_str_view(r) == referenced_entity(*self),
    {
        match self.referenced_entity_root() {
            ResolvedType::UserDefined(id) => Some(id.as_str()),
            ResolvedType::Template { base, .. } => Some(base.as_str()),
            _ => None,
        }
    }

    /// Unwraps qualifiers and wrappers to the core entity-bearing node.
    pub fn referenced_entity_root(&self) -> (r: &ResolvedType)
        ensures
            *r == entity_root(*self),
        decreases self,
    {
        match self {
            ResolvedType::FunctionPointer(inner) => inner.referenced_entity_root(),
            ResolvedType::FunctionReference(inner) => inner.referenced_entity_root(),
            ResolvedType::Pointer(inner) => inner.referenced_entity_root(),
            ResolvedType::Reference(inner) => inner.referenced_entity_root(),
            ResolvedType::RValueReference(inner) => inner.referenced_entity_root(),
            ResolvedType::Const(inner) => inner.referenced_entity_root(),
            ResolvedType::Volatile(inner) => inner.referenced_entity_root(),
            ResolvedType::Array { element, .. } => element.referenced_entity_root(),
            _ => self,
        }
    }

    /// Appends the source-like rendering of this type to `out`.
    pub fn render_into(&self, out: &mut Vec<char>)
        ensures
            final(out)@ == old(out)@ + rendered(*self),
        decreases self,
    {
        match self {
            ResolvedType::Builtin(name) | ResolvedType::UserDefined(name) | ResolvedType::Unknown(name)
            | ResolvedType::Dependent(name) => push_str(out, name.as_str()),
            ResolvedType::Template { base, args } => {
                push_str(out, base.as_str());
                push_str(out, "<");
                Self::render_joined(self, args, out);
                push_str(out, ">");
            },
            ResolvedType::Function { return_type, parameter_types, is_variadic } => {
                return_type.render_into(out);
                push_str(out, "(");
                Self::render_parameters(self, parameter_types, *is_variadic, out);
                push_str(out, ")");
            },
            ResolvedType::FunctionPointer(inner) => {
                match &**inner {
                    ResolvedType::Function { return_type, parameter_types, is_variadic } => {
                        return_type.render_into(out);
                        push_str(out, " (*)(");
                        Self::render_parameters(inner, parameter_types, *is_variadic, out);
                        push_str(out, ")");
                    },
                    _ => {
                        inner.render_into(out);
                        push_str(out, "*");
                    },
                }
            },
            ResolvedType::FunctionReference(inner) => {
                match &**inner {
                    ResolvedType::Function { return_type, parameter_types, is_variadic } => {
                        return_type.render_into(out);
                        push_str(out, " (&)(");
                        Self::render_parameters(inner, parameter_types, *is_variadic, out);
                        push_str(out, ")");
                    },
                    _ => {
                        inner.render_into(out);
                        push_str(out, "&");
                    },
                }
            },
            ResolvedType::Pointer(inner) => {
                inner.render_into(out);
                push_str(out, "*");
            },
            ResolvedType::Reference(inner) => {
                inner.render_into(out);
                push_str(out, "&");
            },
            ResolvedType::RValueReference(inner) => {
                inner.render_into(out);
                push_str(out, "&&");
            },
            ResolvedType::Const(inner) => {
                match &**inner {
                    ResolvedType::Pointer(pointee) => {
                        pointee.render_into(out);
                        push_str(out, "*const");
                    },
                    _ => {
                        push_str(out, "const ");
                        inner.render_into(out);
                    },
                }
            },
            ResolvedType::Volatile(inner) => {
                push_str(out, "volatile ");
                inner.render_into(out);
            },
            ResolvedType::Array { element, size } => {
                element.render_into(out);
                match size {
                    Some(n) => {
                        push_str(out, "[");
                        push_decimal(*n, out);
                        push_str(out, "]");
                    },
                    None => push_str(out, "[]"),
                }
            },
        }
    }

    fn render_joined(parent: &ResolvedType, ts: &Vec<ResolvedType>, out: &mut Vec<char>)
        requires
            decreases_to!(*parent => *ts),
        ensures
            final(out)@ == old(out)@ + joined(ts@, ts@.len()),
        decreases parent, 1nat,
    {
        let mut i: usize = 0;
        while i < ts.len()
            invariant
                i <= ts@.len(),
                out@ == old(out)@ + joined(ts@, i as nat),
                decreases_to!(*parent => *ts),
            decreases ts@.len() - i,
        {
            proof {
                assert(decreases_to!(*ts => ts@[i as int]));
            }
            if i > 0 {
                push_str(out, ", ");
            }
            ts[i].render_into(out);
            i = i + 1;
        }
    }

    fn render_parameters(
        parent: &ResolvedType,
        ts: &Vec<ResolvedType>,
        variadic: bool,
        out: &mut Vec<char>,
    )
        requires
            decreases_to!(*parent => *ts),
        ensures
            final(out)@ == old(out)@ + parameter_list(ts@, variadic),
        decreases parent, 2nat,
    {
        Self::render_joined(parent, ts, out);
        if variadic {
            if ts.len() == 0 {
                push_str(out, "...");
            } else {
                push_str(out, ", ...");
            }
        }
    }

    /// The source-like rendering of this type.
    pub fn render(&self) -> (s: String)
        ensures
            s@ == rendered(*self),
    {
        let mut out: Vec<char> = Vec::new();
        self.render_into(&mut out);
        string_of(out.as_slice())
    }

    /// The rendering of this type with display spacing before pointer/reference markers.
    pub fn render_for_display(&self) -> (s: String)
        ensures
            s@ == display_spacing(rendered(*self)),
    {
        normalize_pointer_reference_spacing(self.render())
    }

    fn any_is_non_owning(parent: &ResolvedType, ts: &Vec<ResolvedType>) -> (r: bool)
        requires
            decreases_to!(*parent => *ts),
        ensures
            r == any_non_owning(ts@, ts@.len()),
        decreases parent, 1nat,
    {
        let mut i: usize = 0;
        while i < ts.len()
            invariant
                i <= ts@.len(),
                !any_non_owning(ts@, i as nat),
                decreases_to!(*parent => *ts),
            decreases ts@.len() - i,
        {
            proof {
                assert(decreases_to!(*ts => ts@[i as int]));
            }
            if ts[i].is_non_owning() {
                proof {
                    lemma_any_non_owning_monotone(ts@, (i + 1) as nat, ts@.len());
                }
                return true;
            }
            i = i + 1;
        }
        false
    }
}

/// Normalizes spacing before pointer and reference markers for display: one blank
/// before the first marker of a consecutive `*`/`&` run, none inside the run; the
/// `*`/`&` inside the `(*)`/`(&)` of function pointers and references keeps its
/// parentheses, and one blank goes before that `(` instead, so `void(*)(T)` reads
/// `void (*)(T)`. No blank is added where one, or a `(`, already precedes.
pub fn normalize_pointer_reference_spacing(name_text: String) -> (r: String)
    ensures
        r@ == display_spacing(name_text@),
{
    let chars = chars_of(name_text.as_str());
    let mut output: Vec<char> = Vec::new();
    let mut index: usize = 0;
    while index < chars.len()
        invariant
            index <= chars@.len(),
            chars@ == name_text@,
            output@ == spaced(chars@, index as nat),
        decreases chars@.len() - index,
    {
        let character = chars[index];
        let ghost before = output@;
        if is_pointer_or_reference(character) && !is_function_pointer_marker(&chars, index) {
            insert_space_before_pointer_marker(&mut output, &chars, index);
        } else if character == '(' && index + 1 < chars.len() && is_function_pointer_marker(&chars, index + 1) {
            insert_space_before_function_marker(&mut output, &chars, index);
        }
        output.push(character);
        proof {
            assert(output@ =~= spaced(chars@, (index + 1) as nat));
        }
        index = index + 1;
    }
    string_of(output.as_slice())
}

fn is_pointer_or_reference(character: char) -> (r: bool)
    ensures
        r == is_marker(character),
{
    character == '*' || character == '&'
}

fn is_function_pointer_marker(characters: &Vec<char>, index: usize) -> (r: bool)
    requires
        index < characters@.len(),
    ensures
        r == is_function_marker(characters@, index as int),
{
    is_pointer_or_reference(characters[index]) && index > 0 && index < characters.len() - 1
        && characters[index - 1] == '(' && characters[index + 1] == ')'
}

/// Adds a separator before the first marker of a run unless one is already present.
fn insert_space_before_pointer_marker(output: &mut Vec<char>, characters: &Vec<char>, index: usize)
    requires
        index < characters@.len(),
        old(output)@ == spaced(characters@, index as nat),
        is_marker(characters@[index as int]),
        !is_function_marker(characters@, index as int),
    ensures
        needs_space(characters@, index as int) ==> final(output)@ == old(output)@.push(' '),
        !needs_space(characters@, index as int) ==> final(output)@ == old(output)@,
{
    proof {
        if index > 0 {
            lemma_spaced_last(characters@, index as nat);
        }
    }
    let is_first_marker = index == 0 || !is_pointer_or_reference(characters[index - 1]);
    let n = output.len();
    let ends_with_separator = n > 0 && (output[n - 1] == ' ' || output[n - 1] == '(');
    if is_first_marker && !ends_with_separator {
        output.push(' ');
    }
}

/// Adds a separator before the `(` of a function marker unless it starts the text or
/// a blank or `(` already precedes it.
fn insert_space_before_function_marker(output: &mut Vec<char>, characters: &Vec<char>, index: usize)
    requires
        index + 1 < characters@.len(),
        old(output)@ == spaced(characters@, index as nat),
        opens_function_marker(characters@, index as int),
    ensures
        needs_space(characters@, index as int) ==> final(output)@ == old(output)@.push(' '),
        !needs_space(characters@, index as int) ==> final(output)@ == old(output)@,
{
    proof {
        if index > 0 {
            lemma_spaced_last(characters@, index as nat);
        }
    }
    let n = output.len();
    if index > 0 && n > 0 && output[n - 1] != ' ' && output[n - 1] != '(' {
        output.push(' ');
    }
}

} // verus!
