//! Builds the element tree of a class diagram from the parse tree the class
//! grammar produces.
use vstd::prelude::*;
use crate::class_diagram::class_ast::{
    Attribute, AttributeView, ClassDef, Element, ElementView, EnumDef, EnumDefView, EnumItem, EnumItemView,
    EnumValue, EnumValueView, InterfaceDef, Method, MethodView, Name, NameView, Param, ParamView, StructDef,
    ClassUmlFile, ClassUmlTopLevel, FileView, Namespace, NamespaceView, Package, PackageView, TopLevelView, Relationship, RelationshipView, TypeDefView, Visibility,
    attribute_view, element_view, enum_def_view, enum_item_view, enum_value_view, method_view, name_view,
    file_view, namespace_view, opt_text, package_view, top_level_view, param_view, relationship_view, type_def_view, with_namespace,
    with_namespace_view, with_package_view,
};
use crate::parser_core::common_ast::{Arrow, ArrowView, arrow_view};
use crate::parser_core::common_parser::{arrow_error, arrow_model, parse_arrow};
use crate::parser_core::parse_tree::{
    ParseNode, Rule, find_last, last_text, last_with, lemma_last_step, lemma_last_with, lemma_take_step,
    lemma_with_rule_concat, text_with, with_rule,
};
use crate::text::{chars_of, is_literal, copy_range, split_words, string_of, trim, trimmed_chars, words};

verus! {

/// The visibility a marker denotes; no marker, or an unknown one, is public.
pub open spec fn visibility_of(marker: Option<Seq<char>>) -> Visibility {
    match marker {
        Some(m) => if m == "-"@ {
            Visibility::Private
        } else if m == "#"@ {
            Visibility::Protected
        } else if m == "~"@ {
            Visibility::Package
        } else {
            Visibility::Public
        },
        None => Visibility::Public,
    }
}

/// `-` marks a private member, `#` a protected one and `~` a package one;
/// `+`, any other marker, or none, marks a public one.
pub proof fn lemma_visibility_markers(m: Option<Seq<char>>)
    ensures
        visibility_of(m) == Visibility::Private <==> m == Some("-"@),
        visibility_of(m) == Visibility::Protected <==> m == Some("#"@),
        visibility_of(m) == Visibility::Package <==> m == Some("~"@),
        visibility_of(m) == Visibility::Public <==> !(m == Some("-"@) || m == Some("#"@) || m == Some("~"@)),
        visibility_of(Some("+"@)) == Visibility::Public,
{
    reveal_strlit("-");
    reveal_strlit("#");
    reveal_strlit("~");
    reveal_strlit("+");
    assert("-"@ != "#"@ && "-"@ != "~"@ && "#"@ != "~"@ && "+"@ != "-"@ && "+"@ != "#"@ && "+"@ != "~"@) by {
        assert("-"@[0] != "#"@[0] && "-"@[0] != "~"@[0] && "#"@[0] != "~"@[0]);
        assert("+"@[0] != "-"@[0] && "+"@[0] != "#"@[0] && "+"@[0] != "~"@[0]);
    }
}

/// The visibility of a member from its marker.
pub fn parse_visibility(marker: Option<&ParseNode>) -> (r: Visibility)
    ensures
        r == visibility_of(
            match marker {
                Some(n) => Some(n.text@),
                None => None,
            },
        ),
{
    match marker {
        None => Visibility::Public,
        Some(n) => {
            let v = chars_of(n.text.as_str());
            let s = v.as_slice();
            proof {
                reveal_strlit("+");
                reveal_strlit("-");
                reveal_strlit("#");
                reveal_strlit("~");
                assert("+"@ != "-"@ && "+"@ != "#"@ && "+"@ != "~"@) by {
                    assert("+"@[0] != "-"@[0] && "+"@[0] != "#"@[0] && "+"@[0] != "~"@[0]);
                }
            }
            if is_literal(s, "+") {
                Visibility::Public
            } else if is_literal(s, "-") {
                Visibility::Private
            } else if is_literal(s, "#") {
                Visibility::Protected
            } else if is_literal(s, "~") {
                Visibility::Package
            } else {
                Visibility::Public
            }
        },
    }
}

/// `s` without one pair of surrounding double quotes, if it has them.
pub open spec fn without_quotes(s: Seq<char>) -> Seq<char> {
    if s.len() >= 2 && s[0] == '"' && s.last() == '"' {
        s.subrange(1, s.len() - 1)
    } else {
        s
    }
}

/// Removes one pair of surrounding double quotes from a name.
pub fn strip_quotes(s: &str) -> (r: String)
    ensures
        r@ == without_quotes(s@),
{
    let v = chars_of(s);
    let n = v.len();
    if n >= 2 && v[0] == '"' && v[n - 1] == '"' {
        let inner = copy_range(v.as_slice(), 1, n - 1);
        string_of(inner.as_slice())
    } else {
        s.to_owned()
    }
}

/// The internal name and display text found so far while walking a `named`
/// match.
pub type NamedFound = (Option<Seq<char>>, Option<Seq<char>>);

/// Walks a match in order: an internal name sets the internal name, an alias
/// clause with a target sets the display text, any other rule is walked into.
pub open spec fn named_walk(n: ParseNode, found: NamedFound) -> NamedFound
    decreases n,
{
    if n.rule == Rule::internal_name {
        (Some(without_quotes(n.text@)), found.1)
    } else if n.rule == Rule::alias_clause {
        if n.children@.len() > 0 {
            (found.0, Some(without_quotes(n.children@[0].text@)))
        } else {
            found
        }
    } else {
        named_walk_seq(n.children@, found)
    }
}

/// Walks the matches `cs` in order.
pub open spec fn named_walk_seq(cs: Seq<ParseNode>, found: NamedFound) -> NamedFound
    decreases cs,
{
    if cs.len() == 0 {
        found
    } else {
        named_walk(cs.last(), named_walk_seq(cs.drop_last(), found))
    }
}

/// The name after reading a `named` match: rewritten when it holds an
/// internal name, unchanged otherwise.
pub open spec fn named_apply(name: NameView, n: ParseNode) -> NameView {
    let found = named_walk(n, (None, None));
    match found.0 {
        Some(internal) => NameView { internal, display: found.1 },
        None => name,
    }
}

fn named_walk_exec(node: &ParseNode, internal: &mut Option<String>, display: &mut Option<String>)
    ensures
        (opt_text(*final(internal)), opt_text(*final(display))) == named_walk(
            *node,
            (opt_text(*old(internal)), opt_text(*old(display))),
        ),
    decreases node,
{
    if node.rule == Rule::internal_name {
        *internal = Some(strip_quotes(node.text.as_str()));
    } else if node.rule == Rule::alias_clause {
        if node.children.len() > 0 {
            *display = Some(strip_quotes(node.children[0].text.as_str()));
        }
    } else {
        let cs = &node.children;
        let ghost start = (opt_text(*internal), opt_text(*display));
        let mut i: usize = 0;
        while i < cs.len()
            invariant
                i <= cs@.len(),
                cs == node.children,
                start == (opt_text(*old(internal)), opt_text(*old(display))),
                node.rule != Rule::internal_name && node.rule != Rule::alias_clause,
                (opt_text(*internal), opt_text(*display)) == named_walk_seq(cs@.take(i as int), start),
            decreases cs@.len() - i,
        {
            proof {
                lemma_take_step(cs@, i as int);
            }
            named_walk_exec(&cs[i], internal, display);
            i = i + 1;
        }
        assert(cs@.take(cs@.len() as int) =~= cs@);
    }
}

/// Reads a `named` match into `name`: when it holds an internal name, the
/// name becomes that internal name with the alias target, if any, as display
/// text; otherwise the name is left as it was.
pub fn parse_named(node: &ParseNode, name: &mut Name)
    ensures
        name_view(*final(name)) == named_apply(name_view(*old(name)), *node),
{
    let mut internal: Option<String> = None;
    let mut display: Option<String> = None;
    named_walk_exec(node, &mut internal, &mut display);
    if let Some(internal) = internal {
        name.internal = internal;
        name.display = display;
    }
}

/// A text, or the empty text.
pub open spec fn or_empty(t: Option<Seq<char>>) -> Seq<char> {
    match t {
        Some(t) => t,
        None => Seq::empty(),
    }
}

/// An optional text as a `String`, or the empty one.
fn text_or_empty(t: Option<String>) -> (r: String)
    ensures
        r@ == or_empty(opt_text(t)),
{
    match t {
        Some(t) => t,
        None => String::new(),
    }
}

/// The field a match denotes: the visibility of its last marker, the text of
/// its last identifier (or none) and of its last type name.
pub open spec fn attribute_model(n: ParseNode) -> AttributeView {
    let cs = n.children@;
    AttributeView {
        visibility: visibility_of(text_with(cs, Rule::class_visibility)),
        name: or_empty(text_with(cs, Rule::identifier)),
        data_type: text_with(cs, Rule::typename),
    }
}

/// The marker among `cs`, if any.
fn marker_of(cs: &Vec<ParseNode>) -> (r: Visibility)
    ensures
        r == visibility_of(text_with(cs@, Rule::class_visibility)),
{
    proof {
        lemma_last_with(cs@, Rule::class_visibility);
    }
    match find_last(cs, Rule::class_visibility) {
        Some(i) => parse_visibility(Some(&cs[i])),
        None => parse_visibility(None),
    }
}

/// Reads a field.
pub fn parse_attribute(node: &ParseNode) -> (r: Attribute)
    ensures
        attribute_view(r) == attribute_model(*node),
{
    let cs = &node.children;
    Attribute {
        visibility: marker_of(cs),
        name: text_or_empty(last_text(cs, Rule::identifier)),
        data_type: last_text(cs, Rule::typename),
    }
}

/// Whether a parameter match has the shape the grammar gives it: a named or
/// unnamed parameter that holds a type name.
pub open spec fn param_ok(n: ParseNode) -> bool {
    &&& n.children@.len() > 0
    &&& (n.children@[0].rule == Rule::param_named || n.children@[0].rule == Rule::param_unnamed)
    &&& text_with(n.children@[0].children@, Rule::typename) is Some
}

/// The parameter a match denotes: the last identifier of a named parameter,
/// its last type name, and whether it is variadic.
pub open spec fn param_model(n: ParseNode) -> ParamView {
    let inner = n.children@[0];
    ParamView {
        name: if inner.rule == Rule::param_named {
            text_with(inner.children@, Rule::identifier)
        } else {
            None
        },
        param_type: text_with(inner.children@, Rule::typename)->Some_0,
        varargs: last_with(inner.children@, Rule::varargs) is Some,
    }
}

/// Reads a parameter.
pub fn parse_param(node: &ParseNode) -> (r: Param)
    requires
        param_ok(*node),
    ensures
        param_view(r) == param_model(*node),
{
    let inner = &node.children[0];
    let name = if inner.rule == Rule::param_named {
        last_text(&inner.children, Rule::identifier)
    } else {
        None
    };
    let param_type = match last_text(&inner.children, Rule::typename) {
        Some(t) => t,
        None => String::new(),
    };
    Param { name, param_type, varargs: find_last(&inner.children, Rule::varargs).is_some() }
}

/// The parameters of the parameter lists among `cs`, in order.
pub open spec fn method_params(cs: Seq<ParseNode>) -> Seq<ParamView>
    decreases cs.len(),
{
    if cs.len() == 0 {
        Seq::empty()
    } else if cs.last().rule == Rule::param_list {
        method_params(cs.drop_last()) + with_rule(cs.last().children@, Rule::param).map_values(
            |p: ParseNode| param_model(p),
        )
    } else {
        method_params(cs.drop_last())
    }
}

/// The return type given by the return type matches among `cs`: the last type
/// name of the last one that holds one.
pub open spec fn method_return(cs: Seq<ParseNode>) -> Option<Seq<char>>
    decreases cs.len(),
{
    if cs.len() == 0 {
        None
    } else if cs.last().rule == Rule::return_type && text_with(cs.last().children@, Rule::typename) is Some {
        text_with(cs.last().children@, Rule::typename)
    } else {
        method_return(cs.drop_last())
    }
}

/// The texts of the identifiers among `cs`.
pub open spec fn identifier_texts(cs: Seq<ParseNode>) -> Seq<Seq<char>> {
    with_rule(cs, Rule::identifier).map_values(|p: ParseNode| p.text@)
}

/// The generic parameters of the last generic parameter list among `cs`.
pub open spec fn method_generics(cs: Seq<ParseNode>) -> Seq<Seq<char>> {
    match last_with(cs, Rule::generic_param_list) {
        Some(i) => identifier_texts(cs[i].children@),
        None => Seq::empty(),
    }
}

/// Whether every parameter among `cs` has its shape.
pub open spec fn param_nodes_ok(cs: Seq<ParseNode>) -> bool {
    forall|j: int| 0 <= j < cs.len() && (#[trigger] cs[j]).rule == Rule::param ==> param_ok(cs[j])
}

/// Whether every parameter of the parameter lists among `cs` has its shape.
pub open spec fn params_ok(cs: Seq<ParseNode>) -> bool {
    forall|i: int| 0 <= i < cs.len() && (#[trigger] cs[i]).rule == Rule::param_list ==> param_nodes_ok(cs[i].children@)
}

/// The method a match denotes.
pub open spec fn method_model(n: ParseNode) -> MethodView {
    let cs = n.children@;
    MethodView {
        visibility: visibility_of(text_with(cs, Rule::class_visibility)),
        name: or_empty(text_with(cs, Rule::identifier)),
        generic_params: method_generics(cs),
        params: method_params(cs),
        data_type: method_return(cs),
    }
}

/// Appends the parameters of a parameter list.
fn collect_params(list: &ParseNode, out: &mut Vec<Param>)
    requires
        param_nodes_ok(list.children@),
    ensures
        final(out)@.map_values(|p: Param| param_view(p)) == old(out)@.map_values(|p: Param| param_view(p))
            + with_rule(list.children@, Rule::param).map_values(|p: ParseNode| param_model(p)),
{
    let cs = &list.children;
    let ghost base = out@.map_values(|p: Param| param_view(p));
    let mut i: usize = 0;
    while i < cs.len()
        invariant
            i <= cs@.len(),
            cs == list.children,
            param_nodes_ok(cs@),
            base == old(out)@.map_values(|p: Param| param_view(p)),
            out@.map_values(|p: Param| param_view(p)) == base + with_rule(cs@.take(i as int), Rule::param).map_values(
                |p: ParseNode| param_model(p),
            ),
        decreases cs@.len() - i,
    {
        proof {
            lemma_last_step(cs@, i as int, Rule::param);
        }
        if cs[i].rule == Rule::param {
            proof {
                assert(param_ok(cs@[i as int]));
            }
            let ghost before = out@;
            let p = parse_param(&cs[i]);
            out.push(p);
            proof {
                assert(out@.map_values(|p: Param| param_view(p)) =~= before.map_values(|p: Param| param_view(p)).push(
                    param_view(p),
                ));
                assert(with_rule(cs@.take(i + 1), Rule::param).map_values(|p: ParseNode| param_model(p))
                    =~= with_rule(cs@.take(i as int), Rule::param).map_values(|p: ParseNode| param_model(p)).push(
                    param_model(cs@[i as int]),
                ));
            }
        }
        i = i + 1;
    }
    assert(cs@.take(cs@.len() as int) =~= cs@);
}

/// The texts of the identifiers among `cs`.
fn identifiers_of(cs: &Vec<ParseNode>) -> (r: Vec<String>)
    ensures
        r@.map_values(|g: String| g@) == identifier_texts(cs@),
{
    let mut out: Vec<String> = Vec::new();
    let mut i: usize = 0;
    while i < cs.len()
        invariant
            i <= cs@.len(),
            out@.map_values(|g: String| g@) == identifier_texts(cs@.take(i as int)),
        decreases cs@.len() - i,
    {
        proof {
            lemma_last_step(cs@, i as int, Rule::identifier);
        }
        if cs[i].rule == Rule::identifier {
            let ghost before = out@;
            let t = cs[i].text.clone();
            out.push(t);
            proof {
                assert(out@.map_values(|g: String| g@) =~= before.map_values(|g: String| g@).push(t@));
                assert(identifier_texts(cs@.take(i + 1)) =~= identifier_texts(cs@.take(i as int)).push(
                    cs@[i as int].text@,
                ));
            }
        } else {
            proof {
                assert(identifier_texts(cs@.take(i + 1)) =~= identifier_texts(cs@.take(i as int)));
            }
        }
        i = i + 1;
    }
    assert(cs@.take(cs@.len() as int) =~= cs@);
    out
}

/// Reads a method: its visibility, name, generic parameters, parameters and
/// return type.
pub fn parse_method(node: &ParseNode) -> (r: Method)
    requires
        params_ok(node.children@),
    ensures
        method_view(r) == method_model(*node),
{
    let cs = &node.children;
    let mut params: Vec<Param> = Vec::new();
    let mut data_type: Option<String> = None;
    let mut generic_params: Vec<String> = Vec::new();
    let mut i: usize = 0;
    while i < cs.len()
        invariant
            i <= cs@.len(),
            cs == node.children,
            params_ok(cs@),
            params@.map_values(|p: Param| param_view(p)) == method_params(cs@.take(i as int)),
            opt_text(data_type) == method_return(cs@.take(i as int)),
            generic_params@.map_values(|g: String| g@) == method_generics(cs@.take(i as int)),
        decreases cs@.len() - i,
    {
        proof {
            lemma_take_step(cs@, i as int);
            lemma_last_step(cs@, i as int, Rule::generic_param_list);
            lemma_last_with(cs@.take(i as int), Rule::generic_param_list);
        }
        let c = &cs[i];
        if c.rule == Rule::param_list {
            proof {
                assert(param_nodes_ok(cs@[i as int].children@));
            }
            collect_params(c, &mut params);
        } else if c.rule == Rule::return_type {
            match last_text(&c.children, Rule::typename) {
                Some(t) => {
                    data_type = Some(t);
                },
                None => {},
            }
        } else if c.rule == Rule::generic_param_list {
            generic_params = identifiers_of(&c.children);
        }
        i = i + 1;
    }
    assert(cs@.take(cs@.len() as int) =~= cs@);
    Method {
        visibility: marker_of(cs),
        name: text_or_empty(last_text(cs, Rule::identifier)),
        generic_params,
        params,
        data_type,
    }
}

/// The name with no internal name and no display text.
pub open spec fn default_name() -> NameView {
    NameView { internal: Seq::empty(), display: None }
}

/// The name the `named` matches among `cs` give, read in order from the empty name.
pub open spec fn names_fold(cs: Seq<ParseNode>) -> NameView
    decreases cs.len(),
{
    if cs.len() == 0 {
        default_name()
    } else if cs.last().rule == Rule::named {
        named_apply(names_fold(cs.drop_last()), cs.last())
    } else {
        names_fold(cs.drop_last())
    }
}

/// The parts of the class members among `cs`, in order.
pub open spec fn member_nodes(cs: Seq<ParseNode>) -> Seq<ParseNode>
    decreases cs.len(),
{
    if cs.len() == 0 {
        Seq::empty()
    } else if cs.last().rule == Rule::class_member {
        member_nodes(cs.drop_last()) + cs.last().children@
    } else {
        member_nodes(cs.drop_last())
    }
}

/// The member parts of the class bodies among `cs`, in order.
pub open spec fn body_members(cs: Seq<ParseNode>) -> Seq<ParseNode>
    decreases cs.len(),
{
    if cs.len() == 0 {
        Seq::empty()
    } else if cs.last().rule == Rule::class_body {
        body_members(cs.drop_last()) + member_nodes(cs.last().children@)
    } else {
        body_members(cs.drop_last())
    }
}

/// Whether every method among `cs` has well-shaped parameters.
pub open spec fn methods_ok(cs: Seq<ParseNode>) -> bool {
    forall|k: int| 0 <= k < cs.len() && (#[trigger] cs[k]).rule == Rule::method ==> params_ok(cs[k].children@)
}

/// Whether every method of the class members among `cs` has well-shaped parameters.
pub open spec fn members_ok(cs: Seq<ParseNode>) -> bool {
    forall|j: int| 0 <= j < cs.len() && (#[trigger] cs[j]).rule == Rule::class_member ==> methods_ok(cs[j].children@)
}

/// Whether every method of the class bodies among `cs` has well-shaped parameters.
pub open spec fn bodies_ok(cs: Seq<ParseNode>) -> bool {
    forall|i: int| 0 <= i < cs.len() && (#[trigger] cs[i]).rule == Rule::class_body ==> members_ok(cs[i].children@)
}

/// The fields of the members `ms`.
pub open spec fn attributes_model(ms: Seq<ParseNode>) -> Seq<AttributeView> {
    with_rule(ms, Rule::attribute).map_values(|a: ParseNode| attribute_model(a))
}

/// The methods of the members `ms`.
pub open spec fn methods_model(ms: Seq<ParseNode>) -> Seq<MethodView> {
    with_rule(ms, Rule::method).map_values(|m: ParseNode| method_model(m))
}

/// The class, struct or interface a match denotes: the name its `named`
/// matches give, and the fields and methods of its bodies, in order.
pub open spec fn typedef_model(n: ParseNode) -> TypeDefView {
    let ms = body_members(n.children@);
    TypeDefView {
        name: names_fold(n.children@),
        namespace: Seq::empty(),
        package: Seq::empty(),
        attributes: attributes_model(ms),
        methods: methods_model(ms),
    }
}

/// Reading more members appends their fields and methods.
proof fn lemma_members_concat(a: Seq<ParseNode>, b: Seq<ParseNode>)
    ensures
        attributes_model(a + b) == attributes_model(a) + attributes_model(b),
        methods_model(a + b) == methods_model(a) + methods_model(b),
{
    lemma_with_rule_concat(a, b, Rule::attribute);
    lemma_with_rule_concat(a, b, Rule::method);
    assert(attributes_model(a + b) =~= attributes_model(a) + attributes_model(b));
    assert(methods_model(a + b) =~= methods_model(a) + methods_model(b));
}

/// Appends the fields and methods of the member parts `cs`.
fn collect_member_parts(
    cs: &Vec<ParseNode>,
    attributes: &mut Vec<Attribute>,
    methods: &mut Vec<Method>,
)
    requires
        methods_ok(cs@),
    ensures
        final(attributes)@.map_values(|a: Attribute| attribute_view(a)) == old(attributes)@.map_values(
            |a: Attribute| attribute_view(a),
        ) + attributes_model(cs@),
        final(methods)@.map_values(|m: Method| method_view(m)) == old(methods)@.map_values(
            |m: Method| method_view(m),
        ) + methods_model(cs@),
{
    let ghost a0 = attributes@.map_values(|a: Attribute| attribute_view(a));
    let ghost m0 = methods@.map_values(|m: Method| method_view(m));
    let mut i: usize = 0;
    while i < cs.len()
        invariant
            i <= cs@.len(),
            methods_ok(cs@),
            a0 == old(attributes)@.map_values(|a: Attribute| attribute_view(a)),
            m0 == old(methods)@.map_values(|m: Method| method_view(m)),
            attributes@.map_values(|a: Attribute| attribute_view(a)) == a0 + attributes_model(cs@.take(i as int)),
            methods@.map_values(|m: Method| method_view(m)) == m0 + methods_model(cs@.take(i as int)),
        decreases cs@.len() - i,
    {
        proof {
            lemma_last_step(cs@, i as int, Rule::attribute);
            lemma_last_step(cs@, i as int, Rule::method);
        }
        let c = &cs[i];
        if c.rule == Rule::attribute {
            let ghost before = attributes@;
            let a = parse_attribute(c);
            attributes.push(a);
            proof {
                assert(attributes@.map_values(|a: Attribute| attribute_view(a)) =~= before.map_values(
                    |a: Attribute| attribute_view(a),
                ).push(attribute_view(a)));
                assert(attributes_model(cs@.take(i + 1)) =~= attributes_model(cs@.take(i as int)).push(
                    attribute_model(cs@[i as int]),
                ));
                assert(methods_model(cs@.take(i + 1)) =~= methods_model(cs@.take(i as int)));
            }
        } else if c.rule == Rule::method {
            proof {
                assert(params_ok(cs@[i as int].children@));
            }
            let ghost before = methods@;
            let m = parse_method(c);
            methods.push(m);
            proof {
                assert(methods@.map_values(|m: Method| method_view(m)) =~= before.map_values(
                    |m: Method| method_view(m),
                ).push(method_view(m)));
                assert(methods_model(cs@.take(i + 1)) =~= methods_model(cs@.take(i as int)).push(
                    method_model(cs@[i as int]),
                ));
                assert(attributes_model(cs@.take(i + 1)) =~= attributes_model(cs@.take(i as int)));
            }
        } else {
            proof {
                assert(attributes_model(cs@.take(i + 1)) =~= attributes_model(cs@.take(i as int)));
                assert(methods_model(cs@.take(i + 1)) =~= methods_model(cs@.take(i as int)));
            }
        }
        i = i + 1;
    }
    assert(cs@.take(cs@.len() as int) =~= cs@);
}

/// Appends the fields and methods of the class members among `cs`.
fn collect_members(cs: &Vec<ParseNode>, attributes: &mut Vec<Attribute>, methods: &mut Vec<Method>)
    requires
        members_ok(cs@),
    ensures
        final(attributes)@.map_values(|a: Attribute| attribute_view(a)) == old(attributes)@.map_values(
            |a: Attribute| attribute_view(a),
        ) + attributes_model(member_nodes(cs@)),
        final(methods)@.map_values(|m: Method| method_view(m)) == old(methods)@.map_values(
            |m: Method| method_view(m),
        ) + methods_model(member_nodes(cs@)),
{
    let ghost a0 = attributes@.map_values(|a: Attribute| attribute_view(a));
    let ghost m0 = methods@.map_values(|m: Method| method_view(m));
    let mut i: usize = 0;
    while i < cs.len()
        invariant
            i <= cs@.len(),
            members_ok(cs@),
            a0 == old(attributes)@.map_values(|a: Attribute| attribute_view(a)),
            m0 == old(methods)@.map_values(|m: Method| method_view(m)),
            attributes@.map_values(|a: Attribute| attribute_view(a)) == a0 + attributes_model(
                member_nodes(cs@.take(i as int)),
            ),
            methods@.map_values(|m: Method| method_view(m)) == m0 + methods_model(member_nodes(cs@.take(i as int))),
        decreases cs@.len() - i,
    {
        proof {
            lemma_take_step(cs@, i as int);
        }
        let c = &cs[i];
        if c.rule == Rule::class_member {
            proof {
                assert(methods_ok(cs@[i as int].children@));
                lemma_members_concat(member_nodes(cs@.take(i as int)), c.children@);
            }
            collect_member_parts(&c.children, attributes, methods);
            proof {
                assert(a0 + attributes_model(member_nodes(cs@.take(i as int))) + attributes_model(c.children@)
                    =~= a0 + attributes_model(member_nodes(cs@.take(i + 1))));
                assert(m0 + methods_model(member_nodes(cs@.take(i as int))) + methods_model(c.children@)
                    =~= m0 + methods_model(member_nodes(cs@.take(i + 1))));
            }
        }
        i = i + 1;
    }
    assert(cs@.take(cs@.len() as int) =~= cs@);
}

/// The name, fields and methods of a class, struct or interface match.
fn parse_type_parts(node: &ParseNode) -> (r: (Name, Vec<Attribute>, Vec<Method>))
    requires
        bodies_ok(node.children@),
    ensures
        name_view(r.0) == names_fold(node.children@),
        r.1@.map_values(|a: Attribute| attribute_view(a)) == attributes_model(body_members(node.children@)),
        r.2@.map_values(|m: Method| method_view(m)) == methods_model(body_members(node.children@)),
{
    let cs = &node.children;
    let mut name = Name { internal: String::new(), display: None };
    let mut attributes: Vec<Attribute> = Vec::new();
    let mut methods: Vec<Method> = Vec::new();
    proof {
        assert(attributes@.map_values(|a: Attribute| attribute_view(a)) =~= Seq::<AttributeView>::empty());
        assert(methods@.map_values(|m: Method| method_view(m)) =~= Seq::<MethodView>::empty());
        assert(attributes_model(Seq::empty()) =~= Seq::<AttributeView>::empty());
        assert(methods_model(Seq::empty()) =~= Seq::<MethodView>::empty());
        assert(cs@.take(0) =~= Seq::<ParseNode>::empty());
    }
    let mut i: usize = 0;
    while i < cs.len()
        invariant
            i <= cs@.len(),
            cs == node.children,
            bodies_ok(cs@),
            name_view(name) == names_fold(cs@.take(i as int)),
            attributes@.map_values(|a: Attribute| attribute_view(a)) == attributes_model(
                body_members(cs@.take(i as int)),
            ),
            methods@.map_values(|m: Method| method_view(m)) == methods_model(body_members(cs@.take(i as int))),
        decreases cs@.len() - i,
    {
        proof {
            lemma_take_step(cs@, i as int);
        }
        let c = &cs[i];
        if c.rule == Rule::named {
            parse_named(c, &mut name);
        } else if c.rule == Rule::class_body {
            proof {
                assert(members_ok(cs@[i as int].children@));
                lemma_members_concat(body_members(cs@.take(i as int)), member_nodes(c.children@));
            }
            collect_members(&c.children, &mut attributes, &mut methods);
        }
        i = i + 1;
    }
    assert(cs@.take(cs@.len() as int) =~= cs@);
    (name, attributes, methods)
}

/// Whether a type definition match has the shape the grammar gives it: a
/// leading kind keyword (`class`, `struct` or `interface`) and well-shaped
/// methods.
pub open spec fn type_def_ok(n: ParseNode) -> bool {
    &&& n.children@.len() > 0
    &&& {
        let k = n.children@[0].text@;
        k == "class"@ || k == "struct"@ || k == "interface"@
    }
    &&& bodies_ok(n.children@)
}

/// The definition a type definition match denotes, by its kind keyword.
pub open spec fn element_model(n: ParseNode) -> ElementView {
    let k = n.children@[0].text@;
    if k == "class"@ {
        ElementView::Class(typedef_model(n))
    } else if k == "struct"@ {
        ElementView::Struct(typedef_model(n))
    } else {
        ElementView::Interface(typedef_model(n))
    }
}

/// The kind keyword decides the definition: `class` a class, `struct` a
/// struct, and any other (the grammar gives only `interface`) an interface.
pub proof fn lemma_type_def_keywords(n: ParseNode)
    ensures
        element_model(n) is Class <==> n.children@[0].text@ == "class"@,
        element_model(n) is Struct <==> n.children@[0].text@ == "struct"@,
        element_model(n) is Interface <==> !(n.children@[0].text@ == "class"@ || n.children@[0].text@ == "struct"@),
{
    reveal_strlit("class");
    reveal_strlit("struct");
    assert("class"@ != "struct"@) by {
        assert("class"@.len() == 5 && "struct"@.len() == 6);
    }
}

/// Reads a class, struct or interface definition.
pub fn parse_type_def(node: &ParseNode) -> (r: Element)
    requires
        type_def_ok(*node),
    ensures
        element_view(r) == element_model(*node),
{
    let kind = chars_of(node.children[0].text.as_str());
    let (name, attributes, methods) = parse_type_parts(node);
    let ghost t = typedef_model(*node);
    proof {
        reveal_strlit("class");
        reveal_strlit("struct");
        reveal_strlit("interface");
    }
    if is_literal(kind.as_slice(), "class") {
        let r = Element::ClassDef(ClassDef { name, namespace: String::new(), package: String::new(), attributes, methods });
        assert(element_view(r) == ElementView::Class(t));
        r
    } else if is_literal(kind.as_slice(), "struct") {
        let r = Element::StructDef(StructDef { name, namespace: String::new(), package: String::new(), attributes, methods });
        assert(element_view(r) == ElementView::Struct(t));
        r
    } else {
        let r = Element::InterfaceDef(
            InterfaceDef { name, namespace: String::new(), package: String::new(), attributes, methods },
        );
        assert(element_view(r) == ElementView::Interface(t));
        r
    }
}

/// The value an enum value match denotes: after `=` a literal, after `:` a
/// description, each trimmed; otherwise the trimmed text as a literal.
pub open spec fn enum_value_model(n: ParseNode) -> EnumValueView {
    let t = trim(n.text@);
    if t.len() > 0 && t[0] == '=' {
        EnumValueView::Literal(trim(t.subrange(1, t.len() as int)))
    } else if t.len() > 0 && t[0] == ':' {
        EnumValueView::Description(trim(t.subrange(1, t.len() as int)))
    } else {
        EnumValueView::Literal(t)
    }
}

/// Reads an enum value.
pub fn parse_enum_value(node: &ParseNode) -> (r: EnumValue)
    ensures
        enum_value_view(r) == enum_value_model(*node),
{
    let v = chars_of(node.text.as_str());
    let t = trimmed_chars(v.as_slice());
    let n = t.len();
    if n > 0 && t[0] == '=' {
        let rest = copy_range(t.as_slice(), 1, n);
        let rt = trimmed_chars(rest.as_slice());
        EnumValue::Literal(string_of(rt.as_slice()))
    } else if n > 0 && t[0] == ':' {
        let rest = copy_range(t.as_slice(), 1, n);
        let rt = trimmed_chars(rest.as_slice());
        EnumValue::Description(string_of(rt.as_slice()))
    } else {
        EnumValue::Literal(string_of(t.as_slice()))
    }
}

/// The item an enum item match denotes: the visibility of its last marker,
/// if any, the text of its last identifier (or none), and its last value.
pub open spec fn enum_item_model(n: ParseNode) -> EnumItemView {
    let cs = n.children@;
    EnumItemView {
        visibility: match text_with(cs, Rule::class_visibility) {
            Some(t) => Some(visibility_of(Some(t))),
            None => None,
        },
        name: or_empty(text_with(cs, Rule::identifier)),
        value: match last_with(cs, Rule::enum_value) {
            Some(i) => Some(enum_value_model(cs[i])),
            None => None,
        },
    }
}

/// Reads an enum item.
pub fn parse_enum_item(node: &ParseNode) -> (r: EnumItem)
    ensures
        enum_item_view(r) == enum_item_model(*node),
{
    let cs = &node.children;
    proof {
        lemma_last_with(cs@, Rule::class_visibility);
        lemma_last_with(cs@, Rule::enum_value);
    }
    let visibility = match find_last(cs, Rule::class_visibility) {
        Some(i) => Some(parse_visibility(Some(&cs[i]))),
        None => None,
    };
    let value = match find_last(cs, Rule::enum_value) {
        Some(i) => Some(parse_enum_value(&cs[i])),
        None => None,
    };
    EnumItem { visibility, name: text_or_empty(last_text(cs, Rule::identifier)), value }
}

/// The items an enum body match denotes, in order.
pub open spec fn enum_body_model(n: ParseNode) -> Seq<EnumItemView> {
    with_rule(n.children@, Rule::enum_item).map_values(|i: ParseNode| enum_item_model(i))
}

/// Reads the items of an enum body.
pub fn parse_enum_body(node: &ParseNode) -> (r: Vec<EnumItem>)
    ensures
        r@.map_values(|i: EnumItem| enum_item_view(i)) == enum_body_model(*node),
{
    let cs = &node.children;
    let mut out: Vec<EnumItem> = Vec::new();
    let mut i: usize = 0;
    while i < cs.len()
        invariant
            i <= cs@.len(),
            cs == node.children,
            out@.map_values(|i: EnumItem| enum_item_view(i)) == with_rule(cs@.take(i as int), Rule::enum_item).map_values(
                |i: ParseNode| enum_item_model(i),
            ),
        decreases cs@.len() - i,
    {
        proof {
            lemma_last_step(cs@, i as int, Rule::enum_item);
        }
        if cs[i].rule == Rule::enum_item {
            let ghost before = out@;
            let item = parse_enum_item(&cs[i]);
            out.push(item);
            proof {
                assert(out@.map_values(|i: EnumItem| enum_item_view(i)) =~= before.map_values(
                    |i: EnumItem| enum_item_view(i),
                ).push(enum_item_view(item)));
                assert(with_rule(cs@.take(i + 1), Rule::enum_item).map_values(|i: ParseNode| enum_item_model(i))
                    =~= with_rule(cs@.take(i as int), Rule::enum_item).map_values(|i: ParseNode| enum_item_model(i)).push(
                    enum_item_model(cs@[i as int]),
                ));
            }
        }
        i = i + 1;
    }
    assert(cs@.take(cs@.len() as int) =~= cs@);
    out
}

/// The enum an enum definition match denotes: the name its `named` matches
/// give and the items of its last body.
pub open spec fn enum_def_model(n: ParseNode) -> EnumDefView {
    let cs = n.children@;
    EnumDefView {
        name: names_fold(cs),
        namespace: Seq::empty(),
        package: Seq::empty(),
        stereotypes: Seq::empty(),
        items: match last_with(cs, Rule::enum_body) {
            Some(i) => enum_body_model(cs[i]),
            None => Seq::empty(),
        },
    }
}

/// Reads an enum definition.
pub fn parse_enum_def(node: &ParseNode) -> (r: EnumDef)
    ensures
        enum_def_view(r) == enum_def_model(*node),
{
    let cs = &node.children;
    let mut name = Name { internal: String::new(), display: None };
    let mut items: Vec<EnumItem> = Vec::new();
    let mut i: usize = 0;
    while i < cs.len()
        invariant
            i <= cs@.len(),
            cs == node.children,
            name_view(name) == names_fold(cs@.take(i as int)),
            items@.map_values(|i: EnumItem| enum_item_view(i)) == (match last_with(cs@.take(i as int), Rule::enum_body) {
                Some(k) => enum_body_model(cs@[k]),
                None => Seq::empty(),
            }),
        decreases cs@.len() - i,
    {
        proof {
            lemma_take_step(cs@, i as int);
            lemma_last_step(cs@, i as int, Rule::enum_body);
            lemma_last_with(cs@.take(i as int), Rule::enum_body);
        }
        let c = &cs[i];
        if c.rule == Rule::named {
            parse_named(c, &mut name);
        } else if c.rule == Rule::enum_body {
            items = parse_enum_body(c);
        }
        i = i + 1;
    }
    assert(cs@.take(cs@.len() as int) =~= cs@);
    let r = EnumDef { name, namespace: String::new(), package: String::new(), stereotypes: Vec::new(), items };
    assert(r.stereotypes@.map_values(|s: String| s@) =~= Seq::<Seq<char>>::empty());
    r
}

/// Whether a relation match has its three leading parts: the two ends and the arrow.
pub open spec fn relationship_ok(n: ParseNode) -> bool {
    n.children@.len() >= 3
}

/// The arrow with no decorations, line or middle part.
pub open spec fn empty_arrow() -> ArrowView {
    ArrowView { left: None, line: Seq::empty(), middle: None, right: None }
}

/// The relation a match denotes: its first and third parts, trimmed, as ends;
/// its second part as arrow (the empty arrow when that is refused); and its
/// last label after them, trimmed.
pub open spec fn relationship_model(n: ParseNode) -> RelationshipView {
    let cs = n.children@;
    RelationshipView {
        left: trim(cs[0].text@),
        right: trim(cs[2].text@),
        arrow: if arrow_error(cs[1]) is Some {
            empty_arrow()
        } else {
            arrow_model(cs[1])
        },
        label: match text_with(cs.skip(3), Rule::label) {
            Some(t) => Some(trim(t)),
            None => None,
        },
    }
}

/// The trimmed text of a match.
fn trimmed_text(node: &ParseNode) -> (r: String)
    ensures
        r@ == trim(node.text@),
{
    let v = chars_of(node.text.as_str());
    let t = trimmed_chars(v.as_slice());
    string_of(t.as_slice())
}

/// Reads a relation.
pub fn parse_relationship(node: &ParseNode) -> (r: Relationship)
    requires
        relationship_ok(*node),
    ensures
        relationship_view(r) == relationship_model(*node),
{
    let cs = &node.children;
    let left = trimmed_text(&cs[0]);
    let arrow = match parse_arrow(&cs[1]) {
        Ok(a) => a,
        Err(_) => Arrow::default(),
    };
    let right = trimmed_text(&cs[2]);
    let ghost rest = cs@.skip(3);
    let mut label: Option<String> = None;
    let mut i: usize = 3;
    while i < cs.len()
        invariant
            3 <= i <= cs@.len(),
            rest == cs@.skip(3),
            opt_text(label) == (match text_with(rest.take(i - 3), Rule::label) {
                Some(t) => Some(trim(t)),
                None => None,
            }),
        decreases cs@.len() - i,
    {
        proof {
            lemma_last_step(rest, i - 3, Rule::label);
            assert(rest[i - 3] == cs@[i as int]);
        }
        if cs[i].rule == Rule::label {
            label = Some(trimmed_text(&cs[i]));
        }
        i = i + 1;
    }
    assert(rest.take(cs@.len() - 3) =~= rest);
    Relationship { left, right, arrow, label }
}

/// The namespace with no name and no contents.
pub open spec fn empty_namespace() -> NamespaceView {
    NamespaceView { name: default_name(), types: Seq::empty(), namespaces: Seq::empty() }
}

/// A namespace after reading the top-level items `gs`: type definitions and
/// enums join its types, marked with its internal name at that point, and
/// nested namespaces join its namespaces.
pub open spec fn namespace_items(st: NamespaceView, gs: Seq<ParseNode>) -> NamespaceView
    decreases gs,
{
    if gs.len() == 0 {
        st
    } else {
        let s = namespace_items(st, gs.drop_last());
        let g = gs.last();
        if g.rule == Rule::type_def {
            NamespaceView { types: s.types.push(with_namespace_view(element_model(g), s.name.internal)), ..s }
        } else if g.rule == Rule::enum_def {
            NamespaceView {
                types: s.types.push(with_namespace_view(ElementView::Enum(enum_def_model(g)), s.name.internal)),
                ..s
            }
        } else if g.rule == Rule::namespace_def {
            NamespaceView { namespaces: s.namespaces.push(namespace_model(g)), ..s }
        } else {
            s
        }
    }
}

/// A namespace after reading the parts `cs` in order: `named` matches rename
/// it, top-level matches add their items.
pub open spec fn namespace_fold(cs: Seq<ParseNode>) -> NamespaceView
    decreases cs,
{
    if cs.len() == 0 {
        empty_namespace()
    } else {
        let s = namespace_fold(cs.drop_last());
        let c = cs.last();
        if c.rule == Rule::named {
            NamespaceView { name: named_apply(s.name, c), ..s }
        } else if c.rule == Rule::top_level {
            namespace_items(s, c.children@)
        } else {
            s
        }
    }
}

/// The namespace a namespace definition match denotes.
pub open spec fn namespace_model(n: ParseNode) -> NamespaceView
    decreases n,
{
    namespace_fold(n.children@)
}

/// Whether the top-level items `gs` of a namespace have their shapes.
pub open spec fn namespace_items_ok(gs: Seq<ParseNode>) -> bool
    decreases gs,
{
    if gs.len() == 0 {
        true
    } else {
        &&& namespace_items_ok(gs.drop_last())
        &&& gs.last().rule == Rule::type_def ==> type_def_ok(gs.last())
        &&& gs.last().rule == Rule::namespace_def ==> namespace_ok(gs.last())
    }
}

/// Whether the parts `cs` of a namespace have their shapes.
pub open spec fn namespace_parts_ok(cs: Seq<ParseNode>) -> bool
    decreases cs,
{
    if cs.len() == 0 {
        true
    } else {
        &&& namespace_parts_ok(cs.drop_last())
        &&& cs.last().rule == Rule::top_level ==> namespace_items_ok(cs.last().children@)
    }
}

/// Whether a namespace definition match has the shape the grammar gives it:
/// its type definitions and nested namespaces, at any depth, have theirs.
pub open spec fn namespace_ok(n: ParseNode) -> bool
    decreases n,
{
    namespace_parts_ok(n.children@)
}

proof fn lemma_namespace_items_ok_at(gs: Seq<ParseNode>, j: int)
    requires
        namespace_items_ok(gs),
        0 <= j < gs.len(),
    ensures
        gs[j].rule == Rule::type_def ==> type_def_ok(gs[j]),
        gs[j].rule == Rule::namespace_def ==> namespace_ok(gs[j]),
    decreases gs.len(),
{
    if j < gs.len() - 1 {
        lemma_namespace_items_ok_at(gs.drop_last(), j);
    }
}

proof fn lemma_namespace_parts_ok_at(cs: Seq<ParseNode>, i: int)
    requires
        namespace_parts_ok(cs),
        0 <= i < cs.len(),
    ensures
        cs[i].rule == Rule::top_level ==> namespace_items_ok(cs[i].children@),
    decreases cs.len(),
{
    if i < cs.len() - 1 {
        lemma_namespace_parts_ok_at(cs.drop_last(), i);
    }
}

/// Reads a namespace block with its nested definitions and namespaces; each
/// definition is marked with the namespace's internal name as it stands when
/// the definition is read.
pub fn parse_namespace(node: &ParseNode) -> (r: Namespace)
    requires
        namespace_ok(*node),
    ensures
        namespace_view(r) == namespace_model(*node),
    decreases node,
{
    let cs = &node.children;
    let mut ns = Namespace {
        name: Name { internal: String::new(), display: None },
        types: Vec::new(),
        namespaces: Vec::new(),
    };
    proof {
        assert(namespace_view(ns).types =~= Seq::<ElementView>::empty());
        assert(namespace_view(ns).namespaces =~= Seq::<NamespaceView>::empty());
        assert(namespace_view(ns) =~= empty_namespace());
        assert(cs@.take(0) =~= Seq::<ParseNode>::empty());
    }
    let mut i: usize = 0;
    while i < cs.len()
        invariant
            i <= cs@.len(),
            cs == node.children,
            namespace_parts_ok(cs@),
            namespace_view(ns) == namespace_fold(cs@.take(i as int)),
        decreases cs@.len() - i,
    {
        proof {
            lemma_take_step(cs@, i as int);
            lemma_namespace_parts_ok_at(cs@, i as int);
        }
        let c = &cs[i];
        if c.rule == Rule::named {
            let ghost before = namespace_view(ns);
            parse_named(c, &mut ns.name);
            proof {
                assert(namespace_view(ns) =~= NamespaceView { name: named_apply(before.name, *c), ..before });
            }
        } else if c.rule == Rule::top_level {
            let gs = &c.children;
            let ghost start = namespace_view(ns);
            proof {
                assert(gs@.take(0) =~= Seq::<ParseNode>::empty());
            }
            let mut j: usize = 0;
            while j < gs.len()
                invariant
                    j <= gs@.len(),
                    gs == c.children,
                    *c == cs@[i as int],
                    cs == node.children,
                    i < cs@.len(),
                    namespace_items_ok(gs@),
                    namespace_view(ns) == namespace_items(start, gs@.take(j as int)),
                decreases gs@.len() - j,
            {
                proof {
                    lemma_take_step(gs@, j as int);
                    lemma_namespace_items_ok_at(gs@, j as int);
                }
                let g = &gs[j];
                let ghost before = namespace_view(ns);
                if g.rule == Rule::type_def {
                    let mut t = parse_type_def(g);
                    t.set_namespace(ns.name.internal.clone());
                    let ghost tv = element_view(t);
                    ns.types.push(t);
                    proof {
                        assert(tv == with_namespace_view(element_model(*g), before.name.internal));
                        assert(namespace_view(ns) =~= NamespaceView { types: before.types.push(tv), ..before });
                    }
                } else if g.rule == Rule::enum_def {
                    let mut t = Element::EnumDef(parse_enum_def(g));
                    t.set_namespace(ns.name.internal.clone());
                    let ghost tv = element_view(t);
                    ns.types.push(t);
                    proof {
                        assert(tv == with_namespace_view(ElementView::Enum(enum_def_model(*g)), before.name.internal));
                        assert(namespace_view(ns) =~= NamespaceView { types: before.types.push(tv), ..before });
                    }
                } else if g.rule == Rule::namespace_def {
                    proof {
                        assert(decreases_to!(*node => cs@[i as int]));
                        assert(decreases_to!(*node => *g));
                    }
                    let sub = parse_namespace(g);
                    let ghost sv = namespace_view(sub);
                    ns.namespaces.push(sub);
                    proof {
                        assert(namespace_view(ns).namespaces =~= before.namespaces.push(sv));
                        assert(namespace_view(ns) =~= NamespaceView { namespaces: before.namespaces.push(sv), ..before });
                    }
                }
                j = j + 1;
            }
            proof {
                assert(gs@.take(gs@.len() as int) =~= gs@);
            }
        }
        i = i + 1;
    }
    assert(cs@.take(cs@.len() as int) =~= cs@);
    ns
}

/// The package with no name and no contents.
pub open spec fn empty_package() -> PackageView {
    PackageView { name: default_name(), types: Seq::empty(), relationships: Seq::empty(), packages: Seq::empty() }
}

/// A package after reading the top-level items `gs`: type definitions and
/// enums join its types, marked with its internal name at that point;
/// relations and nested packages join its relations and packages.
pub open spec fn package_items(st: PackageView, gs: Seq<ParseNode>) -> PackageView
    decreases gs,
{
    if gs.len() == 0 {
        st
    } else {
        let s = package_items(st, gs.drop_last());
        let g = gs.last();
        if g.rule == Rule::type_def {
            PackageView { types: s.types.push(with_package_view(element_model(g), s.name.internal)), ..s }
        } else if g.rule == Rule::enum_def {
            PackageView {
                types: s.types.push(with_package_view(ElementView::Enum(enum_def_model(g)), s.name.internal)),
                ..s
            }
        } else if g.rule == Rule::relationship {
            PackageView { relationships: s.relationships.push(relationship_model(g)), ..s }
        } else if g.rule == Rule::package_def {
            PackageView { packages: s.packages.push(package_model(g)), ..s }
        } else {
            s
        }
    }
}

/// A package after reading the parts `cs` in order: `named` matches rename
/// it, top-level matches add their items.
pub open spec fn package_fold(cs: Seq<ParseNode>) -> PackageView
    decreases cs,
{
    if cs.len() == 0 {
        empty_package()
    } else {
        let s = package_fold(cs.drop_last());
        let c = cs.last();
        if c.rule == Rule::named {
            PackageView { name: named_apply(s.name, c), ..s }
        } else if c.rule == Rule::top_level {
            package_items(s, c.children@)
        } else {
            s
        }
    }
}

/// The package a package definition match denotes.
pub open spec fn package_model(n: ParseNode) -> PackageView
    decreases n,
{
    package_fold(n.children@)
}

/// Whether the top-level items `gs` of a package have their shapes.
pub open spec fn package_items_ok(gs: Seq<ParseNode>) -> bool
    decreases gs,
{
    if gs.len() == 0 {
        true
    } else {
        &&& package_items_ok(gs.drop_last())
        &&& gs.last().rule == Rule::type_def ==> type_def_ok(gs.last())
        &&& gs.last().rule == Rule::relationship ==> relationship_ok(gs.last())
        &&& gs.last().rule == Rule::package_def ==> package_ok(gs.last())
    }
}

/// Whether the parts `cs` of a package have their shapes.
pub open spec fn package_parts_ok(cs: Seq<ParseNode>) -> bool
    decreases cs,
{
    if cs.len() == 0 {
        true
    } else {
        &&& package_parts_ok(cs.drop_last())
        &&& cs.last().rule == Rule::top_level ==> package_items_ok(cs.last().children@)
    }
}

/// Whether a package definition match has the shape the grammar gives it:
/// its type definitions, relations and nested packages, at any depth, have theirs.
pub open spec fn package_ok(n: ParseNode) -> bool
    decreases n,
{
    package_parts_ok(n.children@)
}

proof fn lemma_package_items_ok_at(gs: Seq<ParseNode>, j: int)
    requires
        package_items_ok(gs),
        0 <= j < gs.len(),
    ensures
        gs[j].rule == Rule::type_def ==> type_def_ok(gs[j]),
        gs[j].rule == Rule::relationship ==> relationship_ok(gs[j]),
        gs[j].rule == Rule::package_def ==> package_ok(gs[j]),
    decreases gs.len(),
{
    if j < gs.len() - 1 {
        lemma_package_items_ok_at(gs.drop_last(), j);
    }
}

proof fn lemma_package_parts_ok_at(cs: Seq<ParseNode>, i: int)
    requires
        package_parts_ok(cs),
        0 <= i < cs.len(),
    ensures
        cs[i].rule == Rule::top_level ==> package_items_ok(cs[i].children@),
    decreases cs.len(),
{
    if i < cs.len() - 1 {
        lemma_package_parts_ok_at(cs.drop_last(), i);
    }
}

/// Reads a package block with its nested definitions, relations and
/// packages; each definition is marked with the package's internal name as
/// it stands when the definition is read.
pub fn parse_package(node: &ParseNode) -> (r: Package)
    requires
        package_ok(*node),
    ensures
        package_view(r) == package_model(*node),
    decreases node,
{
    let cs = &node.children;
    let mut pkg = Package {
        name: Name { internal: String::new(), display: None },
        types: Vec::new(),
        relationships: Vec::new(),
        packages: Vec::new(),
    };
    proof {
        assert(package_view(pkg).types =~= Seq::<ElementView>::empty());
        assert(package_view(pkg).relationships =~= Seq::<RelationshipView>::empty());
        assert(package_view(pkg).packages =~= Seq::<PackageView>::empty());
        assert(package_view(pkg) =~= empty_package());
        assert(cs@.take(0) =~= Seq::<ParseNode>::empty());
    }
    let mut i: usize = 0;
    while i < cs.len()
        invariant
            i <= cs@.len(),
            cs == node.children,
            package_parts_ok(cs@),
            package_view(pkg) == package_fold(cs@.take(i as int)),
        decreases cs@.len() - i,
    {
        proof {
            lemma_take_step(cs@, i as int);
            lemma_package_parts_ok_at(cs@, i as int);
        }
        let c = &cs[i];
        if c.rule == Rule::named {
            let ghost before = package_view(pkg);
            parse_named(c, &mut pkg.name);
            proof {
                assert(package_view(pkg) =~= PackageView { name: named_apply(before.name, *c), ..before });
            }
        } else if c.rule == Rule::top_level {
            let gs = &c.children;
            let ghost start = package_view(pkg);
            proof {
                assert(gs@.take(0) =~= Seq::<ParseNode>::empty());
            }
            let mut j: usize = 0;
            while j < gs.len()
                invariant
                    j <= gs@.len(),
                    gs == c.children,
                    *c == cs@[i as int],
                    cs == node.children,
                    i < cs@.len(),
                    package_items_ok(gs@),
                    package_view(pkg) == package_items(start, gs@.take(j as int)),
                decreases gs@.len() - j,
            {
                proof {
                    lemma_take_step(gs@, j as int);
                    lemma_package_items_ok_at(gs@, j as int);
                }
                let g = &gs[j];
                let ghost before = package_view(pkg);
                if g.rule == Rule::type_def {
                    let mut t = parse_type_def(g);
                    t.set_package(pkg.name.internal.clone());
                    let ghost tv = element_view(t);
                    pkg.types.push(t);
                    proof {
                        assert(tv == with_package_view(element_model(*g), before.name.internal));
                        assert(package_view(pkg) =~= PackageView { types: before.types.push(tv), ..before });
                    }
                } else if g.rule == Rule::enum_def {
                    let mut t = Element::EnumDef(parse_enum_def(g));
                    t.set_package(pkg.name.internal.clone());
                    let ghost tv = element_view(t);
                    pkg.types.push(t);
                    proof {
                        assert(tv == with_package_view(ElementView::Enum(enum_def_model(*g)), before.name.internal));
                        assert(package_view(pkg) =~= PackageView { types: before.types.push(tv), ..before });
                    }
                } else if g.rule == Rule::relationship {
                    let rel = parse_relationship(g);
                    let ghost rv = relationship_view(rel);
                    pkg.relationships.push(rel);
                    proof {
                        assert(package_view(pkg) =~= PackageView {
                            relationships: before.relationships.push(rv),
                            ..before
                        });
                    }
                } else if g.rule == Rule::package_def {
                    proof {
                        assert(decreases_to!(*node => cs@[i as int]));
                        assert(decreases_to!(*node => *g));
                    }
                    let sub = parse_package(g);
                    let ghost sv = package_view(sub);
                    pkg.packages.push(sub);
                    proof {
                        assert(package_view(pkg).packages =~= before.packages.push(sv));
                        assert(package_view(pkg) =~= PackageView { packages: before.packages.push(sv), ..before });
                    }
                }
                j = j + 1;
            }
            proof {
                assert(gs@.take(gs@.len() as int) =~= gs@);
            }
        }
        i = i + 1;
    }
    assert(cs@.take(cs@.len() as int) =~= cs@);
    pkg
}

/// The diagram with no name and no contents.
pub open spec fn empty_file() -> FileView {
    FileView { name: Seq::empty(), elements: Seq::empty(), relationships: Seq::empty() }
}

/// A diagram after reading the top-level items `gs`: definitions, enums,
/// namespaces and packages join its elements, relations its relations.
pub open spec fn file_items(st: FileView, gs: Seq<ParseNode>) -> FileView
    decreases gs.len(),
{
    if gs.len() == 0 {
        st
    } else {
        let s = file_items(st, gs.drop_last());
        let g = gs.last();
        if g.rule == Rule::type_def {
            FileView { elements: s.elements.push(TopLevelView::Types(element_model(g))), ..s }
        } else if g.rule == Rule::enum_def {
            FileView { elements: s.elements.push(TopLevelView::Enum(enum_def_model(g))), ..s }
        } else if g.rule == Rule::namespace_def {
            FileView { elements: s.elements.push(TopLevelView::Namespace(namespace_model(g))), ..s }
        } else if g.rule == Rule::relationship {
            FileView { relationships: s.relationships.push(relationship_model(g)), ..s }
        } else if g.rule == Rule::package_def {
            FileView { elements: s.elements.push(TopLevelView::Package(package_model(g))), ..s }
        } else {
            s
        }
    }
}

/// A diagram after reading the parts `cs` in order: top-level matches add
/// their items, and a `@startuml` line with a second word names the diagram
/// with that word.
pub open spec fn file_fold(cs: Seq<ParseNode>) -> FileView
    decreases cs.len(),
{
    if cs.len() == 0 {
        empty_file()
    } else {
        let s = file_fold(cs.drop_last());
        let c = cs.last();
        if c.rule == Rule::top_level {
            file_items(s, c.children@)
        } else if c.rule == Rule::startuml && words(c.text@).len() > 1 {
            FileView { name: words(c.text@)[1], ..s }
        } else {
            s
        }
    }
}

/// Whether the top-level items `gs` of a diagram have their shapes.
pub open spec fn file_items_ok(gs: Seq<ParseNode>) -> bool {
    forall|j: int|
        0 <= j < gs.len() ==> {
            &&& (#[trigger] gs[j]).rule == Rule::type_def ==> type_def_ok(gs[j])
            &&& gs[j].rule == Rule::namespace_def ==> namespace_ok(gs[j])
            &&& gs[j].rule == Rule::relationship ==> relationship_ok(gs[j])
            &&& gs[j].rule == Rule::package_def ==> package_ok(gs[j])
        }
}

/// Whether the parts of a diagram match have the shapes the grammar gives
/// them: every definition, namespace, relation and package, at any depth.
pub open spec fn file_ok(cs: Seq<ParseNode>) -> bool {
    forall|i: int| 0 <= i < cs.len() && (#[trigger] cs[i]).rule == Rule::top_level ==> file_items_ok(cs[i].children@)
}

/// Builds class diagrams from the matches of the class grammar.
pub struct PumlClassParser;

impl PumlClassParser {
    /// Builds the diagram the match of a whole class diagram denotes: its
    /// top-level definitions, enums, namespaces and packages in order, its
    /// relations, and the name given on its `@startuml` line.
    pub fn parse_file(&mut self, root: &ParseNode) -> (r: ClassUmlFile)
        requires
            file_ok(root.children@),
        ensures
            file_view(r) == file_fold(root.children@),
    {
        let cs = &root.children;
        let mut file = ClassUmlFile { name: String::new(), elements: Vec::new(), relationships: Vec::new() };
        proof {
            assert(file_view(file) =~= empty_file());
            assert(cs@.take(0) =~= Seq::<ParseNode>::empty());
        }
        let mut i: usize = 0;
        while i < cs.len()
            invariant
                i <= cs@.len(),
                cs == root.children,
                file_ok(cs@),
                file_view(file) == file_fold(cs@.take(i as int)),
            decreases cs@.len() - i,
        {
            proof {
                lemma_take_step(cs@, i as int);
            }
            let c = &cs[i];
            if c.rule == Rule::top_level {
                let gs = &c.children;
                let ghost start = file_view(file);
                proof {
                    assert(file_items_ok(cs@[i as int].children@));
                    assert(gs@.take(0) =~= Seq::<ParseNode>::empty());
                }
                let mut j: usize = 0;
                while j < gs.len()
                    invariant
                        j <= gs@.len(),
                        gs == c.children,
                        file_items_ok(gs@),
                        file_view(file) == file_items(start, gs@.take(j as int)),
                    decreases gs@.len() - j,
                {
                    proof {
                        lemma_take_step(gs@, j as int);
                    }
                    let g = &gs[j];
                    let ghost before = file_view(file);
                    if g.rule == Rule::type_def {
                        let t = ClassUmlTopLevel::Types(parse_type_def(g));
                        let ghost tv = top_level_view(t);
                        file.elements.push(t);
                        proof {
                            assert(file_view(file) =~= FileView { elements: before.elements.push(tv), ..before });
                        }
                    } else if g.rule == Rule::enum_def {
                        let t = ClassUmlTopLevel::Enum(parse_enum_def(g));
                        let ghost tv = top_level_view(t);
                        file.elements.push(t);
                        proof {
                            assert(file_view(file) =~= FileView { elements: before.elements.push(tv), ..before });
                        }
                    } else if g.rule == Rule::namespace_def {
                        let t = ClassUmlTopLevel::Namespace(parse_namespace(g));
                        let ghost tv = top_level_view(t);
                        file.elements.push(t);
                        proof {
                            assert(file_view(file) =~= FileView { elements: before.elements.push(tv), ..before });
                        }
                    } else if g.rule == Rule::relationship {
                        let rel = parse_relationship(g);
                        let ghost rv = relationship_view(rel);
                        file.relationships.push(rel);
                        proof {
                            assert(file_view(file) =~= FileView {
                                relationships: before.relationships.push(rv),
                                ..before
                            });
                        }
                    } else if g.rule == Rule::package_def {
                        let t = ClassUmlTopLevel::Package(parse_package(g));
                        let ghost tv = top_level_view(t);
                        file.elements.push(t);
                        proof {
                            assert(file_view(file) =~= FileView { elements: before.elements.push(tv), ..before });
                        }
                    }
                    j = j + 1;
                }
                proof {
                    assert(gs@.take(gs@.len() as int) =~= gs@);
                }
            } else if c.rule == Rule::startuml {
                let v = chars_of(c.text.as_str());
                let ws = split_words(v.as_slice());
                if ws.len() > 1 {
                    file.name = string_of(ws[1].as_slice());
                    proof {
                        assert(ws@[1]@ == words(c.text@)[1]);
                    }
                }
            }
            i = i + 1;
        }
        assert(cs@.take(cs@.len() as int) =~= cs@);
        file
    }
}

} // verus!
