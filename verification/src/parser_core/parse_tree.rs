//! The parse tree the diagram grammars produce: each node names the grammar
//! rule it matched, the text it spans, the line it starts on, and the nodes
//! of its sub-rules in order.
use vstd::prelude::*;
use crate::linker_input::ov;

verus! {

/// The grammar rules whose matches the diagram parsers read.
#[allow(non_camel_case_types)]
#[derive(Debug, Clone, Copy, PartialEq, Eq, Structural)]
pub enum Rule {
    // arrows
    connection_arrow,
    sequence_arrow,
    arrow_prefix,
    sequence_arrow_prefix,
    arrow_suffix,
    sequence_arrow_suffix,
    arrow_segment,
    arrow_middle,
    line_style_block,
    arrow_direction,
    arrow_mid_decor,
    // class diagrams
    class_start,
    startuml,
    top_level,
    type_def,
    type_kind,
    enum_def,
    namespace_def,
    package_def,
    relationship,
    named,
    internal_name,
    alias_clause,
    class_body,
    class_member,
    attribute,
    method,
    class_visibility,
    identifier,
    typename,
    param_list,
    param,
    param_named,
    param_unnamed,
    varargs,
    return_type,
    generic_param_list,
    enum_body,
    enum_item,
    enum_value,
    label,
    // sequence diagrams
    sequence_start,
    puml_name,
    sequence_statement,
    participant_def,
    lifecycle_cmd,
    message,
    group_cmd,
    ref_stmt,
    return_cmd,
    create_cmd,
    destroy_cmd,
    activate_cmd,
    deactivate_cmd,
    activation_short,
    participant_type,
    participant_identifier,
    stereotype,
    order_clause,
    quoted_display_with_alias,
    display_with_alias,
    alias_with_quoted_display,
    quoted_display,
    alias_only,
    message_body,
    message_suffix,
    sequence_description,
    message_full,
    message_missing_left,
    message_missing_right,
    message_endpoint,
    inline_participant,
    lost_found_marker,
    left_lost_found,
    right_lost_found,
    short_lost_found,
    activate_suffix,
    deactivate_suffix,
    create_suffix,
    destroy_suffix,
    group_start,
    group_branch,
    group_end,
    parallel_marker,
    group_start_type,
    group_label,
    group_branch_type,
    participant_list,
    participant_ref,
    sequence_text_content,
    ref_body,
    CNAME,
    // activity diagrams
    activity_diagram,
    title_stmt,
    action_stmt,
    arrow_stmt,
    backward_stmt,
    control_stmt,
    start_stmt,
    stop_stmt,
    if_start_stmt,
    else_stmt,
    endif_stmt,
    while_start_stmt,
    endwhile_stmt,
    repeat_start_stmt,
    repeat_while_stmt,
    fork_start_stmt,
    fork_again_stmt,
    fork_end_stmt,
    swimlane_stmt,
    arrow_text,
    action_text,
    action_line_text,
    condition_text,
    if_pre_label,
    then_label,
    while_label,
    endwhile_label,
    repeat_label,
    fork_modifier,
    swimlane_text,
    // notes and component diagrams
    note_single_line,
    note_multiline,
    note_declaration,
    note_alias,
    diagram_start,
    diagram_statement,
    element,
    relation,
    port_declaration,
    together_block,
    port_keyword,
    port_name,
    nested_element,
    default_element,
    bracket_element,
    short_form_component,
    short_form_actor,
    short_form_interface,
    short_form_usecase,
    element_modifier,
    element_style,
    statement_block,
    relation_left,
    relation_right,
    relation_description,
    description_text,
    short_form_component_name,
    short_form_actor_name,
    short_form_interface_name,
    short_form_usecase_name,
    ALIAS_ID,
    STEREOTYPE_NAME,
    element_kind,
    default_element_name,
    // preprocessor
    file,
    include_line,
    includesub_line,
    sub_block,
    text_line,
    include_directive,
    includesub_directive,
    include_keyword,
    include_path,
    include_suffix,
    include_index,
    include_label,
    startsub_directive,
    procedure_line,
    macro_call_line,
    proc_name,
    procedure_body,
    macro_identifier,
    arg_list,
    arg,
    string,
    number,
}

/// The name of a rule, as the grammar writes it.
pub open spec fn rule_text(r: Rule) -> Seq<char> {
    match r {
        Rule::connection_arrow => "connection_arrow"@,
        Rule::sequence_arrow => "sequence_arrow"@,
        Rule::arrow_prefix => "arrow_prefix"@,
        Rule::sequence_arrow_prefix => "sequence_arrow_prefix"@,
        Rule::arrow_suffix => "arrow_suffix"@,
        Rule::sequence_arrow_suffix => "sequence_arrow_suffix"@,
        Rule::arrow_segment => "arrow_segment"@,
        Rule::arrow_middle => "arrow_middle"@,
        Rule::line_style_block => "line_style_block"@,
        Rule::arrow_direction => "arrow_direction"@,
        Rule::arrow_mid_decor => "arrow_mid_decor"@,
        Rule::class_start => "class_start"@,
        Rule::startuml => "startuml"@,
        Rule::top_level => "top_level"@,
        Rule::type_def => "type_def"@,
        Rule::type_kind => "type_kind"@,
        Rule::enum_def => "enum_def"@,
        Rule::namespace_def => "namespace_def"@,
        Rule::package_def => "package_def"@,
        Rule::relationship => "relationship"@,
        Rule::named => "named"@,
        Rule::internal_name => "internal_name"@,
        Rule::alias_clause => "alias_clause"@,
        Rule::class_body => "class_body"@,
        Rule::class_member => "class_member"@,
        Rule::attribute => "attribute"@,
        Rule::method => "method"@,
        Rule::class_visibility => "class_visibility"@,
        Rule::identifier => "identifier"@,
        Rule::typename => "typename"@,
        Rule::param_list => "param_list"@,
        Rule::param => "param"@,
        Rule::param_named => "param_named"@,
        Rule::param_unnamed => "param_unnamed"@,
        Rule::varargs => "varargs"@,
        Rule::return_type => "return_type"@,
        Rule::generic_param_list => "generic_param_list"@,
        Rule::enum_body => "enum_body"@,
        Rule::enum_item => "enum_item"@,
        Rule::enum_value => "enum_value"@,
        Rule::label => "label"@,
        Rule::sequence_start => "sequence_start"@,
        Rule::puml_name => "puml_name"@,
        Rule::sequence_statement => "sequence_statement"@,
        Rule::participant_def => "participant_def"@,
        Rule::lifecycle_cmd => "lifecycle_cmd"@,
        Rule::message => "message"@,
        Rule::group_cmd => "group_cmd"@,
        Rule::ref_stmt => "ref_stmt"@,
        Rule::return_cmd => "return_cmd"@,
        Rule::create_cmd => "create_cmd"@,
        Rule::destroy_cmd => "destroy_cmd"@,
        Rule::activate_cmd => "activate_cmd"@,
        Rule::deactivate_cmd => "deactivate_cmd"@,
        Rule::activation_short => "activation_short"@,
        Rule::participant_type => "participant_type"@,
        Rule::participant_identifier => "participant_identifier"@,
        Rule::stereotype => "stereotype"@,
        Rule::order_clause => "order_clause"@,
        Rule::quoted_display_with_alias => "quoted_display_with_alias"@,
        Rule::display_with_alias => "display_with_alias"@,
        Rule::alias_with_quoted_display => "alias_with_quoted_display"@,
        Rule::quoted_display => "quoted_display"@,
        Rule::alias_only => "alias_only"@,
        Rule::message_body => "message_body"@,
        Rule::message_suffix => "message_suffix"@,
        Rule::sequence_description => "sequence_description"@,
        Rule::message_full => "message_full"@,
        Rule::message_missing_left => "message_missing_left"@,
        Rule::message_missing_right => "message_missing_right"@,
        Rule::message_endpoint => "message_endpoint"@,
        Rule::inline_participant => "inline_participant"@,
        Rule::lost_found_marker => "lost_found_marker"@,
        Rule::left_lost_found => "left_lost_found"@,
        Rule::right_lost_found => "right_lost_found"@,
        Rule::short_lost_found => "short_lost_found"@,
        Rule::activate_suffix => "activate_suffix"@,
        Rule::deactivate_suffix => "deactivate_suffix"@,
        Rule::create_suffix => "create_suffix"@,
        Rule::destroy_suffix => "destroy_suffix"@,
        Rule::group_start => "group_start"@,
        Rule::group_branch => "group_branch"@,
        Rule::group_end => "group_end"@,
        Rule::parallel_marker => "parallel_marker"@,
        Rule::group_start_type => "group_start_type"@,
        Rule::group_label => "group_label"@,
        Rule::group_branch_type => "group_branch_type"@,
        Rule::participant_list => "participant_list"@,
        Rule::participant_ref => "participant_ref"@,
        Rule::sequence_text_content => "sequence_text_content"@,
        Rule::ref_body => "ref_body"@,
        Rule::CNAME => "CNAME"@,
        Rule::activity_diagram => "activity_diagram"@,
        Rule::title_stmt => "title_stmt"@,
        Rule::action_stmt => "action_stmt"@,
        Rule::arrow_stmt => "arrow_stmt"@,
        Rule::backward_stmt => "backward_stmt"@,
        Rule::control_stmt => "control_stmt"@,
        Rule::start_stmt => "start_stmt"@,
        Rule::stop_stmt => "stop_stmt"@,
        Rule::if_start_stmt => "if_start_stmt"@,
        Rule::else_stmt => "else_stmt"@,
        Rule::endif_stmt => "endif_stmt"@,
        Rule::while_start_stmt => "while_start_stmt"@,
        Rule::endwhile_stmt => "endwhile_stmt"@,
        Rule::repeat_start_stmt => "repeat_start_stmt"@,
        Rule::repeat_while_stmt => "repeat_while_stmt"@,
        Rule::fork_start_stmt => "fork_start_stmt"@,
        Rule::fork_again_stmt => "fork_again_stmt"@,
        Rule::fork_end_stmt => "fork_end_stmt"@,
        Rule::swimlane_stmt => "swimlane_stmt"@,
        Rule::arrow_text => "arrow_text"@,
        Rule::action_text => "action_text"@,
        Rule::action_line_text => "action_line_text"@,
        Rule::condition_text => "condition_text"@,
        Rule::if_pre_label => "if_pre_label"@,
        Rule::then_label => "then_label"@,
        Rule::while_label => "while_label"@,
        Rule::endwhile_label => "endwhile_label"@,
        Rule::repeat_label => "repeat_label"@,
        Rule::fork_modifier => "fork_modifier"@,
        Rule::swimlane_text => "swimlane_text"@,
        Rule::note_single_line => "note_single_line"@,
        Rule::note_multiline => "note_multiline"@,
        Rule::note_declaration => "note_declaration"@,
        Rule::note_alias => "note_alias"@,
        Rule::diagram_start => "diagram_start"@,
        Rule::diagram_statement => "diagram_statement"@,
        Rule::element => "element"@,
        Rule::relation => "relation"@,
        Rule::port_declaration => "port_declaration"@,
        Rule::together_block => "together_block"@,
        Rule::port_keyword => "port_keyword"@,
        Rule::port_name => "port_name"@,
        Rule::nested_element => "nested_element"@,
        Rule::default_element => "default_element"@,
        Rule::bracket_element => "bracket_element"@,
        Rule::short_form_component => "short_form_component"@,
        Rule::short_form_actor => "short_form_actor"@,
        Rule::short_form_interface => "short_form_interface"@,
        Rule::short_form_usecase => "short_form_usecase"@,
        Rule::element_modifier => "element_modifier"@,
        Rule::element_style => "element_style"@,
        Rule::statement_block => "statement_block"@,
        Rule::relation_left => "relation_left"@,
        Rule::relation_right => "relation_right"@,
        Rule::relation_description => "relation_description"@,
        Rule::description_text => "description_text"@,
        Rule::short_form_component_name => "short_form_component_name"@,
        Rule::short_form_actor_name => "short_form_actor_name"@,
        Rule::short_form_interface_name => "short_form_interface_name"@,
        Rule::short_form_usecase_name => "short_form_usecase_name"@,
        Rule::ALIAS_ID => "ALIAS_ID"@,
        Rule::STEREOTYPE_NAME => "STEREOTYPE_NAME"@,
        Rule::element_kind => "element_kind"@,
        Rule::default_element_name => "default_element_name"@,
        Rule::file => "file"@,
        Rule::include_line => "include_line"@,
        Rule::includesub_line => "includesub_line"@,
        Rule::sub_block => "sub_block"@,
        Rule::text_line => "text_line"@,
        Rule::include_directive => "include_directive"@,
        Rule::includesub_directive => "includesub_directive"@,
        Rule::include_keyword => "include_keyword"@,
        Rule::include_path => "include_path"@,
        Rule::include_suffix => "include_suffix"@,
        Rule::include_index => "include_index"@,
        Rule::include_label => "include_label"@,
        Rule::startsub_directive => "startsub_directive"@,
        Rule::procedure_line => "procedure_line"@,
        Rule::macro_call_line => "macro_call_line"@,
        Rule::proc_name => "proc_name"@,
        Rule::procedure_body => "procedure_body"@,
        Rule::macro_identifier => "macro_identifier"@,
        Rule::arg_list => "arg_list"@,
        Rule::arg => "arg"@,
        Rule::string => "string"@,
        Rule::number => "number"@,
    }
}

/// The name of a rule, as the grammar writes it.
pub fn rule_name(r: Rule) -> (s: &'static str)
    ensures
        s@ == rule_text(r),
{
    match r {
        Rule::connection_arrow => "connection_arrow",
        Rule::sequence_arrow => "sequence_arrow",
        Rule::arrow_prefix => "arrow_prefix",
        Rule::sequence_arrow_prefix => "sequence_arrow_prefix",
        Rule::arrow_suffix => "arrow_suffix",
        Rule::sequence_arrow_suffix => "sequence_arrow_suffix",
        Rule::arrow_segment => "arrow_segment",
        Rule::arrow_middle => "arrow_middle",
        Rule::line_style_block => "line_style_block",
        Rule::arrow_direction => "arrow_direction",
        Rule::arrow_mid_decor => "arrow_mid_decor",
        Rule::class_start => "class_start",
        Rule::startuml => "startuml",
        Rule::top_level => "top_level",
        Rule::type_def => "type_def",
        Rule::type_kind => "type_kind",
        Rule::enum_def => "enum_def",
        Rule::namespace_def => "namespace_def",
        Rule::package_def => "package_def",
        Rule::relationship => "relationship",
        Rule::named => "named",
        Rule::internal_name => "internal_name",
        Rule::alias_clause => "alias_clause",
        Rule::class_body => "class_body",
        Rule::class_member => "class_member",
        Rule::attribute => "attribute",
        Rule::method => "method",
        Rule::class_visibility => "class_visibility",
        Rule::identifier => "identifier",
        Rule::typename => "typename",
        Rule::param_list => "param_list",
        Rule::param => "param",
        Rule::param_named => "param_named",
        Rule::param_unnamed => "param_unnamed",
        Rule::varargs => "varargs",
        Rule::return_type => "return_type",
        Rule::generic_param_list => "generic_param_list",
        Rule::enum_body => "enum_body",
        Rule::enum_item => "enum_item",
        Rule::enum_value => "enum_value",
        Rule::label => "label",
        Rule::sequence_start => "sequence_start",
        Rule::puml_name => "puml_name",
        Rule::sequence_statement => "sequence_statement",
        Rule::participant_def => "participant_def",
        Rule::lifecycle_cmd => "lifecycle_cmd",
        Rule::message => "message",
        Rule::group_cmd => "group_cmd",
        Rule::ref_stmt => "ref_stmt",
        Rule::return_cmd => "return_cmd",
        Rule::create_cmd => "create_cmd",
        Rule::destroy_cmd => "destroy_cmd",
        Rule::activate_cmd => "activate_cmd",
        Rule::deactivate_cmd => "deactivate_cmd",
        Rule::activation_short => "activation_short",
        Rule::participant_type => "participant_type",
        Rule::participant_identifier => "participant_identifier",
        Rule::stereotype => "stereotype",
        Rule::order_clause => "order_clause",
        Rule::quoted_display_with_alias => "quoted_display_with_alias",
        Rule::display_with_alias => "display_with_alias",
        Rule::alias_with_quoted_display => "alias_with_quoted_display",
        Rule::quoted_display => "quoted_display",
        Rule::alias_only => "alias_only",
        Rule::message_body => "message_body",
        Rule::message_suffix => "message_suffix",
        Rule::sequence_description => "sequence_description",
        Rule::message_full => "message_full",
        Rule::message_missing_left => "message_missing_left",
        Rule::message_missing_right => "message_missing_right",
        Rule::message_endpoint => "message_endpoint",
        Rule::inline_participant => "inline_participant",
        Rule::lost_found_marker => "lost_found_marker",
        Rule::left_lost_found => "left_lost_found",
        Rule::right_lost_found => "right_lost_found",
        Rule::short_lost_found => "short_lost_found",
        Rule::activate_suffix => "activate_suffix",
        Rule::deactivate_suffix => "deactivate_suffix",
        Rule::create_suffix => "create_suffix",
        Rule::destroy_suffix => "destroy_suffix",
        Rule::group_start => "group_start",
        Rule::group_branch => "group_branch",
        Rule::group_end => "group_end",
        Rule::parallel_marker => "parallel_marker",
        Rule::group_start_type => "group_start_type",
        Rule::group_label => "group_label",
        Rule::group_branch_type => "group_branch_type",
        Rule::participant_list => "participant_list",
        Rule::participant_ref => "participant_ref",
        Rule::sequence_text_content => "sequence_text_content",
        Rule::ref_body => "ref_body",
        Rule::CNAME => "CNAME",
        Rule::activity_diagram => "activity_diagram",
        Rule::title_stmt => "title_stmt",
        Rule::action_stmt => "action_stmt",
        Rule::arrow_stmt => "arrow_stmt",
        Rule::backward_stmt => "backward_stmt",
        Rule::control_stmt => "control_stmt",
        Rule::start_stmt => "start_stmt",
        Rule::stop_stmt => "stop_stmt",
        Rule::if_start_stmt => "if_start_stmt",
        Rule::else_stmt => "else_stmt",
        Rule::endif_stmt => "endif_stmt",
        Rule::while_start_stmt => "while_start_stmt",
        Rule::endwhile_stmt => "endwhile_stmt",
        Rule::repeat_start_stmt => "repeat_start_stmt",
        Rule::repeat_while_stmt => "repeat_while_stmt",
        Rule::fork_start_stmt => "fork_start_stmt",
        Rule::fork_again_stmt => "fork_again_stmt",
        Rule::fork_end_stmt => "fork_end_stmt",
        Rule::swimlane_stmt => "swimlane_stmt",
        Rule::arrow_text => "arrow_text",
        Rule::action_text => "action_text",
        Rule::action_line_text => "action_line_text",
        Rule::condition_text => "condition_text",
        Rule::if_pre_label => "if_pre_label",
        Rule::then_label => "then_label",
        Rule::while_label => "while_label",
        Rule::endwhile_label => "endwhile_label",
        Rule::repeat_label => "repeat_label",
        Rule::fork_modifier => "fork_modifier",
        Rule::swimlane_text => "swimlane_text",
        Rule::note_single_line => "note_single_line",
        Rule::note_multiline => "note_multiline",
        Rule::note_declaration => "note_declaration",
        Rule::note_alias => "note_alias",
        Rule::diagram_start => "diagram_start",
        Rule::diagram_statement => "diagram_statement",
        Rule::element => "element",
        Rule::relation => "relation",
        Rule::port_declaration => "port_declaration",
        Rule::together_block => "together_block",
        Rule::port_keyword => "port_keyword",
        Rule::port_name => "port_name",
        Rule::nested_element => "nested_element",
        Rule::default_element => "default_element",
        Rule::bracket_element => "bracket_element",
        Rule::short_form_component => "short_form_component",
        Rule::short_form_actor => "short_form_actor",
        Rule::short_form_interface => "short_form_interface",
        Rule::short_form_usecase => "short_form_usecase",
        Rule::element_modifier => "element_modifier",
        Rule::element_style => "element_style",
        Rule::statement_block => "statement_block",
        Rule::relation_left => "relation_left",
        Rule::relation_right => "relation_right",
        Rule::relation_description => "relation_description",
        Rule::description_text => "description_text",
        Rule::short_form_component_name => "short_form_component_name",
        Rule::short_form_actor_name => "short_form_actor_name",
        Rule::short_form_interface_name => "short_form_interface_name",
        Rule::short_form_usecase_name => "short_form_usecase_name",
        Rule::ALIAS_ID => "ALIAS_ID",
        Rule::STEREOTYPE_NAME => "STEREOTYPE_NAME",
        Rule::element_kind => "element_kind",
        Rule::default_element_name => "default_element_name",
        Rule::file => "file",
        Rule::include_line => "include_line",
        Rule::includesub_line => "includesub_line",
        Rule::sub_block => "sub_block",
        Rule::text_line => "text_line",
        Rule::include_directive => "include_directive",
        Rule::includesub_directive => "includesub_directive",
        Rule::include_keyword => "include_keyword",
        Rule::include_path => "include_path",
        Rule::include_suffix => "include_suffix",
        Rule::include_index => "include_index",
        Rule::include_label => "include_label",
        Rule::startsub_directive => "startsub_directive",
        Rule::procedure_line => "procedure_line",
        Rule::macro_call_line => "macro_call_line",
        Rule::proc_name => "proc_name",
        Rule::procedure_body => "procedure_body",
        Rule::macro_identifier => "macro_identifier",
        Rule::arg_list => "arg_list",
        Rule::arg => "arg",
        Rule::string => "string",
        Rule::number => "number",
    }
}

/// One match of a grammar rule.
#[derive(Debug)]
pub struct ParseNode {
    /// The rule matched.
    pub rule: Rule,
    /// The text the match spans.
    pub text: String,
    /// The line the match starts on, counted from 1.
    pub line: usize,
    /// The column the match starts at, counted from 1.
    pub column: usize,
    /// The line the match ends on.
    pub end_line: usize,
    /// The column just after the match.
    pub end_column: usize,
    /// The matches of the rule's parts, in order.
    pub children: Vec<ParseNode>,
}

/// The index of the last node of `cs` matching rule `r`.
pub open spec fn last_with(cs: Seq<ParseNode>, r: Rule) -> Option<int>
    decreases cs.len(),
{
    if cs.len() == 0 {
        None
    } else if cs.last().rule == r {
        Some(cs.len() - 1)
    } else {
        last_with(cs.drop_last(), r)
    }
}

/// The text of the last node of `cs` matching rule `r`.
pub open spec fn text_with(cs: Seq<ParseNode>, r: Rule) -> Option<Seq<char>> {
    match last_with(cs, r) {
        Some(i) => Some(cs[i].text@),
        None => None,
    }
}

/// The index of the first node of `cs` matching rule `r`.
pub open spec fn first_with(cs: Seq<ParseNode>, r: Rule) -> Option<int>
    decreases cs.len(),
{
    if cs.len() == 0 {
        None
    } else {
        match first_with(cs.drop_last(), r) {
            Some(i) => Some(i),
            None => if cs.last().rule == r {
                Some(cs.len() - 1)
            } else {
                None
            },
        }
    }
}

/// The text of the first node of `cs` matching rule `r`.
pub open spec fn first_text_with(cs: Seq<ParseNode>, r: Rule) -> Option<Seq<char>> {
    match first_with(cs, r) {
        Some(i) => Some(cs[i].text@),
        None => None,
    }
}

/// The nodes of `cs` matching rule `r`, in order.
pub open spec fn with_rule(cs: Seq<ParseNode>, r: Rule) -> Seq<ParseNode>
    decreases cs.len(),
{
    if cs.len() == 0 {
        Seq::empty()
    } else if cs.last().rule == r {
        with_rule(cs.drop_last(), r).push(cs.last())
    } else {
        with_rule(cs.drop_last(), r)
    }
}

/// The last match found is one of `cs` and matches `r`.
pub proof fn lemma_last_with(cs: Seq<ParseNode>, r: Rule)
    ensures
        last_with(cs, r) matches Some(i) ==> 0 <= i < cs.len() && cs[i].rule == r,
    decreases cs.len(),
{
    if cs.len() > 0 && cs.last().rule != r {
        lemma_last_with(cs.drop_last(), r);
    }
}

/// One more node extends the prefix of `cs` read so far.
pub proof fn lemma_take_step(cs: Seq<ParseNode>, i: int)
    requires
        0 <= i < cs.len(),
    ensures
        cs.take(i + 1).drop_last() == cs.take(i),
        cs.take(i + 1).last() == cs[i],
        cs.take(i + 1).len() == i + 1,
{
    assert(cs.take(i + 1).drop_last() =~= cs.take(i));
}

/// Reading one more node: it becomes the last match when it matches `r`.
pub proof fn lemma_last_step(cs: Seq<ParseNode>, i: int, r: Rule)
    requires
        0 <= i < cs.len(),
    ensures
        last_with(cs.take(i + 1), r) == if cs[i].rule == r {
            Some(i)
        } else {
            last_with(cs.take(i), r)
        },
        text_with(cs.take(i + 1), r) == if cs[i].rule == r {
            Some(cs[i].text@)
        } else {
            text_with(cs.take(i), r)
        },
        with_rule(cs.take(i + 1), r) == if cs[i].rule == r {
            with_rule(cs.take(i), r).push(cs[i])
        } else {
            with_rule(cs.take(i), r)
        },
{
    lemma_take_step(cs, i);
    lemma_last_with(cs.take(i), r);
}

/// The matches of a concatenation are those of its parts, concatenated.
pub proof fn lemma_with_rule_concat(a: Seq<ParseNode>, b: Seq<ParseNode>, r: Rule)
    ensures
        with_rule(a + b, r) == with_rule(a, r) + with_rule(b, r),
    decreases b.len(),
{
    if b.len() == 0 {
        assert(a + b =~= a);
        assert(with_rule(b, r) =~= Seq::<ParseNode>::empty());
        assert(with_rule(a, r) + with_rule(b, r) =~= with_rule(a, r));
    } else {
        assert((a + b).drop_last() =~= a + b.drop_last());
        assert((a + b).last() == b.last());
        lemma_with_rule_concat(a, b.drop_last(), r);
        if b.last().rule == r {
            assert(with_rule(a, r) + with_rule(b.drop_last(), r).push(b.last()) =~= (with_rule(a, r) + with_rule(
                b.drop_last(),
                r,
            )).push(b.last()));
        }
    }
}

/// The first match found is one of `cs`, matches `r`, and none before it does.
pub proof fn lemma_first_with(cs: Seq<ParseNode>, r: Rule)
    ensures
        first_with(cs, r) matches Some(i) ==> 0 <= i < cs.len() && cs[i].rule == r && forall|k: int|
            0 <= k < i ==> cs[k].rule != r,
        first_with(cs, r) is None ==> forall|k: int| 0 <= k < cs.len() ==> cs[k].rule != r,
    decreases cs.len(),
{
    if cs.len() > 0 {
        let d = cs.drop_last();
        lemma_first_with(d, r);
        assert(forall|k: int| 0 <= k < d.len() ==> d[k] == cs[k]);
        if first_with(d, r) is None {
            assert forall|k: int| 0 <= k < d.len() implies cs[k].rule != r by {
                assert(d[k] == cs[k]);
            }
        }
    }
}

/// The index of the first child matching rule `r`.
pub fn find_first(cs: &Vec<ParseNode>, r: Rule) -> (o: Option<usize>)
    ensures
        match first_with(cs@, r) {
            Some(k) => o matches Some(i) && i as int == k,
            None => o is None,
        },
        o matches Some(i) ==> i < cs@.len() && cs@[i as int].rule == r,
{
    proof {
        lemma_first_with(cs@, r);
    }
    let mut i: usize = 0;
    while i < cs.len()
        invariant
            i <= cs@.len(),
            forall|k: int| 0 <= k < i ==> cs@[k].rule != r,
            first_with(cs@, r) matches Some(j) ==> 0 <= j < cs@.len() && cs@[j].rule == r && forall|k: int|
                0 <= k < j ==> cs@[k].rule != r,
            first_with(cs@, r) is None ==> forall|k: int| 0 <= k < cs@.len() ==> cs@[k].rule != r,
        decreases cs@.len() - i,
    {
        if cs[i].rule == r {
            return Some(i);
        }
        i = i + 1;
    }
    None
}

/// The text of the first child matching rule `r`.
pub fn first_text(cs: &Vec<ParseNode>, r: Rule) -> (o: Option<String>)
    ensures
        ov(o) == first_text_with(cs@, r),
{
    proof {
        lemma_first_with(cs@, r);
    }
    match find_first(cs, r) {
        Some(i) => {
            let t = cs[i].text.clone();
            assert(first_text_with(cs@, r) == Some(t@));
            Some(t)
        },
        None => None,
    }
}

/// The index of the last child matching rule `r`.
pub fn find_last(cs: &Vec<ParseNode>, r: Rule) -> (o: Option<usize>)
    ensures
        match last_with(cs@, r) {
            Some(k) => o matches Some(i) && i as int == k,
            None => o is None,
        },
        o matches Some(i) ==> i < cs@.len() && cs@[i as int].rule == r,
{
    let mut found: Option<usize> = None;
    let mut i: usize = 0;
    while i < cs.len()
        invariant
            i <= cs@.len(),
            match last_with(cs@.take(i as int), r) {
                Some(k) => found matches Some(j) && j as int == k,
                None => found is None,
            },
            found matches Some(k) ==> k < i && cs@[k as int].rule == r,
        decreases cs@.len() - i,
    {
        proof {
            lemma_take_step(cs@, i as int);
        }
        if cs[i].rule == r {
            found = Some(i);
        }
        i = i + 1;
    }
    assert(cs@.take(cs@.len() as int) =~= cs@);
    found
}

/// The text of the last child matching rule `r`.
pub fn last_text(cs: &Vec<ParseNode>, r: Rule) -> (o: Option<String>)
    ensures
        ov(o) == text_with(cs@, r),
{
    proof {
        lemma_last_with(cs@, r);
    }
    match find_last(cs, r) {
        Some(i) => {
            let t = cs[i].text.clone();
            assert(last_with(cs@, r) == Some(i as int));
            assert(text_with(cs@, r) == Some(t@));
            Some(t)
        },
        None => None,
    }
}

/// Whether some child matches rule `r`.
pub fn has_child(cs: &Vec<ParseNode>, r: Rule) -> (b: bool)
    ensures
        b == (last_with(cs@, r) is Some),
{
    find_last(cs, r).is_some()
}

} // verus!
