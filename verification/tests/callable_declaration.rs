use puml_tooling::component_diagram::component_parser::PumlComponentParser;
use puml_tooling::visitor::callable_declaration::normalize_pack_expansion_type;

#[test]
fn pack_expansion_drops_ellipsis_and_trims() {
    assert_eq!(normalize_pack_expansion_type("Args..."), "Args");
    assert_eq!(normalize_pack_expansion_type("  const T&... "), "const T&");
    assert_eq!(normalize_pack_expansion_type("a....b"), "a.b");
    assert_eq!(normalize_pack_expansion_type("int"), "int");
    assert_eq!(normalize_pack_expansion_type("..."), "");
}

#[test]
fn interface_name_loses_wrapping_quotes() {
    assert_eq!(PumlComponentParser::strip_wrapping_quotes("\"Data Access\""), "Data Access");
    assert_eq!(PumlComponentParser::strip_wrapping_quotes("Plain"), "Plain");
    assert_eq!(PumlComponentParser::strip_wrapping_quotes("\""), "\"");
    assert_eq!(PumlComponentParser::strip_wrapping_quotes("\"open"), "\"open");
}
