use puml_tooling::activity::creole::normalize_creole_text;

#[test]
fn normalize_creole_inline_styles_to_plain_text() {
    assert_eq!(
        normalize_creole_text("Hello \"\"code\"\" and **bold** with __underline__ ~~wave~~"),
        "Hello code and bold with underline wave"
    );
}

#[test]
fn normalize_creole_links_images_and_escapes() {
    assert_eq!(
        normalize_creole_text(
            "[[https://example.com/docs{tip} external docs]] {{img.png|preview}} ~*literal"
        ),
        "external docs preview *literal"
    );
}

#[test]
fn normalize_creole_block_syntax_to_plain_text() {
    assert_eq!(
        normalize_creole_text("= Heading =\n* first item\n|=A|B|\n----\n"),
        "Heading\nfirst item\nA | B"
    );
}

#[test]
fn normalize_full_line_bold_text_without_list_stripping() {
    assert_eq!(normalize_creole_text("**action green**"), "action green");
}

#[test]
fn normalize_creole_tags_urls_and_unclosed_markers() {
    assert_eq!(normalize_creole_text("<b>x</b> <COLOR:red>y"), "x y");
    // only colour openers are tags; a closing `</color>` stays text
    assert_eq!(normalize_creole_text("<color:red>y</color>"), "y</color>");
    assert_eq!(normalize_creole_text("see http://host/x"), "see http://host/x");
    assert_eq!(normalize_creole_text("**open only"), "**open only");
    assert_eq!(normalize_creole_text("<unknown>"), "<unknown>");
}

#[test]
fn normalize_creole_links_without_label_and_images_without_caption() {
    assert_eq!(normalize_creole_text("[[target{tip}]]"), "target");
    assert_eq!(normalize_creole_text("a {{img.png}} b"), "a b");
    assert_eq!(normalize_creole_text("x\n\n  \n"), "x");
    assert_eq!(normalize_creole_text("===="), "====");
}
