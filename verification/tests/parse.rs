use ttfm::edit::parse::{parse_edit_query, EditQueryNode, LeafPart};
use ttfm::edit::QueryType;
use ttfm::tag::TagRegistry;

fn node(q: &str) -> EditQueryNode {
    parse_edit_query(q, QueryType::Tag, &TagRegistry::with_standard())
        .unwrap()
        .nodes
        .into_iter()
        .next()
        .unwrap()
}

#[test]
fn space_and_piped_separators_are_same() {
    let reg = TagRegistry::with_standard();
    let a =
        parse_edit_query("project:a note:b", QueryType::Tag, &reg).unwrap();
    let b = parse_edit_query("project:a | note:b", QueryType::Tag, &reg)
        .unwrap();
    assert_eq!(a, b);
}

#[test]
fn pipe_without_trailing_space_is_error() {
    let reg = TagRegistry::with_standard();
    assert!(parse_edit_query("project:a |note:b", QueryType::Tag, &reg)
        .is_err());
}

#[test]
fn spaced_ampersand_is_error() {
    let reg = TagRegistry::with_standard();
    assert!(parse_edit_query("project:a & note:b", QueryType::Tag, &reg)
        .is_err());
}

#[test]
fn unspaced_pipe_and_ampersand_are_part_of_label() {
    let n = node("project:x&y|z");
    assert_eq!(n.label.unwrap().value(), "x&y|z");
}

#[test]
fn unquoted_backslash_escape_drops_the_backslash() {
    let n = node("note:x\\ y");
    assert_eq!(n.label.unwrap().render(), "x y");
}

#[test]
fn glob_escape_survives_until_value() {
    let leaf = node("note:my\\*file").label.unwrap();
    assert_eq!(leaf.render(), "my\\*file");
    assert_eq!(leaf.value(), "my*file");
}

#[test]
fn quoted_glob_escape_survives_too() {
    let leaf = node("note:\"my\\*file\"").label.unwrap();
    assert!(leaf.quoted);
    assert_eq!(leaf.render(), "my\\*file");
    assert_eq!(leaf.value(), "my*file");
}

#[test]
fn braced_inside_quotes_is_a_braced_part() {
    let leaf = node("note:\"a{1}b\"").label.unwrap();
    assert!(leaf
        .parts
        .iter()
        .any(|p| *p == LeafPart::Braced("1".to_string())));
}

#[test]
fn escaped_brace_inside_quotes_is_text() {
    let leaf = node("note:\"a\\{1}b\"").label.unwrap();
    assert!(!leaf.has_braced());
    assert_eq!(leaf.render(), "a{1}b");
}

#[test]
fn non_numeric_braced_parses_successfully() {
    let leaf = node("note:{abc}").label.unwrap();
    assert!(leaf
        .parts
        .iter()
        .any(|p| *p == LeafPart::Braced("abc".to_string())));
}

#[test]
fn unclosed_brace_inside_quotes_is_text() {
    let leaf = node("note:\"a{b\"").label.unwrap();
    assert!(!leaf.has_braced());
    assert_eq!(leaf.render(), "a{b");
}

#[test]
fn bare_unclosed_brace_unquoted_is_error() {
    let reg = TagRegistry::with_standard();
    assert!(parse_edit_query("note:a{b", QueryType::Tag, &reg).is_err());
}

#[test]
fn label_splits_into_text_and_braced_parts() {
    let leaf = node("note:abc{1}def").label.unwrap();
    assert_eq!(
        leaf.parts,
        vec![
            LeafPart::Text("abc".to_string()),
            LeafPart::Braced("1".to_string()),
            LeafPart::Text("def".to_string()),
        ]
    );
}

#[test]
fn braced_in_type_position_parses() {
    let n = node("{1}:val");
    assert!(n.tag_type.has_braced());
    assert_eq!(n.label.unwrap().value(), "val");
}

#[test]
fn quoted_leaf_keeps_quoted_flag() {
    let n = node("note:\"hello\"");
    assert!(n.label.unwrap().quoted);
    let n2 = node("note:hello");
    assert!(!n2.label.unwrap().quoted);
}

#[test]
fn render_writes_braced_back_as_literal() {
    let leaf = node("note:{1}").label.unwrap();
    assert_eq!(leaf.render(), "{1}");
}

#[test]
fn forbidden_type_without_braced_is_error() {
    let reg = TagRegistry::with_standard();
    assert!(parse_edit_query("size:100", QueryType::Tag, &reg).is_err());
}

#[test]
fn unregistered_custom_type_is_accepted() {
    let reg = TagRegistry::with_standard();
    assert!(parse_edit_query("myproj:foo", QueryType::Tag, &reg).is_ok());
}

#[test]
fn meta_type_without_braced_is_error() {
    let reg = TagRegistry::with_standard();
    assert!(parse_edit_query("tag:foo", QueryType::Tag, &reg).is_err());
}

#[test]
fn empty_type_without_braced_is_error() {
    let reg = TagRegistry::with_standard();
    assert!(parse_edit_query("\"\":val", QueryType::Tag, &reg).is_err());
}

#[test]
fn static_multi_literal_on_replace_type_is_error() {
    let reg = TagRegistry::with_standard();
    assert!(
        parse_edit_query("name:a name:b", QueryType::Tag, &reg).is_err()
    );
}

#[test]
fn pairs_are_shown_as_they_are_written() {
    assert_eq!(node("note:{1}").show(), "note:{1}");
    assert_eq!(node("note:x").show(), "note:x");
    assert!(node("note:x").same(&node("note:x")));
    assert!(!node("note:x").same(&node("note:\"x\"")));
}
