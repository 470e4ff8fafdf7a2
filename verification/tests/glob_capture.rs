use ttfm::edit::cast::{pre_validate_cast, CastError};
use ttfm::edit::error::{label_grouping_in_capture_editing_err, LABEL_GROUPING_IN_CAPTURE_EDITING};
use ttfm::edit::glob_capture::{glob_captures, lex, Atom};
use ttfm::edit::modify::NumberText;
use ttfm::types::{Bitical, BiticalType, Number};

fn captures(pattern: &str, text: &str) -> Option<Vec<String>> {
    glob_captures(pattern, text)
}

fn number(x: f64) -> Number {
    Number { bits: x.to_bits(), shown: x.to_string() }
}

#[test]
fn shortest_split_on_first_separator() {
    assert_eq!(
        captures("*=*", "a=b=c"),
        Some(vec!["a".to_string(), "b=c".to_string()])
    );
}

#[test]
fn shortest_keeps_tail_for_repeated_marker() {
    assert_eq!(
        captures("*_draft*", "a_draft_b_draft"),
        Some(vec!["a".to_string(), "_b_draft".to_string()])
    );
}

#[test]
fn question_and_class_capture_one_char() {
    assert_eq!(captures("a?c", "abc"), Some(vec!["b".to_string()]));
    assert_eq!(captures("a[bx]c", "abc"), Some(vec!["b".to_string()]));
}

#[test]
fn bang_class_is_the_only_negation() {
    assert_eq!(captures("[!a]", "b"), Some(vec!["b".to_string()]));
    assert_eq!(captures("[!a]", "a"), None);
}

#[test]
fn caret_in_class_is_a_member_not_negation() {
    assert_eq!(captures("[^a]", "^"), Some(vec!["^".to_string()]));
    assert_eq!(captures("[^a]", "a"), Some(vec!["a".to_string()]));
    assert_eq!(captures("[^a]", "b"), None);
}

#[test]
fn leading_caret_is_matched_literally() {
    assert_eq!(captures("[^a]", "^"), Some(vec!["^".to_string()]));
}

#[test]
fn bracketed_star_is_a_literal_star() {
    assert_eq!(captures("[*]", "*"), Some(vec!["*".to_string()]));
    assert_eq!(captures("[*]", "x"), None);
}

#[test]
fn escaped_metachar_matches_and_yields_no_capture() {
    assert_eq!(captures("a\\*b", "a*b"), Some(vec![]));
    assert_eq!(captures("a\\*b", "aXb"), None);
}

#[test]
fn backslash_before_plain_char_is_consumed() {
    assert_eq!(captures("\\a", "a"), Some(vec![]));
}

#[test]
fn unclosed_bracket_never_matches() {
    assert_eq!(captures("[a", "[a"), None);
    assert_eq!(captures("[a", "a"), None);
}

#[test]
fn multibyte_counts_as_one_char() {
    assert_eq!(captures("?", "あ"), Some(vec!["あ".to_string()]));
    assert_eq!(captures("あ*", "あい"), Some(vec!["い".to_string()]));
}

#[test]
fn no_match_returns_none() {
    assert_eq!(captures("abc", "abd"), None);
}

/// Texts and patterns with whether the text fits the pattern.
const CASES: &[(&str, &str, bool)] = &[
    ("b", "[!a]", true),
    ("!", "[!a]", true),
    ("a", "[!a]", false),
    ("b", "[^a]", false),
    ("^", "[^a]", true),
    ("a", "[^a]", true),
    ("*", "[*]", true),
    ("x", "[*]", false),
    ("*", "\\*", true),
    ("a", "\\a", true),
    ("[", "[", false),
    ("a", "[a", false),
    ("b", "[a-c]", true),
    ("-", "[a-c]", false),
    ("d", "[a-c]", false),
    ("a", "[abc]", true),
    ("z", "[abc]", false),
    ("\\", "\\\\", true),
    ("a*b", "a\\*b", true),
    ("aXb", "a\\*b", false),
    ("a", "a", true),
    ("A", "a", false),
    ("ab", "a?", true),
    ("a", "a?", false),
    ("", "*", true),
    ("anything", "*", true),
];

#[test]
fn texts_fit_patterns() {
    for (text, pattern, fits) in CASES {
        assert_eq!(
            glob_captures(pattern, text).is_some(),
            *fits,
            "pattern={pattern:?} text={text:?}"
        );
    }
}

#[test]
fn patterns_are_read_as_atoms() {
    let atoms = lex("a*\\*");
    assert_eq!(atoms.len(), 3);
    assert!(!atoms[0].is_metachar());
    assert!(atoms[1].is_metachar());
    assert!(matches!(atoms[2], Atom::Ch('*')));
}

#[test]
fn test_label_grouping_in_capture_editing_err() {
    let err = label_grouping_in_capture_editing_err();
    assert_eq!(err.message(), LABEL_GROUPING_IN_CAPTURE_EDITING);
}

#[test]
fn test_bitical_parse_as() {
    assert_eq!(
        Bitical::parse_as("100", BiticalType::Integer, None),
        Some(Bitical::Integer(100))
    );
    assert_eq!(Bitical::parse_as("invalid", BiticalType::Integer, None), None);
    assert_eq!(
        Bitical::parse_as("true", BiticalType::Boolean, None),
        Some(Bitical::Boolean(true))
    );
    assert_eq!(
        Bitical::parse_as("hello", BiticalType::String, None),
        Some(Bitical::String("hello".to_string()))
    );
    assert_eq!(
        Bitical::parse_as("1.5", BiticalType::Double, Some(number(1.5))),
        Some(Bitical::Double(number(1.5)))
    );
    let id = "01234567-89ab-4def-8123-456789abcdef";
    assert_eq!(
        Bitical::parse_as(id, BiticalType::Uuid, None),
        Some(Bitical::Uuid(0x0123_4567_89ab_4def_8123_4567_89ab_cdef))
    );
    assert_eq!(Bitical::parse_as("01234567", BiticalType::Uuid, None), None);
}

#[test]
fn test_pre_validate_cast_empty_db() {
    let count = pre_validate_cast(&vec![], BiticalType::Integer, &vec![]).unwrap();
    assert_eq!(count, 0);
}

#[test]
fn labels_that_cannot_be_converted_stop_a_cast() {
    let labels = vec![Some("1".to_string()), Some("x".to_string()), None];
    let CastError { invalid } =
        pre_validate_cast(&labels, BiticalType::Integer, &vec![]).unwrap_err();
    assert!(invalid.contains(&"x".to_string()));
    let numbers = vec![NumberText { text: "2.5".to_string(), number: number(2.5) }];
    let ok = vec![Some("2.5".to_string())];
    assert_eq!(pre_validate_cast(&ok, BiticalType::Double, &numbers).unwrap(), 1);
    let shown = pre_validate_cast(&vec![Some("x".to_string())], BiticalType::Integer, &vec![]);
    assert_eq!(
        shown.unwrap_err().message(),
        "Cast aborted due to invalid labels: [x]"
    );
}

#[test]
fn test_bitical_to_eav_columns() {
    assert_eq!(
        Bitical::to_eav_columns(Some(Bitical::String("a".to_string()))),
        (Some("a".to_string()), None, None, None)
    );
    assert_eq!(
        Bitical::to_eav_columns(Some(Bitical::Integer(1))),
        (None, Some(1), None, None)
    );
    assert_eq!(
        Bitical::to_eav_columns(Some(Bitical::Double(number(1.5)))),
        (None, None, Some(number(1.5)), None)
    );
    assert_eq!(
        Bitical::to_eav_columns(Some(Bitical::Boolean(true))),
        (None, None, None, Some(true))
    );
    let id = uuid::Uuid::from_u128(0xfedc_ba98_7654_4210_8edc_ba98_7654_3210);
    assert_eq!(
        Bitical::to_eav_columns(Some(Bitical::Uuid(id.as_u128()))),
        (Some(id.to_string()), None, None, None)
    );
    assert_eq!(Bitical::to_eav_columns(None), (None, None, None, None));
}
