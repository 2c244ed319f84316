use bfn::{
    is_empty, is_false, is_null, is_true, isi, leading_pair, not_null, parse_bool, parse_i64,
    zero, zi64,
};

#[test]
fn test_isi() {
    assert_eq!(
        true,
        isi(
            Some("  minotaur  "),
            Some("  MINOTAUR    "),
            Some("  MINOTAUR    ")
        )
    );
    assert_eq!(
        true,
        isi(None, Some("  minotaur    "), Some("  MINOTAUR    "))
    );
    assert_eq!(
        false,
        isi(None, Some("  minotaur    "), Some("  HIPPO    "))
    );
    assert_eq!(
        true,
        isi(
            Some(" MINOTAUR "),
            Some("  minotaur    "),
            Some("  HIPPO    ")
        )
    );
    assert_eq!(false, isi(Some(" MINOTAUR "), None, Some("  HIPPO    ")));
    assert_eq!(false, isi(Some(" MINOTAUR "), None, None));
}

#[test]
fn test_is_null() {
    assert_eq!(true, is_null::<i32>(None));
    let some: Option<i32> = Some(0);
    assert_eq!(false, is_null(some));
}

#[test]
fn test_is_empty() {
    // Test case: null value
    assert!(is_empty(None), "Expected true for None input");

    // Test case: empty string
    assert!(is_empty(Some("")), "Expected true for empty string");

    // Test case: string with only spaces
    assert!(
        is_empty(Some("   ")),
        "Expected true for string with spaces"
    );

    // Test case: string with tabs and newlines
    assert!(
        is_empty(Some(" \t\n ")),
        "Expected true for string with tabs and newlines"
    );

    // Test case: string with non-whitespace content
    assert!(
        !is_empty(Some("hello")),
        "Expected false for non-empty string"
    );

    // Test case: string with spaces and content
    assert!(
        !is_empty(Some("   hello   ")),
        "Expected false for string with spaces and content"
    );
}

#[test]
fn test_not_null() {
    assert_eq!(false, not_null::<i32>(None));
}

#[test]
fn not_null_of_a_value() {
    assert_eq!(true, not_null(Some("x")));
}

#[test]
fn test_is_false() {
    assert_eq!(false, is_false(Some(true)));
    assert_eq!(true, is_false(None));
    assert_eq!(true, is_false(Some(false)));
}

#[test]
fn test_is_true() {
    assert_eq!(true, is_true(Some(true)));
    assert_eq!(false, is_true(None));
    assert_eq!(false, is_true(Some(false)));
}

#[test]
fn test_parse_bool() {
    assert_eq!(parse_bool("yes"), true);
    assert_eq!(parse_bool("true"), true);
    assert_eq!(parse_bool("T"), true);
    assert_eq!(parse_bool("no"), false);
}

#[test]
fn parse_bool_goes_by_the_first_character() {
    for yes in ["1", "+", "+1", "10", "t", "tr", "tru", "TRUE", "table", "y", "Ye", "YES", "yolk"] {
        assert!(parse_bool(yes), "input {:?}", yes);
    }
    for no in ["", " ", "0", "-1", "f", "false", "n", " yes", " true", "on", "ok"] {
        assert!(!parse_bool(no), "input {:?}", no);
    }
}

#[test]
fn test_zero() {
    assert_eq!(100, zero(Some(100), 0));
    assert_eq!(4567, zero(Some(4567), 0));
    assert_eq!(0, zero(None, 0));
}

#[test]
fn test_zi64() {
    assert_eq!(100, zi64(Some(100)));
    assert_eq!(154454300, zi64(Some(154454300)));
    assert_eq!(0, zi64(None));
}

#[test]
fn test_parse_i64() {
    assert_eq!(0, parse_i64(None));
    assert_eq!(100, parse_i64(Some("  1 xcv 0 0")));
    assert_eq!(456789, parse_i64(Some("  4cc5 6y 7 8%9  ")));
    assert_eq!(456789, parse_i64(Some("  4cc5., 6y 7 8%9  ")));
}

#[test]
fn parse_i64_at_the_limits() {
    assert_eq!(parse_i64(Some("")), 0);
    assert_eq!(parse_i64(Some("abc")), 0);
    assert_eq!(parse_i64(Some("-12")), 12);
    assert_eq!(parse_i64(Some("007")), 7);
    assert_eq!(parse_i64(Some("9223372036854775807")), i64::MAX);
    assert_eq!(parse_i64(Some("9223372036854775808")), 0);
    assert_eq!(parse_i64(Some("92233720368547758070")), 0);
    assert_eq!(parse_i64(Some("0000000000000000000000009223372036854775807")), i64::MAX);
    assert_eq!(parse_i64(Some("9,223,372,036,854,775,807")), i64::MAX);
    assert_eq!(parse_i64(Some("99999999999999999999999999")), 0);
}

#[test]
fn isi_folds_case_beyond_ascii() {
    assert!(isi(Some("ÉCOLE"), Some(" école "), None));
    assert!(!isi(Some("ecole"), Some("école"), None));
    assert!(isi(None, None, None));
    assert!(isi(None, Some("  "), None));
    assert!(isi(Some("x"), Some("X"), Some("y")));
}

#[test]
fn is_empty_knows_wide_spaces() {
    assert!(is_empty(Some("\u{3000}\u{a0}\u{2003}")));
    assert!(!is_empty(Some("\u{200b}")));
}

#[test]
fn leading_pair_wants_two_values_in_front() {
    assert_eq!(leading_pair(Some(vec![Some(1.23), Some(4.56), None])), Some((1.23, 4.56)));
    assert_eq!(leading_pair(Some(vec![Some(1), Some(2)])), Some((1, 2)));
    assert_eq!(leading_pair(Some(vec![Some(1), Some(2), Some(3)])), Some((1, 2)));
    assert_eq!(leading_pair(Some(vec![Some(1)])), None);
    assert_eq!(leading_pair(Some(vec![None, Some(2)])), None);
    assert_eq!(leading_pair(Some(vec![Some(1), None, Some(3)])), None);
    assert_eq!(leading_pair::<i32>(Some(vec![])), None);
    assert_eq!(leading_pair::<i32>(None), None);
}
