use csg_kernel::position::{get_col_line_number, get_column_number, get_line_number};

#[test]
fn test_get_line_number() {
    assert_eq!(get_line_number(&"foo\nbar".to_string(), 0), 1, "first line");
    assert_eq!(
        get_line_number(&"foo\nbar".to_string(), 4),
        2,
        "second line"
    );
    assert_eq!(
        get_line_number(&"foo\nbar".to_string(), 3),
        1,
        "line number of newline"
    );
    assert_eq!(get_line_number(&"foo".to_string(), 3), -1, "out of bounds");
    assert_eq!(get_line_number(&"".to_string(), 0), -1, "empty string");
}

#[test]
fn test_get_column_number() {
    assert_eq!(
        get_column_number(&"foo\nbar".to_string(), 0),
        1,
        "first line"
    );
    assert_eq!(
        get_column_number(&"foo\nbar".to_string(), 4),
        1,
        "second line"
    );
    assert_eq!(
        get_column_number(&"foo\nbar".to_string(), 5),
        2,
        "second column on second line"
    );
    assert_eq!(
        get_column_number(&"foo\nbar".to_string(), 3),
        4,
        "col number of newline"
    );
    assert_eq!(get_column_number(&"".to_string(), 0), -1, "empty string");
    assert_eq!(
        get_column_number(&"foo".to_string(), 3),
        -1,
        "out of bounds"
    );
}

#[test]
fn col_line_pair_on_third_line() {
    assert_eq!(get_col_line_number("a\nbc\ndef", 5), (1, 3));
    assert_eq!(get_col_line_number("a\nbc\ndef", 7), (3, 3));
    assert_eq!(get_col_line_number("a\nbc\ndef", 8), (-1, -1));
}

#[test]
fn offsets_count_characters() {
    assert_eq!(get_col_line_number("é\nx", 2), (1, 2));
}
