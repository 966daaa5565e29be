//! Tests for the lexer: tokens, doc-strings, tables and lexing errors.

use gherkin::lex::{lex, ErrorKind, TokenKind};
use gherkin::DataTable;

#[test]
pub fn data_table() {
    const DATA_TABLE: &str = r#"
            | Header 1 | Header 2 | Header 3 |
            | Value 11 | Value 12 | Value 13 |
            | Value 21 | Value 22 | Value 23 |
        "#;

    let tokens = lex(DATA_TABLE).unwrap();
    let expected = DataTable::new_populated(
        vec!["Header 1".into(), "Header 2".into(), "Header 3".into()],
        vec![
            vec!["Value 11".into(), "Value 12".into(), "Value 13".into()],
            vec!["Value 21".into(), "Value 22".into(), "Value 23".into()],
        ],
    )
    .unwrap();

    match tokens[1].kind() {
        TokenKind::DataTable(datatable) => assert_eq!(datatable, &expected),
        other => panic!("expected a data table token, got {other:?}"),
    }
}

#[test]
pub fn doc_string() {
    const DOC_STRING: &str = r#"
    """

    This is my doc string
    There are many like it
    But this one is mine

    :)

    """
    "#;

    let tokens = lex(DOC_STRING).unwrap();

    match tokens[1].kind() {
        TokenKind::DocString(doc_string) => assert_eq!(
            doc_string,
            "This is my doc string\nThere are many like it\nBut this one is mine\n\n:)"
        ),
        other => panic!("expected a doc-string token, got {other:?}"),
    }
}

#[test]
fn lex_lines_and_comments() {
    let tokens = lex("  hello  \n# a comment\n\nworld").unwrap();
    assert_eq!(tokens.len(), 4);
    assert!(matches!(tokens[0].kind(), TokenKind::Line(s) if *s == "hello"));
    assert!(matches!(tokens[1].kind(), TokenKind::Comment(s) if *s == " a comment"));
    assert!(matches!(tokens[2].kind(), TokenKind::Line(s) if *s == ""));
    assert!(matches!(tokens[3].kind(), TokenKind::Line(s) if *s == "world"));
    assert_eq!(tokens[0].start_line(), 0);
    assert_eq!(tokens[0].end_line(), 1);
    assert_eq!(tokens[3].start_line(), 3);
    assert_eq!(tokens[3].end_line(), 4);
    assert_eq!(tokens[1].text(), "  hello  \n# a comment\n\nworld");
}

#[test]
fn token_spans_and_extract() {
    let input = "first\n\"\"\"\nbody\n\"\"\"\nlast";
    let tokens = lex(input).unwrap();
    assert_eq!(tokens.len(), 3);
    assert_eq!(tokens[1].start_line(), 1);
    assert_eq!(tokens[1].end_line(), 4);
    assert_eq!(tokens[0].extract(), "first");
    assert_eq!(tokens[1].extract(), "\"\"\"body\"\"\"");
    match tokens[1].kind() {
        TokenKind::DocString(s) => assert_eq!(s, "body"),
        other => panic!("expected a doc-string token, got {other:?}"),
    }
}

#[test]
fn unclosed_doc_string_reports_opening_line() {
    let input = "some text\n\"\"\"\nnever closed";
    let err = lex(input).unwrap_err();
    assert_eq!(err.kind, ErrorKind::UnclosedDocString);
    assert_eq!(err.line_num, 1);
    assert_eq!(err.text, input);
}

#[test]
fn doc_string_inconsistent_indent() {
    let input = "  \"\"\"\n  fine\n bad\n  \"\"\"";
    let err = lex(input).unwrap_err();
    assert_eq!(err.kind, ErrorKind::StringInconsistentIndent);
    assert_eq!(err.line_num, 2);
}

#[test]
fn table_row_width_mismatch() {
    let input = "| a | b |\n| only |";
    let err = lex(input).unwrap_err();
    assert_eq!(err.kind, ErrorKind::InvalidTableRow);
    assert_eq!(err.line_num, 1);
}

#[test]
fn table_without_trailing_pipe_drops_last_cell() {
    let tokens = lex("| a | b\n").unwrap();
    match tokens[0].kind() {
        TokenKind::DataTable(t) => {
            assert_eq!(t.header(), &vec!["a".to_string()]);
            assert!(t.rows().is_empty());
        },
        other => panic!("expected a data table token, got {other:?}"),
    }
}
