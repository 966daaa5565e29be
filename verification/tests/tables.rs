//! Tests for the data-table type and the line classifier.

use gherkin::parser::keyword::Keyword;
use gherkin::DataTable;

#[test]
fn populated_table_round_trips() {
    let header = vec!["a".to_string(), "b".to_string()];
    let rows = vec![
        vec!["1".to_string(), "2".to_string()],
        vec!["3".to_string(), "4".to_string()],
    ];
    let table = DataTable::new_populated(header.clone(), rows.clone()).unwrap();
    assert_eq!(table.header(), &header);
    assert_eq!(table.rows(), &rows);
}

#[test]
fn ragged_rows_refused() {
    let header = vec!["a".to_string(), "b".to_string()];
    let rows = vec![
        vec!["1".to_string(), "2".to_string()],
        vec!["3".to_string()],
    ];
    assert!(DataTable::new_populated(header, rows).is_none());
}

#[test]
fn add_row_checks_width() {
    let mut table = DataTable::new(vec!["a".to_string(), "b".to_string()]);
    assert!(table.add_row(vec!["1".to_string(), "2".to_string()]).is_ok());
    assert!(table.add_row(vec!["too short".to_string()]).is_err());
    assert_eq!(table.rows().len(), 1);
}

#[test]
fn empty_header_table() {
    let table = DataTable::new(Vec::new());
    assert!(table.header().is_empty());
    assert!(table.rows().is_empty());
}

#[test]
fn classify_section_keywords() {
    assert_eq!(
        Keyword::parse("Feature: Basic", false),
        Some((Keyword::Feature, "Feature", "Basic", false))
    );
    assert_eq!(
        Keyword::parse("Scenario Outline: grand", false),
        Some((Keyword::ScenarioOutline, "Scenario Outline", "grand", false))
    );
    assert_eq!(
        Keyword::parse("Scenario Template: grand", false),
        Some((Keyword::ScenarioOutline, "Scenario Template", "grand", false))
    );
    assert_eq!(
        Keyword::parse("Scenario: small", false),
        Some((Keyword::Scenario, "Scenario", "small", false))
    );
    assert_eq!(
        Keyword::parse("Example: small", false),
        Some((Keyword::Scenario, "Example", "small", false))
    );
    assert_eq!(
        Keyword::parse("Examples:", false),
        Some((Keyword::Scenarios, "Examples", "", false))
    );
    assert_eq!(
        Keyword::parse("Scenarios:", false),
        Some((Keyword::Scenarios, "Scenarios", "", false))
    );
    assert_eq!(
        Keyword::parse("Background:", false),
        Some((Keyword::Background, "Background", "", false))
    );
}

#[test]
fn classify_is_case_insensitive() {
    assert_eq!(
        Keyword::parse("FEATURE: Shouty", false),
        Some((Keyword::Feature, "FEATURE", "Shouty", false))
    );
    assert_eq!(
        Keyword::parse("gIvEn mixed case", false),
        Some((Keyword::Given, "gIvEn", "mixed case", false))
    );
}

#[test]
fn classify_respects_colon_placement() {
    // Section keywords need their colon; step keywords refuse one.
    assert_eq!(Keyword::parse("Feature without colon", false), None);
    assert_eq!(Keyword::parse("Given: colon", false), None);
    assert_eq!(Keyword::parse("Scenario", false), None);
}

#[test]
fn classify_strips_trailing_colon_on_request() {
    assert_eq!(
        Keyword::parse("Given the following text:", true),
        Some((Keyword::Given, "Given", "the following text", true))
    );
    assert_eq!(
        Keyword::parse("Given the following text:", false),
        Some((Keyword::Given, "Given", "the following text:", true))
    );
    assert_eq!(
        Keyword::parse("* anything goes", false),
        Some((Keyword::Asterisk, "*", "anything goes", false))
    );
}

#[test]
fn classify_unknown_line() {
    assert_eq!(Keyword::parse("just some text", false), None);
    assert_eq!(Keyword::parse("@a @b", false), None);
}

#[test]
fn keyword_colon_table() {
    assert!(Keyword::Feature.has_colon());
    assert!(Keyword::Scenario.has_colon());
    assert!(Keyword::Background.has_colon());
    assert!(Keyword::ScenarioOutline.has_colon());
    assert!(Keyword::Scenarios.has_colon());
    assert!(!Keyword::Given.has_colon());
    assert!(!Keyword::When.has_colon());
    assert!(!Keyword::Then.has_colon());
    assert!(!Keyword::And.has_colon());
    assert!(!Keyword::But.has_colon());
    assert!(!Keyword::Asterisk.has_colon());
}

#[test]
fn spelling_table_priority() {
    let table = Keyword::combinations();
    assert_eq!(table.len(), 14);
    assert_eq!(table[0], (Keyword::Scenarios, "examples"));
    // The two-word outline spellings come before the word they extend.
    let outline_pos = table
        .iter()
        .position(|(_, s)| *s == "scenario outline")
        .unwrap();
    let scenario_pos = table.iter().position(|(_, s)| *s == "scenario").unwrap();
    assert!(outline_pos < scenario_pos);
}
