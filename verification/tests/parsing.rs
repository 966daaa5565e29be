//! Tests for the document parser: whole features and every error kind.

use gherkin::parse::{parse_feature, ErrorKind};
use gherkin::{DataTable, Feature, Parser, Scenario, Step, StepData, StepType};

#[test]
fn empty() {
    assert!(gherkin::parse_feature("").is_err());
}

const KIND_OF_EMPTY: &str = r#"
Feature:
    Example:
        Given nothing
        When the base is empty
        Then nothing happens
"#;

#[test]
fn kind_of_emtpy() {
    let parsed = gherkin::parse_feature(KIND_OF_EMPTY).unwrap();

    let expected = Feature {
        language: "en".into(),
        tags: Vec::new(),
        name: None,
        description: None,
        background: Vec::new(),
        scenarios: vec![Scenario {
            tags: Vec::new(),
            name: None,
            description: None,
            steps: vec![
                Step::new(StepType::Given, "nothing".into(), None),
                Step::new(StepType::When, "the base is empty".into(), None),
                Step::new(StepType::Then, "nothing happens".into(), None),
            ],
        }],
        scenario_outlines: Vec::new(),
    };

    assert_eq!(expected, parsed);
}

const ALL: &str = r#"
#language: gb

Feature: Basic
    This is some freeform text
    Hello there

    Background:
        Given a bunch of battle droids
        And a lot of hope
        But little time

    Example: To the rescue!
        Given an empty table
        and the following text:
        """
        General kenobi
        """
        When the rebels are extracted
        Then we are all home safe
        And this table should be output:
        | Header1 | Header2 |
        | Value1  | Value2  |
        but not all of us survived   
"#;

#[test]
fn parse_basic() {
    let parsed = gherkin::parse_feature(ALL).unwrap();

    let expected = Feature {
        name: Some("Basic".into()),
        language: "gb".into(),
        tags: Vec::new(),
        description: Some("This is some freeform text\nHello there".into()),
        background: vec![
            Step::new(StepType::Given, "a bunch of battle droids".into(), None),
            Step::new(StepType::And, "a lot of hope".into(), None),
            Step::new(StepType::But, "little time".into(), None),
        ],
        scenarios: vec![Scenario {
            tags: Vec::new(),
            name: Some("To the rescue!".into()),
            description: None,
            steps: vec![
                Step::new(StepType::Given, "an empty table".into(), None),
                Step::new(
                    StepType::And,
                    "the following text".into(),
                    Some(StepData::DocString("General kenobi".into())),
                ),
                Step::new(StepType::When, "the rebels are extracted".into(), None),
                Step::new(StepType::Then, "we are all home safe".into(), None),
                Step::new(
                    StepType::And,
                    "this table should be output".into(),
                    Some(StepData::DataTable(
                        DataTable::new_populated(
                            vec!["Header1".into(), "Header2".into()],
                            vec![vec!["Value1".into(), "Value2".into()]],
                        )
                        .unwrap(),
                    )),
                ),
                Step::new(StepType::But, "not all of us survived".into(), None),
            ],
        }],
        scenario_outlines: Vec::new(),
    };

    assert_eq!(parsed, expected);
}

const WITH_OUTLINE: &str = r#"
    Feature: a feature
        Hehe a freeform text!
        Uh oh my indentation!
        Background:
            Given some flour
            And some eggs

        Example:
            Given the following text:
            """
            Hello there
            General Kenobi
            """
            When the base is empty
            Then nothing happens

        Scenario Outline:
            Given <count> biscuits
            And <count> cups of tea
            Then I should be stuffed
            @1-to-3
            Scenarios:
                |count|
                | 1 |
                | 2 |
                | 3 |

            @4-to-6
            Scenarios:
                |count|
                | 4 |
                | 5 |
                | 6 |
    "#;

#[test]
fn basic() {
    let feature = Parser::parse_feature(WITH_OUTLINE).unwrap();

    assert_eq!(feature.name, Some("a feature".to_string()));
    assert_eq!(
        feature.description,
        Some("Hehe a freeform text!\nUh oh my indentation!".to_string())
    );
    assert_eq!(
        feature.background,
        vec![
            Step::new(StepType::Given, "some flour".into(), None),
            Step::new(StepType::And, "some eggs".into(), None),
        ]
    );
    assert_eq!(feature.scenarios.len(), 1);
    let scenario = &feature.scenarios[0];
    assert_eq!(scenario.name, None);
    assert_eq!(
        scenario.steps,
        vec![
            Step::new(
                StepType::Given,
                "the following text".into(),
                Some(StepData::DocString("Hello there\nGeneral Kenobi".into())),
            ),
            Step::new(StepType::When, "the base is empty".into(), None),
            Step::new(StepType::Then, "nothing happens".into(), None),
        ]
    );
    assert_eq!(feature.scenario_outlines.len(), 1);
    let outline = &feature.scenario_outlines[0];
    assert_eq!(outline.name, None);
    assert_eq!(outline.steps.len(), 3);
    assert_eq!(outline.steps[0].description, "<count> biscuits");
    assert_eq!(outline.scenarios.len(), 2);
    assert_eq!(outline.scenarios[0].len(), 3);
    assert_eq!(outline.scenarios[1].len(), 3);
    assert_eq!(outline.scenarios[0].index_of("count"), Some(0));
    assert_eq!(outline.scenarios[0].index_of("missing"), None);

    let expanded = outline.scenarios();
    assert_eq!(expanded.len(), 6);
    assert_eq!(expanded[0].tags, vec!["1-to-3".to_string()]);
    assert_eq!(expanded[0].steps[0].description, "1 biscuits");
    assert_eq!(expanded[5].tags, vec!["4-to-6".to_string()]);
    assert_eq!(expanded[5].steps[1].description, "6 cups of tea");

    assert_eq!(feature.total_scenario_count(), 7);
    let every = feature.scenarios();
    assert_eq!(every.len(), 7);
    assert_eq!(every[0].steps[1].description, "the base is empty");
    assert_eq!(every[1].steps[0].description, "1 biscuits");
    assert_eq!(every[6].steps[0].description, "6 biscuits");
}

#[test]
fn not_a_feature() {
    let err = parse_feature("Scenario: nope\n  Given x\n").unwrap_err();
    assert_eq!(*err.kind(), ErrorKind::NotAFeature(gherkin::parse::Keyword::Scenario));
    assert_eq!(err.line_number(), 0);
    assert_eq!(err.line(), "Scenario: nope");
}

#[test]
fn feature_tags_attach() {
    let feature = parse_feature("@slow @db\nFeature: x\nScenario: s\nGiven y\n").unwrap();
    assert_eq!(feature.tags, vec!["slow".to_string(), "db".to_string()]);
    assert_eq!(feature.name, Some("x".to_string()));
    assert_eq!(feature.scenarios[0].steps.len(), 1);
}

#[test]
fn scenario_tags_attach() {
    let feature =
        parse_feature("Feature: x\n@one\n@two @three\nScenario: s\nGiven y\n").unwrap();
    assert_eq!(
        feature.scenarios[0].tags,
        vec!["one".to_string(), "two".to_string(), "three".to_string()]
    );
}

#[test]
fn invalid_tag_word() {
    let err = parse_feature("Feature: x\n@good bad\nScenario: s\nGiven y\n").unwrap_err();
    assert_eq!(*err.kind(), ErrorKind::InvalidTag);
    assert_eq!(err.line_number(), 1);
}

#[test]
fn standalone_tags_rejected() {
    let err = parse_feature("Feature: x\nScenario: s\nGiven y\n@dangling\n").unwrap_err();
    assert_eq!(*err.kind(), ErrorKind::StandaloneTagsNotAllowed);
}

#[test]
fn multiple_language_tags_rejected() {
    let err = parse_feature("# language: fr\nFeature: x\n# language: de\nScenario: s\nGiven y\n")
        .unwrap_err();
    assert_eq!(*err.kind(), ErrorKind::MultipleLanguageTags);
    assert_eq!(err.line_number(), 2);
}

#[test]
fn language_defaults_to_english() {
    let feature = parse_feature("Feature: x\nScenario: s\nGiven y\n").unwrap();
    assert_eq!(feature.language, "en");
}

#[test]
fn must_have_at_least_one_step() {
    let err = parse_feature("Feature: x\nScenario: a\nScenario: b\nGiven y\n").unwrap_err();
    assert_eq!(*err.kind(), ErrorKind::MustHaveAtLeastOneStep);
    assert_eq!(err.line_number(), 2);
}

#[test]
fn bare_and_cannot_open_a_block() {
    let err = parse_feature("Feature: x\nScenario: s\nAnd nothing to extend\n").unwrap_err();
    assert_eq!(
        *err.kind(),
        ErrorKind::InvalidBareKeyword(gherkin::parse::Keyword::And)
    );
}

#[test]
fn step_without_description() {
    let err = parse_feature("Feature: x\nScenario: s\nGiven\n").unwrap_err();
    assert_eq!(
        *err.kind(),
        ErrorKind::InvalidBareKeyword(gherkin::parse::Keyword::Given)
    );
}

#[test]
fn step_colon_requires_data() {
    let err =
        parse_feature("Feature: x\nScenario: s\nGiven a table:\nWhen nothing\n").unwrap_err();
    assert_eq!(*err.kind(), ErrorKind::ExpectedDocStringOrDataTable);
    assert_eq!(err.line_number(), 3);
}

#[test]
fn background_rejects_when_step() {
    let err = parse_feature(
        "Feature: x\nBackground:\nGiven a start\nWhen something happens\nScenario: s\nGiven y\n",
    )
    .unwrap_err();
    assert_eq!(*err.kind(), ErrorKind::InvalidBackgroundStep(StepType::When));
}

#[test]
fn background_accepts_given_and_but() {
    let feature = parse_feature(
        "Feature: x\nBackground:\nGiven a start\nAnd a second thing\nScenario: s\nGiven y\n",
    )
    .unwrap();
    assert_eq!(
        feature.background,
        vec![
            Step::new(StepType::Given, "a start".into(), None),
            Step::new(StepType::And, "a second thing".into(), None),
        ]
    );
}

#[test]
fn unexpected_keyword_in_body() {
    let err =
        parse_feature("Feature: x\nScenario: s\nGiven y\nBackground:\nGiven z\n").unwrap_err();
    assert_eq!(
        *err.kind(),
        ErrorKind::UnexpectedKeyword(gherkin::parse::Keyword::Background)
    );
}

#[test]
fn lex_error_carried_through() {
    let err = parse_feature("Feature: x\nScenario: s\nGiven y:\n\"\"\"\nnever closed").unwrap_err();
    assert_eq!(
        *err.kind(),
        ErrorKind::Lex(gherkin::lex::ErrorKind::UnclosedDocString)
    );
    assert_eq!(err.line_number(), 3);
}

#[test]
fn keyword_text_in_descriptions_is_not_an_error() {
    let feature = parse_feature(
        "Feature: x\nthis feature mentions the word scenario\nScenario: s\nGiven y\n",
    )
    .unwrap();
    assert_eq!(
        feature.description,
        Some("this feature mentions the word scenario".to_string())
    );
}

#[test]
fn feature_without_scenarios_is_valid() {
    let feature = parse_feature("Feature: just a name\n").unwrap();
    assert_eq!(feature.name, Some("just a name".to_string()));
    assert!(feature.scenarios.is_empty());
    assert!(feature.scenario_outlines.is_empty());
    assert_eq!(feature.total_scenario_count(), 0);
}

#[test]
fn whitespace_only_input_rejected() {
    let err = parse_feature("\n   \n\t\n").unwrap_err();
    assert_eq!(*err.kind(), ErrorKind::UnexpectedEndOfInput);
}

#[test]
fn unclassifiable_line_in_body() {
    let err = parse_feature("Feature: x\nScenario: s\nGiven y\n%%% stray\n").unwrap_err();
    assert_eq!(*err.kind(), ErrorKind::InvalidKeyword);
    assert_eq!(err.line_number(), 3);
}

#[test]
fn block_token_where_section_expected() {
    let err = parse_feature("Feature: x\n| a |\n| 1 |\n").unwrap_err();
    assert_eq!(*err.kind(), ErrorKind::UnexpectedToken);
    assert_eq!(err.line_number(), 1);
}

#[test]
fn carriage_returns_are_stripped() {
    let feature = parse_feature("Feature: x\r\nScenario: s\r\nGiven y\r\n").unwrap();
    assert_eq!(feature.name, Some("x".to_string()));
    assert_eq!(
        feature.scenarios[0].steps,
        vec![Step::new(StepType::Given, "y".into(), None)]
    );
}

#[test]
fn asterisk_steps_are_accepted() {
    let feature = parse_feature("Feature: x\nScenario: s\n* first thing\n* second thing\n").unwrap();
    assert_eq!(
        feature.scenarios[0].steps,
        vec![
            Step::new(StepType::Asterisk, "first thing".into(), None),
            Step::new(StepType::Asterisk, "second thing".into(), None),
        ]
    );
}

#[test]
fn scenario_template_and_scenarios_synonyms() {
    let feature = parse_feature(
        "Feature: x\nScenario Template: o\nGiven <n>\nScenarios:\n| n |\n| 7 |\n",
    )
    .unwrap();
    assert_eq!(feature.scenario_outlines.len(), 1);
    let expanded = feature.scenario_outlines[0].scenarios();
    assert_eq!(expanded[0].steps[0].description, "7");
}

#[test]
fn comment_between_step_and_data() {
    let feature = parse_feature(
        "Feature: x\nScenario: s\nGiven a table:\n# commentary\n| a |\n| 1 |\n",
    )
    .unwrap();
    let step = &feature.scenarios[0].steps[0];
    match &step.data {
        Some(StepData::DataTable(t)) => {
            assert_eq!(t.header(), &vec!["a".to_string()]);
            assert_eq!(t.rows(), &vec![vec!["1".to_string()]]);
        }
        other => panic!("expected an attached table, got {other:?}"),
    }
}

#[test]
fn step_doc_string_attachment() {
    let feature =
        parse_feature("Feature: x\nScenario: s\nGiven text:\n\"\"\"\nhello\n\"\"\"\n").unwrap();
    assert_eq!(
        feature.scenarios[0].steps[0].data,
        Some(StepData::DocString("hello".into()))
    );
}

#[test]
fn description_indentation_must_match() {
    let err = parse_feature(
        "Feature: x\n    first line\n  shallower line\nScenario: s\nGiven y\n",
    )
    .unwrap_err();
    assert_eq!(*err.kind(), ErrorKind::InconsistentIndentation);
    assert_eq!(err.line_number(), 2);
    assert_eq!(err.line(), "  shallower line");
}

#[test]
fn description_keeps_relative_indentation() {
    let feature =
        parse_feature("Feature: x\n  first\n    deeper\n  back\nScenario: s\nGiven y\n").unwrap();
    assert_eq!(
        feature.description,
        Some("first\n  deeper\nback".to_string())
    );
}

#[test]
fn description_skips_blank_lines() {
    let feature =
        parse_feature("Feature: x\n  one\n\n  two\nScenario: s\nGiven y\n").unwrap();
    assert_eq!(feature.description, Some("one\ntwo".to_string()));
}

#[test]
fn scenario_description_indentation_must_match() {
    let err = parse_feature(
        "Feature: x\nScenario: s\n    about this scenario\n  oops misaligned\nGiven y\n",
    )
    .unwrap_err();
    assert_eq!(*err.kind(), ErrorKind::InconsistentIndentation);
    assert_eq!(err.line_number(), 3);
}

#[test]
fn scenario_description_attaches() {
    let feature =
        parse_feature("Feature: x\nScenario: s\n  about this scenario\nGiven y\n").unwrap();
    assert_eq!(
        feature.scenarios[0].description,
        Some("about this scenario".to_string())
    );
}
