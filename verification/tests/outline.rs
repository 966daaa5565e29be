//! Tests for scenario-outline expansion and placeholder substitution.

use gherkin::parse::{parse_feature, ErrorKind};
use gherkin::scenario_outline::TaggedScenarios;
use gherkin::{Scenario, ScenarioOutline, Step, StepData, StepType};

fn make_scenario(name: &str) -> Scenario {
    Scenario {
        tags: Vec::new(),
        name: None,
        description: None,
        steps: vec![
            Step::new(StepType::Given, format!("some {name}"), None),
            Step::new(
                StepType::Then,
                "the following text".into(),
                Some(StepData::DocString(format!(
                    "The text extra {name}\nwith some extra bass"
                ))),
            ),
        ],
    }
}

#[test]
fn scenario_outline() {
    let outline = ScenarioOutline {
        tags: Vec::new(),
        name: None,
        description: None,
        steps: vec![
            Step::new(StepType::Given, "some <text>".into(), None),
            Step::new(
                StepType::Then,
                "the following text".into(),
                Some(StepData::DocString(
                    "The text <extra_text>\nwith some extra bass".into(),
                )),
            ),
        ],
        scenarios: vec![
            TaggedScenarios::new(
                Vec::new(),
                vec!["extra_text".into(), "text".into()],
                vec![vec!["extra hihi".into(), "hihi".into()]],
            )
            .unwrap(),
            TaggedScenarios::new(
                Vec::new(),
                vec!["text".into(), "extra_text".into()],
                vec![vec!["hehe".into(), "extra hehe".into()]],
            )
            .unwrap(),
            TaggedScenarios::new(
                Vec::new(),
                vec!["text".into(), "extra_text".into()],
                vec![vec!["hoho".into(), "extra hoho".into()]],
            )
            .unwrap(),
        ],
    };

    let scenarios: Vec<_> = outline.scenarios();

    let expected = vec![
        make_scenario("hihi"),
        make_scenario("hehe"),
        make_scenario("hoho"),
    ];

    assert_eq!(expected, scenarios);
}

#[test]
fn expansion_is_repeatable() {
    let outline = ScenarioOutline {
        tags: vec!["outer".into()],
        name: Some("template".into()),
        description: None,
        steps: vec![Step::new(StepType::Given, "<n> things".into(), None)],
        scenarios: vec![TaggedScenarios::new(
            vec!["inner".into()],
            vec!["n".into()],
            vec![vec!["1".into()], vec!["2".into()]],
        )
        .unwrap()],
    };

    let first = outline.scenarios();
    let second = outline.scenarios();
    assert_eq!(first, second);
}

#[test]
fn expansion_order_is_block_then_row() {
    let outline = ScenarioOutline {
        tags: Vec::new(),
        name: None,
        description: None,
        steps: vec![Step::new(StepType::Given, "<v>".into(), None)],
        scenarios: vec![
            TaggedScenarios::new(
                vec!["x".into()],
                vec!["v".into()],
                vec![vec!["r1".into()], vec!["r2".into()]],
            )
            .unwrap(),
            TaggedScenarios::new(vec!["y".into()], vec!["v".into()], vec![vec!["r3".into()]])
                .unwrap(),
        ],
    };

    let scenarios = outline.scenarios();
    assert_eq!(scenarios.len(), 3);
    assert_eq!(scenarios[0].steps[0].description, "r1");
    assert_eq!(scenarios[0].tags, vec!["x".to_string()]);
    assert_eq!(scenarios[1].steps[0].description, "r2");
    assert_eq!(scenarios[1].tags, vec!["x".to_string()]);
    assert_eq!(scenarios[2].steps[0].description, "r3");
    assert_eq!(scenarios[2].tags, vec!["y".to_string()]);
}

#[test]
fn substitution_replaces_every_occurrence() {
    let outline = ScenarioOutline {
        tags: Vec::new(),
        name: None,
        description: None,
        steps: vec![Step::new(
            StepType::Given,
            "a <x>, another <x>, and <y>".into(),
            Some(StepData::DocString("<x> inside <x> and <y>".into())),
        )],
        scenarios: vec![TaggedScenarios::new(
            Vec::new(),
            vec!["x".into(), "y".into()],
            vec![vec!["one".into(), "two".into()]],
        )
        .unwrap()],
    };

    let scenarios = outline.scenarios();
    assert_eq!(scenarios[0].steps[0].description, "a one, another one, and two");
    assert_eq!(
        scenarios[0].steps[0].data,
        Some(StepData::DocString("one inside one and two".into()))
    );
}

#[test]
fn replace_rewrites_doc_strings_only() {
    let mut data = StepData::DocString("some <text> and <text>".into());
    data.replace("<text>", "hihi");
    assert_eq!(data, StepData::DocString("some hihi and hihi".into()));

    // Substitution into data-table cells is not supported: the table is
    // carried through unchanged.
    let table = gherkin::DataTable::new_populated(
        vec!["<h>".into()],
        vec![vec!["<h>".into()]],
    )
    .unwrap();
    let mut table_data = StepData::DataTable(table);
    table_data.replace("<h>", "value");
    match table_data {
        StepData::DataTable(t) => {
            assert_eq!(t.header(), &vec!["<h>".to_string()]);
            assert_eq!(t.rows(), &vec![vec!["<h>".to_string()]]);
        },
        other => panic!("expected the table to survive, got {other:?}"),
    }
}

#[test]
fn differing_placeholders_rejected() {
    let err = parse_feature(
        "Feature: x\nScenario Outline: o\nGiven <count> things\nExamples:\n| count |\n| 1 |\nExamples:\n| amount |\n| 2 |\n",
    )
    .unwrap_err();
    assert_eq!(*err.kind(), ErrorKind::DifferingPlaceholders);
}

#[test]
fn reordered_placeholders_accepted() {
    let feature = parse_feature(
        "Feature: x\nScenario Outline: o\nGiven <a> and <b>\nExamples:\n| a | b |\n| 1 | 2 |\nExamples:\n| b | a |\n| 3 | 4 |\n",
    )
    .unwrap();
    let outline = &feature.scenario_outlines[0];
    assert_eq!(outline.scenarios.len(), 2);
    let expanded = outline.scenarios();
    assert_eq!(expanded[0].steps[0].description, "1 and 2");
    assert_eq!(expanded[1].steps[0].description, "4 and 3");
}

#[test]
fn outline_needs_examples_section() {
    let err =
        parse_feature("Feature: x\nScenario Outline: o\nGiven <n> things\n").unwrap_err();
    assert_eq!(*err.kind(), ErrorKind::MustHaveAtLeastOneScenariosSection);
}

#[test]
fn examples_need_a_table() {
    let err = parse_feature(
        "Feature: x\nScenario Outline: o\nGiven <n> things\nExamples:\nScenario: s\nGiven y\n",
    )
    .unwrap_err();
    assert_eq!(*err.kind(), ErrorKind::ExpectedDataTableAfterExamples);
}

#[test]
fn tagged_scenarios_reject_ragged_rows() {
    let bad = TaggedScenarios::new(
        Vec::new(),
        vec!["a".into(), "b".into()],
        vec![vec!["1".into()]],
    );
    assert!(bad.is_err());

    let good = TaggedScenarios::new(
        vec!["t".into()],
        vec!["a".into(), "b".into()],
        vec![vec!["1".into(), "2".into()]],
    )
    .unwrap();
    assert_eq!(good.len(), 1);
    assert_eq!(good.index_of("b"), Some(1));
    assert_eq!(good.index_of("c"), None);
}

#[test]
fn well_formedness_is_testable() {
    let block = TaggedScenarios::new(
        Vec::new(),
        vec!["a".into()],
        vec![vec!["1".into()], vec!["2".into()]],
    )
    .unwrap();
    assert!(block.is_well_formed());

    let outline = ScenarioOutline {
        tags: Vec::new(),
        name: None,
        description: None,
        steps: vec![Step::new(StepType::Given, "<a>".into(), None)],
        scenarios: vec![block],
    };
    assert!(outline.is_well_formed());
}

#[test]
fn checked_count_agrees_with_expansion() {
    let feature = parse_feature(
        "Feature: x\nScenario: s\nGiven y\nScenario Outline: o\nGiven <n>\nExamples:\n| n |\n| 1 |\n| 2 |\n",
    )
    .unwrap();
    assert!(feature.is_well_formed());
    assert_eq!(feature.checked_total_scenario_count(), Some(3));
    assert_eq!(feature.scenarios().len(), 3);
    assert_eq!(feature.total_scenario_count(), 3);
}
