use grader::json::{parse_report_json, render_report_json};
use grader::pipeline::{fold_report, UnitOutcome};
use grader::grade::{ProcOutcome, ProcessOutput};
use grader::report::{ExerciseResult, GradeResult, Statistics};

fn sample_report() -> GradeResult {
    GradeResult {
        exercises: vec![
            ExerciseResult { name: "intro.rs".to_string(), result: true },
            ExerciseResult { name: "loops.rs".to_string(), result: false },
        ],
        statistics: Statistics {
            total_exercations: 2,
            total_succeeds: 1,
            total_failures: 1,
            total_time: 9,
        },
    }
}

#[test]
fn empty_report_renders_exactly() {
    let report = GradeResult {
        exercises: Vec::new(),
        statistics: Statistics {
            total_exercations: 0,
            total_succeeds: 0,
            total_failures: 0,
            total_time: 0,
        },
    };
    let expected = "{\n  \"exercises\": [],\n  \"statistics\": {\n    \"total_exercations\": 0,\n    \"total_succeeds\": 0,\n    \"total_failures\": 0,\n    \"total_time\": 0\n  }\n}";
    assert_eq!(render_report_json(&report), expected);
}

#[test]
fn one_entry_report_renders_exactly() {
    let report = GradeResult {
        exercises: vec![ExerciseResult { name: "a.rs".to_string(), result: true }],
        statistics: Statistics {
            total_exercations: 1,
            total_succeeds: 1,
            total_failures: 0,
            total_time: 5,
        },
    };
    let expected = "{\n  \"exercises\": [\n    {\n      \"name\": \"a.rs\",\n      \"result\": true\n    }\n  ],\n  \"statistics\": {\n    \"total_exercations\": 1,\n    \"total_succeeds\": 1,\n    \"total_failures\": 0,\n    \"total_time\": 5\n  }\n}";
    assert_eq!(render_report_json(&report), expected);
}

#[test]
fn rendering_then_parsing_round_trips() {
    let report = sample_report();
    let text = render_report_json(&report);
    let back = parse_report_json(&text).expect("rendered text must parse");
    assert_eq!(back.exercises.len(), 2);
    assert_eq!(back.exercises[0].name, "intro.rs");
    assert!(back.exercises[0].result);
    assert_eq!(back.exercises[1].name, "loops.rs");
    assert!(!back.exercises[1].result);
    assert_eq!(back.statistics.total_exercations, 2);
    assert_eq!(back.statistics.total_succeeds, 1);
    assert_eq!(back.statistics.total_failures, 1);
    assert_eq!(back.statistics.total_time, 9);
}

#[test]
fn names_with_quotes_and_backslashes_round_trip() {
    let report = GradeResult {
        exercises: vec![
            ExerciseResult { name: "we\"ird\\name.rs".to_string(), result: false },
            ExerciseResult { name: "\\\\".to_string(), result: true },
        ],
        statistics: Statistics {
            total_exercations: 2,
            total_succeeds: 1,
            total_failures: 1,
            total_time: 0,
        },
    };
    let text = render_report_json(&report);
    let back = parse_report_json(&text).expect("escaped names must parse");
    assert_eq!(back.exercises[0].name, "we\"ird\\name.rs");
    assert_eq!(back.exercises[1].name, "\\\\");
}

#[test]
fn unicode_names_round_trip() {
    let report = GradeResult {
        exercises: vec![ExerciseResult { name: "练习.rs".to_string(), result: true }],
        statistics: Statistics {
            total_exercations: 1,
            total_succeeds: 1,
            total_failures: 0,
            total_time: 1,
        },
    };
    let text = render_report_json(&report);
    let back = parse_report_json(&text).expect("unicode names must parse");
    assert_eq!(back.exercises[0].name, "练习.rs");
}

#[test]
fn large_time_round_trips() {
    let report = GradeResult {
        exercises: Vec::new(),
        statistics: Statistics {
            total_exercations: 0,
            total_succeeds: 0,
            total_failures: 0,
            total_time: u64::MAX,
        },
    };
    let text = render_report_json(&report);
    let back = parse_report_json(&text).expect("maximal time must parse");
    assert_eq!(back.statistics.total_time, u64::MAX);
}

#[test]
fn folded_pipeline_report_round_trips_through_text() {
    let ok = ProcOutcome::Finished(ProcessOutput {
        success: true,
        stdout: String::new(),
        stderr: String::new(),
    });
    let outcomes = vec![
        UnitOutcome {
            name: "alpha.rs".to_string(),
            compile: ok,
            run: Some(ProcOutcome::Finished(ProcessOutput {
                success: true,
                stdout: String::new(),
                stderr: String::new(),
            })),
            elapsed: 2,
        },
        UnitOutcome {
            name: "beta.rs".to_string(),
            compile: ProcOutcome::SpawnFailed,
            run: None,
            elapsed: 1,
        },
    ];
    let report = fold_report(&outcomes);
    let text = render_report_json(&report);
    let back = parse_report_json(&text).expect("pipeline report must round trip");
    assert_eq!(back.exercises.len(), 2);
    assert_eq!(back.exercises[0].name, "alpha.rs");
    assert!(back.exercises[0].result);
    assert_eq!(back.exercises[1].name, "beta.rs");
    assert!(!back.exercises[1].result);
    assert_eq!(back.statistics.total_exercations, 2);
    assert_eq!(back.statistics.total_succeeds, 1);
    assert_eq!(back.statistics.total_failures, 1);
    assert_eq!(back.statistics.total_time, 3);
}

#[test]
fn malformed_text_is_rejected() {
    assert!(parse_report_json("").is_none());
    assert!(parse_report_json("{}").is_none());
    assert!(parse_report_json("not json at all").is_none());
    let report = sample_report();
    let text = render_report_json(&report);
    let truncated = &text[..text.len() - 1];
    assert!(parse_report_json(truncated).is_none());
    let padded = format!("{} ", text);
    assert!(parse_report_json(&padded).is_none());
}

#[test]
fn rendered_text_is_valid_json_for_serde() {
    let report = sample_report();
    let text = render_report_json(&report);
    let value: serde_json::Value = serde_json::from_str(&text).expect("must be valid JSON");
    let exercises = value["exercises"].as_array().expect("exercises array");
    assert_eq!(exercises.len(), 2);
    assert_eq!(exercises[0]["name"].as_str(), Some("intro.rs"));
    assert_eq!(exercises[0]["result"].as_bool(), Some(true));
    assert_eq!(exercises[1]["name"].as_str(), Some("loops.rs"));
    assert_eq!(exercises[1]["result"].as_bool(), Some(false));
    let stats = &value["statistics"];
    assert_eq!(stats["total_exercations"].as_u64(), Some(2));
    assert_eq!(stats["total_succeeds"].as_u64(), Some(1));
    assert_eq!(stats["total_failures"].as_u64(), Some(1));
    assert_eq!(stats["total_time"].as_u64(), Some(9));
}

#[test]
fn escaped_names_are_valid_json_for_serde() {
    let report = GradeResult {
        exercises: vec![ExerciseResult { name: "a\"b\\c.rs".to_string(), result: true }],
        statistics: Statistics {
            total_exercations: 1,
            total_succeeds: 1,
            total_failures: 0,
            total_time: 0,
        },
    };
    let text = render_report_json(&report);
    let value: serde_json::Value = serde_json::from_str(&text).expect("must be valid JSON");
    assert_eq!(value["exercises"][0]["name"].as_str(), Some("a\"b\\c.rs"));
}
