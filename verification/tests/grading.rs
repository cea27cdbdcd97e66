use grader::fspath::FsPath;
use grader::grade::{after_compile, after_run, output_dir, plan_unit, should_echo_output,
    CommandArg, CommandPlan, ProcOutcome, ProcessOutput, UnitPlans};
use grader::pipeline::{fold_report, UnitOutcome};
use grader::report::{pass_rate_percent, GradeRun};
use grader::units::{ExerciseUnit, LayoutKind};

fn mkpath(segs: &[&str]) -> FsPath {
    FsPath { segments: segs.iter().map(|s| s.to_string()).collect() }
}

fn arg_strings(plan: &CommandPlan) -> Vec<String> {
    plan.args
        .iter()
        .map(|a| match a {
            CommandArg::Text(s) => s.clone(),
            CommandArg::Loc(p) => p.segments.join("/"),
        })
        .collect()
}

fn finished(success: bool) -> ProcOutcome {
    ProcOutcome::Finished(ProcessOutput {
        success,
        stdout: String::new(),
        stderr: String::new(),
    })
}

#[test]
fn output_dir_is_target_debug() {
    assert_eq!(output_dir().segments, vec!["target", "debug"]);
}

#[test]
fn standalone_plans_use_rustc_then_run_the_binary() {
    let unit = ExerciseUnit {
        path: mkpath(&["exercises", "intro", "hello.rs"]),
        layout_kind: LayoutKind::Standalone,
        test_names: Vec::new(),
        manifest_path: None,
    };
    let plans: UnitPlans = plan_unit(&unit).unwrap();
    assert_eq!(plans.name, "hello.rs");

    match &plans.compile.program {
        CommandArg::Text(p) => assert_eq!(p, "rustc"),
        CommandArg::Loc(_) => panic!("expected a program name"),
    }
    assert_eq!(
        arg_strings(&plans.compile),
        vec!["exercises/intro/hello.rs", "--test", "-o", "target/debug/hello.rs"]
    );
    assert!(plans.compile.current_dir.is_none());

    match &plans.run.program {
        CommandArg::Loc(p) => assert_eq!(p.segments, vec!["target", "debug", "hello.rs"]),
        CommandArg::Text(_) => panic!("expected the built binary's path"),
    }
    assert!(plans.run.args.is_empty());
}

#[test]
fn project_plans_scope_cargo_to_manifest_and_tests() {
    let unit = ExerciseUnit {
        path: mkpath(&["repo", "learning-lm-rs", "src", "operators.rs"]),
        layout_kind: LayoutKind::ProjectScoped,
        test_names: vec![
            "test_matmul_transb".to_string(),
            "test_silu".to_string(),
            "test_rms_norm".to_string(),
        ],
        manifest_path: Some(mkpath(&["repo", "learning-lm-rs", "Cargo.toml"])),
    };
    let plans = plan_unit(&unit).unwrap();
    assert_eq!(plans.name, "operators.rs");

    match &plans.compile.program {
        CommandArg::Text(p) => assert_eq!(p, "cargo"),
        CommandArg::Loc(_) => panic!("expected a program name"),
    }
    assert_eq!(
        arg_strings(&plans.compile),
        vec![
            "test",
            "--manifest-path",
            "repo/learning-lm-rs/Cargo.toml",
            "--no-run",
            "--release"
        ]
    );
    assert_eq!(
        plans.compile.current_dir.as_ref().unwrap().segments,
        vec!["repo", "learning-lm-rs"]
    );

    assert_eq!(
        arg_strings(&plans.run),
        vec![
            "test",
            "--manifest-path",
            "repo/learning-lm-rs/Cargo.toml",
            "--release",
            "test_matmul_transb",
            "test_silu",
            "test_rms_norm"
        ]
    );
}

#[test]
fn unit_without_file_name_is_an_error() {
    let unit = ExerciseUnit {
        path: FsPath { segments: Vec::new() },
        layout_kind: LayoutKind::Standalone,
        test_names: Vec::new(),
        manifest_path: None,
    };
    assert!(plan_unit(&unit).is_err());
}

#[test]
fn compile_outcome_decides_whether_to_run() {
    assert_eq!(after_compile(&ProcOutcome::SpawnFailed), Some(false));
    assert_eq!(after_compile(&finished(false)), Some(false));
    assert_eq!(after_compile(&finished(true)), None);
    assert!(!after_run(&ProcOutcome::SpawnFailed));
    assert!(!after_run(&finished(false)));
    assert!(after_run(&finished(true)));
}

#[test]
fn output_is_echoed_on_failure_or_when_verbose() {
    assert!(should_echo_output(false, false));
    assert!(should_echo_output(false, true));
    assert!(should_echo_output(true, true));
    assert!(!should_echo_output(true, false));
}

#[test]
fn spawn_error_marks_only_that_unit_failed() {
    // grading stays total across a spawn failure in the middle
    let outcomes = vec![
        UnitOutcome {
            name: "a.rs".to_string(),
            compile: finished(true),
            run: Some(finished(true)),
            elapsed: 1,
        },
        UnitOutcome {
            name: "b.rs".to_string(),
            compile: ProcOutcome::SpawnFailed,
            run: None,
            elapsed: 0,
        },
        UnitOutcome {
            name: "c.rs".to_string(),
            compile: finished(true),
            run: Some(finished(false)),
            elapsed: 2,
        },
    ];
    let report = fold_report(&outcomes);
    assert_eq!(report.exercises.len(), 3);
    assert_eq!(report.exercises[0].name, "a.rs");
    assert!(report.exercises[0].result);
    assert_eq!(report.exercises[1].name, "b.rs");
    assert!(!report.exercises[1].result);
    assert!(!report.exercises[2].result);
    assert_eq!(report.statistics.total_exercations, 3);
    assert_eq!(report.statistics.total_succeeds, 1);
    assert_eq!(report.statistics.total_failures, 2);
    assert_eq!(report.statistics.total_time, 3);
}

#[test]
fn compile_failure_counts_as_a_failed_exercise() {
    let outcomes = vec![UnitOutcome {
        name: "broken.rs".to_string(),
        compile: finished(false),
        run: None,
        elapsed: 4,
    }];
    let report = fold_report(&outcomes);
    assert_eq!(report.exercises.len(), 1);
    assert_eq!(report.exercises[0].name, "broken.rs");
    assert!(!report.exercises[0].result);
    assert_eq!(report.statistics.total_succeeds, 0);
    assert_eq!(report.statistics.total_failures, 1);
}

#[test]
fn project_unit_with_all_tests_passing_is_marked_passed() {
    let outcomes = vec![UnitOutcome {
        name: "operators.rs".to_string(),
        compile: finished(true),
        run: Some(finished(true)),
        elapsed: 7,
    }];
    let report = fold_report(&outcomes);
    assert_eq!(report.exercises.len(), 1);
    assert_eq!(report.exercises[0].name, "operators.rs");
    assert!(report.exercises[0].result);
}

#[test]
fn grade_run_accumulates_counts_and_time() {
    let mut run = GradeRun::new();
    run.record("a.rs".to_string(), true, 2);
    run.record("b.rs".to_string(), false, 3);
    assert_eq!(run.succeeds, 1);
    assert_eq!(run.failures, 1);
    assert_eq!(run.elapsed_total, 5);
    let report = run.finish();
    assert_eq!(report.statistics.total_exercations, 2);
    assert_eq!(report.statistics.total_succeeds, 1);
    assert_eq!(report.statistics.total_failures, 1);
    assert_eq!(report.statistics.total_time, 5);
}

#[test]
fn pass_rate_is_zero_for_an_empty_run() {
    assert_eq!(pass_rate_percent(0, 0), 0);
}

#[test]
fn no_discovered_units_still_yields_a_valid_report() {
    let outcomes: Vec<UnitOutcome> = Vec::new();
    let report = fold_report(&outcomes);
    assert_eq!(report.exercises.len(), 0);
    assert_eq!(report.statistics.total_exercations, 0);
    assert_eq!(report.statistics.total_succeeds, 0);
    assert_eq!(report.statistics.total_failures, 0);
    assert_eq!(report.statistics.total_time, 0);
    assert_eq!(
        pass_rate_percent(
            report.statistics.total_succeeds,
            report.statistics.total_exercations
        ),
        0
    );
}

#[test]
fn pass_rate_is_the_success_share_in_percent() {
    assert_eq!(pass_rate_percent(2, 3), 66);
    assert_eq!(pass_rate_percent(3, 3), 100);
    assert_eq!(pass_rate_percent(0, 5), 0);
    assert_eq!(pass_rate_percent(1, 2), 50);
}
