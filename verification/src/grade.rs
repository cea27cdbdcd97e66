//! The grading strategy: which commands to run for a unit under each
//! layout, and how process outcomes map to a pass or fail verdict.
//!
//! The library never spawns a process itself. It hands the caller exact
//! command plans and classifies the outcomes the caller reports back, so
//! a unit whose process could not even be spawned is graded as failed
//! rather than aborting the run.

use vstd::prelude::*;
use crate::fspath::FsPath;
use crate::units::{ExerciseUnit, LayoutKind};

verus! {

/// The mathematical value of one command argument: literal text, or a
/// path rendered by the caller in its platform convention.
pub ghost enum ArgModel {
    Text(Seq<char>),
    Loc(Seq<Seq<char>>),
}

/// One command argument: literal text, or a path.
pub enum CommandArg {
    Text(String),
    Loc(FsPath),
}

impl View for CommandArg {
    type V = ArgModel;

    open spec fn view(&self) -> ArgModel {
        match self {
            CommandArg::Text(s) => ArgModel::Text(s@),
            CommandArg::Loc(p) => ArgModel::Loc(p@),
        }
    }
}

impl DeepView for CommandArg {
    type V = ArgModel;

    open spec fn deep_view(&self) -> ArgModel {
        self.view()
    }
}

/// The mathematical value of a command plan.
pub ghost struct PlanModel {
    pub program: ArgModel,
    pub args: Seq<ArgModel>,
    pub current_dir: Option<Seq<Seq<char>>>,
}

/// A fully determined external command: program, arguments in order, and
/// the working directory to run it in, if any.
pub struct CommandPlan {
    pub program: CommandArg,
    pub args: Vec<CommandArg>,
    pub current_dir: Option<FsPath>,
}

impl View for CommandPlan {
    type V = PlanModel;

    open spec fn view(&self) -> PlanModel {
        PlanModel {
            program: self.program@,
            args: self.args.deep_view(),
            current_dir: match self.current_dir {
                Some(p) => Some(p@),
                None => None,
            },
        }
    }
}

/// The directory both strategies compile into; it must exist before a
/// unit is compiled, so the caller creates it first (idempotently).
pub open spec fn spec_output_dir() -> Seq<Seq<char>> {
    seq!["target"@, "debug"@]
}

/// Where the standalone strategy places the test binary for a unit with
/// the given file name.
pub open spec fn spec_output_binary(name: Seq<char>) -> Seq<Seq<char>> {
    seq!["target"@, "debug"@, name]
}

/// The compile step for a unit: `rustc --test` into the output directory
/// for a standalone unit, `cargo test --no-run --release` against the
/// owning manifest for a project-scoped one.
pub open spec fn spec_compile_plan(u: ExerciseUnit) -> PlanModel
    recommends
        u.wf(),
{
    match u.layout_kind {
        LayoutKind::Standalone => PlanModel {
            program: ArgModel::Text("rustc"@),
            args: seq![
                ArgModel::Loc(u.path@),
                ArgModel::Text("--test"@),
                ArgModel::Text("-o"@),
                ArgModel::Loc(spec_output_binary(u.path@.last())),
            ],
            current_dir: None,
        },
        LayoutKind::ProjectScoped => PlanModel {
            program: ArgModel::Text("cargo"@),
            args: seq![
                ArgModel::Text("test"@),
                ArgModel::Text("--manifest-path"@),
                ArgModel::Loc(u.manifest_path.unwrap()@),
                ArgModel::Text("--no-run"@),
                ArgModel::Text("--release"@),
            ],
            current_dir: Some(u.manifest_path.unwrap()@.drop_last()),
        },
    }
}

/// The run step for a unit: execute the compiled test binary for a
/// standalone unit, or `cargo test --release` with exactly the unit's
/// test names as the selection filter for a project-scoped one.
pub open spec fn spec_run_plan(u: ExerciseUnit) -> PlanModel
    recommends
        u.wf(),
{
    match u.layout_kind {
        LayoutKind::Standalone => PlanModel {
            program: ArgModel::Loc(spec_output_binary(u.path@.last())),
            args: Seq::<ArgModel>::empty(),
            current_dir: None,
        },
        LayoutKind::ProjectScoped => PlanModel {
            program: ArgModel::Text("cargo"@),
            args: seq![
                ArgModel::Text("test"@),
                ArgModel::Text("--manifest-path"@),
                ArgModel::Loc(u.manifest_path.unwrap()@),
                ArgModel::Text("--release"@),
            ] + u.test_names.deep_view().map_values(|t: Seq<char>| ArgModel::Text(t)),
            current_dir: Some(u.manifest_path.unwrap()@.drop_last()),
        },
    }
}

/// The one error grading itself can raise: a unit path with no final
/// segment to name the exercise after.
#[derive(Clone, Copy, PartialEq, Eq, Structural, Debug)]
pub enum GradingError {
    NoFileName,
}

/// Everything the caller needs to grade one unit: its display name and
/// the two command plans, compile first, run second.
pub struct UnitPlans {
    pub name: String,
    pub compile: CommandPlan,
    pub run: CommandPlan,
}

/// The output directory to create before compiling.
pub fn output_dir() -> (r: FsPath)
    ensures
        r@ == spec_output_dir(),
{
    let r = FsPath::empty().join("target").join("debug");
    assert(r@ =~= spec_output_dir());
    r
}

/// Builds the name and both command plans for a unit, or reports that the
/// unit's path names no file.
pub fn plan_unit(unit: &ExerciseUnit) -> (r: Result<UnitPlans, GradingError>)
    requires
        unit.layout_wf(),
    ensures
        match r {
            Ok(p) => {
                &&& unit.path@.len() > 0
                &&& p.name@ == unit.path@.last()
                &&& p.compile@ == spec_compile_plan(*unit)
                &&& p.run@ == spec_run_plan(*unit)
            },
            Err(e) => unit.path@.len() == 0 && e == GradingError::NoFileName,
        },
{
    let name: String = match unit.path.file_name() {
        Some(n) => n.clone(),
        None => {
            return Err(GradingError::NoFileName);
        },
    };
    match unit.layout_kind {
        LayoutKind::Standalone => {
            let out_bin = output_dir().join(name.as_str());
            assert(out_bin@ =~= spec_output_binary(unit.path@.last()));

            let mut cargs: Vec<CommandArg> = Vec::new();
            cargs.push(CommandArg::Loc(unit.path.duplicate()));
            cargs.push(CommandArg::Text(String::from_str("--test")));
            cargs.push(CommandArg::Text(String::from_str("-o")));
            cargs.push(CommandArg::Loc(out_bin.duplicate()));
            let compile = CommandPlan {
                program: CommandArg::Text(String::from_str("rustc")),
                args: cargs,
                current_dir: None,
            };
            assert(compile@.args =~= spec_compile_plan(*unit).args);

            let run = CommandPlan {
                program: CommandArg::Loc(out_bin),
                args: Vec::new(),
                current_dir: None,
            };
            assert(run@.args =~= spec_run_plan(*unit).args);
            Ok(UnitPlans { name: name, compile: compile, run: run })
        },
        LayoutKind::ProjectScoped => {
            // a valid project-scoped unit always carries a manifest, so
            // the error arm is unreachable
            let manifest: &FsPath = match &unit.manifest_path {
                Some(m) => m,
                None => {
                    return Err(GradingError::NoFileName);
                },
            };
            let module_dir = manifest.parent();

            let mut cargs: Vec<CommandArg> = Vec::new();
            cargs.push(CommandArg::Text(String::from_str("test")));
            cargs.push(CommandArg::Text(String::from_str("--manifest-path")));
            cargs.push(CommandArg::Loc(manifest.duplicate()));
            cargs.push(CommandArg::Text(String::from_str("--no-run")));
            cargs.push(CommandArg::Text(String::from_str("--release")));
            let compile = CommandPlan {
                program: CommandArg::Text(String::from_str("cargo")),
                args: cargs,
                current_dir: Some(module_dir.duplicate()),
            };
            assert(compile@.args =~= spec_compile_plan(*unit).args);

            let mut rargs: Vec<CommandArg> = Vec::new();
            rargs.push(CommandArg::Text(String::from_str("test")));
            rargs.push(CommandArg::Text(String::from_str("--manifest-path")));
            rargs.push(CommandArg::Loc(manifest.duplicate()));
            rargs.push(CommandArg::Text(String::from_str("--release")));
            let ghost base: Seq<ArgModel> = rargs.deep_view();
            let ghost test_args: Seq<ArgModel> = unit.test_names.deep_view().map_values(
                |t: Seq<char>| ArgModel::Text(t),
            );
            let mut i: usize = 0;
            while i < unit.test_names.len()
                invariant
                    i <= unit.test_names@.len(),
                    test_args == unit.test_names.deep_view().map_values(
                        |t: Seq<char>| ArgModel::Text(t),
                    ),
                    test_args.len() == unit.test_names@.len(),
                    rargs.deep_view() == base + test_args.take(i as int),
                decreases unit.test_names@.len() - i,
            {
                let ghost prev = rargs.deep_view();
                rargs.push(CommandArg::Text(unit.test_names[i].clone()));
                proof {
                    assert(rargs.deep_view() =~= prev.push(
                        ArgModel::Text(unit.test_names@[i as int]@),
                    ));
                    assert(test_args[i as int] == ArgModel::Text(unit.test_names@[i as int]@));
                    assert(rargs.deep_view() =~= base + test_args.take(i + 1));
                }
                i = i + 1;
            }
            proof {
                assert(test_args.take(unit.test_names@.len() as int) =~= test_args);
            }
            let run = CommandPlan {
                program: CommandArg::Text(String::from_str("cargo")),
                args: rargs,
                current_dir: Some(module_dir),
            };
            assert(run@.args =~= spec_run_plan(*unit).args);
            Ok(UnitPlans { name: name, compile: compile, run: run })
        },
    }
}

/// What one spawned process came to: it could not be started at all, or
/// it finished with a success flag and its captured output.
pub struct ProcessOutput {
    pub success: bool,
    pub stdout: String,
    pub stderr: String,
}

/// The reported outcome of one process the caller ran for us.
pub enum ProcOutcome {
    SpawnFailed,
    Finished(ProcessOutput),
}

/// A process outcome counts as success only if the process ran and
/// exited successfully.
pub open spec fn outcome_ok(o: ProcOutcome) -> bool {
    match o {
        ProcOutcome::SpawnFailed => false,
        ProcOutcome::Finished(out) => out.success,
    }
}

/// The overall verdict for a unit from its compile outcome and, when the
/// compile succeeded, its run outcome: a unit passes exactly when both
/// steps ran and succeeded.
pub open spec fn spec_unit_passed(compile: ProcOutcome, run: Option<ProcOutcome>) -> bool {
    outcome_ok(compile) && match run {
        Some(r) => outcome_ok(r),
        None => false,
    }
}

/// The decision after the compile step: a failed (or unspawnable)
/// compile settles the unit as failed at once; otherwise the run step is
/// still to come.
pub fn after_compile(outcome: &ProcOutcome) -> (r: Option<bool>)
    ensures
        r == (if outcome_ok(*outcome) {
            Option::<bool>::None
        } else {
            Option::<bool>::Some(false)
        }),
{
    match outcome {
        ProcOutcome::SpawnFailed => Some(false),
        ProcOutcome::Finished(out) => {
            if out.success {
                None
            } else {
                Some(false)
            }
        },
    }
}

/// The verdict after the run step.
pub fn after_run(outcome: &ProcOutcome) -> (r: bool)
    ensures
        r == outcome_ok(*outcome),
{
    match outcome {
        ProcOutcome::SpawnFailed => false,
        ProcOutcome::Finished(out) => out.success,
    }
}

/// Whether captured output should be surfaced to the caller's renderer:
/// always on failure, and on success only when verbose output was asked
/// for.
pub fn should_echo_output(success: bool, verbose: bool) -> (r: bool)
    ensures
        r == (verbose || !success),
{
    verbose || !success
}

} // verus!
