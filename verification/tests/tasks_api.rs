use grader::report_file_name;
use grader::tasks::{EvalArgs, LearnArgs, SetupAction, SetupArgs};
use grader::fspath::FsPath;

#[test]
fn report_file_name_is_fixed() {
    assert_eq!(report_file_name(), "rustlings_result.json");
}

#[test]
fn setup_maps_known_environments_to_their_actions() {
    assert_eq!(SetupArgs { env: "Python".to_string() }.setup(), SetupAction::InstallPython);
    assert_eq!(SetupArgs { env: "xmake".to_string() }.setup(), SetupAction::InstallXmake);
    assert_eq!(SetupArgs { env: "CUDA".to_string() }.setup(), SetupAction::InspectCuda);
    assert_eq!(SetupArgs { env: "OpenCL".to_string() }.setup(), SetupAction::InstallOpenCl);
}

#[test]
fn setup_rejects_unknown_environments() {
    assert_eq!(SetupArgs { env: "python".to_string() }.setup(), SetupAction::Unsupported);
    assert_eq!(SetupArgs { env: "".to_string() }.setup(), SetupAction::Unsupported);
    assert_eq!(SetupArgs { env: "Fortran".to_string() }.setup(), SetupAction::Unsupported);
}

#[test]
fn learn_accepts_its_arguments() {
    let args = LearnArgs { course: "rustlings".to_string(), submodule: None };
    args.learn();
}

#[test]
fn eval_args_hold_the_resolved_configuration() {
    let args = EvalArgs {
        course: None,
        path: FsPath { segments: vec![".".to_string()] },
        verbose: false,
    };
    assert!(args.course.is_none());
    assert!(!args.verbose);
    assert_eq!(args.path.segments, vec!["."]);
}
