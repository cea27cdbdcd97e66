//! The task-level argument types: the resolved configuration a grading
//! run receives, and the arguments of the course and environment tasks.

use vstd::prelude::*;
use crate::fspath::FsPath;
use crate::text::str_eq;

verus! {

/// The resolved configuration of one grading run: the target root path,
/// an optional course-name filter (reserved for future multi-course
/// dispatch; the grading logic does not consult it), and whether
/// captured output should also be echoed on success.
pub struct EvalArgs {
    pub course: Option<String>,
    pub path: FsPath,
    pub verbose: bool,
}

/// Arguments of the course-configuration task.
pub struct LearnArgs {
    pub course: String,
    pub submodule: Option<String>,
}

impl LearnArgs {
    /// Course configuration is handled entirely by the surrounding
    /// tooling; nothing is decided here.
    pub fn learn(self) {
    }
}

/// Arguments of the environment-setup task.
pub struct SetupArgs {
    pub env: String,
}

/// What the setup task decides for an environment name: which
/// installation the caller must carry out, or that the name is not
/// supported.
#[derive(Clone, Copy, PartialEq, Eq, Structural, Debug)]
pub enum SetupAction {
    InstallPython,
    InstallXmake,
    InspectCuda,
    InstallOpenCl,
    Unsupported,
}

/// The action owed for each environment name.
pub open spec fn spec_setup_action(env: Seq<char>) -> SetupAction {
    if env == "Python"@ {
        SetupAction::InstallPython
    } else if env == "xmake"@ {
        SetupAction::InstallXmake
    } else if env == "CUDA"@ {
        SetupAction::InspectCuda
    } else if env == "OpenCL"@ {
        SetupAction::InstallOpenCl
    } else {
        SetupAction::Unsupported
    }
}

impl SetupArgs {
    /// Decides which environment installation applies. Carrying the
    /// installation out spawns external processes and is the caller's
    /// part.
    pub fn setup(self) -> (r: SetupAction)
        ensures
            r == spec_setup_action(self.env@),
    {
        if str_eq(self.env.as_str(), "Python") {
            SetupAction::InstallPython
        } else if str_eq(self.env.as_str(), "xmake") {
            SetupAction::InstallXmake
        } else if str_eq(self.env.as_str(), "CUDA") {
            SetupAction::InspectCuda
        } else if str_eq(self.env.as_str(), "OpenCL") {
            SetupAction::InstallOpenCl
        } else {
            SetupAction::Unsupported
        }
    }
}

} // verus!
