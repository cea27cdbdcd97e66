//! Exercise units: the items discovery emits and grading consumes, and
//! the fixed allow-list of project-scoped test files.

use vstd::prelude::*;
use crate::fspath::FsPath;
use crate::text::str_eq;

verus! {

/// The structural convention of the graded project: a flat tree of
/// independent exercise files, or a single crate with a known set of
/// test-bearing source files.
#[derive(Clone, Copy, PartialEq, Eq, Structural, Debug)]
pub enum LayoutKind {
    Standalone,
    ProjectScoped,
}

/// One gradable item, fixed at discovery time.
pub struct ExerciseUnit {
    pub path: FsPath,
    pub layout_kind: LayoutKind,
    pub test_names: Vec<String>,
    pub manifest_path: Option<FsPath>,
}

/// The mathematical value of an exercise unit.
pub ghost struct UnitModel {
    pub path: Seq<Seq<char>>,
    pub layout_kind: LayoutKind,
    pub test_names: Seq<Seq<char>>,
    pub manifest_path: Option<Seq<Seq<char>>>,
}

impl View for ExerciseUnit {
    type V = UnitModel;

    open spec fn view(&self) -> UnitModel {
        UnitModel {
            path: self.path@,
            layout_kind: self.layout_kind,
            test_names: self.test_names.deep_view(),
            manifest_path: match self.manifest_path {
                Some(m) => Some(m@),
                None => None,
            },
        }
    }
}

impl DeepView for ExerciseUnit {
    type V = UnitModel;

    open spec fn deep_view(&self) -> UnitModel {
        self.view()
    }
}

impl ExerciseUnit {
    /// The part of validity fixed by the layout alone: a standalone unit
    /// carries no test names and no manifest; a project-scoped unit
    /// always carries at least one test name and a manifest path with at
    /// least one segment.
    pub open spec fn layout_wf(&self) -> bool {
        match self.layout_kind {
            LayoutKind::Standalone => self.test_names@.len() == 0 && self.manifest_path is None,
            LayoutKind::ProjectScoped => {
                &&& self.test_names@.len() > 0
                &&& match self.manifest_path {
                    Some(m) => m@.len() > 0,
                    None => false,
                }
            },
        }
    }

    /// Validity: the layout-specific part, plus a path with a file name.
    pub open spec fn wf(&self) -> bool {
        self.path@.len() > 0 && self.layout_wf()
    }
}

/// The test names known for an allow-listed file, if the file is on the
/// list at all.
pub open spec fn spec_allowed_tests(name: Seq<char>) -> Option<Seq<Seq<char>>> {
    if name == "model.rs"@ {
        Some(seq!["test_mlp"@, "test_load_safetensors"@])
    } else if name == "operators.rs"@ {
        Some(seq!["test_matmul_transb"@, "test_silu"@, "test_rms_norm"@])
    } else {
        None
    }
}

/// Looks a file name up on the allow-list, yielding its known test names.
pub fn allowed_tests(name: &str) -> (r: Option<Vec<String>>)
    ensures
        match r {
            Some(v) => spec_allowed_tests(name@) == Some(v.deep_view()) && v@.len() > 0,
            None => spec_allowed_tests(name@) is None,
        },
{
    if str_eq(name, "model.rs") {
        let mut v: Vec<String> = Vec::new();
        v.push(String::from_str("test_mlp"));
        v.push(String::from_str("test_load_safetensors"));
        assert(v.deep_view() =~= seq!["test_mlp"@, "test_load_safetensors"@]);
        Some(v)
    } else if str_eq(name, "operators.rs") {
        let mut v: Vec<String> = Vec::new();
        v.push(String::from_str("test_matmul_transb"));
        v.push(String::from_str("test_silu"));
        v.push(String::from_str("test_rms_norm"));
        assert(v.deep_view() =~= seq!["test_matmul_transb"@, "test_silu"@, "test_rms_norm"@]);
        Some(v)
    } else {
        None
    }
}

} // verus!
