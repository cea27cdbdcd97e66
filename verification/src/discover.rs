//! The layout resolver: classifying the target layout from the root
//! path, resolving the directory to scan, and turning a directory
//! listing into the ordered sequence of exercise units.
//!
//! Discovery is a pure function of the root path and the listing, so two
//! runs over the same filesystem snapshot produce the same ordered
//! units. Missing directories degrade to an empty result with a warning
//! rather than an error.

use vstd::prelude::*;
use crate::fspath::{lemma_segs_le_total, lemma_segs_le_trans, path_contains_seg, path_under,
    segs_le, spec_ancestor_ending_in, FsPath};
use crate::text::{ends_with, starts_with, str_starts_with, str_ends_with};
use crate::units::{allowed_tests, spec_allowed_tests, ExerciseUnit, LayoutKind, UnitModel};

verus! {

/// The view of a path: its segments' character sequences.
pub type PathView = Seq<Seq<char>>;

/// A root is graded project-scoped exactly when the marker segment
/// naming the companion project occurs somewhere in its path.
pub open spec fn spec_is_project_layout(root: PathView) -> bool {
    path_contains_seg(root, "learning-lm-rs"@)
}

/// Classifies the layout for a root path.
pub fn layout_of(root: &FsPath) -> (r: LayoutKind)
    ensures
        r == (if spec_is_project_layout(root@) {
            LayoutKind::ProjectScoped
        } else {
            LayoutKind::Standalone
        }),
{
    if root.contains_seg("learning-lm-rs") {
        LayoutKind::ProjectScoped
    } else {
        LayoutKind::Standalone
    }
}

/// The directory standalone discovery scans: the root itself when it
/// already ends at the exercises directory, else that directory under
/// the root.
pub open spec fn spec_standalone_base(root: PathView) -> PathView {
    if root.len() > 0 && root.last() == "exercises"@ {
        root
    } else {
        root.push("exercises"@)
    }
}

/// The directory to scan for a root: for a project-scoped root, the
/// project's source directory (walking up to the project directory when
/// the root sits below it), or nothing when no project directory can be
/// found; for a standalone root, the exercises directory.
pub open spec fn spec_resolve_scan_dir(root: PathView) -> Option<PathView> {
    if spec_is_project_layout(root) {
        if root.len() > 0 && root.last() == "learning-lm-rs"@ {
            Some(root.push("src"@))
        } else if root.len() > 0 && root.last() == "src"@ {
            Some(root)
        } else {
            match spec_ancestor_ending_in(root, "learning-lm-rs"@) {
                Some(anc) => Some(anc.push("src"@)),
                None => None,
            }
        }
    } else {
        Some(spec_standalone_base(root))
    }
}

/// The outcome of resolving the scan directory.
pub enum DirResolution {
    Resolved(FsPath),
    ProjectRootNotFound,
}

/// Resolves the directory discovery has to scan.
pub fn resolve_scan_dir(root: &FsPath) -> (r: DirResolution)
    ensures
        match r {
            DirResolution::Resolved(d) => spec_resolve_scan_dir(root@) == Some(d@),
            DirResolution::ProjectRootNotFound => spec_resolve_scan_dir(root@) is None,
        },
{
    if root.contains_seg("learning-lm-rs") {
        if root.last_is("learning-lm-rs") {
            DirResolution::Resolved(root.join("src"))
        } else if root.last_is("src") {
            DirResolution::Resolved(root.duplicate())
        } else {
            match root.ancestor_ending_in("learning-lm-rs") {
                Some(anc) => DirResolution::Resolved(anc.join("src")),
                None => DirResolution::ProjectRootNotFound,
            }
        }
    } else {
        if root.last_is("exercises") {
            DirResolution::Resolved(root.duplicate())
        } else {
            DirResolution::Resolved(root.join("exercises"))
        }
    }
}

/// What the caller observed on disk for the resolved scan directory:
/// whether the directory exists, and every file below it.
pub struct ScanListing {
    pub dir_exists: bool,
    pub files: Vec<FsPath>,
}

/// The warning-level signals discovery can raise while still returning
/// an empty, valid result.
#[derive(Clone, Copy, PartialEq, Eq, Structural, Debug)]
pub enum DiscoveryWarning {
    ProjectDirNotFound,
    SourceDirMissing,
    ExercisesDirMissing,
}

/// What discovery produced: the units to grade, in order, and at most
/// one warning.
pub struct Discovery {
    pub units: Vec<ExerciseUnit>,
    pub warning: Option<DiscoveryWarning>,
}

/// A file name that marks a source exercise: it has the source
/// extension and a non-empty stem.
pub open spec fn is_rs_name(name: Seq<char>) -> bool {
    ends_with(name, ".rs"@) && name.len() > ".rs"@.len()
}

/// Whether a file belongs to standalone discovery: it lies below the
/// scan directory, not inside any build-output subtree, is a source
/// file, and its name starts with neither reserved prefix.
pub open spec fn standalone_candidate(base: PathView, f: PathView) -> bool {
    &&& path_under(f, base)
    &&& !path_contains_seg(f, "target"@)
    &&& is_rs_name(f.last())
    &&& !starts_with(f.last(), "test_"@)
    &&& !starts_with(f.last(), "helper_"@)
}

/// The listed files that standalone discovery keeps, in listing order.
pub open spec fn spec_filter_standalone(base: PathView, files: Seq<PathView>) -> Seq<PathView>
    decreases files.len(),
{
    if files.len() == 0 {
        Seq::<PathView>::empty()
    } else {
        let rest = spec_filter_standalone(base, files.drop_last());
        if standalone_candidate(base, files.last()) {
            rest.push(files.last())
        } else {
            rest
        }
    }
}

/// Inserts a path into a sorted sequence, before the first element it
/// precedes or equals.
pub open spec fn spec_sorted_insert(s: Seq<PathView>, p: PathView) -> Seq<PathView>
    decreases s.len(),
{
    if s.len() == 0 {
        seq![p]
    } else if segs_le(p, s[0]) {
        seq![p] + s
    } else {
        seq![s[0]] + spec_sorted_insert(s.drop_first(), p)
    }
}

/// Sorts paths into lexicographic order by insertion.
pub open spec fn spec_sort_paths(s: Seq<PathView>) -> Seq<PathView>
    decreases s.len(),
{
    if s.len() == 0 {
        Seq::<PathView>::empty()
    } else {
        spec_sorted_insert(spec_sort_paths(s.drop_last()), s.last())
    }
}

/// Pairwise ordering of a path sequence.
pub open spec fn paths_sorted(s: Seq<PathView>) -> bool {
    forall|a: int, b: int| 0 <= a < b < s.len() ==> segs_le(#[trigger] s[a], #[trigger] s[b])
}

/// The unit emitted for one standalone exercise file.
pub open spec fn standalone_unit(path: PathView) -> UnitModel {
    UnitModel {
        path: path,
        layout_kind: LayoutKind::Standalone,
        test_names: Seq::<Seq<char>>::empty(),
        manifest_path: None,
    }
}

/// The unit emitted for one allow-listed project-scoped file in the
/// resolved source directory `dir`: its tests come from the allow-list
/// and its manifest sits one level above `dir`.
pub open spec fn project_unit(dir: PathView, name: Seq<char>) -> UnitModel
    recommends
        dir.len() > 0,
        spec_allowed_tests(name) is Some,
{
    UnitModel {
        path: dir.push(name),
        layout_kind: LayoutKind::ProjectScoped,
        test_names: spec_allowed_tests(name).unwrap(),
        manifest_path: Some(dir.drop_last().push("Cargo.toml"@)),
    }
}

/// Project-scoped discovery: one unit per allow-listed name whose file
/// exists in the source directory, in allow-list order.
pub open spec fn spec_project_units(dir: PathView, files: Seq<PathView>) -> Seq<UnitModel> {
    let with_model = if files.contains(dir.push("model.rs"@)) {
        seq![project_unit(dir, "model.rs"@)]
    } else {
        Seq::<UnitModel>::empty()
    };
    let with_operators = if files.contains(dir.push("operators.rs"@)) {
        seq![project_unit(dir, "operators.rs"@)]
    } else {
        Seq::<UnitModel>::empty()
    };
    with_model + with_operators
}

/// The mathematical value of a discovery outcome.
pub ghost struct DiscoveryModel {
    pub units: Seq<UnitModel>,
    pub warning: Option<DiscoveryWarning>,
}

/// The whole of discovery as a function of the root path and the
/// observed listing.
pub open spec fn spec_discover(root: PathView, dir_exists: bool, files: Seq<PathView>)
    -> DiscoveryModel {
    if spec_is_project_layout(root) {
        match spec_resolve_scan_dir(root) {
            None => DiscoveryModel {
                units: Seq::<UnitModel>::empty(),
                warning: Some(DiscoveryWarning::ProjectDirNotFound),
            },
            Some(dir) => {
                if !dir_exists {
                    DiscoveryModel {
                        units: Seq::<UnitModel>::empty(),
                        warning: Some(DiscoveryWarning::SourceDirMissing),
                    }
                } else {
                    DiscoveryModel { units: spec_project_units(dir, files), warning: None }
                }
            },
        }
    } else {
        if !dir_exists {
            DiscoveryModel {
                units: Seq::<UnitModel>::empty(),
                warning: Some(DiscoveryWarning::ExercisesDirMissing),
            }
        } else {
            DiscoveryModel {
                units: spec_sort_paths(
                    spec_filter_standalone(spec_standalone_base(root), files),
                ).map_values(|p: PathView| standalone_unit(p)),
                warning: None,
            }
        }
    }
}

/// How a discovery result relates to its inputs: its units view to the
/// specified model, it carries the specified warning, and every unit is
/// well formed.
pub open spec fn discovery_matches(
    d: Discovery,
    root: PathView,
    dir_exists: bool,
    files: Seq<PathView>,
) -> bool {
    let m = spec_discover(root, dir_exists, files);
    &&& d.units.deep_view() == m.units
    &&& d.warning == m.warning
    &&& forall|k: int| 0 <= k < d.units@.len() ==> (#[trigger] d.units@[k]).wf()
}

/// Whether a file name (the path's final segment) passes the standalone
/// name rules.
fn standalone_name_ok(f: &FsPath) -> (r: bool)
    ensures
        r == (f@.len() > 0 && is_rs_name(f@.last()) && !starts_with(f@.last(), "test_"@)
            && !starts_with(f@.last(), "helper_"@)),
{
    match f.file_name() {
        None => false,
        Some(n) => {
            let name = n.as_str();
            str_ends_with(name, ".rs") && name.unicode_len() > ".rs".unicode_len()
                && !str_starts_with(name, "test_") && !str_starts_with(name, "helper_")
        },
    }
}

/// Whether the listing holds a path equal to `p`.
fn contains_path(files: &Vec<FsPath>, p: &FsPath) -> (r: bool)
    ensures
        r == files.deep_view().contains(p@),
{
    let mut i: usize = 0;
    while i < files.len()
        invariant
            i <= files@.len(),
            forall|j: int| 0 <= j < i ==> files.deep_view()[j] != p@,
        decreases files@.len() - i,
    {
        if files[i].path_eq(p) {
            assert(files.deep_view()[i as int] == p@);
            return true;
        }
        i = i + 1;
    }
    assert(!files.deep_view().contains(p@));
    false
}

/// The first position in the sorted vector whose path the new path
/// precedes or equals; the vector's length when there is none.
fn lower_pos(out: &Vec<FsPath>, p: &FsPath) -> (j: usize)
    ensures
        j <= out@.len(),
        forall|k: int| 0 <= k < j ==> !segs_le(p@, out.deep_view()[k]),
        j < out@.len() ==> segs_le(p@, out.deep_view()[j as int]),
{
    let mut j: usize = 0;
    while j < out.len()
        invariant
            j <= out@.len(),
            forall|k: int| 0 <= k < j ==> !segs_le(p@, out.deep_view()[k]),
        decreases out@.len() - j,
    {
        if p.path_le(&out[j]) {
            return j;
        }
        j = j + 1;
    }
    j
}

/// Insertion adds the new path and keeps the old ones.
proof fn lemma_sorted_insert_elem(s: Seq<PathView>, p: PathView, x: PathView)
    requires
        spec_sorted_insert(s, p).contains(x),
    ensures
        s.contains(x) || x == p,
    decreases s.len(),
{
    let r = spec_sorted_insert(s, p);
    let i = choose|i: int| 0 <= i < r.len() && r[i] == x;
    if s.len() == 0 {
        assert(x == p);
    } else if segs_le(p, s[0]) {
        if i == 0 {
            assert(x == p);
        } else {
            assert(s[i - 1] == x);
        }
    } else {
        if i == 0 {
            assert(s[0] == x);
        } else {
            assert(spec_sorted_insert(s.drop_first(), p)[i - 1] == x);
            lemma_sorted_insert_elem(s.drop_first(), p, x);
            if s.drop_first().contains(x) {
                let j = choose|j: int| 0 <= j < s.drop_first().len() && s.drop_first()[j] == x;
                assert(s[j + 1] == x);
            }
        }
    }
}

/// Sorting keeps exactly the elements of its input.
proof fn lemma_sort_elem(s: Seq<PathView>, x: PathView)
    requires
        spec_sort_paths(s).contains(x),
    ensures
        s.contains(x),
    decreases s.len(),
{
    if s.len() > 0 {
        lemma_sorted_insert_elem(spec_sort_paths(s.drop_last()), s.last(), x);
        if spec_sort_paths(s.drop_last()).contains(x) {
            lemma_sort_elem(s.drop_last(), x);
            let j = choose|j: int| 0 <= j < s.drop_last().len() && s.drop_last()[j] == x;
            assert(s[j] == x);
        } else {
            assert(s[s.len() - 1] == x);
        }
    }
}

/// Everything the standalone filter keeps is a candidate from the
/// listing.
proof fn lemma_filter_elem(base: PathView, files: Seq<PathView>, x: PathView)
    requires
        spec_filter_standalone(base, files).contains(x),
    ensures
        standalone_candidate(base, x),
        files.contains(x),
    decreases files.len(),
{
    if files.len() > 0 {
        let rest = spec_filter_standalone(base, files.drop_last());
        let r = spec_filter_standalone(base, files);
        let i = choose|i: int| 0 <= i < r.len() && r[i] == x;
        if standalone_candidate(base, files.last()) && i == rest.len() {
            assert(x == files.last());
            assert(files[files.len() - 1] == x);
        } else {
            assert(rest[i] == x);
            lemma_filter_elem(base, files.drop_last(), x);
            let j = choose|j: int| 0 <= j < files.drop_last().len() && files.drop_last()[j] == x;
            assert(files[j] == x);
        }
    }
}

/// Inserting at the first position the path precedes reproduces the
/// recursive insertion.
proof fn lemma_sorted_insert_at(s: Seq<PathView>, p: PathView, j: int)
    requires
        0 <= j <= s.len(),
        forall|k: int| 0 <= k < j ==> !segs_le(p, s[k]),
        j < s.len() ==> segs_le(p, s[j]),
    ensures
        spec_sorted_insert(s, p) == s.insert(j, p),
    decreases s.len(),
{
    if s.len() == 0 {
        assert(spec_sorted_insert(s, p) =~= s.insert(0, p));
    } else if j == 0 {
        assert(segs_le(p, s[0]));
        assert(spec_sorted_insert(s, p) =~= s.insert(0, p));
    } else {
        assert(!segs_le(p, s[0]));
        lemma_sorted_insert_at(s.drop_first(), p, j - 1);
        assert(spec_sorted_insert(s, p) == seq![s[0]] + s.drop_first().insert(j - 1, p));
        assert(seq![s[0]] + s.drop_first().insert(j - 1, p) =~= s.insert(j, p));
    }
}

/// Inserts a path into a sorted vector of paths.
fn sorted_insert(out: &mut Vec<FsPath>, p: FsPath)
    ensures
        final(out).deep_view() == spec_sorted_insert(old(out).deep_view(), p@),
{
    let j = lower_pos(out, &p);
    let ghost prev = out.deep_view();
    proof {
        lemma_sorted_insert_at(prev, p@, j as int);
    }
    out.insert(j, p);
    assert(out.deep_view() =~= prev.insert(j as int, p@));
}

/// Sorts the candidate paths into lexicographic order.
fn sort_paths(v: Vec<FsPath>) -> (r: Vec<FsPath>)
    ensures
        r.deep_view() == spec_sort_paths(v.deep_view()),
{
    let mut out: Vec<FsPath> = Vec::new();
    let mut i: usize = 0;
    assert(out.deep_view() =~= spec_sort_paths(v.deep_view().take(0)));
    while i < v.len()
        invariant
            i <= v@.len(),
            out.deep_view() == spec_sort_paths(v.deep_view().take(i as int)),
        decreases v@.len() - i,
    {
        sorted_insert(&mut out, v[i].duplicate());
        proof {
            assert(v.deep_view().take(i + 1).drop_last() =~= v.deep_view().take(i as int));
            assert(v.deep_view().take(i + 1).last() == v.deep_view()[i as int]);
        }
        i = i + 1;
    }
    assert(v.deep_view().take(v@.len() as int) =~= v.deep_view());
    out
}

/// Turns the root path and the observed listing of the resolved scan
/// directory into the ordered units to grade.
pub fn discover(root: &FsPath, listing: &ScanListing) -> (r: Discovery)
    ensures
        discovery_matches(r, root@, listing.dir_exists, listing.files.deep_view()),
{
    let project = root.contains_seg("learning-lm-rs");
    let resolution = resolve_scan_dir(root);
    match resolution {
        DirResolution::ProjectRootNotFound => {
            let r = Discovery {
                units: Vec::new(),
                warning: Some(DiscoveryWarning::ProjectDirNotFound),
            };
            assert(r.units.deep_view() =~= Seq::<UnitModel>::empty());
            r
        },
        DirResolution::Resolved(dir) => {
            if project {
                discover_project(&dir, listing)
            } else {
                discover_standalone(root, listing)
            }
        },
    }
}

/// Project-scoped discovery against the resolved source directory.
fn discover_project(dir: &FsPath, listing: &ScanListing) -> (r: Discovery)
    requires
        dir@.len() > 0,
    ensures
        r.warning == (if listing.dir_exists {
            Option::<DiscoveryWarning>::None
        } else {
            Option::<DiscoveryWarning>::Some(DiscoveryWarning::SourceDirMissing)
        }),
        listing.dir_exists ==> r.units.deep_view() == spec_project_units(
            dir@,
            listing.files.deep_view(),
        ),
        !listing.dir_exists ==> r.units.deep_view() == Seq::<UnitModel>::empty(),
        forall|k: int| 0 <= k < r.units@.len() ==> (#[trigger] r.units@[k]).wf(),
{
    if !listing.dir_exists {
        let r = Discovery { units: Vec::new(), warning: Some(DiscoveryWarning::SourceDirMissing) };
        assert(r.units.deep_view() =~= Seq::<UnitModel>::empty());
        return r;
    }
    let manifest = dir.parent().join("Cargo.toml");
    let mut units: Vec<ExerciseUnit> = Vec::new();

    let model_path = dir.join("model.rs");
    if contains_path(&listing.files, &model_path) {
        // the allow-list always knows this name, so the arm is unreachable
        let tests = match allowed_tests("model.rs") {
            Some(t) => t,
            None => {
                proof {
                    assert(false);
                }
                Vec::new()
            },
        };
        let unit = ExerciseUnit {
            path: model_path,
            layout_kind: LayoutKind::ProjectScoped,
            test_names: tests,
            manifest_path: Some(manifest.duplicate()),
        };
        assert(unit@ == project_unit(dir@, "model.rs"@));
        assert(unit.wf());
        units.push(unit);
    }

    let operators_path = dir.join("operators.rs");
    if contains_path(&listing.files, &operators_path) {
        // the allow-list always knows this name, so the arm is unreachable
        let tests = match allowed_tests("operators.rs") {
            Some(t) => t,
            None => {
                proof {
                    assert(false);
                }
                Vec::new()
            },
        };
        let unit = ExerciseUnit {
            path: operators_path,
            layout_kind: LayoutKind::ProjectScoped,
            test_names: tests,
            manifest_path: Some(manifest),
        };
        assert(unit@ == project_unit(dir@, "operators.rs"@));
        assert(unit.wf());
        units.push(unit);
    }

    let r = Discovery { units: units, warning: None };
    assert(r.units.deep_view() =~= spec_project_units(dir@, listing.files.deep_view()));
    r
}

/// Standalone discovery against the exercises directory under the root.
fn discover_standalone(root: &FsPath, listing: &ScanListing) -> (r: Discovery)
    ensures
        r.warning == (if listing.dir_exists {
            Option::<DiscoveryWarning>::None
        } else {
            Option::<DiscoveryWarning>::Some(DiscoveryWarning::ExercisesDirMissing)
        }),
        listing.dir_exists ==> r.units.deep_view() == spec_sort_paths(
            spec_filter_standalone(spec_standalone_base(root@), listing.files.deep_view()),
        ).map_values(|p: PathView| standalone_unit(p)),
        !listing.dir_exists ==> r.units.deep_view() == Seq::<UnitModel>::empty(),
        forall|k: int| 0 <= k < r.units@.len() ==> (#[trigger] r.units@[k]).wf(),
{
    if !listing.dir_exists {
        let r = Discovery {
            units: Vec::new(),
            warning: Some(DiscoveryWarning::ExercisesDirMissing),
        };
        assert(r.units.deep_view() =~= Seq::<UnitModel>::empty());
        return r;
    }
    let base = if root.last_is("exercises") {
        root.duplicate()
    } else {
        root.join("exercises")
    };
    assert(base@ == spec_standalone_base(root@));

    let ghost files_v = listing.files.deep_view();
    let mut cand: Vec<FsPath> = Vec::new();
    let mut i: usize = 0;
    assert(cand.deep_view() =~= spec_filter_standalone(base@, files_v.take(0)));
    while i < listing.files.len()
        invariant
            i <= listing.files@.len(),
            files_v == listing.files.deep_view(),
            files_v.len() == listing.files@.len(),
            base@ == spec_standalone_base(root@),
            cand.deep_view() == spec_filter_standalone(base@, files_v.take(i as int)),
        decreases listing.files@.len() - i,
    {
        let f = &listing.files[i];
        assert(f@ == files_v[i as int]);
        let keep = f.is_under(&base) && !f.contains_seg("target") && standalone_name_ok(f);
        assert(keep == standalone_candidate(base@, files_v[i as int]));
        proof {
            assert(files_v.take(i + 1).drop_last() =~= files_v.take(i as int));
            assert(files_v.take(i + 1).last() == files_v[i as int]);
        }
        if keep {
            let ghost prev = cand.deep_view();
            cand.push(f.duplicate());
            assert(cand.deep_view() =~= prev.push(files_v[i as int]));
        }
        i = i + 1;
    }
    assert(files_v.take(files_v.len() as int) =~= files_v);

    let sorted = sort_paths(cand);
    let ghost sorted_v = sorted.deep_view();
    proof {
        assert forall|m: int| 0 <= m < sorted_v.len() implies (#[trigger] sorted_v[m]).len()
            > 0 by {
            assert(sorted_v.contains(sorted_v[m]));
            lemma_sort_elem(spec_filter_standalone(base@, files_v), sorted_v[m]);
            lemma_filter_elem(base@, files_v, sorted_v[m]);
        }
    }

    let mut units: Vec<ExerciseUnit> = Vec::new();
    let mut k: usize = 0;
    assert(units.deep_view() =~= sorted_v.take(0).map_values(|p: PathView| standalone_unit(p)));
    while k < sorted.len()
        invariant
            k <= sorted@.len(),
            sorted_v == sorted.deep_view(),
            sorted_v.len() == sorted@.len(),
            units.deep_view() == sorted_v.take(k as int).map_values(
                |p: PathView| standalone_unit(p),
            ),
            forall|m: int| 0 <= m < sorted_v.len() ==> (#[trigger] sorted_v[m]).len() > 0,
            forall|j: int| 0 <= j < units@.len() ==> (#[trigger] units@[j]).wf(),
        decreases sorted@.len() - k,
    {
        let unit = ExerciseUnit {
            path: sorted[k].duplicate(),
            layout_kind: LayoutKind::Standalone,
            test_names: Vec::new(),
            manifest_path: None,
        };
        assert(unit.test_names.deep_view() =~= Seq::<Seq<char>>::empty());
        assert(unit@ == standalone_unit(sorted_v[k as int]));
        assert(unit.wf());
        let ghost prev = units.deep_view();
        units.push(unit);
        proof {
            assert(units.deep_view() =~= prev.push(standalone_unit(sorted_v[k as int])));
            assert(sorted_v.take(k + 1).map_values(|p: PathView| standalone_unit(p)) =~= sorted_v
                .take(k as int).map_values(|p: PathView| standalone_unit(p)).push(
                standalone_unit(sorted_v[k as int]),
            ));
        }
        k = k + 1;
    }
    assert(sorted_v.take(sorted_v.len() as int) =~= sorted_v);

    let r = Discovery { units: units, warning: None };
    r
}

/// Insertion into a sorted sequence keeps it sorted.
proof fn lemma_sorted_insert_sorted(s: Seq<PathView>, p: PathView)
    requires
        paths_sorted(s),
    ensures
        paths_sorted(spec_sorted_insert(s, p)),
    decreases s.len(),
{
    let r = spec_sorted_insert(s, p);
    if s.len() == 0 {
    } else if segs_le(p, s[0]) {
        assert forall|a: int, b: int| 0 <= a < b < r.len() implies segs_le(
            #[trigger] r[a],
            #[trigger] r[b],
        ) by {
            if a == 0 {
                if b == 1 {
                } else {
                    assert(segs_le(s[0], s[b - 1]));
                    lemma_segs_le_trans(p, s[0], s[b - 1]);
                }
            } else {
                assert(segs_le(s[a - 1], s[b - 1]));
            }
        }
    } else {
        lemma_segs_le_total(p, s[0]);
        assert(segs_le(s[0], p));
        assert(paths_sorted(s.drop_first())) by {
            assert forall|a: int, b: int| 0 <= a < b < s.drop_first().len() implies segs_le(
                #[trigger] s.drop_first()[a],
                #[trigger] s.drop_first()[b],
            ) by {
                assert(segs_le(s[a + 1], s[b + 1]));
            }
        }
        lemma_sorted_insert_sorted(s.drop_first(), p);
        let inner = spec_sorted_insert(s.drop_first(), p);
        assert forall|a: int, b: int| 0 <= a < b < r.len() implies segs_le(
            #[trigger] r[a],
            #[trigger] r[b],
        ) by {
            if a == 0 {
                let x = inner[b - 1];
                assert(inner.contains(x));
                lemma_sorted_insert_elem(s.drop_first(), p, x);
                if x == p {
                    assert(segs_le(s[0], p));
                } else {
                    let j = choose|j: int|
                        0 <= j < s.drop_first().len() && s.drop_first()[j] == x;
                    assert(segs_le(s[0], s[j + 1]));
                }
            } else {
                assert(segs_le(inner[a - 1], inner[b - 1]));
            }
        }
    }
}

/// Sorting yields a sorted sequence.
proof fn lemma_sort_paths_sorted(s: Seq<PathView>)
    ensures
        paths_sorted(spec_sort_paths(s)),
    decreases s.len(),
{
    if s.len() > 0 {
        lemma_sort_paths_sorted(s.drop_last());
        lemma_sorted_insert_sorted(spec_sort_paths(s.drop_last()), s.last());
    }
}

/// Standalone discovery emits its units in lexicographic path order.
pub proof fn lemma_discovery_order_lexical(root: PathView, dir_exists: bool, files: Seq<PathView>)
    requires
        !spec_is_project_layout(root),
    ensures
        ({
            let units = spec_discover(root, dir_exists, files).units;
            forall|a: int, b: int|
                0 <= a < b < units.len() ==> segs_le(
                    (#[trigger] units[a]).path,
                    (#[trigger] units[b]).path,
                )
        }),
{
    if dir_exists {
        let base = spec_standalone_base(root);
        let sorted = spec_sort_paths(spec_filter_standalone(base, files));
        lemma_sort_paths_sorted(spec_filter_standalone(base, files));
        let units = spec_discover(root, dir_exists, files).units;
        assert forall|a: int, b: int| 0 <= a < b < units.len() implies segs_le(
            (#[trigger] units[a]).path,
            (#[trigger] units[b]).path,
        ) by {
            assert(units[a] == standalone_unit(sorted[a]));
            assert(units[b] == standalone_unit(sorted[b]));
            assert(segs_le(sorted[a], sorted[b]));
        }
    }
}

/// Discovery is deterministic: two discovery results for the same root
/// and the same filesystem snapshot carry the same ordered units and the
/// same warning.
pub proof fn lemma_discovery_deterministic(
    a: Discovery,
    b: Discovery,
    root: PathView,
    dir_exists: bool,
    files: Seq<PathView>,
)
    requires
        discovery_matches(a, root, dir_exists, files),
        discovery_matches(b, root, dir_exists, files),
    ensures
        a.units.deep_view() == b.units.deep_view(),
        a.warning == b.warning,
{
}

/// Standalone discovery never emits a file whose name starts with either
/// reserved prefix; every emitted unit is a standalone candidate.
pub proof fn lemma_standalone_excludes_reserved(
    root: PathView,
    dir_exists: bool,
    files: Seq<PathView>,
    k: int,
)
    requires
        !spec_is_project_layout(root),
        0 <= k < spec_discover(root, dir_exists, files).units.len(),
    ensures
        ({
            let u = spec_discover(root, dir_exists, files).units[k];
            &&& u.layout_kind == LayoutKind::Standalone
            &&& u.path.len() > 0
            &&& !starts_with(u.path.last(), "test_"@)
            &&& !starts_with(u.path.last(), "helper_"@)
        }),
{
    let m = spec_discover(root, dir_exists, files);
    let base = spec_standalone_base(root);
    let sorted = spec_sort_paths(spec_filter_standalone(base, files));
    assert(m.units[k] == standalone_unit(sorted[k]));
    assert(sorted.contains(sorted[k]));
    lemma_sort_elem(spec_filter_standalone(base, files), sorted[k]);
    lemma_filter_elem(base, files, sorted[k]);
}

/// Project-scoped discovery emits a unit for a file name if and only if
/// the name is on the fixed allow-list and the file exists in the
/// resolved source directory.
pub proof fn lemma_project_allowlist(root: PathView, files: Seq<PathView>, name: Seq<char>)
    requires
        spec_is_project_layout(root),
        spec_resolve_scan_dir(root) is Some,
    ensures
        ({
            let dir = spec_resolve_scan_dir(root).unwrap();
            let units = spec_discover(root, true, files).units;
            (exists|k: int| 0 <= k < units.len() && (#[trigger] units[k]).path == dir.push(name))
                <==> (spec_allowed_tests(name) is Some && files.contains(dir.push(name)))
        }),
{
    let dir = spec_resolve_scan_dir(root).unwrap();
    let units = spec_discover(root, true, files).units;
    assert(units == spec_project_units(dir, files));
    let has_model = files.contains(dir.push("model.rs"@));
    let has_operators = files.contains(dir.push("operators.rs"@));

    if exists|k: int| 0 <= k < units.len() && (#[trigger] units[k]).path == dir.push(name) {
        let k = choose|k: int|
            0 <= k < units.len() && (#[trigger] units[k]).path == dir.push(name);
        let u = units[k];
        if has_model && k == 0 {
            assert(u == project_unit(dir, "model.rs"@));
            assert(dir.push("model.rs"@).last() == "model.rs"@);
            assert(name == "model.rs"@);
        } else {
            assert(has_operators);
            assert(u == project_unit(dir, "operators.rs"@));
            assert(dir.push("operators.rs"@).last() == "operators.rs"@);
            assert(name == "operators.rs"@);
        }
    }

    if spec_allowed_tests(name) is Some && files.contains(dir.push(name)) {
        if name == "model.rs"@ {
            assert(units[0].path == dir.push(name));
        } else {
            assert(name == "operators.rs"@);
            if has_model {
                assert(units[1].path == dir.push(name));
            } else {
                assert(units[0].path == dir.push(name));
            }
        }
    }
}

} // verus!
