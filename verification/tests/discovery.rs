use grader::discover::{discover, layout_of, resolve_scan_dir, DirResolution, Discovery,
    DiscoveryWarning, ScanListing};
use grader::fspath::FsPath;
use grader::units::{allowed_tests, LayoutKind};

fn path(segs: &[&str]) -> FsPath {
    FsPath { segments: segs.iter().map(|s| s.to_string()).collect() }
}

fn seg_strs(p: &FsPath) -> Vec<String> {
    p.segments.clone()
}

#[test]
fn layout_is_standalone_without_marker() {
    assert!(matches!(layout_of(&path(&["home", "course"])), LayoutKind::Standalone));
}

#[test]
fn layout_is_project_scoped_with_marker() {
    assert!(matches!(
        layout_of(&path(&["home", "learning-lm-rs", "src"])),
        LayoutKind::ProjectScoped
    ));
}

#[test]
fn standalone_root_resolves_to_exercises_subdir() {
    match resolve_scan_dir(&path(&["home", "course"])) {
        DirResolution::Resolved(d) => {
            assert_eq!(seg_strs(&d), vec!["home", "course", "exercises"]);
        }
        DirResolution::ProjectRootNotFound => panic!("expected a resolved directory"),
    }
}

#[test]
fn standalone_root_already_at_exercises_is_kept() {
    match resolve_scan_dir(&path(&["home", "exercises"])) {
        DirResolution::Resolved(d) => {
            assert_eq!(seg_strs(&d), vec!["home", "exercises"]);
        }
        DirResolution::ProjectRootNotFound => panic!("expected a resolved directory"),
    }
}

#[test]
fn project_root_at_marker_descends_into_src() {
    match resolve_scan_dir(&path(&["repo", "learning-lm-rs"])) {
        DirResolution::Resolved(d) => {
            assert_eq!(seg_strs(&d), vec!["repo", "learning-lm-rs", "src"]);
        }
        DirResolution::ProjectRootNotFound => panic!("expected a resolved directory"),
    }
}

#[test]
fn project_root_below_src_walks_up_to_marker() {
    match resolve_scan_dir(&path(&["repo", "learning-lm-rs", "src", "models"])) {
        DirResolution::Resolved(d) => {
            assert_eq!(seg_strs(&d), vec!["repo", "learning-lm-rs", "src"]);
        }
        DirResolution::ProjectRootNotFound => panic!("expected a resolved directory"),
    }
}

#[test]
fn marker_substring_in_segment_is_not_project_layout() {
    // the marker must be a whole segment, not a substring of one
    assert!(matches!(
        layout_of(&path(&["home", "learning-lm-rs-fork"])),
        LayoutKind::Standalone
    ));
    match resolve_scan_dir(&path(&["home", "learning-lm-rs-fork"])) {
        DirResolution::Resolved(d) => {
            assert_eq!(seg_strs(&d), vec!["home", "learning-lm-rs-fork", "exercises"]);
        }
        DirResolution::ProjectRootNotFound => panic!("expected the standalone branch"),
    }
}

#[test]
fn missing_exercises_dir_gives_empty_units_and_warning() {
    let root = path(&["home", "course"]);
    let listing = ScanListing { dir_exists: false, files: Vec::new() };
    let d: Discovery = discover(&root, &listing);
    assert_eq!(d.units.len(), 0);
    assert!(matches!(d.warning, Some(DiscoveryWarning::ExercisesDirMissing)));
}

#[test]
fn standalone_discovery_filters_and_sorts() {
    let root = path(&["home", "course"]);
    let files = vec![
        path(&["home", "course", "exercises", "b", "late.rs"]),
        path(&["home", "course", "exercises", "a", "early.rs"]),
        path(&["home", "course", "exercises", "a", "test_helpers.rs"]),
        path(&["home", "course", "exercises", "a", "helper_io.rs"]),
        path(&["home", "course", "exercises", "a", "notes.txt"]),
        path(&["home", "course", "exercises", "target", "built.rs"]),
        path(&["home", "course", "other", "stray.rs"]),
    ];
    let listing = ScanListing { dir_exists: true, files };
    let d = discover(&root, &listing);
    assert!(d.warning.is_none());
    let names: Vec<Vec<String>> = d.units.iter().map(|u| seg_strs(&u.path)).collect();
    assert_eq!(names, vec![
        vec!["home", "course", "exercises", "a", "early.rs"],
        vec!["home", "course", "exercises", "b", "late.rs"],
    ]);
    for u in d.units.iter() {
        assert!(matches!(u.layout_kind, LayoutKind::Standalone));
        assert!(u.test_names.is_empty());
        assert!(u.manifest_path.is_none());
    }
}

#[test]
fn standalone_discovery_excludes_reserved_prefixes() {
    let root = path(&["c"]);
    let files = vec![
        path(&["c", "exercises", "test_one.rs"]),
        path(&["c", "exercises", "helper_two.rs"]),
        path(&["c", "exercises", "three.rs"]),
    ];
    let listing = ScanListing { dir_exists: true, files };
    let d = discover(&root, &listing);
    assert_eq!(d.units.len(), 1);
    assert_eq!(seg_strs(&d.units[0].path), vec!["c", "exercises", "three.rs"]);
}

#[test]
fn project_discovery_emits_only_allow_listed_files() {
    let root = path(&["repo", "learning-lm-rs"]);
    let src = &["repo", "learning-lm-rs", "src"];
    let files = vec![
        path(&[src[0], src[1], src[2], "model.rs"]),
        path(&[src[0], src[1], src[2], "operators.rs"]),
        path(&[src[0], src[1], src[2], "utils.rs"]),
    ];
    let listing = ScanListing { dir_exists: true, files };
    let d = discover(&root, &listing);
    assert!(d.warning.is_none());
    assert_eq!(d.units.len(), 2);

    let first = &d.units[0];
    assert_eq!(seg_strs(&first.path), vec!["repo", "learning-lm-rs", "src", "model.rs"]);
    assert!(matches!(first.layout_kind, LayoutKind::ProjectScoped));
    assert_eq!(first.test_names, vec!["test_mlp", "test_load_safetensors"]);
    assert_eq!(
        seg_strs(first.manifest_path.as_ref().unwrap()),
        vec!["repo", "learning-lm-rs", "Cargo.toml"]
    );

    let second = &d.units[1];
    assert_eq!(seg_strs(&second.path), vec!["repo", "learning-lm-rs", "src", "operators.rs"]);
    assert_eq!(
        second.test_names,
        vec!["test_matmul_transb", "test_silu", "test_rms_norm"]
    );
}

#[test]
fn project_discovery_with_missing_src_dir_warns() {
    let root = path(&["repo", "learning-lm-rs"]);
    let listing = ScanListing { dir_exists: false, files: Vec::new() };
    let d = discover(&root, &listing);
    assert_eq!(d.units.len(), 0);
    assert!(matches!(d.warning, Some(DiscoveryWarning::SourceDirMissing)));
}

#[test]
fn discovery_is_deterministic_for_equal_snapshots() {
    let root = path(&["home", "course"]);
    let files = vec![
        path(&["home", "course", "exercises", "z.rs"]),
        path(&["home", "course", "exercises", "a.rs"]),
    ];
    let l1 = ScanListing { dir_exists: true, files: files.iter().map(|f| f.duplicate()).collect() };
    let l2 = ScanListing { dir_exists: true, files };
    let d1 = discover(&root, &l1);
    let d2 = discover(&root, &l2);
    let n1: Vec<Vec<String>> = d1.units.iter().map(|u| seg_strs(&u.path)).collect();
    let n2: Vec<Vec<String>> = d2.units.iter().map(|u| seg_strs(&u.path)).collect();
    assert_eq!(n1, n2);
}

#[test]
fn discovery_orders_paths_segment_by_segment() {
    // a shorter first segment precedes a longer one that extends it
    let root = path(&["c"]);
    let files = vec![
        path(&["c", "exercises", "ab.rs"]),
        path(&["c", "exercises", "a", "b.rs"]),
    ];
    let listing = ScanListing { dir_exists: true, files };
    let d = discover(&root, &listing);
    assert_eq!(d.units.len(), 2);
    assert_eq!(seg_strs(&d.units[0].path), vec!["c", "exercises", "a", "b.rs"]);
    assert_eq!(seg_strs(&d.units[1].path), vec!["c", "exercises", "ab.rs"]);
}

#[test]
fn discovery_keeps_duplicate_listings_deterministically() {
    let root = path(&["c"]);
    let files = vec![
        path(&["c", "exercises", "one.rs"]),
        path(&["c", "exercises", "one.rs"]),
    ];
    let listing = ScanListing { dir_exists: true, files };
    let d = discover(&root, &listing);
    assert_eq!(d.units.len(), 2);
    assert_eq!(seg_strs(&d.units[0].path), seg_strs(&d.units[1].path));
}

#[test]
fn allow_list_is_fixed() {
    assert_eq!(allowed_tests("model.rs").unwrap(), vec!["test_mlp", "test_load_safetensors"]);
    assert_eq!(
        allowed_tests("operators.rs").unwrap(),
        vec!["test_matmul_transb", "test_silu", "test_rms_norm"]
    );
    assert!(allowed_tests("utils.rs").is_none());
    assert!(allowed_tests("model").is_none());
}
