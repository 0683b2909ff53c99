use build_sweep::built_project::classify;
use build_sweep::fs_model::measured_last_modified;
use build_sweep::fs_model::measured_size;
use build_sweep::BuiltProject;
use build_sweep::DirTree;
use build_sweep::FileEntry;

fn file(name: &str, size: u64, modified: u64) -> FileEntry {
    FileEntry {
        name: name.to_string(),
        size,
        modified,
    }
}

fn dir(
    path: &str,
    name: &str,
    modified: u64,
    files: Vec<FileEntry>,
    subdirs: Vec<DirTree>,
) -> DirTree {
    DirTree {
        path: path.to_string(),
        name: name.to_string(),
        modified,
        readable: true,
        files,
        subdirs,
    }
}

fn rust_project_with_target() -> DirTree {
    dir(
        "proj",
        "proj",
        100,
        vec![file("Cargo.toml", 120, 90)],
        vec![dir(
            "proj/target",
            "target",
            95,
            vec![file("app.bin", 2048, 95)],
            vec![],
        )],
    )
}

#[test]
fn classify_rust_project_returns_target() {
    let d = rust_project_with_target();
    let build = classify(&d).expect("a Rust project with target must classify");
    assert_eq!(build.path, "proj/target");
    assert_eq!(build.name, "target");
}

#[test]
fn classify_rust_project_without_target_is_no_match() {
    let d = dir("proj", "proj", 100, vec![file("Cargo.toml", 120, 90)], vec![]);
    assert!(classify(&d).is_none());
}

#[test]
fn classify_unity_project_returns_library() {
    let d = dir(
        "game",
        "game",
        100,
        vec![],
        vec![
            dir(
                "game/ProjectSettings",
                "ProjectSettings",
                80,
                vec![file("ProjectSettings.asset", 64, 80)],
                vec![],
            ),
            dir("game/Library", "Library", 85, vec![], vec![]),
        ],
    );
    let build = classify(&d).expect("a Unity project with Library must classify");
    assert_eq!(build.path, "game/Library");
}

#[test]
fn classify_unity_project_without_library_is_no_match() {
    let d = dir(
        "game",
        "game",
        100,
        vec![],
        vec![dir(
            "game/ProjectSettings",
            "ProjectSettings",
            80,
            vec![file("ProjectSettings.asset", 64, 80)],
            vec![],
        )],
    );
    assert!(classify(&d).is_none());
}

#[test]
fn classify_plain_directory_is_no_match() {
    let d = dir("misc", "misc", 10, vec![file("notes.txt", 5, 9)], vec![]);
    assert!(classify(&d).is_none());
}

#[test]
fn classify_unreadable_directory_is_no_match() {
    let mut d = rust_project_with_target();
    d.readable = false;
    d.files = vec![];
    d.subdirs = vec![];
    assert!(classify(&d).is_none());
}

#[test]
fn classify_rust_marker_takes_precedence_over_unity() {
    // A directory carrying both markers follows the Rust rule: first match wins.
    let d = dir(
        "both",
        "both",
        100,
        vec![file("Cargo.toml", 120, 90)],
        vec![
            dir(
                "both/ProjectSettings",
                "ProjectSettings",
                80,
                vec![file("ProjectSettings.asset", 64, 80)],
                vec![],
            ),
            dir("both/Library", "Library", 85, vec![], vec![]),
            dir("both/target", "target", 95, vec![], vec![]),
        ],
    );
    let build = classify(&d).expect("both markers still classify");
    assert_eq!(build.path, "both/target");
}

#[test]
fn classify_twice_is_idempotent() {
    let d = rust_project_with_target();
    let first = classify(&d).map(|b| b.path.clone());
    let second = classify(&d).map(|b| b.path.clone());
    assert_eq!(first, second);
}

#[test]
fn size_mb_is_floor_of_transitive_byte_sum() {
    // 1_048_576 + 1_048_575 = 2_097_151 bytes: just below 2 MB.
    let d = dir(
        "build",
        "build",
        10,
        vec![file("a.o", 1_048_576, 5)],
        vec![dir(
            "build/deep",
            "deep",
            6,
            vec![file("b.o", 1_048_575, 6)],
            vec![],
        )],
    );
    assert_eq!(measured_size(&d), 2_097_151);
    let rec = BuiltProject::new(&d);
    assert_eq!(rec.size, 1);
    assert_eq!(rec.path, "build");
}

#[test]
fn size_mb_of_directory_with_no_files_is_zero() {
    let d = dir(
        "empty",
        "empty",
        10,
        vec![],
        vec![dir("empty/sub", "sub", 9, vec![], vec![])],
    );
    assert_eq!(measured_size(&d), 0);
    assert_eq!(BuiltProject::new(&d).size, 0);
}

#[test]
fn last_modified_is_max_of_direct_children() {
    let d = dir(
        "build",
        "build",
        10,
        vec![file("old.o", 1, 50), file("new.o", 1, 200)],
        vec![dir("build/sub", "sub", 120, vec![file("x", 1, 999)], vec![])],
    );
    // The grandchild stamp 999 is not a direct child; the newest direct child
    // is the file stamped 200.
    assert_eq!(measured_last_modified(&d), 200);
    assert_eq!(BuiltProject::new(&d).last_modified, 200);
}

#[test]
fn last_modified_of_childless_directory_is_its_own_stamp() {
    let d = dir("build", "build", 77, vec![], vec![]);
    assert_eq!(measured_last_modified(&d), 77);
    assert_eq!(BuiltProject::new(&d).last_modified, 77);
}

#[test]
fn check_at_path_measures_the_build_directory() {
    let d = rust_project_with_target();
    let rec = BuiltProject::check_at_path(&d).expect("classifies");
    assert_eq!(rec.path, "proj/target");
    assert_eq!(rec.size, 0);
    assert_eq!(rec.last_modified, 95);
}
