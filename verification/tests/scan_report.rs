use build_sweep::report::collect_failed_removals;
use build_sweep::report::filter_records;
use build_sweep::report::sort_by_size_desc;
use build_sweep::scan::scan;
use build_sweep::scan::scan_tree;
use build_sweep::BuiltProject;
use build_sweep::DirTree;
use build_sweep::FileEntry;
use build_sweep::RootEntry;
use build_sweep::ScanError;

fn file(name: &str, size: u64, modified: u64) -> FileEntry {
    FileEntry {
        name: name.to_string(),
        size,
        modified,
    }
}

fn dir(
    path: &str,
    name: &str,
    modified: u64,
    files: Vec<FileEntry>,
    subdirs: Vec<DirTree>,
) -> DirTree {
    DirTree {
        path: path.to_string(),
        name: name.to_string(),
        modified,
        readable: true,
        files,
        subdirs,
    }
}

fn record(path: &str, size: u64, last_modified: u64) -> BuiltProject {
    BuiltProject {
        path: path.to_string(),
        size,
        last_modified,
    }
}

/// Root holding `A` (a Rust project whose `target` files total 2,097,152
/// bytes across 50 files) and `B` (no markers).
fn scenario_root() -> DirTree {
    let mut target_files = Vec::new();
    for i in 0..49 {
        target_files.push(file(&format!("f{}", i), 41_943, 40));
    }
    target_files.push(file("f49", 41_945, 40));
    assert_eq!(target_files.iter().map(|f| f.size).sum::<u64>(), 2_097_152);
    dir(
        "root",
        "root",
        10,
        vec![],
        vec![
            dir(
                "root/A",
                "A",
                20,
                vec![file("Cargo.toml", 100, 15)],
                vec![dir("root/A/target", "target", 30, target_files, vec![])],
            ),
            dir("root/B", "B", 25, vec![file("readme.md", 10, 25)], vec![]),
        ],
    )
}

#[test]
fn scan_finds_exactly_the_marked_project() {
    let root = scenario_root();
    let records = scan_tree(&root, 1);
    assert_eq!(records.len(), 1);
    assert_eq!(records[0].path, "root/A/target");
    assert_eq!(records[0].size, 2);
    assert_eq!(records[0].last_modified, 40);
}

#[test]
fn scan_of_missing_root_fails_with_path_not_found() {
    let r = scan(&RootEntry::Missing, 1);
    assert_eq!(r.unwrap_err(), ScanError::PathNotFound);
}

#[test]
fn scan_of_non_directory_root_fails_with_not_a_directory() {
    let r = scan(&RootEntry::NonDirectory, 1);
    assert_eq!(r.unwrap_err(), ScanError::NotADirectory);
}

#[test]
fn scan_of_directory_root_succeeds() {
    let r = scan(&RootEntry::Directory(scenario_root()), 1);
    let records = r.expect("a directory root always scans");
    assert_eq!(records.len(), 1);
    assert_eq!(records[0].path, "root/A/target");
}

fn nested_two_levels() -> DirTree {
    dir(
        "root",
        "root",
        10,
        vec![],
        vec![dir(
            "root/mid",
            "mid",
            11,
            vec![],
            vec![dir(
                "root/mid/proj",
                "proj",
                12,
                vec![file("Cargo.toml", 100, 12)],
                vec![dir("root/mid/proj/target", "target", 13, vec![], vec![])],
            )],
        )],
    )
}

#[test]
fn depth_one_never_finds_a_project_two_levels_down() {
    let root = nested_two_levels();
    assert!(scan_tree(&root, 1).is_empty());
}

#[test]
fn depth_two_finds_a_project_two_levels_down() {
    let root = nested_two_levels();
    let records = scan_tree(&root, 2);
    assert_eq!(records.len(), 1);
    assert_eq!(records[0].path, "root/mid/proj/target");
}

#[test]
fn scan_results_do_not_depend_on_listing_order() {
    let root = scenario_root();
    let mut reversed = scenario_root();
    reversed.subdirs.reverse();
    let mut a: Vec<String> = scan_tree(&root, 1).into_iter().map(|r| r.path).collect();
    let mut b: Vec<String> = scan_tree(&reversed, 1)
        .into_iter()
        .map(|r| r.path)
        .collect();
    a.sort();
    b.sort();
    assert_eq!(a, b);
}

#[test]
fn filter_keeps_records_over_the_size_threshold() {
    let records = vec![record("a", 2, 0), record("b", 1, 0), record("c", 5, 0)];
    let kept = filter_records(records, 1, 10);
    let sizes: Vec<u64> = kept.iter().map(|r| r.size).collect();
    assert_eq!(sizes, vec![2, 5]);
}

#[test]
fn filter_drops_records_newer_than_the_cutoff() {
    let records = vec![record("old", 5, 10), record("new", 5, 99)];
    let kept = filter_records(records, 1, 50);
    assert_eq!(kept.len(), 1);
    assert_eq!(kept[0].path, "old");
}

#[test]
fn sort_orders_by_descending_size() {
    let records = vec![record("a", 2, 0), record("c", 5, 0)];
    let sorted = sort_by_size_desc(records);
    let sizes: Vec<u64> = sorted.iter().map(|r| r.size).collect();
    assert_eq!(sizes, vec![5, 2]);
}

#[test]
fn filter_then_sort_scenario() {
    let records = vec![record("a", 2, 0), record("b", 1, 0), record("c", 5, 0)];
    let sorted = sort_by_size_desc(filter_records(records, 1, 10));
    let sizes: Vec<u64> = sorted.iter().map(|r| r.size).collect();
    assert_eq!(sizes, vec![5, 2]);
}

#[test]
fn one_failed_deletion_does_not_hide_the_others() {
    let records = vec![record("a", 2, 0), record("b", 3, 0), record("c", 5, 0)];
    let outcomes = vec![None, Some("permission denied".to_string()), None];
    let total = records.len();
    let failed = collect_failed_removals(records, outcomes);
    assert_eq!(failed.len(), 1);
    assert_eq!(failed[0].0.path, "b");
    assert_eq!(failed[0].1, "permission denied");
    assert_eq!(total - failed.len(), 2);
}

#[test]
fn all_deletions_succeeding_reports_no_failures() {
    let records = vec![record("a", 2, 0), record("b", 3, 0)];
    let outcomes = vec![None, None];
    assert!(collect_failed_removals(records, outcomes).is_empty());
}
