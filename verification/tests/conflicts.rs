use cargo_sane::analyzer::conflicts::{ConflictDetector, ConflictReport, DuplicatesStep};

fn strings(items: &[&str]) -> Vec<String> {
    items.iter().map(|s| s.to_string()).collect()
}

#[test]
fn two_versions_of_one_package_are_one_conflict() {
    let detector = ConflictDetector::new();
    let conflicts = detector.parse_duplicates("foo v1.0.0\nfoo v1.0.1\nfoo v1.0.1\n");
    assert_eq!(conflicts.len(), 1);
    let c = &conflicts[0];
    assert_eq!(c.package_name, "foo");
    assert_eq!(c.versions, strings(&["1.0.0", "1.0.1"]));
    assert_eq!(c.suggested_version, Some("1.0.1".to_string()));
    assert_eq!(c.dependents, strings(&["(dependency tree)"; 3]));
}

#[test]
fn repeated_identical_version_is_no_conflict() {
    let detector = ConflictDetector::new();
    assert!(detector.parse_duplicates("foo v1.0.0\nfoo v1.0.0\nfoo v1.0.0\n").is_empty());
    let conflicts = detector.parse_duplicates("foo v1.0.0\nbar v2.0.0\nfoo v1.0.0\nbar v2.1.0\n");
    assert_eq!(conflicts.len(), 1);
    assert_eq!(conflicts[0].package_name, "bar");
}

#[test]
fn conflicts_come_sorted_by_name() {
    let detector = ConflictDetector::new();
    let listing = "zeta v1.0.0\nalpha v0.1.0\nmid v3.0.0\nzeta v2.0.0\nmid v3.0.1\nalpha v0.2.0\nAlpha v1.0.0\nAlpha v1.1.0\n";
    let names: Vec<String> = detector
        .parse_duplicates(listing)
        .into_iter()
        .map(|c| c.package_name)
        .collect();
    assert_eq!(names, strings(&["Alpha", "alpha", "mid", "zeta"]));
}

#[test]
fn the_drawn_tree_is_not_part_of_the_name() {
    let detector = ConflictDetector::new();
    let listing = "\
syn v1.0.109
`-- old-derive v0.3.0 (proc-macro)
    `-- app v0.1.0 (/work/app)

syn v2.0.50
|-- serde_derive v1.0.197 (proc-macro)
|   `-- serde v1.0.197
|       `-- app v0.1.0 (/work/app)
`-- thiserror-impl v1.0.57 (proc-macro)
    |-- thiserror v1.0.57
";
    let conflicts = detector.parse_duplicates(listing);
    assert_eq!(conflicts.len(), 1);
    assert_eq!(conflicts[0].package_name, "syn");
    assert_eq!(conflicts[0].versions, strings(&["1.0.109", "2.0.50"]));
    assert_eq!(conflicts[0].suggested_version, Some("2.0.50".to_string()));
    assert_eq!(conflicts[0].dependents.len(), 2);
}

#[test]
fn lines_of_another_form_are_passed_over() {
    let detector = ConflictDetector::new();
    assert!(detector.parse_duplicates("").is_empty());
    assert!(detector.parse_duplicates("\n\n   \n").is_empty());
    assert!(detector.parse_duplicates("foo\nfoo 1.0.0\nfoo 2.0.0\n").is_empty());
    assert!(detector.parse_duplicates("--- v1\n--- v2\n").is_empty());
    let conflicts = detector.parse_duplicates("foo v1 (extra)\r\n\tfoo   v2\r\n");
    assert_eq!(conflicts.len(), 1);
    assert_eq!(conflicts[0].versions, strings(&["1", "2"]));
    assert_eq!(conflicts[0].suggested_version, None);
}

#[test]
fn suggestion_is_the_highest_semantic_version() {
    let detector = ConflictDetector::new();
    assert_eq!(
        detector.suggest_version(&strings(&["1.0.0", "1.0.1"])),
        Some("1.0.1".to_string())
    );
    assert_eq!(
        detector.suggest_version(&strings(&["2.0.0", "10.0.0", "9.9.9"])),
        Some("10.0.0".to_string())
    );
    assert_eq!(
        detector.suggest_version(&strings(&["1.0.0", "not-a-version", "0.9"])),
        Some("1.0.0".to_string())
    );
    assert_eq!(
        detector.suggest_version(&strings(&["1.0.0-alpha", "1.0.0", "1.0.0-beta"])),
        Some("1.0.0".to_string())
    );
    assert_eq!(
        detector.suggest_version(&strings(&["1.0.0-alpha.2", "1.0.0-alpha.10"])),
        Some("1.0.0-alpha.10".to_string())
    );
    assert_eq!(
        detector.suggest_version(&strings(&["1.0.0+b", "1.0.0", "1.0.0+a", "0.9.9+z"])),
        Some("1.0.0+b".to_string())
    );
    assert_eq!(
        detector.suggest_version(&strings(&["2.0.0-rc.1", "1.9.9", "2.0.0-beta", "2.0.0-rc.1"])),
        Some("2.0.0-rc.1".to_string())
    );
    assert_eq!(detector.suggest_version(&strings(&["one", "1", "1.0"])), None);
    assert_eq!(detector.suggest_version(&[].to_vec()), None);
}

#[test]
fn report_tells_whether_there_are_conflicts() {
    let detector = ConflictDetector::new();
    let empty = ConflictReport::new(vec![], 12);
    assert!(!empty.has_conflicts);
    assert_eq!(empty.total_packages, 12);
    assert!(empty.conflicts.is_empty());
    let conflicts = detector.parse_duplicates("foo v1.0.0\nfoo v1.0.1\n");
    let report = ConflictReport::new(conflicts, 3);
    assert!(report.has_conflicts);
    assert_eq!(report.conflicts.len(), 1);
}

#[test]
fn unresolved_graph_is_an_empty_report() {
    let detector = ConflictDetector::new();
    let step = detector.after_duplicates(
        false,
        "",
        "error: failed to read Cargo.lock: no such file",
    );
    match step {
        DuplicatesStep::Finished(report) => {
            assert!(report.conflicts.is_empty());
            assert_eq!(report.total_packages, 0);
            assert!(!report.has_conflicts);
        }
        other => panic!("unexpected: {:?}", other),
    }
}

#[test]
fn other_failure_of_the_tool_is_an_error() {
    let detector = ConflictDetector::new();
    match detector.after_duplicates(false, "foo v1\nfoo v2\n", "error: could not find manifest") {
        DuplicatesStep::Failed(message) => {
            assert_eq!(message, "cargo tree failed: error: could not find manifest")
        }
        other => panic!("unexpected: {:?}", other),
    }
    match detector.after_duplicates(false, "", "") {
        DuplicatesStep::Failed(message) => assert_eq!(message, "cargo tree failed: "),
        other => panic!("unexpected: {:?}", other),
    }
}

#[test]
fn successful_run_gives_the_conflicts_and_the_count() {
    let detector = ConflictDetector::new();
    let conflicts = match detector.after_duplicates(true, "foo v1.0.0\nfoo v1.0.1\n", "warning: Cargo.lock") {
        DuplicatesStep::ListAll(conflicts) => conflicts,
        other => panic!("unexpected: {:?}", other),
    };
    assert_eq!(conflicts.len(), 1);
    let report = detector.after_listing(conflicts.clone(), true, "app v0.1.0\nfoo v1.0.0\n\n  \nfoo v1.0.1\n");
    assert_eq!(report.total_packages, 3);
    assert!(report.has_conflicts);
    let report = detector.after_listing(conflicts, false, "app v0.1.0\n");
    assert_eq!(report.total_packages, 0);
    assert_eq!(report.conflicts.len(), 1);
    assert_eq!(detector.count_packages(""), 0);
    assert_eq!(detector.count_packages("a\r\nb\r\n\r\n"), 2);
    assert_eq!(detector.count_packages("one line"), 1);
}
