use cargo_sane::analyzer::checker::{check_step, checked_dependency, pending_lookups, CheckStep};
use cargo_sane::analyzer::conflicts::{ConflictDetector, ConflictReport};
use cargo_sane::cli::commands::{
    apply_removals, apply_updates, command_arguments, dependencies_of_class,
    dependencies_with_update, fixable_packages, EditOutcome,
};
use cargo_sane::model::dependency::{Dependency, UpdateType};
use cargo_sane::model::manifest::{
    DependencySpec, DetailedDependency, Manifest, ManifestContent,
};
use cargo_sane::model::version::Version;
use cargo_sane::updater::DependencyUpdater;

fn detailed(version: Option<&str>, git: Option<&str>, path: Option<&str>) -> DependencySpec {
    DependencySpec::Detailed(DetailedDependency {
        version: version.map(|s| s.to_string()),
        git: git.map(|s| s.to_string()),
        path: path.map(|s| s.to_string()),
        features: None,
        optional: None,
        default_features: None,
        other: vec![],
    })
}

fn manifest(dependencies: Option<Vec<(String, DependencySpec)>>) -> Manifest {
    Manifest {
        path: "Cargo.toml".to_string(),
        content: ManifestContent {
            package: None,
            dependencies,
            dev_dependencies: None,
            build_dependencies: None,
        },
    }
}

fn dep(name: &str, current: (u64, u64, u64), latest: Option<(u64, u64, u64)>) -> Dependency {
    let d = Dependency::new(name.to_string(), Version::new(current.0, current.1, current.2), true);
    match latest {
        Some(l) => d.with_latest(Version::new(l.0, l.1, l.2)),
        None => d,
    }
}

fn strings(items: &[&str]) -> Vec<String> {
    items.iter().map(|s| s.to_string()).collect()
}

#[test]
fn manifest_without_dependency_section_has_nothing_to_check() {
    let m = manifest(None);
    assert!(m.get_dependencies().is_empty());
    assert!(pending_lookups(&m.get_dependencies()).is_empty());
}

#[test]
fn only_the_registry_dependency_is_looked_up() {
    let m = manifest(Some(vec![
        (
            "from-git".to_string(),
            detailed(Some("1.0.0"), Some("https://example.com/repo.git"), None),
        ),
        ("from-registry".to_string(), DependencySpec::Simple("^1.2".to_string())),
    ]));
    let pending = pending_lookups(&m.get_dependencies());
    assert_eq!(pending.len(), 1);
    assert_eq!(pending[0].name, "from-registry");
    assert_eq!(pending[0].current_version, Version::new(1, 2, 0));
    assert_eq!(pending[0].latest_version, None);
    assert!(pending[0].is_direct);
}

#[test]
fn steps_of_the_check() {
    assert!(matches!(
        check_step(&detailed(Some("1.0.0"), Some("g"), None)),
        CheckStep::SkipSource
    ));
    assert!(matches!(
        check_step(&detailed(Some("1.0.0"), None, Some("../p"))),
        CheckStep::SkipSource
    ));
    assert!(matches!(check_step(&detailed(None, None, None)), CheckStep::SkipUnversioned));
    match check_step(&DependencySpec::Simple("*".to_string())) {
        CheckStep::Unparsable(text) => assert_eq!(text, "*"),
        other => panic!("unexpected: {:?}", other),
    }
    match check_step(&DependencySpec::Simple(">=1.0, <2.0".to_string())) {
        CheckStep::Unparsable(text) => assert_eq!(text, ">=1.0, <2.0"),
        other => panic!("unexpected: {:?}", other),
    }
    match check_step(&detailed(Some("~0.4"), None, None)) {
        CheckStep::Lookup(current) => assert_eq!(current, Version::new(0, 4, 0)),
        other => panic!("unexpected: {:?}", other),
    }
}

#[test]
fn lookups_keep_the_order_of_declaration() {
    let deps = vec![
        ("b".to_string(), DependencySpec::Simple("2".to_string())),
        ("bad".to_string(), DependencySpec::Simple("two".to_string())),
        ("a".to_string(), DependencySpec::Simple("1.5".to_string())),
        ("local".to_string(), detailed(None, None, Some("."))),
        ("c".to_string(), detailed(Some("=3.1.4"), None, None)),
        ("none".to_string(), detailed(None, None, None)),
    ];
    let pending = pending_lookups(&deps);
    let found: Vec<(String, String)> =
        pending.iter().map(|d| (d.name.clone(), d.current_version.to_text())).collect();
    assert_eq!(
        found,
        vec![
            ("b".to_string(), "2.0.0".to_string()),
            ("a".to_string(), "1.5.0".to_string()),
            ("c".to_string(), "3.1.4".to_string())
        ]
    );
}

#[test]
fn failed_lookup_leaves_latest_unknown() {
    let pending = dep("a", (1, 0, 0), None);
    let checked = checked_dependency(pending.clone(), None);
    assert_eq!(checked.latest_version, None);
    assert_eq!(checked.update_type(), UpdateType::UpToDate);
    let checked = checked_dependency(pending, Some(Version::new(1, 1, 0)));
    assert_eq!(checked.latest_version, Some(Version::new(1, 1, 0)));
    assert_eq!(checked.name, "a");
    assert_eq!(checked.current_version, Version::new(1, 0, 0));
    assert!(checked.is_direct);
    assert_eq!(checked.update_type(), UpdateType::Minor);
}

#[test]
fn dependencies_by_class() {
    let deps = vec![
        dep("a", (1, 0, 0), Some((1, 0, 1))),
        dep("b", (1, 0, 0), None),
        dep("c", (1, 0, 0), Some((2, 0, 0))),
        dep("d", (1, 0, 0), Some((1, 1, 0))),
        dep("e", (1, 0, 0), Some((1, 0, 0))),
        dep("f", (1, 0, 0), Some((1, 0, 9))),
        dep("g", (1, 0, 0), Some((0, 9, 0))),
    ];
    assert_eq!(dependencies_of_class(&deps, UpdateType::Patch), vec![0, 5]);
    assert_eq!(dependencies_of_class(&deps, UpdateType::Minor), vec![3]);
    assert_eq!(dependencies_of_class(&deps, UpdateType::Major), vec![2]);
    assert_eq!(dependencies_of_class(&deps, UpdateType::UpToDate), vec![1, 4, 6]);
    assert_eq!(dependencies_with_update(&deps), vec![0, 2, 3, 5]);
    assert!(dependencies_with_update(&vec![]).is_empty());
}

#[test]
fn batch_of_updates_goes_on_after_a_miss() {
    let text = "[dependencies]\na = \"1.0.0\"\nb = { version = \"1.0.0\" }\nc = \"1.0.0\"\n";
    let mut updater = DependencyUpdater::new(manifest(None), text.to_string());
    let to_update = vec![
        dep("a", (1, 0, 0), Some((1, 0, 1))),
        dep("missing", (1, 0, 0), Some((9, 9, 9))),
        dep("c", (1, 0, 0), None),
        dep("b", (1, 0, 0), Some((2, 0, 0))),
        dep("a", (1, 0, 1), Some((1, 0, 2))),
    ];
    let outcomes = apply_updates(&mut updater, &to_update);
    assert_eq!(
        outcomes,
        vec![
            EditOutcome::Applied,
            EditOutcome::NotFound,
            EditOutcome::Skipped,
            EditOutcome::Applied,
            EditOutcome::Applied
        ]
    );
    assert_eq!(
        updater.get_content(),
        "[dependencies]\na = \"1.0.2\"\nb = { version = \"2.0.0\" }\nc = \"1.0.0\"\n"
    );
    assert!(apply_updates(&mut updater, &vec![]).is_empty());
}

#[test]
fn batch_of_removals_goes_on_after_a_miss() {
    let text = "[dependencies]\na = \"1.0.0\"\n# note\nb = { version = \"1.0.0\" }\nc = \"1.0.0\"\n";
    let mut updater = DependencyUpdater::new(manifest(None), text.to_string());
    let outcomes = apply_removals(&mut updater, &strings(&["c", "missing", "a", "a"]));
    assert_eq!(
        outcomes,
        vec![
            EditOutcome::Applied,
            EditOutcome::NotFound,
            EditOutcome::Applied,
            EditOutcome::NotFound
        ]
    );
    assert_eq!(updater.get_content(), "[dependencies]\n# note\nb = { version = \"1.0.0\" }\n");
}

#[test]
fn conflicts_that_can_be_acted_on() {
    let detector = ConflictDetector::new();
    let conflicts = detector.parse_duplicates(
        "zed v1.0.0\nzed v1.1.0\nodd vone\nodd vtwo\nabc v0.1.0\nabc v0.2.0\n",
    );
    let report = ConflictReport::new(conflicts, 6);
    assert_eq!(fixable_packages(&report), strings(&["abc", "zed"]));
    assert!(fixable_packages(&ConflictReport::new(vec![], 0)).is_empty());
}

#[test]
fn subcommand_name_is_left_out() {
    assert_eq!(
        command_arguments(strings(&["cargo-sane", "sane", "check", "--verbose"])),
        strings(&["cargo-sane", "check", "--verbose"])
    );
    assert_eq!(
        command_arguments(strings(&["cargo-sane", "check", "sane"])),
        strings(&["cargo-sane", "check", "sane"])
    );
    assert_eq!(command_arguments(strings(&["sane"])), strings(&["sane"]));
    assert_eq!(command_arguments(strings(&["x", "sane"])), strings(&["x"]));
    assert_eq!(command_arguments(strings(&["x", "sane", "sane"])), strings(&["x", "sane"]));
    assert!(command_arguments(vec![]).is_empty());
}
