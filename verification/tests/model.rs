use cargo_sane::model::dependency::{Dependency, UpdateType};
use cargo_sane::model::manifest::{
    DependencySpec, DetailedDependency, Manifest, ManifestContent, ManifestError, Package,
};
use cargo_sane::model::version::{
    is_major_update, is_minor_update, is_patch_update, Version, VersionOrder,
};
use cargo_sane::utils::crates_io::{
    crate_url, is_success_status, versions_url, CrateInfo, CrateResponse, VersionInfo,
    VersionsResponse,
};

fn v(text: &str) -> Version {
    Version::parse(text).unwrap()
}

fn classify(current: &str, latest: Option<&str>) -> UpdateType {
    let d = Dependency::new("x".to_string(), v(current), true);
    let d = match latest {
        Some(l) => d.with_latest(v(l)),
        None => d,
    };
    assert_eq!(d.has_update(), d.update_type() != UpdateType::UpToDate);
    d.update_type()
}

fn detailed(version: Option<&str>, git: Option<&str>, path: Option<&str>) -> DependencySpec {
    DependencySpec::Detailed(DetailedDependency {
        version: version.map(|s| s.to_string()),
        git: git.map(|s| s.to_string()),
        path: path.map(|s| s.to_string()),
        features: Some(vec!["derive".to_string()]),
        optional: None,
        default_features: Some(false),
        other: vec![("package".to_string(), "\"renamed\"".to_string())],
    })
}

fn manifest(dependencies: Option<Vec<(String, DependencySpec)>>) -> Manifest {
    Manifest {
        path: "Cargo.toml".to_string(),
        content: ManifestContent {
            package: Some(Package { name: "demo".to_string(), version: "0.1.0".to_string() }),
            dependencies,
            dev_dependencies: Some(vec![("dev-only".to_string(), DependencySpec::Simple("1".to_string()))]),
            build_dependencies: Some(vec![("build-only".to_string(), DependencySpec::Simple("1".to_string()))]),
        },
    }
}

#[test]
fn version_parts_and_text() {
    let plain = Version::new(1, 35, 0);
    assert_eq!((plain.major(), plain.minor(), plain.patch()), (1, 35, 0));
    assert_eq!(plain.pre(), "");
    assert_eq!(plain.build(), "");
    assert_eq!(plain.to_text(), "1.35.0");
    assert_eq!(Version::new(0, 0, 0).to_text(), "0.0.0");
    assert_eq!(
        Version::new(u64::MAX, 10, 9).to_text(),
        "18446744073709551615.10.9"
    );
    assert_eq!(v("1.2.3-rc.1").to_text(), "1.2.3-rc.1");
    assert_eq!(v("1.2.3+exp.sha.5114f85").to_text(), "1.2.3+exp.sha.5114f85");
    assert_eq!(v("1.2.3-x.7.z.92+001").to_text(), "1.2.3-x.7.z.92+001");
    assert_eq!(plain.clone(), plain);
    assert_eq!(v("1.2.3-rc.1").clone(), v("1.2.3-rc.1"));
}

#[test]
fn version_texts_that_are_not_read() {
    for text in [
        "", "1", "1.2", "1.2.3.4", "01.2.3", "1.02.3", "1.2.03", "1.2.3-", "1.2.3+", "1.2.3-a..b",
        "1.2.3-01", "v1.2.3", " 1.2.3", "1.2.3 ", "1.2.x", "18446744073709551616.0.0", "1.2.3-\u{e9}",
    ] {
        assert_eq!(Version::parse(text), None, "{:?}", text);
    }
    assert_eq!(Version::parse("1.2.3-0"), Some(v("1.2.3-0")));
    assert_eq!(v("1.2.3+01").build(), "01");
}

#[test]
fn order_of_versions() {
    assert_eq!(v("1.2.3").compare(&v("1.2.3")), VersionOrder::Equal);
    assert_eq!(v("1.2.3").compare(&v("1.2.4")), VersionOrder::Less);
    assert_eq!(v("1.3.0").compare(&v("1.2.4")), VersionOrder::Greater);
    assert_eq!(v("2.0.0").compare(&v("1.99.99")), VersionOrder::Greater);
    assert_eq!(v("1.10.0").compare(&v("1.9.0")), VersionOrder::Greater);
    assert_eq!(v("1.0.0-alpha").compare(&v("1.0.0")), VersionOrder::Less);
    assert_eq!(v("1.0.0").compare(&v("1.0.0-alpha")), VersionOrder::Greater);
    assert_eq!(v("1.0.0-alpha").compare(&v("1.0.0-alpha.1")), VersionOrder::Less);
    assert_eq!(v("1.0.0-alpha.1").compare(&v("1.0.0-alpha.beta")), VersionOrder::Less);
    assert_eq!(v("1.0.0-2").compare(&v("1.0.0-10")), VersionOrder::Less);
    assert_eq!(v("1.0.0+a").compare(&v("1.0.0+b")), VersionOrder::Less);
    assert_eq!(v("1.0.0+a").compare(&v("1.0.0")), VersionOrder::Greater);
    assert_eq!(v("1.0.0+a").compare(&v("1.0.0+a")), VersionOrder::Equal);
    assert!(v("1.0.0").at_most(&v("1.0.0")));
    assert!(!v("1.0.0").before(&v("1.0.0")));
    assert!(v("0.9.9").before(&v("1.0.0")));
    assert!(!v("1.0.1").at_most(&v("1.0.0")));
}

#[test]
fn order_agrees_with_the_semver_crate() {
    let texts = [
        "0.0.0", "0.0.1", "0.1.0", "1.0.0", "1.0.0-alpha", "1.0.0-alpha.1", "1.0.0-alpha.beta",
        "1.0.0-beta", "1.0.0-beta.2", "1.0.0-beta.11", "1.0.0-rc.1", "1.0.0+b1", "1.0.0+b01",
        "1.0.0-rc.1+x", "1.0.0--", "1.0.0-0", "2.0.0", "10.0.0", "1.0.0-a-b", "1.0.0+0.0",
    ];
    for a in texts {
        for b in texts {
            let expected = semver::Version::parse(a).unwrap().cmp(&semver::Version::parse(b).unwrap());
            let expected = match expected {
                std::cmp::Ordering::Less => VersionOrder::Less,
                std::cmp::Ordering::Equal => VersionOrder::Equal,
                std::cmp::Ordering::Greater => VersionOrder::Greater,
            };
            assert_eq!(v(a).compare(&v(b)), expected, "{} against {}", a, b);
        }
        assert_eq!(v(a).to_text(), semver::Version::parse(a).unwrap().to_string());
    }
}

#[test]
fn kinds_of_update() {
    let current = Version::new(1, 2, 3);
    assert!(is_major_update(&current, &Version::new(2, 0, 0)));
    assert!(!is_major_update(&current, &Version::new(1, 9, 9)));
    assert!(is_minor_update(&current, &Version::new(1, 3, 0)));
    assert!(!is_minor_update(&current, &Version::new(2, 3, 0)));
    assert!(!is_minor_update(&current, &Version::new(1, 2, 9)));
    assert!(is_patch_update(&current, &Version::new(1, 2, 4)));
    assert!(!is_patch_update(&current, &Version::new(1, 3, 4)));
    assert!(!is_patch_update(&current, &Version::new(1, 2, 3)));
}

#[test]
fn classification_of_updates() {
    assert_eq!(classify("1.2.3", None), UpdateType::UpToDate);
    assert_eq!(classify("1.2.3", Some("1.2.3")), UpdateType::UpToDate);
    assert_eq!(classify("1.2.3", Some("1.2.2")), UpdateType::UpToDate);
    assert_eq!(classify("1.2.3", Some("0.9.9")), UpdateType::UpToDate);
    assert_eq!(classify("1.2.3", Some("1.2.3-rc.1")), UpdateType::UpToDate);
    assert_eq!(classify("1.2.3", Some("1.2.4")), UpdateType::Patch);
    assert_eq!(classify("1.2.3", Some("1.3.0")), UpdateType::Minor);
    assert_eq!(classify("1.2.3", Some("1.3.9")), UpdateType::Minor);
    assert_eq!(classify("1.2.3", Some("2.0.0")), UpdateType::Major);
    assert_eq!(classify("1.2.3", Some("2.3.4")), UpdateType::Major);
    assert_eq!(classify("1.2.3-rc.1", Some("1.2.3")), UpdateType::Patch);
    assert_eq!(classify("1.2.3", Some("1.2.3+build")), UpdateType::Patch);
}

#[test]
fn dependency_as_built() {
    let d = Dependency::new("serde".to_string(), Version::new(1, 0, 0), true);
    assert_eq!(d.name, "serde");
    assert_eq!(d.current_version, Version::new(1, 0, 0));
    assert_eq!(d.latest_version, None);
    assert!(d.is_direct);
    let d = d.with_latest(Version::new(1, 0, 1));
    assert_eq!(d.latest_version, Some(Version::new(1, 0, 1)));
    assert_eq!(d.current_version, Version::new(1, 0, 0));
}

#[test]
fn what_a_dependency_declares() {
    let simple = DependencySpec::Simple("1.0".to_string());
    assert_eq!(simple.version(), Some("1.0"));
    assert!(!simple.is_git());
    assert!(!simple.is_path());
    assert!(simple.is_crates_io());
    let registry = detailed(Some("2.0"), None, None);
    assert_eq!(registry.version(), Some("2.0"));
    assert!(registry.is_crates_io());
    let unversioned = detailed(None, None, None);
    assert_eq!(unversioned.version(), None);
    assert!(unversioned.is_crates_io());
    let git = detailed(Some("1.0"), Some("https://example.com/repo.git"), None);
    assert!(git.is_git());
    assert!(!git.is_path());
    assert!(!git.is_crates_io());
    let path = detailed(None, None, Some("../local"));
    assert!(path.is_path());
    assert!(!path.is_git());
    assert!(!path.is_crates_io());
    let both = detailed(None, Some("g"), Some("p"));
    assert!(!both.is_crates_io());
}

#[test]
fn direct_dependencies_of_a_manifest() {
    let m = manifest(Some(vec![
        ("serde".to_string(), detailed(Some("1.0"), None, None)),
        ("local".to_string(), detailed(None, None, Some("../local"))),
        ("rand".to_string(), DependencySpec::Simple("0.8".to_string())),
    ]));
    let deps = m.get_dependencies();
    let names: Vec<&str> = deps.iter().map(|(n, _)| n.as_str()).collect();
    assert_eq!(names, vec!["serde", "local", "rand"]);
    assert_eq!(deps[0].1.version(), Some("1.0"));
    assert!(deps[1].1.is_path());
    assert_eq!(deps[2].1.version(), Some("0.8"));
    match &deps[0].1 {
        DependencySpec::Detailed(d) => {
            assert_eq!(d.features, Some(vec!["derive".to_string()]));
            assert_eq!(d.default_features, Some(false));
            assert_eq!(d.optional, None);
            assert_eq!(d.other, vec![("package".to_string(), "\"renamed\"".to_string())]);
        }
        other => panic!("unexpected: {:?}", other),
    }
    assert_eq!(m.package_name(), Some("demo"));
    assert_eq!(m.repeated_dependency(), None);
}

#[test]
fn manifest_without_dependencies() {
    let m = manifest(None);
    assert!(m.get_dependencies().is_empty());
    assert_eq!(m.repeated_dependency(), None);
    let mut m = manifest(Some(vec![]));
    assert!(m.get_dependencies().is_empty());
    m.content.package = None;
    assert_eq!(m.package_name(), None);
}

#[test]
fn name_declared_twice_is_found() {
    let m = manifest(Some(vec![
        ("a".to_string(), DependencySpec::Simple("1".to_string())),
        ("b".to_string(), DependencySpec::Simple("1".to_string())),
        ("c".to_string(), DependencySpec::Simple("1".to_string())),
        ("b".to_string(), DependencySpec::Simple("2".to_string())),
        ("a".to_string(), DependencySpec::Simple("2".to_string())),
    ]));
    assert_eq!(m.repeated_dependency(), Some("b".to_string()));
}

#[test]
fn manifest_with_a_name_declared_twice_is_refused() {
    let content = |names: &[&str]| ManifestContent {
        package: None,
        dependencies: Some(
            names
                .iter()
                .map(|n| (n.to_string(), DependencySpec::Simple("1".to_string())))
                .collect(),
        ),
        dev_dependencies: None,
        build_dependencies: None,
    };
    let ok = Manifest::checked("Cargo.toml".to_string(), content(&["a", "b", "c"])).unwrap();
    assert_eq!(ok.path, "Cargo.toml");
    assert_eq!(ok.get_dependencies().len(), 3);
    match Manifest::checked("Cargo.toml".to_string(), content(&["a", "b", "a", "b"])) {
        Err(e) => {
            assert_eq!(e, ManifestError::DuplicateDependency("a".to_string()));
            assert_eq!(
                e.message(),
                "Failed to parse Cargo.toml: dependency a is declared more than once"
            );
        }
        Ok(_) => panic!("a name declared twice was accepted"),
    }
}

#[test]
fn load_errors_as_sentences() {
    assert_eq!(
        ManifestError::NotFound("work/Cargo.toml".to_string()).message(),
        "work/Cargo.toml not found"
    );
    assert_eq!(
        ManifestError::Parse("expected `=`".to_string()).message(),
        "Failed to parse Cargo.toml: expected `=`"
    );
}

#[test]
fn registry_addresses() {
    assert_eq!(crate_url("serde"), "https://crates.io/api/v1/crates/serde");
    assert_eq!(versions_url("serde"), "https://crates.io/api/v1/crates/serde/versions");
    assert_eq!(crate_url(""), "https://crates.io/api/v1/crates/");
}

#[test]
fn only_a_status_of_the_two_hundreds_is_success() {
    for status in [200, 201, 204, 299] {
        assert!(is_success_status(status));
    }
    for status in [0, 100, 199, 300, 301, 404, 429, 500, 503, u16::MAX] {
        assert!(!is_success_status(status));
    }
}

#[test]
fn registry_answers() {
    let response = CrateResponse {
        krate: CrateInfo {
            name: "serde".to_string(),
            newest_version: "1.0.200".to_string(),
            description: None,
            updated_at: "2024-01-01".to_string(),
        },
    };
    assert_eq!(response.latest_version(), Some(Version::new(1, 0, 200)));
    let broken = CrateResponse {
        krate: CrateInfo {
            name: "serde".to_string(),
            newest_version: "latest".to_string(),
            description: Some("d".to_string()),
            updated_at: String::new(),
        },
    };
    assert_eq!(broken.latest_version(), None);
    let info = |num: &str, yanked: bool| VersionInfo { num: num.to_string(), yanked };
    let versions = VersionsResponse {
        versions: vec![
            info("1.0.2", false),
            info("1.0.1", true),
            info("not a version", false),
            info("1.0.0", false),
            info("0.9.0-beta", false),
            info("bad", true),
        ],
    };
    assert_eq!(
        versions.usable_versions(),
        vec![Version::new(1, 0, 2), Version::new(1, 0, 0), v("0.9.0-beta")]
    );
    assert!(VersionsResponse { versions: vec![] }.usable_versions().is_empty());
}
