use cargo_sane::analyzer::health::{
    Advisory, DependencyHealth, HealthChecker, HealthReport, Severity,
};
use cargo_sane::model::dependency::Dependency;
use cargo_sane::model::version::Version;

fn advisory(id: &str, severity: Severity) -> Advisory {
    Advisory {
        id: id.to_string(),
        title: "title".to_string(),
        description: "description".to_string(),
        severity,
        affected_versions: "< 1.0.0".to_string(),
        patched_versions: None,
        url: None,
    }
}

fn health(name: &str, severities: &[Severity], is_outdated: bool) -> DependencyHealth {
    DependencyHealth {
        name: name.to_string(),
        version: "0.1.0".to_string(),
        advisories: severities.iter().map(|s| advisory("ID", *s)).collect(),
        is_outdated,
        maintenance_score: None,
    }
}

fn dep(name: &str, current: &str, latest: Option<&str>) -> Dependency {
    let d = Dependency::new(name.to_string(), Version::parse(current).unwrap(), true);
    match latest {
        Some(l) => d.with_latest(Version::parse(l).unwrap()),
        None => d,
    }
}

#[test]
fn severity_names() {
    assert_eq!(Severity::Critical.as_str(), "CRITICAL");
    assert_eq!(Severity::High.as_str(), "HIGH");
    assert_eq!(Severity::Medium.as_str(), "MEDIUM");
    assert_eq!(Severity::Low.as_str(), "LOW");
    assert_eq!(Severity::Unknown.as_str(), "UNKNOWN");
}

#[test]
fn severity_marks_differ() {
    let all = [
        Severity::Critical,
        Severity::High,
        Severity::Medium,
        Severity::Low,
        Severity::Unknown,
    ];
    for (i, a) in all.iter().enumerate() {
        assert!(!a.emoji().is_empty());
        for b in &all[i + 1..] {
            assert_ne!(a.emoji(), b.emoji());
        }
    }
}

#[test]
fn highest_severity_is_the_gravest() {
    assert_eq!(health("a", &[], false).highest_severity(), None);
    assert!(!health("a", &[], false).is_vulnerable());
    assert!(health("a", &[Severity::Unknown], false).is_vulnerable());
    assert_eq!(
        health("a", &[Severity::Unknown], false).highest_severity(),
        Some(Severity::Unknown)
    );
    assert_eq!(
        health("a", &[Severity::Low, Severity::High, Severity::Medium], false).highest_severity(),
        Some(Severity::High)
    );
    assert_eq!(
        health("a", &[Severity::Critical, Severity::Low, Severity::Critical], false)
            .highest_severity(),
        Some(Severity::Critical)
    );
    assert_eq!(
        health("a", &[Severity::Unknown, Severity::Low], false).highest_severity(),
        Some(Severity::Low)
    );
}

#[test]
fn report_counts() {
    let report = HealthReport::new(vec![
        health("a", &[Severity::Critical, Severity::High, Severity::High], true),
        health("b", &[], true),
        health("c", &[Severity::Unknown], false),
        health("d", &[Severity::Low, Severity::Medium, Severity::Critical], false),
        health("e", &[], false),
    ]);
    assert_eq!(report.total_dependencies, 5);
    assert_eq!(report.dependencies.len(), 5);
    assert_eq!(report.vulnerable_count, 3);
    assert_eq!(report.outdated_count, 2);
    assert_eq!(report.critical_count, 2);
    assert_eq!(report.high_count, 2);
    assert_eq!(report.medium_count, 1);
    assert_eq!(report.low_count, 1);
    assert!(!report.is_healthy());
    let empty = HealthReport::new(vec![]);
    assert_eq!(empty.total_dependencies, 0);
    assert!(empty.is_healthy());
    assert!(HealthReport::new(vec![health("b", &[], true)]).is_healthy());
}

#[test]
fn the_known_advisories() {
    let db = HealthChecker::load_advisory_database();
    let names: Vec<&str> = db.iter().map(|(n, _)| n.as_str()).collect();
    assert_eq!(names, vec!["hyper", "regex", "tokio", "chrono"]);
    for (_, advisories) in &db {
        assert_eq!(advisories.len(), 1);
    }
    let tokio = &db[2].1[0];
    assert_eq!(tokio.id, "RUSTSEC-2023-0001");
    assert_eq!(tokio.title, "tokio::io::ReadHalf::unsplit is Unsound");
    assert_eq!(tokio.severity, Severity::High);
    assert_eq!(tokio.affected_versions, ">= 1.8.0, < 1.18.5");
    assert_eq!(tokio.patched_versions, Some("1.18.5".to_string()));
    assert_eq!(
        tokio.url,
        Some("https://rustsec.org/advisories/RUSTSEC-2023-0001.html".to_string())
    );
    assert_eq!(db[0].1[0].affected_versions, "< 0.14.10");
    assert_eq!(db[1].1[0].severity, Severity::Medium);
    assert_eq!(db[3].1[0].id, "RUSTSEC-2020-0159");
}

#[test]
fn ranges_of_versions() {
    let checker = HealthChecker::new();
    let v = |s: &str| Version::parse(s).unwrap();
    assert!(checker.is_version_affected(&v("1.5.4"), "< 1.5.5"));
    assert!(!checker.is_version_affected(&v("1.5.5"), "< 1.5.5"));
    assert!(checker.is_version_affected(&v("1.5.5"), "<= 1.5.5"));
    assert!(!checker.is_version_affected(&v("1.5.6"), "<= 1.5.5"));
    assert!(checker.is_version_affected(&v("1.8.0"), ">= 1.8.0, < 1.18.5"));
    assert!(checker.is_version_affected(&v("1.18.4"), ">= 1.8.0, < 1.18.5"));
    assert!(!checker.is_version_affected(&v("1.7.9"), ">= 1.8.0, < 1.18.5"));
    assert!(!checker.is_version_affected(&v("1.18.5"), ">= 1.8.0, < 1.18.5"));
    assert!(!checker.is_version_affected(&v("1.8.0"), "> 1.8.0"));
    assert!(checker.is_version_affected(&v("1.8.1"), "  > 1.8.0  "));
    assert!(checker.is_version_affected(&v("1.5.5-rc.1"), "< 1.5.5"));
    // what is no clause, or has no version as its bound, admits every version
    assert!(checker.is_version_affected(&v("9.9.9"), ""));
    assert!(checker.is_version_affected(&v("9.9.9"), "<1.0.0"));
    assert!(checker.is_version_affected(&v("9.9.9"), "< one"));
    assert!(checker.is_version_affected(&v("9.9.9"), "= 1.0.0, ^2"));
    assert!(!checker.is_version_affected(&v("9.9.9"), "< one, <   2.0.0  "));
}

#[test]
fn health_of_dependencies() {
    let checker = HealthChecker::new();
    let deps = vec![
        dep("tokio", "1.10.0", Some("1.40.0")),
        dep("regex", "1.5.5", Some("1.5.5")),
        dep("hyper", "0.14.9", None),
        dep("chrono", "0.4.19", Some("0.4.38")),
        dep("serde", "1.0.0", Some("2.0.0")),
        dep("tokio", "1.18.5", Some("1.18.4")),
    ];
    let report = checker.check_health(&deps);
    assert_eq!(report.total_dependencies, 6);
    assert_eq!(report.vulnerable_count, 3);
    assert_eq!(report.outdated_count, 3);
    assert_eq!(report.critical_count, 0);
    assert_eq!(report.high_count, 2);
    assert_eq!(report.medium_count, 1);
    assert_eq!(report.low_count, 0);
    assert!(!report.is_healthy());
    let names: Vec<&str> = report.dependencies.iter().map(|d| d.name.as_str()).collect();
    assert_eq!(names, vec!["tokio", "regex", "hyper", "chrono", "serde", "tokio"]);
    let tokio = &report.dependencies[0];
    assert_eq!(tokio.version, "1.10.0");
    assert!(tokio.is_outdated);
    assert_eq!(tokio.maintenance_score, None);
    assert_eq!(tokio.advisories.len(), 1);
    assert_eq!(tokio.advisories[0].id, "RUSTSEC-2023-0001");
    assert_eq!(tokio.highest_severity(), Some(Severity::High));
    assert!(report.dependencies[1].advisories.is_empty());
    assert!(!report.dependencies[1].is_outdated);
    assert_eq!(report.dependencies[2].advisories[0].id, "RUSTSEC-2021-0078");
    assert!(!report.dependencies[2].is_outdated);
    assert_eq!(report.dependencies[3].advisories[0].severity, Severity::Medium);
    assert!(report.dependencies[4].advisories.is_empty());
    assert!(report.dependencies[5].advisories.is_empty());
    assert!(!report.dependencies[5].is_outdated);
    assert!(checker.check_health(&vec![]).is_healthy());
}
