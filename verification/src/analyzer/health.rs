//! Known security advisories against the declared dependencies.

use crate::model::dependency::{classify_update, Dependency, UpdateType};
use crate::model::version::{
    model_of, precedence, semver_parse, Version, version_text, VersionModel,
};
use crate::text::{
    chars_of, clone_optional, has_at, has_literal_at, split_on, split_text, string_of_range,
    text_views, trim, trim_bounds,
};
use vstd::prelude::*;

verus! {

/// A security advisory against a range of versions of a package.
#[derive(Debug)]
pub struct Advisory {
    pub id: String,
    pub title: String,
    pub description: String,
    pub severity: Severity,
    /// The versions that the advisory holds for: clauses such as `< 1.5.5`
    /// or `>= 1.8.0`, separated by commas.
    pub affected_versions: String,
    pub patched_versions: Option<String>,
    pub url: Option<String>,
}

/// How grave an advisory is.
#[derive(Debug, Clone, Copy, PartialEq, Eq, Structural)]
pub enum Severity {
    Critical,
    High,
    Medium,
    Low,
    Unknown,
}

/// What the advisories say of one dependency.
#[derive(Debug, Clone)]
pub struct DependencyHealth {
    pub name: String,
    pub version: String,
    pub advisories: Vec<Advisory>,
    pub is_outdated: bool,
    /// From 0 to 100, where it is known.
    pub maintenance_score: Option<u8>,
}

/// The health of all dependencies, with the counts over them.
#[derive(Debug, Clone)]
pub struct HealthReport {
    pub dependencies: Vec<DependencyHealth>,
    pub total_dependencies: usize,
    pub vulnerable_count: usize,
    pub outdated_count: usize,
    pub critical_count: usize,
    pub high_count: usize,
    pub medium_count: usize,
    pub low_count: usize,
}

/// Holds the known advisories, by package, and checks dependencies against them.
pub struct HealthChecker {
    advisory_cache: Vec<(String, Vec<Advisory>)>,
}

/// What an `Advisory` holds.
pub struct AdvisoryModel {
    pub id: Seq<char>,
    pub title: Seq<char>,
    pub description: Seq<char>,
    pub severity: Severity,
    pub affected_versions: Seq<char>,
    pub patched_versions: Option<Seq<char>>,
    pub url: Option<Seq<char>>,
}

/// What a `DependencyHealth` holds.
pub struct HealthModel {
    pub name: Seq<char>,
    pub version: Seq<char>,
    pub advisories: Seq<AdvisoryModel>,
    pub is_outdated: bool,
    pub maintenance_score: Option<u8>,
}

impl DeepView for Advisory {
    type V = AdvisoryModel;

    open spec fn deep_view(&self) -> AdvisoryModel {
        AdvisoryModel {
            id: self.id@,
            title: self.title@,
            description: self.description@,
            severity: self.severity,
            affected_versions: self.affected_versions@,
            patched_versions: self.patched_versions.deep_view(),
            url: self.url.deep_view(),
        }
    }
}

impl DeepView for DependencyHealth {
    type V = HealthModel;

    open spec fn deep_view(&self) -> HealthModel {
        HealthModel {
            name: self.name@,
            version: self.version@,
            advisories: self.advisories.deep_view(),
            is_outdated: self.is_outdated,
            maintenance_score: self.maintenance_score,
        }
    }
}

impl Clone for Advisory {
    fn clone(&self) -> (r: Self)
        ensures
            r.deep_view() == self.deep_view(),
    {
        Advisory {
            id: self.id.clone(),
            title: self.title.clone(),
            description: self.description.clone(),
            severity: self.severity,
            affected_versions: self.affected_versions.clone(),
            patched_versions: clone_optional(&self.patched_versions),
            url: clone_optional(&self.url),
        }
    }
}

/// The rank of a severity: the graver, the higher.
pub open spec fn severity_rank(s: Severity) -> int {
    match s {
        Severity::Critical => 4,
        Severity::High => 3,
        Severity::Medium => 2,
        Severity::Low => 1,
        Severity::Unknown => 0,
    }
}

/// The number of advisories of severity `s` among `advisories`.
pub open spec fn severity_count(advisories: Seq<Advisory>, s: Severity) -> nat
    decreases advisories.len(),
{
    if advisories.len() == 0 {
        0
    } else {
        severity_count(advisories.drop_last(), s) + if advisories.last().severity == s {
            1nat
        } else {
            0nat
        }
    }
}

/// The number of advisories of severity `s` against all of `dependencies`.
pub open spec fn severity_total(dependencies: Seq<DependencyHealth>, s: Severity) -> nat
    decreases dependencies.len(),
{
    if dependencies.len() == 0 {
        0
    } else {
        severity_total(dependencies.drop_last(), s) + severity_count(
            dependencies.last().advisories@,
            s,
        )
    }
}

/// The number of advisories against all of `dependencies`.
pub open spec fn advisory_total(dependencies: Seq<DependencyHealth>) -> nat
    decreases dependencies.len(),
{
    if dependencies.len() == 0 {
        0
    } else {
        advisory_total(dependencies.drop_last()) + dependencies.last().advisories@.len()
    }
}

/// The number of `dependencies` with an advisory against them.
pub open spec fn vulnerable_total(dependencies: Seq<DependencyHealth>) -> nat
    decreases dependencies.len(),
{
    if dependencies.len() == 0 {
        0
    } else {
        vulnerable_total(dependencies.drop_last()) + if dependencies.last().advisories@.len() > 0 {
            1nat
        } else {
            0nat
        }
    }
}

/// The number of `dependencies` that an update is open to.
pub open spec fn outdated_total(dependencies: Seq<DependencyHealth>) -> nat
    decreases dependencies.len(),
{
    if dependencies.len() == 0 {
        0
    } else {
        outdated_total(dependencies.drop_last()) + if dependencies.last().is_outdated {
            1nat
        } else {
            0nat
        }
    }
}

/// No more advisories have one severity than there are advisories.
proof fn lemma_severity_count_bound(advisories: Seq<Advisory>, s: Severity)
    ensures
        severity_count(advisories, s) <= advisories.len(),
    decreases advisories.len(),
{
    if advisories.len() > 0 {
        lemma_severity_count_bound(advisories.drop_last(), s);
    }
}

/// The counts over dependencies stay within the number of what they count.
proof fn lemma_totals_bound(dependencies: Seq<DependencyHealth>, s: Severity)
    ensures
        severity_total(dependencies, s) <= advisory_total(dependencies),
        vulnerable_total(dependencies) <= dependencies.len(),
        outdated_total(dependencies) <= dependencies.len(),
    decreases dependencies.len(),
{
    if dependencies.len() > 0 {
        lemma_totals_bound(dependencies.drop_last(), s);
        lemma_severity_count_bound(dependencies.last().advisories@, s);
    }
}

/// The first dependencies have no more advisories than all of them.
proof fn lemma_advisory_total_grows(dependencies: Seq<DependencyHealth>, i: int)
    requires
        0 <= i <= dependencies.len(),
    ensures
        advisory_total(dependencies.take(i)) <= advisory_total(dependencies),
    decreases dependencies.len() - i,
{
    if i < dependencies.len() {
        lemma_advisory_total_grows(dependencies, i + 1);
        assert(dependencies.take(i + 1).drop_last() =~= dependencies.take(i));
    } else {
        assert(dependencies.take(i) =~= dependencies);
    }
}

impl Severity {
    /// The name of the severity, in capitals.
    pub fn as_str(&self) -> (r: &'static str)
        ensures
            r@ == match self {
                Severity::Critical => "CRITICAL"@,
                Severity::High => "HIGH"@,
                Severity::Medium => "MEDIUM"@,
                Severity::Low => "LOW"@,
                Severity::Unknown => "UNKNOWN"@,
            },
    {
        match self {
            Severity::Critical => "CRITICAL",
            Severity::High => "HIGH",
            Severity::Medium => "MEDIUM",
            Severity::Low => "LOW",
            Severity::Unknown => "UNKNOWN",
        }
    }

    /// The mark that stands for the severity in a listing.
    pub fn emoji(&self) -> (r: &'static str)
        ensures
            r@ == match self {
                Severity::Critical => "\u{f0}\u{178}\u{201d}\u{b4}"@,
                Severity::High => "\u{f0}\u{178}\u{178}\u{a0}"@,
                Severity::Medium => "\u{f0}\u{178}\u{178}\u{a1}"@,
                Severity::Low => "\u{f0}\u{178}\u{178}\u{a2}"@,
                Severity::Unknown => "\u{e2}\u{161}\u{aa}"@,
            },
    {
        match self {
            Severity::Critical => "\u{f0}\u{178}\u{201d}\u{b4}",
            Severity::High => "\u{f0}\u{178}\u{178}\u{a0}",
            Severity::Medium => "\u{f0}\u{178}\u{178}\u{a1}",
            Severity::Low => "\u{f0}\u{178}\u{178}\u{a2}",
            Severity::Unknown => "\u{e2}\u{161}\u{aa}",
        }
    }

    /// The rank of the severity.
    fn rank(&self) -> (r: u8)
        ensures
            r == severity_rank(*self),
    {
        match self {
            Severity::Critical => 4,
            Severity::High => 3,
            Severity::Medium => 2,
            Severity::Low => 1,
            Severity::Unknown => 0,
        }
    }
}

impl DependencyHealth {
    /// Whether an advisory holds against the dependency.
    pub fn is_vulnerable(&self) -> (r: bool)
        ensures
            r == (self.advisories@.len() > 0),
    {
        self.advisories.len() > 0
    }

    /// The gravest severity among the advisories; `None` where there is no advisory.
    pub fn highest_severity(&self) -> (r: Option<Severity>)
        ensures
            r is None <==> self.advisories@.len() == 0,
            r matches Some(s) ==> (exists|i: int|
                0 <= i < self.advisories@.len() && (#[trigger] self.advisories@[i]).severity == s)
                && forall|j: int|
                0 <= j < self.advisories@.len() ==> severity_rank(
                    (#[trigger] self.advisories@[j]).severity,
                ) <= severity_rank(s),
    {
        let mut best: Option<Severity> = None;
        let mut i: usize = 0;
        while i < self.advisories.len()
            invariant
                i <= self.advisories.len(),
                best is None <==> i == 0,
                best matches Some(s) ==> (exists|k: int|
                    0 <= k < i && (#[trigger] self.advisories@[k]).severity == s) && forall|j: int|
                    0 <= j < i ==> severity_rank((#[trigger] self.advisories@[j]).severity)
                        <= severity_rank(s),
            decreases self.advisories.len() - i,
        {
            let s = self.advisories[i].severity;
            let higher = match best {
                None => true,
                Some(b) => s.rank() >= b.rank(),
            };
            if higher {
                best = Some(s);
                assert(self.advisories@[i as int].severity == s);
            } else {
                proof {
                    let b = best.unwrap();
                    let k = choose|k: int|
                        0 <= k < i && (#[trigger] self.advisories@[k]).severity == b;
                    assert(0 <= k < i + 1 && self.advisories@[k].severity == b);
                }
            }
            i += 1;
        }
        best
    }
}

impl HealthReport {
    /// The report over `dependencies`, with its counts: the vulnerable and
    /// the outdated dependencies, and the advisories of each severity.
    pub fn new(dependencies: Vec<DependencyHealth>) -> (r: Self)
        requires
            advisory_total(dependencies@) <= usize::MAX,
        ensures
            r.dependencies == dependencies,
            r.total_dependencies == dependencies@.len(),
            r.vulnerable_count == vulnerable_total(dependencies@),
            r.outdated_count == outdated_total(dependencies@),
            r.critical_count == severity_total(dependencies@, Severity::Critical),
            r.high_count == severity_total(dependencies@, Severity::High),
            r.medium_count == severity_total(dependencies@, Severity::Medium),
            r.low_count == severity_total(dependencies@, Severity::Low),
    {
        let total_dependencies = dependencies.len();
        let mut vulnerable_count: usize = 0;
        let mut outdated_count: usize = 0;
        let mut critical_count: usize = 0;
        let mut high_count: usize = 0;
        let mut medium_count: usize = 0;
        let mut low_count: usize = 0;
        let ghost all = dependencies@;
        let mut i: usize = 0;
        assert(all.take(0) =~= Seq::<DependencyHealth>::empty());
        while i < dependencies.len()
            invariant
                i <= dependencies.len(),
                all == dependencies@,
                advisory_total(all) <= usize::MAX,
                vulnerable_count == vulnerable_total(all.take(i as int)),
                outdated_count == outdated_total(all.take(i as int)),
                critical_count == severity_total(all.take(i as int), Severity::Critical),
                high_count == severity_total(all.take(i as int), Severity::High),
                medium_count == severity_total(all.take(i as int), Severity::Medium),
                low_count == severity_total(all.take(i as int), Severity::Low),
            decreases dependencies.len() - i,
        {
            let dep = &dependencies[i];
            let ghost done = all.take(i as int);
            let ghost next = all.take(i + 1);
            proof {
                assert(next.drop_last() =~= done);
                assert(next.last() == all[i as int]);
                lemma_totals_bound(done, Severity::Critical);
                lemma_totals_bound(next, Severity::Critical);
                lemma_totals_bound(next, Severity::High);
                lemma_totals_bound(next, Severity::Medium);
                lemma_totals_bound(next, Severity::Low);
                lemma_advisory_total_grows(all, i + 1);
            }
            if dep.is_vulnerable() {
                vulnerable_count += 1;
            }
            if dep.is_outdated {
                outdated_count += 1;
            }
            let ghost found = dep.advisories@;
            let ghost critical_before = critical_count;
            let ghost high_before = high_count;
            let ghost medium_before = medium_count;
            let ghost low_before = low_count;
            let mut k: usize = 0;
            assert(found.take(0) =~= Seq::<Advisory>::empty());
            while k < dep.advisories.len()
                invariant
                    k <= dep.advisories.len(),
                    found == dep.advisories@,
                    critical_count == critical_before + severity_count(
                        found.take(k as int),
                        Severity::Critical,
                    ),
                    high_count == high_before + severity_count(
                        found.take(k as int),
                        Severity::High,
                    ),
                    medium_count == medium_before + severity_count(
                        found.take(k as int),
                        Severity::Medium,
                    ),
                    low_count == low_before + severity_count(found.take(k as int), Severity::Low),
                    critical_before + severity_count(found, Severity::Critical) <= usize::MAX,
                    high_before + severity_count(found, Severity::High) <= usize::MAX,
                    medium_before + severity_count(found, Severity::Medium) <= usize::MAX,
                    low_before + severity_count(found, Severity::Low) <= usize::MAX,
                decreases dep.advisories.len() - k,
            {
                proof {
                    assert(found.take(k + 1).drop_last() =~= found.take(k as int));
                    assert(found.take(k + 1).last() == found[k as int]);
                    lemma_severity_count_grows(found, k + 1, Severity::Critical);
                    lemma_severity_count_grows(found, k + 1, Severity::High);
                    lemma_severity_count_grows(found, k + 1, Severity::Medium);
                    lemma_severity_count_grows(found, k + 1, Severity::Low);
                }
                match dep.advisories[k].severity {
                    Severity::Critical => {
                        critical_count += 1;
                    },
                    Severity::High => {
                        high_count += 1;
                    },
                    Severity::Medium => {
                        medium_count += 1;
                    },
                    Severity::Low => {
                        low_count += 1;
                    },
                    Severity::Unknown => {},
                }
                k += 1;
            }
            assert(found.take(dep.advisories.len() as int) =~= found);
            i += 1;
        }
        assert(all.take(dependencies.len() as int) =~= all);
        HealthReport {
            dependencies,
            total_dependencies,
            vulnerable_count,
            outdated_count,
            critical_count,
            high_count,
            medium_count,
            low_count,
        }
    }

    /// Whether no dependency has an advisory against it.
    pub fn is_healthy(&self) -> (r: bool)
        ensures
            r == (self.vulnerable_count == 0),
    {
        self.vulnerable_count == 0
    }
}

/// The first advisories have no more of one severity than all of them.
proof fn lemma_severity_count_grows(advisories: Seq<Advisory>, i: int, s: Severity)
    requires
        0 <= i <= advisories.len(),
    ensures
        severity_count(advisories.take(i), s) <= severity_count(advisories, s),
    decreases advisories.len() - i,
{
    if i < advisories.len() {
        lemma_severity_count_grows(advisories, i + 1, s);
        assert(advisories.take(i + 1).drop_last() =~= advisories.take(i));
    } else {
        assert(advisories.take(i) =~= advisories);
    }
}

/// The known advisories against one package.
pub type KnownAdvisories = (Seq<char>, Seq<AdvisoryModel>);

/// One package with the one advisory that is known against it.
pub open spec fn advisory_entry(
    name: Seq<char>,
    id: Seq<char>,
    title: Seq<char>,
    description: Seq<char>,
    severity: Severity,
    affected_versions: Seq<char>,
    patched_versions: Seq<char>,
    url: Seq<char>,
) -> KnownAdvisories {
    (
        name,
        seq![
            AdvisoryModel {
                id,
                title,
                description,
                severity,
                affected_versions,
                patched_versions: Some(patched_versions),
                url: Some(url),
            },
        ],
    )
}

/// The advisories that the checker knows.
pub open spec fn advisory_database() -> Seq<KnownAdvisories> {
    seq![
        advisory_entry(
            "hyper"@,
            "RUSTSEC-2021-0078"@,
            "Integer overflow in hyper's parsing of the Transfer-Encoding header"@,
            "An integer overflow exists in hyper's header parsing code that can lead to data loss"@,
            Severity::High,
            "< 0.14.10"@,
            "0.14.10"@,
            "https://rustsec.org/advisories/RUSTSEC-2021-0078.html"@,
        ),
        advisory_entry(
            "regex"@,
            "RUSTSEC-2022-0013"@,
            "Regex denial of service"@,
            "The regex crate has a potential denial of service vulnerability with certain patterns"@,
            Severity::Medium,
            "< 1.5.5"@,
            "1.5.5"@,
            "https://rustsec.org/advisories/RUSTSEC-2022-0013.html"@,
        ),
        advisory_entry(
            "tokio"@,
            "RUSTSEC-2023-0001"@,
            "tokio::io::ReadHalf::unsplit is Unsound"@,
            "tokio::io::ReadHalf::unsplit can violate the API contract of ReadHalf and WriteHalf"@,
            Severity::High,
            ">= 1.8.0, < 1.18.5"@,
            "1.18.5"@,
            "https://rustsec.org/advisories/RUSTSEC-2023-0001.html"@,
        ),
        advisory_entry(
            "chrono"@,
            "RUSTSEC-2020-0159"@,
            "Potential segfault in localtime_r invocations"@,
            "chrono had potential unsoundness in localtime_r usage"@,
            Severity::Medium,
            "< 0.4.20"@,
            "0.4.20"@,
            "https://rustsec.org/advisories/RUSTSEC-2020-0159.html"@,
        ),
    ]
}

/// The version that bounds a clause: what follows the operator `op` at the
/// start of the clause `p`, read as a version.
pub open spec fn bound_of(p: Seq<char>, op: Seq<char>) -> Option<VersionModel> {
    semver_parse(trim(p.subrange(op.len() as int, p.len() as int)))
}

/// Whether the clause `p` admits the version `v`. A clause is an operator
/// among `<`, `<=`, `>=` and `>`, a blank and a version; a clause of another
/// form, or with a bound that is no version, admits every version.
pub open spec fn clause_admits(p: Seq<char>, v: VersionModel) -> bool {
    if has_at(p, 0, "< "@) {
        match bound_of(p, "< "@) {
            Some(max) => precedence(v, max) < 0,
            None => true,
        }
    } else if has_at(p, 0, "<= "@) {
        match bound_of(p, "<= "@) {
            Some(max) => precedence(v, max) <= 0,
            None => true,
        }
    } else if has_at(p, 0, ">= "@) {
        match bound_of(p, ">= "@) {
            Some(min) => precedence(v, min) >= 0,
            None => true,
        }
    } else if has_at(p, 0, "> "@) {
        match bound_of(p, "> "@) {
            Some(min) => precedence(v, min) > 0,
            None => true,
        }
    } else {
        true
    }
}

/// Whether every one of `clauses`, without the white space around it, admits `v`.
pub open spec fn clauses_admit(clauses: Seq<Seq<char>>, v: VersionModel) -> bool {
    forall|i: int| 0 <= i < clauses.len() ==> clause_admits(trim(#[trigger] clauses[i]), v)
}

/// Whether the range `range` holds the version `v`: every clause between
/// its commas admits it.
pub open spec fn range_admits(range: Seq<char>, v: VersionModel) -> bool {
    clauses_admit(split_on(range, ','), v)
}

/// The advisories that `cache` knows against the package `name`: those of
/// the first entry with that name.
pub open spec fn known_advisories(cache: Seq<KnownAdvisories>, name: Seq<char>) -> Seq<
    AdvisoryModel,
>
    decreases cache.len(),
{
    if cache.len() == 0 {
        Seq::empty()
    } else if cache[0].0 == name {
        cache[0].1
    } else {
        known_advisories(cache.drop_first(), name)
    }
}

/// Those of `known` whose range holds the version `v`, in order.
pub open spec fn applicable(known: Seq<AdvisoryModel>, v: VersionModel) -> Seq<AdvisoryModel>
    decreases known.len(),
{
    if known.len() == 0 {
        Seq::empty()
    } else {
        let rest = applicable(known.drop_last(), v);
        if range_admits(known.last().affected_versions, v) {
            rest.push(known.last())
        } else {
            rest
        }
    }
}

/// The health of the dependency `name`, declared at `current`, with `latest`
/// as the newest version known.
pub open spec fn health_of(
    cache: Seq<KnownAdvisories>,
    name: Seq<char>,
    current: VersionModel,
    latest: Option<VersionModel>,
) -> HealthModel {
    HealthModel {
        name,
        version: version_text(current),
        advisories: applicable(known_advisories(cache, name), current),
        is_outdated: classify_update(current, latest) != UpdateType::UpToDate,
        maintenance_score: None,
    }
}

/// The health of each of `dependencies`, in order.
pub open spec fn health_of_all(cache: Seq<KnownAdvisories>, dependencies: Seq<Dependency>) -> Seq<
    HealthModel,
> {
    Seq::new(
        dependencies.len(),
        |i: int|
            health_of(
                cache,
                dependencies[i].name@,
                dependencies[i].current_version@,
                model_of(dependencies[i].latest_version),
            ),
    )
}

/// No more advisories apply than are known.
proof fn lemma_applicable_bound(known: Seq<AdvisoryModel>, v: VersionModel)
    ensures
        applicable(known, v).len() <= known.len(),
    decreases known.len(),
{
    if known.len() > 0 {
        lemma_applicable_bound(known.drop_last(), v);
    }
}

/// A package with the one advisory known against it.
fn known_entry(
    name: &str,
    id: &str,
    title: &str,
    description: &str,
    severity: Severity,
    affected_versions: &str,
    patched_versions: &str,
    url: &str,
) -> (r: (String, Vec<Advisory>))
    ensures
        r.deep_view() == advisory_entry(
            name@,
            id@,
            title@,
            description@,
            severity,
            affected_versions@,
            patched_versions@,
            url@,
        ),
        r.1@.len() == 1,
{
    let advisory = Advisory {
        id: id.to_string(),
        title: title.to_string(),
        description: description.to_string(),
        severity,
        affected_versions: affected_versions.to_string(),
        patched_versions: Some(patched_versions.to_string()),
        url: Some(url.to_string()),
    };
    let ghost model = advisory.deep_view();
    let mut advisories: Vec<Advisory> = Vec::new();
    advisories.push(advisory);
    assert(advisories.deep_view() =~= seq![model]);
    (name.to_string(), advisories)
}

/// The version that bounds the clause `p`, which starts with the operator `op`.
fn bound_after(p: &Vec<char>, op: &Vec<char>) -> (r: Option<Version>)
    requires
        has_at(p@, 0, op@),
    ensures
        model_of(r) == bound_of(p@, op@),
{
    let (a, b) = trim_bounds(p, op.len(), p.len());
    let text = string_of_range(p, a, b);
    Version::parse(text.as_str())
}

/// Whether the clause `p` admits `version`.
fn clause_admits_version(p: &Vec<char>, version: &Version) -> (r: bool)
    ensures
        r == clause_admits(p@, version@),
{
    let below = chars_of("< ");
    let at_most = chars_of("<= ");
    let at_least = chars_of(">= ");
    let above = chars_of("> ");
    if has_literal_at(p, 0, &below) {
        match bound_after(p, &below) {
            Some(max) => version.before(&max),
            None => true,
        }
    } else if has_literal_at(p, 0, &at_most) {
        match bound_after(p, &at_most) {
            Some(max) => version.at_most(&max),
            None => true,
        }
    } else if has_literal_at(p, 0, &at_least) {
        match bound_after(p, &at_least) {
            Some(min) => !version.before(&min),
            None => true,
        }
    } else if has_literal_at(p, 0, &above) {
        match bound_after(p, &above) {
            Some(min) => !version.at_most(&min),
            None => true,
        }
    } else {
        true
    }
}

impl HealthChecker {
    #[verifier::type_invariant]
    spec fn one_advisory_each(self) -> bool {
        forall|i: int|
            0 <= i < self.advisory_cache@.len() ==> (#[trigger] self.advisory_cache@[i]).1@.len()
                <= 1
    }

    /// The advisories that the checker knows, by package.
    pub closed spec fn cache(&self) -> Seq<KnownAdvisories> {
        self.advisory_cache.deep_view()
    }

    /// A checker that knows the advisories of `advisory_database`.
    pub fn new() -> (r: Self)
        ensures
            r.cache() == advisory_database(),
    {
        HealthChecker { advisory_cache: Self::load_advisory_database() }
    }

    /// The known advisories, by package.
    pub fn load_advisory_database() -> (r: Vec<(String, Vec<Advisory>)>)
        ensures
            r.deep_view() == advisory_database(),
            forall|i: int| 0 <= i < r@.len() ==> (#[trigger] r@[i]).1@.len() <= 1,
    {
        let mut db: Vec<(String, Vec<Advisory>)> = Vec::new();
        db.push(
            known_entry(
                "hyper",
                "RUSTSEC-2021-0078",
                "Integer overflow in hyper's parsing of the Transfer-Encoding header",
                "An integer overflow exists in hyper's header parsing code that can lead to data loss",
                Severity::High,
                "< 0.14.10",
                "0.14.10",
                "https://rustsec.org/advisories/RUSTSEC-2021-0078.html",
            ),
        );
        db.push(
            known_entry(
                "regex",
                "RUSTSEC-2022-0013",
                "Regex denial of service",
                "The regex crate has a potential denial of service vulnerability with certain patterns",
                Severity::Medium,
                "< 1.5.5",
                "1.5.5",
                "https://rustsec.org/advisories/RUSTSEC-2022-0013.html",
            ),
        );
        db.push(
            known_entry(
                "tokio",
                "RUSTSEC-2023-0001",
                "tokio::io::ReadHalf::unsplit is Unsound",
                "tokio::io::ReadHalf::unsplit can violate the API contract of ReadHalf and WriteHalf",
                Severity::High,
                ">= 1.8.0, < 1.18.5",
                "1.18.5",
                "https://rustsec.org/advisories/RUSTSEC-2023-0001.html",
            ),
        );
        db.push(
            known_entry(
                "chrono",
                "RUSTSEC-2020-0159",
                "Potential segfault in localtime_r invocations",
                "chrono had potential unsoundness in localtime_r usage",
                Severity::Medium,
                "< 0.4.20",
                "0.4.20",
                "https://rustsec.org/advisories/RUSTSEC-2020-0159.html",
            ),
        );
        assert(db.deep_view() =~= advisory_database());
        db
    }

    /// Whether the range `affected_spec` of an advisory holds `version`.
    pub fn is_version_affected(&self, version: &Version, affected_spec: &str) -> (r: bool)
        ensures
            r == range_admits(affected_spec@, version@),
    {
        let chars = chars_of(affected_spec);
        let parts = split_text(&chars, ',');
        let ghost clauses = text_views(parts@);
        let mut i: usize = 0;
        while i < parts.len()
            invariant
                i <= parts.len(),
                clauses == text_views(parts@),
                clauses == split_on(affected_spec@, ','),
                forall|j: int| 0 <= j < i ==> clause_admits(trim(#[trigger] clauses[j]), version@),
            decreases parts.len() - i,
        {
            let p = crate::text::trimmed(&parts[i]);
            assert(clauses[i as int] == parts@[i as int]@);
            if !clause_admits_version(&p, version) {
                assert(!clause_admits(trim(clauses[i as int]), version@));
                return false;
            }
            i += 1;
        }
        true
    }

    /// The known advisories against `name` whose range holds `version`.
    fn advisories_against(&self, name: &str, version: &Version) -> (r: Vec<Advisory>)
        ensures
            r.deep_view() == applicable(known_advisories(self.cache(), name@), version@),
            r@.len() <= 1,
    {
        proof {
            use_type_invariant(self);
        }
        let ghost cache = self.cache();
        let mut found: Vec<Advisory> = Vec::new();
        let mut i: usize = 0;
        assert(cache.skip(0) =~= cache);
        while i < self.advisory_cache.len()
            invariant
                i <= self.advisory_cache.len(),
                cache == self.advisory_cache.deep_view(),
                known_advisories(cache, name@) == known_advisories(cache.skip(i as int), name@),
                found@.len() == 0,
                forall|k: int|
                    0 <= k < self.advisory_cache@.len() ==> (
                    #[trigger] self.advisory_cache@[k]).1@.len() <= 1,
            decreases self.advisory_cache.len() - i,
        {
            proof {
                assert(cache.skip(i as int)[0] == cache[i as int]);
                assert(cache.skip(i as int).drop_first() =~= cache.skip(i + 1));
            }
            if crate::text::str_equal(self.advisory_cache[i].0.as_str(), name) {
                let known = &self.advisory_cache[i].1;
                let ghost models = known.deep_view();
                assert(models == known_advisories(cache, name@));
                let mut k: usize = 0;
                assert(models.take(0) =~= Seq::<AdvisoryModel>::empty());
                assert(found.deep_view() =~= Seq::<AdvisoryModel>::empty());
                while k < known.len()
                    invariant
                        k <= known.len(),
                        models == known.deep_view(),
                        found.deep_view() == applicable(models.take(k as int), version@),
                    decreases known.len() - k,
                {
                    let ghost before = found.deep_view();
                    proof {
                        assert(models.take(k + 1).drop_last() =~= models.take(k as int));
                        assert(models.take(k + 1).last() == known@[k as int].deep_view());
                    }
                    if self.is_version_affected(version, known[k].affected_versions.as_str()) {
                        let copy = known[k].clone();
                        found.push(copy);
                        assert(found.deep_view() =~= before.push(known@[k as int].deep_view()));
                    }
                    k += 1;
                }
                proof {
                    assert(models.take(known.len() as int) =~= models);
                    lemma_applicable_bound(models, version@);
                }
                return found;
            }
            i += 1;
        }
        assert(cache.skip(self.advisory_cache.len() as int) =~= Seq::<KnownAdvisories>::empty());
        assert(found.deep_view() =~= Seq::<AdvisoryModel>::empty());
        found
    }

    /// The health of each of `dependencies`: the advisories whose range
    /// holds its current version, and whether an update is open to it.
    pub fn check_health(&self, dependencies: &Vec<Dependency>) -> (r: HealthReport)
        ensures
            r.dependencies.deep_view() == health_of_all(self.cache(), dependencies@),
            r.total_dependencies == dependencies@.len(),
            r.vulnerable_count == vulnerable_total(r.dependencies@),
            r.outdated_count == outdated_total(r.dependencies@),
            r.critical_count == severity_total(r.dependencies@, Severity::Critical),
            r.high_count == severity_total(r.dependencies@, Severity::High),
            r.medium_count == severity_total(r.dependencies@, Severity::Medium),
            r.low_count == severity_total(r.dependencies@, Severity::Low),
    {
        let ghost cache = self.cache();
        let mut results: Vec<DependencyHealth> = Vec::new();
        let mut i: usize = 0;
        while i < dependencies.len()
            invariant
                i <= dependencies.len(),
                cache == self.cache(),
                results@.len() == i,
                advisory_total(results@) <= i,
                forall|j: int|
                    0 <= j < i ==> (#[trigger] results@[j]).deep_view() == health_of(
                        cache,
                        dependencies@[j].name@,
                        dependencies@[j].current_version@,
                        model_of(dependencies@[j].latest_version),
                    ),
            decreases dependencies.len() - i,
        {
            let dep = &dependencies[i];
            let advisories = self.advisories_against(dep.name.as_str(), &dep.current_version);
            let health = DependencyHealth {
                name: dep.name.clone(),
                version: dep.current_version.to_text(),
                advisories,
                is_outdated: dep.has_update(),
                maintenance_score: None,
            };
            let ghost before = results@;
            results.push(health);
            proof {
                assert(results@.drop_last() =~= before);
            }
            i += 1;
        }
        assert(results.deep_view() =~= health_of_all(cache, dependencies@));
        HealthReport::new(results)
    }
}

} // verus!
