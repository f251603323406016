//! Packages that the resolved dependency graph holds in more than one version.

use crate::model::version::{
    model_of, precedence, semver_parse, version_text, Version, VersionModel, VersionOrder,
};
use crate::text::{
    chars_of, contains_text, copy_range, count_nonblank_lines, first_such, has_within, is_space,
    lemma_first_such_is, lemma_lex_irreflexive, lemma_lex_total, lemma_lex_transitive,
    lemma_skip_word, lex_less, lines_of, nonblank_count, same_text, skip_spaces, skip_spaces_from,
    skip_word, skip_word_from, split_lines, string_of, strings_of, text_contains, text_less,
    text_views,
};
use vstd::prelude::*;
use vstd::string::StringExecFns;

verus! {

/// A package that the graph holds in several versions.
#[derive(Debug, Clone)]
pub struct Conflict {
    pub package_name: String,
    /// The distinct versions, each once, in the order in which the listing shows them first.
    pub versions: Vec<String>,
    pub dependents: Vec<String>,
    pub suggested_version: Option<String>,
}

/// What a `Conflict` holds.
pub struct ConflictModel {
    pub package_name: Seq<char>,
    pub versions: Seq<Seq<char>>,
    pub dependents: Seq<Seq<char>>,
    pub suggested_version: Option<Seq<char>>,
}

impl DeepView for Conflict {
    type V = ConflictModel;

    open spec fn deep_view(&self) -> ConflictModel {
        ConflictModel {
            package_name: self.package_name@,
            versions: self.versions.deep_view(),
            dependents: self.dependents.deep_view(),
            suggested_version: self.suggested_version.deep_view(),
        }
    }
}

/// The outcome of a conflict analysis.
#[derive(Debug, Clone)]
pub struct ConflictReport {
    pub conflicts: Vec<Conflict>,
    pub total_packages: usize,
    pub has_conflicts: bool,
}

/// Finds the conflicts in a listing of the dependency graph.
pub struct ConflictDetector;

/// What follows the run of the graph-listing tool that lists duplicated packages.
#[derive(Debug, Clone)]
pub enum DuplicatesStep {
    /// The graph is not resolved yet: the analysis ends with this report.
    Finished(ConflictReport),
    /// The tool failed: the analysis ends with this message.
    Failed(String),
    /// These are the conflicts; the full listing is to be run for the package count.
    ListAll(Vec<Conflict>),
}

/// The text in the tool's complaint that tells an unresolved graph from a failure.
pub open spec fn lock_file_name() -> Seq<char> {
    "Cargo.lock"@
}

/// The message for a failure of the tool, which follows with what the tool wrote.
pub open spec fn failure_prefix() -> Seq<char> {
    "cargo tree failed: "@
}

/// A listed package: its name and its version.
pub type Entry = (Seq<char>, Seq<char>);

/// A character of the tree that the listing draws before a package, or white space.
pub open spec fn is_tree_lead(c: char) -> bool {
    is_space(c) || c == '|' || c == '-' || c == '`' || c == '\\'
}

/// The index of the first character of `line` that is not part of the drawn tree.
pub open spec fn skip_tree_lead(line: Seq<char>) -> int {
    first_such(0, line.len() as int, |k: int| !is_tree_lead(line[k]))
}

/// The package that a line of the form `<name> v<version>` lists, after the
/// drawn tree and white space at its start.
pub open spec fn entry_of(line: Seq<char>) -> Option<Entry> {
    let a = skip_tree_lead(line);
    let b = skip_word(line, a);
    let c = skip_spaces(line, b);
    let d = skip_word(line, c);
    if a < line.len() && c < line.len() && line[c] == 'v' {
        Some((line.subrange(a, b), line.subrange(c + 1, d)))
    } else {
        None
    }
}

/// The packages that `lines` list, in order.
pub open spec fn entries_of(lines: Seq<Seq<char>>) -> Seq<Entry>
    decreases lines.len(),
{
    if lines.len() == 0 {
        Seq::empty()
    } else {
        let rest = entries_of(lines.drop_last());
        match entry_of(lines.last()) {
            Some(e) => rest.push(e),
            None => rest,
        }
    }
}

/// The packages that a listing shows, in order.
pub open spec fn listed_packages(output: Seq<char>) -> Seq<Entry> {
    entries_of(split_lines(output))
}

/// The versions with which `entries` list the package `name`, in order,
/// each as often as it is listed.
pub open spec fn versions_of(entries: Seq<Entry>, name: Seq<char>) -> Seq<Seq<char>>
    decreases entries.len(),
{
    if entries.len() == 0 {
        Seq::empty()
    } else {
        let rest = versions_of(entries.drop_last(), name);
        if entries.last().0 == name {
            rest.push(entries.last().1)
        } else {
            rest
        }
    }
}

/// The texts of `s`, each once, in the order in which they first occur.
pub open spec fn distinct(s: Seq<Seq<char>>) -> Seq<Seq<char>>
    decreases s.len(),
{
    if s.len() == 0 {
        Seq::empty()
    } else {
        let rest = distinct(s.drop_last());
        if rest.contains(s.last()) {
            rest
        } else {
            rest.push(s.last())
        }
    }
}

/// The highest of the versions that `versions` hold, where ties go to the
/// later one; texts that are no version are passed over.
pub open spec fn best_version(versions: Seq<Seq<char>>) -> Option<VersionModel>
    decreases versions.len(),
{
    if versions.len() == 0 {
        None
    } else {
        let rest = best_version(versions.drop_last());
        match semver_parse(versions.last()) {
            None => rest,
            Some(v) => match rest {
                None => Some(v),
                Some(b) => if precedence(v, b) >= 0 {
                    Some(v)
                } else {
                    Some(b)
                },
            },
        }
    }
}

/// The version to settle on: the text of the highest version among `versions`.
pub open spec fn suggested(versions: Seq<Seq<char>>) -> Option<Seq<char>> {
    match best_version(versions) {
        Some(v) => Some(version_text(v)),
        None => None,
    }
}

/// Whether the numbers of `a` are those of `b` or come before them: by
/// major, then minor, then patch number.
pub open spec fn numbers_at_most(a: VersionModel, b: VersionModel) -> bool {
    a.major < b.major || (a.major == b.major && (a.minor < b.minor || (a.minor == b.minor
        && a.patch <= b.patch)))
}

/// The version to settle on is one that `versions` hold, and none of them
/// has higher numbers; there is none only where `versions` hold no version.
pub proof fn lemma_best_version(versions: Seq<Seq<char>>)
    ensures
        best_version(versions) is None <==> forall|i: int|
            0 <= i < versions.len() ==> semver_parse(#[trigger] versions[i]) is None,
        best_version(versions) matches Some(b) ==> (exists|i: int|
            0 <= i < versions.len() && semver_parse(#[trigger] versions[i]) == Some(b))
            && forall|j: int|
            0 <= j < versions.len() ==> (semver_parse(#[trigger] versions[j]) matches Some(v)
                ==> numbers_at_most(v, b)),
    decreases versions.len(),
{
    if versions.len() > 0 {
        let shorter = versions.drop_last();
        let n = versions.len() - 1;
        lemma_best_version(shorter);
        assert(versions.last() == versions[n]);
        assert forall|i: int| 0 <= i < n implies shorter[i] == versions[i] by {}
        match best_version(versions) {
            None => {
                assert forall|i: int| 0 <= i < versions.len() implies semver_parse(
                    #[trigger] versions[i],
                ) is None by {
                    if i < n {
                        assert(shorter[i] == versions[i]);
                    }
                }
            },
            Some(b) => {
                if semver_parse(versions[n]) == Some(b) {
                } else {
                    let i = choose|i: int|
                        0 <= i < shorter.len() && semver_parse(#[trigger] shorter[i]) == Some(b);
                    assert(versions[i] == shorter[i]);
                }
                assert forall|j: int| 0 <= j < versions.len() implies (semver_parse(
                    #[trigger] versions[j],
                ) matches Some(v) ==> numbers_at_most(v, b)) by {
                    if j < n {
                        assert(shorter[j] == versions[j]);
                    }
                }
            },
        }
    }
}

/// Whether none of the versions that `versions` hold ranks above `b`.
pub open spec fn is_highest(b: VersionModel, versions: Seq<Seq<char>>) -> bool {
    forall|j: int|
        0 <= j < versions.len() ==> (semver_parse(#[trigger] versions[j]) matches Some(v) ==> v
            == b || precedence(v, b) <= 0)
}

/// The note that stands for each listing of a conflicting package.
pub open spec fn dependent_note() -> Seq<char> {
    "(dependency tree)"@
}

/// Whether `entries` list `name` in more than one distinct version.
pub open spec fn is_conflict(entries: Seq<Entry>, name: Seq<char>) -> bool {
    distinct(versions_of(entries, name)).len() > 1
}

/// The conflict that `entries` hold for `name`.
pub open spec fn conflict_of(entries: Seq<Entry>, name: Seq<char>) -> ConflictModel {
    let all = versions_of(entries, name);
    ConflictModel {
        package_name: name,
        versions: distinct(all),
        dependents: Seq::new(all.len(), |i: int| dependent_note()),
        suggested_version: suggested(distinct(all)),
    }
}

/// Whether `found` names the package `name`.
pub open spec fn lists_name(found: Seq<ConflictModel>, name: Seq<char>) -> bool {
    exists|k: int| 0 <= k < found.len() && (#[trigger] found[k]).package_name == name
}

/// Whether the names of `found` rise strictly in the order of texts.
pub open spec fn sorted_by_name(found: Seq<ConflictModel>) -> bool {
    forall|i: int, j: int|
        0 <= i < j < found.len() ==> lex_less(
            (#[trigger] found[i]).package_name,
            (#[trigger] found[j]).package_name,
        )
}

/// `found` is the conflict list of `entries`: one conflict for each package
/// listed in more than one distinct version and for no other, sorted by name.
pub open spec fn is_conflict_list(found: Seq<ConflictModel>, entries: Seq<Entry>) -> bool {
    &&& forall|k: int|
        0 <= k < found.len() ==> is_conflict(entries, (#[trigger] found[k]).package_name)
            && found[k] == conflict_of(entries, found[k].package_name)
    &&& forall|name: Seq<char>| #[trigger]
        is_conflict(entries, name) ==> lists_name(found, name)
    &&& sorted_by_name(found)
}

/// The pairs of texts that the pairs of vectors of `v` hold.
pub open spec fn entry_views(v: Seq<(Vec<char>, Vec<char>)>) -> Seq<Entry> {
    Seq::new(v.len(), |i: int| (v[i].0@, v[i].1@))
}

/// A listing has one conflict list: two lists that are the conflict list
/// of the same entries are equal.
pub proof fn lemma_conflict_list_unique(
    a: Seq<ConflictModel>,
    b: Seq<ConflictModel>,
    entries: Seq<Entry>,
)
    requires
        is_conflict_list(a, entries),
        is_conflict_list(b, entries),
    ensures
        a == b,
{
    if a.len() <= b.len() {
        lemma_same_names(a, b, entries, a.len() as int);
        lemma_no_longer(a, b, entries);
    } else {
        lemma_same_names(b, a, entries, b.len() as int);
        lemma_no_longer(b, a, entries);
    }
    assert(a =~= b);
}

/// Two conflict lists of the same entries name the same packages at their
/// first `i` places.
proof fn lemma_same_names(
    a: Seq<ConflictModel>,
    b: Seq<ConflictModel>,
    entries: Seq<Entry>,
    i: int,
)
    requires
        is_conflict_list(a, entries),
        is_conflict_list(b, entries),
        0 <= i <= a.len() <= b.len(),
    ensures
        forall|k: int| 0 <= k < i ==> (#[trigger] a[k]).package_name == b[k].package_name,
        forall|k: int| 0 <= k < i ==> a[k] == b[k],
    decreases i,
{
    if i > 0 {
        lemma_same_names(a, b, entries, i - 1);
        let n = i - 1;
        let x = a[n].package_name;
        let y = b[n].package_name;
        if x != y {
            assert(is_conflict(entries, x));
            assert(lists_name(b, x));
            let p = choose|p: int| 0 <= p < b.len() && (#[trigger] b[p]).package_name == x;
            assert(is_conflict(entries, y));
            assert(lists_name(a, y));
            let q = choose|q: int| 0 <= q < a.len() && (#[trigger] a[q]).package_name == y;
            if p < n {
                assert(a[p].package_name == b[p].package_name);
                assert(lex_less(a[p].package_name, a[n].package_name));
                lemma_lex_irreflexive(x);
            } else if q < n {
                assert(a[q].package_name == b[q].package_name);
                assert(lex_less(b[q].package_name, b[n].package_name));
                lemma_lex_irreflexive(y);
            } else {
                assert(p > n && q > n);
                assert(lex_less(b[n].package_name, b[p].package_name));
                assert(lex_less(a[n].package_name, a[q].package_name));
                lemma_lex_transitive(x, y, x);
                lemma_lex_irreflexive(x);
            }
        }
        assert(a[n] == conflict_of(entries, x));
        assert(b[n] == conflict_of(entries, y));
    }
}

/// Of two conflict lists of the same entries that agree as far as the
/// first goes, the second is no longer than the first.
proof fn lemma_no_longer(a: Seq<ConflictModel>, b: Seq<ConflictModel>, entries: Seq<Entry>)
    requires
        is_conflict_list(a, entries),
        is_conflict_list(b, entries),
        a.len() <= b.len(),
        forall|k: int| 0 <= k < a.len() ==> (#[trigger] a[k]).package_name == b[k].package_name,
    ensures
        a.len() == b.len(),
{
    if a.len() < b.len() {
        let n = a.len() as int;
        let y = b[n].package_name;
        assert(is_conflict(entries, y));
        assert(lists_name(a, y));
        let q = choose|q: int| 0 <= q < a.len() && (#[trigger] a[q]).package_name == y;
        assert(a[q].package_name == b[q].package_name);
        assert(lex_less(b[q].package_name, b[n].package_name));
        lemma_lex_irreflexive(y);
    }
}

/// Whether one of the first `i` entries lists the package `name`.
pub open spec fn occurs_before(entries: Seq<Entry>, i: int, name: Seq<char>) -> bool {
    exists|j: int| 0 <= j < i && (#[trigger] entries[j]).0 == name
}

/// A package that is listed with a version is named by an entry.
pub proof fn lemma_versions_listed(entries: Seq<Entry>, name: Seq<char>)
    ensures
        versions_of(entries, name).len() > 0 ==> occurs_before(
            entries,
            entries.len() as int,
            name,
        ),
    decreases entries.len(),
{
    if entries.len() > 0 {
        let shorter = entries.drop_last();
        lemma_versions_listed(shorter, name);
        if entries.last().0 == name {
            assert(entries[entries.len() - 1].0 == name);
        } else if versions_of(entries, name).len() > 0 {
            let j = choose|j: int| 0 <= j < shorter.len() && (#[trigger] shorter[j]).0 == name;
            assert(entries[j] == shorter[j]);
        }
    }
}

/// A package listed in one version only, however often, is no conflict.
pub proof fn lemma_single_version_no_conflict(
    entries: Seq<Entry>,
    name: Seq<char>,
    version: Seq<char>,
)
    requires
        forall|j: int|
            0 <= j < entries.len() && (#[trigger] entries[j]).0 == name ==> entries[j].1
                == version,
    ensures
        !is_conflict(entries, name),
{
    lemma_versions_all(entries, name, version);
    lemma_distinct_single(versions_of(entries, name), version);
}

/// Where every entry for `name` gives `version`, so does every text of `versions_of`.
proof fn lemma_versions_all(entries: Seq<Entry>, name: Seq<char>, version: Seq<char>)
    requires
        forall|j: int|
            0 <= j < entries.len() && (#[trigger] entries[j]).0 == name ==> entries[j].1
                == version,
    ensures
        forall|k: int|
            0 <= k < versions_of(entries, name).len() ==> #[trigger] versions_of(entries, name)[k]
                == version,
    decreases entries.len(),
{
    if entries.len() > 0 {
        let shorter = entries.drop_last();
        assert forall|j: int|
            0 <= j < shorter.len() && (#[trigger] shorter[j]).0 == name implies shorter[j].1
            == version by {
            assert(shorter[j] == entries[j]);
        }
        lemma_versions_all(shorter, name, version);
        assert(entries.last() == entries[entries.len() - 1]);
        let rest = versions_of(shorter, name);
        let all = versions_of(entries, name);
        assert forall|k: int| 0 <= k < all.len() implies #[trigger] all[k] == version by {
            if k < rest.len() {
                assert(all[k] == rest[k]);
            }
        }
    }
}

/// Of texts that are all the same, at most one is distinct.
proof fn lemma_distinct_single(s: Seq<Seq<char>>, version: Seq<char>)
    requires
        forall|k: int| 0 <= k < s.len() ==> #[trigger] s[k] == version,
    ensures
        distinct(s).len() <= 1,
        forall|k: int| 0 <= k < distinct(s).len() ==> #[trigger] distinct(s)[k] == version,
    decreases s.len(),
{
    if s.len() > 0 {
        let shorter = s.drop_last();
        assert forall|k: int| 0 <= k < shorter.len() implies #[trigger] shorter[k] == version by {
            assert(shorter[k] == s[k]);
        }
        lemma_distinct_single(shorter, version);
        let rest = distinct(shorter);
        assert(s.last() == version);
        if rest.len() == 1 {
            assert(rest[0] == version);
            assert(rest.contains(s.last()));
        }
    }
}

/// Whether an entry before the one of index `i` lists the same package.
fn seen_before(entries: &Vec<(Vec<char>, Vec<char>)>, i: usize) -> (r: bool)
    requires
        i < entries.len(),
    ensures
        r == occurs_before(entry_views(entries@), i as int, entries@[i as int].0@),
{
    let ghost e = entry_views(entries@);
    let ghost name = entries@[i as int].0@;
    let mut j: usize = 0;
    while j < i
        invariant
            j <= i < entries.len(),
            e == entry_views(entries@),
            name == entries@[i as int].0@,
            !occurs_before(e, j as int, name),
        decreases i - j,
    {
        if same_text(&entries[j].0, &entries[i].0) {
            assert(e[j as int].0 == name);
            return true;
        }
        proof {
            if occurs_before(e, j + 1, name) {
                let w = choose|w: int| 0 <= w < j + 1 && (#[trigger] e[w]).0 == name;
                if w < j {
                    assert(occurs_before(e, j as int, name));
                }
            }
        }
        j += 1;
    }
    false
}

/// The versions with which the entries list the package `name`, in order.
fn versions_named(entries: &Vec<(Vec<char>, Vec<char>)>, name: &Vec<char>) -> (r: Vec<Vec<char>>)
    ensures
        text_views(r@) == versions_of(entry_views(entries@), name@),
{
    let ghost e = entry_views(entries@);
    let mut r: Vec<Vec<char>> = Vec::new();
    let mut i: usize = 0;
    assert(e.take(0) =~= Seq::<Entry>::empty());
    assert(text_views(r@) =~= Seq::<Seq<char>>::empty());
    while i < entries.len()
        invariant
            i <= entries.len(),
            e == entry_views(entries@),
            text_views(r@) == versions_of(e.take(i as int), name@),
        decreases entries.len() - i,
    {
        let ghost before = text_views(r@);
        proof {
            assert(e.take(i + 1).drop_last() =~= e.take(i as int));
            assert(e.take(i + 1).last() == e[i as int]);
        }
        if same_text(&entries[i].0, name) {
            let version = copy_range(&entries[i].1, 0, entries[i].1.len());
            assert(version@ =~= entries@[i as int].1@);
            r.push(version);
            assert(text_views(r@) =~= before.push(e[i as int].1));
        }
        i += 1;
    }
    assert(e.take(entries.len() as int) =~= e);
    r
}

/// The texts of `v`, each once, in the order in which they first occur.
fn distinct_texts(v: &Vec<Vec<char>>) -> (r: Vec<Vec<char>>)
    ensures
        text_views(r@) == distinct(text_views(v@)),
{
    let ghost texts = text_views(v@);
    let mut r: Vec<Vec<char>> = Vec::new();
    let mut i: usize = 0;
    assert(texts.take(0) =~= Seq::<Seq<char>>::empty());
    assert(text_views(r@) =~= Seq::<Seq<char>>::empty());
    while i < v.len()
        invariant
            i <= v.len(),
            texts == text_views(v@),
            text_views(r@) == distinct(texts.take(i as int)),
        decreases v.len() - i,
    {
        let ghost before = text_views(r@);
        proof {
            assert(texts.take(i + 1).drop_last() =~= texts.take(i as int));
            assert(texts.take(i + 1).last() == v@[i as int]@);
        }
        if !contains_text(&r, &v[i]) {
            let item = copy_range(&v[i], 0, v[i].len());
            assert(item@ =~= v@[i as int]@);
            r.push(item);
            assert(text_views(r@) =~= before.push(v@[i as int]@));
        }
        i += 1;
    }
    assert(texts.take(v.len() as int) =~= texts);
    r
}

/// The note for a listing, `n` times.
fn dependent_notes(n: usize) -> (r: Vec<String>)
    ensures
        r.deep_view() == Seq::new(n as nat, |i: int| dependent_note()),
{
    let mut r: Vec<String> = Vec::new();
    let mut i: usize = 0;
    while i < n
        invariant
            i <= n,
            r.len() == i,
            forall|j: int| 0 <= j < i ==> r@[j]@ == dependent_note(),
        decreases n - i,
    {
        r.push("(dependency tree)".to_string());
        i += 1;
    }
    assert(r.deep_view() =~= Seq::new(n as nat, |i: int| dependent_note()));
    r
}

/// Puts `conflict` into `out` at the place that its name has in the order of texts.
fn insert_by_name(out: &mut Vec<Conflict>, conflict: Conflict) -> (p: usize)
    requires
        sorted_by_name(old(out).deep_view()),
        !lists_name(old(out).deep_view(), conflict.package_name@),
    ensures
        p <= old(out).len(),
        final(out).deep_view() == old(out).deep_view().insert(p as int, conflict.deep_view()),
        sorted_by_name(final(out).deep_view()),
{
    let ghost found = out.deep_view();
    let ghost model = conflict.deep_view();
    let name = chars_of(conflict.package_name.as_str());
    let mut p: usize = 0;
    let mut placed = false;
    while !placed && p < out.len()
        invariant
            p <= out.len(),
            out == old(out),
            found == out.deep_view(),
            name@ == model.package_name,
            !lists_name(found, name@),
            forall|k: int| 0 <= k < p ==> lex_less((#[trigger] found[k]).package_name, name@),
            placed ==> p < out.len() && lex_less(name@, found[p as int].package_name),
        decreases out.len() - p + (if placed { 0int } else { 1int }),
    {
        let other = chars_of(out[p].package_name.as_str());
        if text_less(&other, &name) {
            p += 1;
        } else {
            proof {
                assert(found[p as int].package_name == other@);
                if other@ == name@ {
                    assert(lists_name(found, name@));
                }
                lemma_lex_total(other@, name@);
            }
            placed = true;
        }
    }
    out.insert(p, conflict);
    proof {
        let after = out.deep_view();
        let wanted = found.insert(p as int, model);
        assert(after =~= wanted);
        assert forall|i: int, j: int| 0 <= i < j < wanted.len() implies lex_less(
            (#[trigger] wanted[i]).package_name,
            (#[trigger] wanted[j]).package_name,
        ) by {
            if j < p {
                assert(wanted[i] == found[i] && wanted[j] == found[j]);
            } else if j == p {
                assert(wanted[i] == found[i]);
            } else if i == p {
                assert(wanted[j] == found[j - 1]);
                if j - 1 > p {
                    assert(lex_less(found[p as int].package_name, found[j - 1].package_name));
                    lemma_lex_transitive(
                        name@,
                        found[p as int].package_name,
                        found[j - 1].package_name,
                    );
                }
            } else if i < p {
                assert(wanted[i] == found[i] && wanted[j] == found[j - 1]);
                if i == j - 1 {
                } else {
                    assert(lex_less(found[i].package_name, found[j - 1].package_name));
                }
            } else {
                assert(wanted[i] == found[i - 1] && wanted[j] == found[j - 1]);
            }
        }
    }
    p
}

/// What occurs before `i` occurs before any later index.
proof fn lemma_occurs_later(entries: Seq<Entry>, i: int, j: int, name: Seq<char>)
    requires
        occurs_before(entries, i, name),
        i <= j,
    ensures
        occurs_before(entries, j, name),
{
    let w = choose|w: int| 0 <= w < i && (#[trigger] entries[w]).0 == name;
    assert(0 <= w < j && entries[w].0 == name);
}

/// Whether `c` belongs to the drawn tree or is white space.
fn char_is_tree_lead(c: char) -> (r: bool)
    ensures
        r == is_tree_lead(c),
{
    crate::text::char_is_space(c) || c == '|' || c == '-' || c == '`' || c == '\\'
}

/// The package that `line` lists, if it lists one.
fn entry_of_line(line: &Vec<char>) -> (r: Option<(Vec<char>, Vec<char>)>)
    ensures
        match r {
            Some(e) => entry_of(line@) == Some((e.0@, e.1@)),
            None => entry_of(line@) is None,
        },
{
    let mut a: usize = 0;
    while a < line.len() && char_is_tree_lead(line[a])
        invariant
            a <= line.len(),
            forall|j: int| 0 <= j < a ==> is_tree_lead(line@[j]),
        decreases line.len() - a,
    {
        a += 1;
    }
    proof {
        let pred = |k: int| !is_tree_lead(line@[k]);
        assert forall|j: int| 0 <= j < a implies !#[trigger] pred(j) by {}
        lemma_first_such_is(0, line.len() as int, pred, a as int);
    }
    let b = skip_word_from(line, a);
    let c = skip_spaces_from(line, b);
    let d = skip_word_from(line, c);
    if a < line.len() && c < line.len() && line[c] == 'v' {
        proof {
            lemma_skip_word(line@, c as int);
        }
        let name = copy_range(line, a, b);
        let version = copy_range(line, c + 1, d);
        Some((name, version))
    } else {
        None
    }
}

/// The packages that `lines` list, in order.
fn collect_entries(lines: &Vec<Vec<char>>) -> (r: Vec<(Vec<char>, Vec<char>)>)
    ensures
        entry_views(r@) == entries_of(text_views(lines@)),
{
    let mut r: Vec<(Vec<char>, Vec<char>)> = Vec::new();
    let mut i: usize = 0;
    assert(text_views(lines@).take(0) =~= Seq::<Seq<char>>::empty());
    assert(entry_views(r@) =~= Seq::<Entry>::empty());
    while i < lines.len()
        invariant
            i <= lines.len(),
            entry_views(r@) == entries_of(text_views(lines@).take(i as int)),
        decreases lines.len() - i,
    {
        let ghost before = entry_views(r@);
        proof {
            let all = text_views(lines@);
            assert(all.take(i + 1).drop_last() =~= all.take(i as int));
            assert(all.take(i + 1).last() == lines@[i as int]@);
        }
        match entry_of_line(&lines[i]) {
            Some(e) => {
                let ghost pair = (e.0@, e.1@);
                r.push(e);
                assert(entry_views(r@) =~= before.push(pair));
            },
            None => {},
        }
        i += 1;
    }
    assert(text_views(lines@).take(lines.len() as int) =~= text_views(lines@));
    r
}

impl ConflictReport {
    /// The report of `conflicts` among `total_packages` packages.
    pub fn new(conflicts: Vec<Conflict>, total_packages: usize) -> (r: Self)
        ensures
            r.conflicts == conflicts,
            r.total_packages == total_packages,
            r.has_conflicts == (conflicts.len() > 0),
    {
        let has_conflicts = conflicts.len() > 0;
        ConflictReport { conflicts, total_packages, has_conflicts }
    }
}

impl ConflictDetector {
    /// A detector; it holds no state.
    pub fn new() -> Self {
        ConflictDetector
    }

    /// The version to settle a conflict on: the highest of `versions` that
    /// are semantic versions, as text. `None` when none of them is one.
    pub fn suggest_version(&self, versions: &Vec<String>) -> (r: Option<String>)
        ensures
            r.deep_view() == suggested(versions.deep_view()),
            best_version(versions.deep_view()) matches Some(b) ==> is_highest(
                b,
                versions.deep_view(),
            ),
    {
        let mut best: Option<Version> = None;
        let mut i: usize = 0;
        let ghost texts = versions.deep_view();
        assert(texts.take(0) =~= Seq::<Seq<char>>::empty());
        while i < versions.len()
            invariant
                i <= versions.len(),
                texts == versions.deep_view(),
                model_of(best) == best_version(texts.take(i as int)),
                forall|j: int|
                    0 <= j < i ==> (semver_parse(#[trigger] texts[j]) matches Some(x) ==> (
                    best matches Some(b) && (x == b@ || precedence(x, b@) <= 0))),
            decreases versions.len() - i,
        {
            proof {
                assert(texts.take(i + 1).drop_last() =~= texts.take(i as int));
                assert(texts.take(i + 1).last() == versions@[i as int]@);
                assert(texts[i as int] == versions@[i as int]@);
            }
            match Version::parse(versions[i].as_str()) {
                None => {},
                Some(v) => {
                    let better = match &best {
                        None => true,
                        Some(b) => match b.compare(&v) {
                            VersionOrder::Greater => false,
                            _ => true,
                        },
                    };
                    if better {
                        best = Some(v);
                    }
                },
            }
            i += 1;
        }
        assert(texts.take(versions.len() as int) =~= texts);
        match best {
            Some(v) => Some(v.to_text()),
            None => None,
        }
    }

    /// The conflicts that a listing of duplicated packages shows.
    ///
    /// Each line of the form `<name> v<version>`, after the drawn tree at
    /// its start, lists a package. A package listed in more than one
    /// distinct version is a conflict; the conflicts come sorted by name.
    pub fn parse_duplicates(&self, output: &str) -> (r: Vec<Conflict>)
        ensures
            is_conflict_list(r.deep_view(), listed_packages(output@)),
    {
        let chars = chars_of(output);
        let lines = lines_of(&chars);
        let entries = collect_entries(&lines);
        let ghost e = listed_packages(output@);
        let mut out: Vec<Conflict> = Vec::new();
        let mut i: usize = 0;
        while i < entries.len()
            invariant
                i <= entries.len(),
                e == entry_views(entries@),
                forall|k: int|
                    0 <= k < out.deep_view().len() ==> is_conflict(
                        e,
                        (#[trigger] out.deep_view()[k]).package_name,
                    ) && out.deep_view()[k] == conflict_of(e, out.deep_view()[k].package_name)
                        && occurs_before(e, i as int, out.deep_view()[k].package_name),
                forall|j: int|
                    0 <= j < i && is_conflict(e, (#[trigger] e[j]).0) ==> lists_name(
                        out.deep_view(),
                        e[j].0,
                    ),
                sorted_by_name(out.deep_view()),
            decreases entries.len() - i,
        {
            let ghost found = out.deep_view();
            let ghost name = e[i as int].0;
            let seen = seen_before(&entries, i);
            let mut added = false;
            if !seen {
                let versions = versions_named(&entries, &entries[i].0);
                let unique = distinct_texts(&versions);
                if unique.len() > 1 {
                    let unique_strings = strings_of(&unique);
                    let suggested_version = self.suggest_version(&unique_strings);
                    let conflict = Conflict {
                        package_name: string_of(&entries[i].0),
                        versions: unique_strings,
                        dependents: dependent_notes(versions.len()),
                        suggested_version,
                    };
                    assert(conflict.deep_view() == conflict_of(e, name));
                    proof {
                        if lists_name(found, name) {
                            let k = choose|k: int|
                                0 <= k < found.len() && (#[trigger] found[k]).package_name == name;
                            assert(occurs_before(e, i as int, found[k].package_name));
                        }
                    }
                    let ghost model = conflict.deep_view();
                    let p = insert_by_name(&mut out, conflict);
                    added = true;
                    proof {
                        let after = out.deep_view();
                        assert(after == found.insert(p as int, model));
                        assert(after[p as int] == model);
                        assert forall|k: int| 0 <= k < after.len() implies is_conflict(
                            e,
                            (#[trigger] after[k]).package_name,
                        ) && after[k] == conflict_of(e, after[k].package_name) && occurs_before(
                            e,
                            i + 1,
                            after[k].package_name,
                        ) by {
                            if k < p {
                                assert(after[k] == found[k]);
                                lemma_occurs_later(e, i as int, i + 1, found[k].package_name);
                            } else if k == p {
                                assert(e[i as int].0 == name);
                            } else {
                                assert(after[k] == found[k - 1]);
                                lemma_occurs_later(e, i as int, i + 1, found[k - 1].package_name);
                            }
                        }
                        assert forall|j: int|
                            0 <= j < i + 1 && is_conflict(
                                e,
                                (#[trigger] e[j]).0,
                            ) implies lists_name(after, e[j].0) by {
                            if j < i {
                                let k = choose|k: int|
                                    0 <= k < found.len() && (#[trigger] found[k]).package_name
                                        == e[j].0;
                                if k < p {
                                    assert(after[k] == found[k]);
                                } else {
                                    assert(after[k + 1] == found[k]);
                                }
                            } else {
                                assert(after[p as int].package_name == name);
                            }
                        }
                    }
                }
            }
            proof {
                if !added {
                    assert forall|k: int| 0 <= k < found.len() implies occurs_before(
                        e,
                        i + 1,
                        (#[trigger] found[k]).package_name,
                    ) by {
                        lemma_occurs_later(e, i as int, i + 1, found[k].package_name);
                    }
                    if seen && is_conflict(e, name) {
                        let j = choose|j: int| 0 <= j < i && (#[trigger] e[j]).0 == name;
                        assert(lists_name(found, e[j].0));
                    }
                }
            }
            i += 1;
        }
        proof {
            let found = out.deep_view();
            assert forall|name: Seq<char>| #[trigger] is_conflict(e, name) implies lists_name(
                found,
                name,
            ) by {
                lemma_versions_listed(e, name);
                let j = choose|j: int| 0 <= j < e.len() && (#[trigger] e[j]).0 == name;
                assert(lists_name(found, e[j].0));
            }
        }
        out
    }

    /// Reads the outcome of the run that lists duplicated packages.
    ///
    /// A failed run that speaks of the lock file means that the graph is not
    /// resolved yet, which is no conflict: the report is empty. Any other
    /// failed run is an error. A run that succeeded gives the conflicts.
    pub fn after_duplicates(&self, success: bool, stdout: &str, stderr: &str) -> (r:
        DuplicatesStep)
        ensures
            match r {
                DuplicatesStep::Finished(report) => !success && has_within(
                    stderr@,
                    lock_file_name(),
                ) && report.conflicts@.len() == 0 && report.total_packages == 0
                    && !report.has_conflicts,
                DuplicatesStep::Failed(message) => !success && !has_within(
                    stderr@,
                    lock_file_name(),
                ) && message@ == failure_prefix() + stderr@,
                DuplicatesStep::ListAll(conflicts) => success && is_conflict_list(
                    conflicts.deep_view(),
                    listed_packages(stdout@),
                ),
            },
    {
        if success {
            DuplicatesStep::ListAll(self.parse_duplicates(stdout))
        } else {
            let complaint = chars_of(stderr);
            let lock = chars_of("Cargo.lock");
            if text_contains(&complaint, &lock) {
                DuplicatesStep::Finished(ConflictReport::new(Vec::new(), 0))
            } else {
                let mut message = "cargo tree failed: ".to_string();
                message.append(stderr);
                DuplicatesStep::Failed(message)
            }
        }
    }

    /// The number of packages in a full listing: its lines that are not blank.
    pub fn count_packages(&self, stdout: &str) -> (r: usize)
        ensures
            r == nonblank_count(split_lines(stdout@)),
    {
        let chars = chars_of(stdout);
        count_nonblank_lines(&chars)
    }

    /// The report, from the conflicts and the outcome of the full listing.
    /// A listing that failed counts as no packages.
    pub fn after_listing(&self, conflicts: Vec<Conflict>, success: bool, stdout: &str) -> (r:
        ConflictReport)
        ensures
            r.conflicts == conflicts,
            r.has_conflicts == (conflicts.len() > 0),
            r.total_packages == if success {
                nonblank_count(split_lines(stdout@))
            } else {
                0
            },
    {
        let total: usize = if success {
            self.count_packages(stdout)
        } else {
            0
        };
        ConflictReport::new(conflicts, total)
    }
}

} // verus!
