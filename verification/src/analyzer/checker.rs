//! Reading the version that a requirement declares.

use crate::model::dependency::Dependency;
use crate::model::manifest::{DependencySpec, SpecModel};
use crate::model::version::{
    decimal, digit, is_digit, model_of, semver_parse, triple_text, Version, version_text,
    VersionModel,
};
use crate::text::{
    chars_of, is_space, lemma_skip_spaces_is, lemma_trimmed_len, lemma_trimmed_len_is, string_of,
    string_of_range, trim, trim_bounds, trim_end, trim_start, trimmed_len,
};
use vstd::prelude::*;

verus! {

/// One of the comparison operators that may stand before a version.
pub open spec fn is_operator(c: char) -> bool {
    c == '^' || c == '~' || c == '=' || c == '>' || c == '<'
}

/// `s` without the operator at its start, if there is one.
pub open spec fn strip_operator(s: Seq<char>) -> Seq<char> {
    if s.len() > 0 && is_operator(s[0]) {
        s.subrange(1, s.len() as int)
    } else {
        s
    }
}

/// The version part of a requirement: what is left when the surrounding
/// white space and at most one leading operator are taken away.
pub open spec fn cleaned_requirement(req: Seq<char>) -> Seq<char> {
    trim(strip_operator(trim(req)))
}

/// The number of dots in `s`.
pub open spec fn dot_count(s: Seq<char>) -> nat
    decreases s.len(),
{
    if s.len() == 0 {
        0
    } else {
        dot_count(s.drop_last()) + if s.last() == '.' {
            1nat
        } else {
            0nat
        }
    }
}

/// `s` with the components it lacks: one component gets `.0.0`, two get
/// `.0`, three or more stay as they are.
pub open spec fn normalized(s: Seq<char>) -> Seq<char> {
    if dot_count(s) == 0 {
        s + seq!['.', '0', '.', '0']
    } else if dot_count(s) == 1 {
        s + seq!['.', '0']
    } else {
        s
    }
}

/// The concrete version that a requirement stands for: that of its version
/// part, read as it is or, failing that, padded to three components.
pub open spec fn concrete_version(req: Seq<char>) -> Option<VersionModel> {
    let cleaned = cleaned_requirement(req);
    match semver_parse(cleaned) {
        Some(v) => Some(v),
        None => semver_parse(normalized(cleaned)),
    }
}

/// The dots of a text put together are those of its two parts.
pub proof fn lemma_dot_count_concat(a: Seq<char>, b: Seq<char>)
    ensures
        dot_count(a + b) == dot_count(a) + dot_count(b),
    decreases b.len(),
{
    if b.len() == 0 {
        assert(a + b == a);
    } else {
        lemma_dot_count_concat(a, b.drop_last());
        assert((a + b).drop_last() == a + b.drop_last());
    }
}

/// A number in decimal is one digit or more, and nothing but digits.
pub proof fn lemma_decimal_digits(n: nat)
    ensures
        decimal(n).len() > 0,
        forall|i: int| 0 <= i < decimal(n).len() ==> is_digit(#[trigger] decimal(n)[i]),
        dot_count(decimal(n)) == 0,
    decreases n,
{
    if n < 10 {
        assert(decimal(n).drop_last() == Seq::<char>::empty());
        assert(dot_count(decimal(n).drop_last()) == 0);
    } else {
        lemma_decimal_digits(n / 10);
        assert(decimal(n).drop_last() == decimal(n / 10));
    }
}

/// A text that starts and ends with a digit is its own version part.
pub proof fn lemma_cleaned_digits(s: Seq<char>)
    requires
        s.len() > 0,
        is_digit(s[0]),
        is_digit(s.last()),
    ensures
        cleaned_requirement(s) == s,
{
    lemma_skip_spaces_is(s, 0, 0);
    assert(trim_start(s) == s);
    lemma_trimmed_len_is(s, s.len() as int);
    assert(trim_end(s) == s);
}

/// The text form of a version holds at least two dots.
pub proof fn lemma_version_text_dots(v: VersionModel)
    ensures
        dot_count(version_text(v)) >= 2,
{
    let d1 = decimal(v.major as nat);
    let d2 = decimal(v.minor as nat);
    let d3 = decimal(v.patch as nat);
    let dot = seq!['.'];
    let tail1 = if v.pre.len() > 0 {
        seq!['-'] + v.pre
    } else {
        Seq::empty()
    };
    let tail2 = if v.build.len() > 0 {
        seq!['+'] + v.build
    } else {
        Seq::empty()
    };
    assert(dot.drop_last() == Seq::<char>::empty());
    assert(dot_count(dot.drop_last()) == 0);
    assert(dot_count(dot) == 1);
    lemma_dot_count_concat(d1, dot);
    lemma_dot_count_concat(d1 + dot, d2);
    lemma_dot_count_concat(d1 + dot + d2, dot);
    lemma_dot_count_concat(d1 + dot + d2 + dot, d3);
    lemma_dot_count_concat(triple_text(v.major, v.minor, v.patch), tail1);
    lemma_dot_count_concat(triple_text(v.major, v.minor, v.patch) + tail1, tail2);
}

/// An operator before a text that starts with a digit, as every version
/// does, changes nothing of the version read.
pub proof fn lemma_operator_ignored(op: char, v: Seq<char>)
    requires
        is_operator(op),
        v.len() > 0,
        is_digit(v[0]),
    ensures
        concrete_version(seq![op] + v) == concrete_version(v),
{
    let t = trim_end(v);
    let w = seq![op] + v;
    lemma_trimmed_len(v);
    let n = trimmed_len(v);
    assert(n > 0) by {
        if n == 0 {
            assert(is_space(v[0]));
        }
    }
    // the version part of `v`
    lemma_skip_spaces_is(v, 0, 0);
    assert(trim_start(v) == v);
    assert(trim(v) == t);
    assert(t[0] == v[0]);
    assert(strip_operator(t) == t);
    lemma_skip_spaces_is(t, 0, 0);
    assert(trim_start(t) == t);
    assert(t.last() == v[n - 1]);
    lemma_trimmed_len_is(t, n);
    assert(trim_end(t) == t);
    assert(cleaned_requirement(v) == t);
    // the version part of the operator followed by `v`
    lemma_skip_spaces_is(w, 0, 0);
    assert(trim_start(w) == w);
    assert(w[n] == v[n - 1]);
    assert forall|i: int| n + 1 <= i < w.len() implies is_space(w[i]) by {
        assert(w[i] == v[i - 1]);
    }
    lemma_trimmed_len_is(w, n + 1);
    assert(trim(w) == seq![op] + t);
    assert(strip_operator(seq![op] + t) == t);
    assert(cleaned_requirement(w) == t);
}

/// Pads a version to three components: `1` becomes `1.0.0`, `1.0` becomes
/// `1.0.0`, and a text with three or more components stays as it is.
pub fn normalize_version(version: &str) -> (r: String)
    ensures
        r@ == normalized(version@),
{
    let mut chars = chars_of(version);
    let mut dots: usize = 0;
    let mut i: usize = 0;
    while i < chars.len()
        invariant
            i <= chars.len(),
            dots <= i,
            dots == dot_count(chars@.take(i as int)),
        decreases chars.len() - i,
    {
        proof {
            assert(chars@.take(i + 1).drop_last() == chars@.take(i as int));
        }
        if chars[i] == '.' {
            dots += 1;
        }
        i += 1;
    }
    assert(chars@.take(chars.len() as int) == chars@);
    if dots == 0 {
        chars.push('.');
        chars.push('0');
        chars.push('.');
        chars.push('0');
        assert(chars@ == version@ + seq!['.', '0', '.', '0']);
    } else if dots == 1 {
        chars.push('.');
        chars.push('0');
        assert(chars@ == version@ + seq!['.', '0']);
    }
    string_of(&chars)
}

/// Whether `c` is one of the operators.
fn char_is_operator(c: char) -> (r: bool)
    ensures
        r == is_operator(c),
{
    c == '^' || c == '~' || c == '=' || c == '>' || c == '<'
}

/// Reads the concrete version that a requirement such as `^1.0.5`, `~2.3`
/// or `1` stands for. `None` when the requirement holds no such version.
///
/// A canonical `X.Y.Z` is read as that version, `N.M` as `N.M.0` and `N` as
/// `N.0.0`.
pub fn parse_version_req(req: &str) -> (r: Option<Version>)
    ensures
        model_of(r) == concrete_version(req@),
        forall|a: u64, b: u64, c: u64|
            req@ == #[trigger] triple_text(a, b, c) ==> model_of(r) == Some(
                VersionModel::plain(a, b, c),
            ),
        forall|a: u64, b: u64|
            req@ == #[trigger] decimal(a as nat) + seq!['.'] + #[trigger] decimal(b as nat)
                ==> model_of(r) == Some(VersionModel::plain(a, b, 0)),
        forall|a: u64|
            req@ == #[trigger] decimal(a as nat) ==> model_of(r) == Some(
                VersionModel::plain(a, 0, 0),
            ),
{
    let chars = chars_of(req);
    let (a, b) = trim_bounds(&chars, 0, chars.len());
    assert(chars@.subrange(0, chars.len() as int) == chars@);
    let a2: usize = if a < b && char_is_operator(chars[a]) {
        a + 1
    } else {
        a
    };
    proof {
        let t = trim(req@);
        assert(t == chars@.subrange(a as int, b as int));
        if a < b {
            assert(t[0] == chars@[a as int]);
        }
        if a2 > a {
            assert(t.subrange(1, t.len() as int) == chars@.subrange(a2 as int, b as int));
        }
        assert(strip_operator(t) == chars@.subrange(a2 as int, b as int));
    }
    let (c, d) = trim_bounds(&chars, a2, b);
    let cleaned = string_of_range(&chars, c, d);
    assert(cleaned@ == cleaned_requirement(req@));
    let direct = Version::parse(cleaned.as_str());
    let r = match direct {
        Some(v) => Some(v),
        None => {
            let padded = normalize_version(cleaned.as_str());
            Version::parse(padded.as_str())
        },
    };
    proof {
        assert forall|x: u64, y: u64, z: u64|
            req@ == #[trigger] triple_text(x, y, z) implies model_of(r) == Some(
            VersionModel::plain(x, y, z),
        ) by {
            lemma_canonical_triple(x, y, z);
        }
        assert forall|x: u64, y: u64|
            req@ == #[trigger] decimal(x as nat) + seq!['.'] + #[trigger] decimal(
                y as nat,
            ) implies model_of(r) == Some(VersionModel::plain(x, y, 0)) by {
            lemma_two_components(x, y);
            lemma_canonical_triple(x, y, 0);
            if direct is Some {
                lemma_version_text_dots(direct.unwrap()@);
            }
        }
        assert forall|x: u64| req@ == #[trigger] decimal(x as nat) implies model_of(r) == Some(
            VersionModel::plain(x, 0, 0),
        ) by {
            lemma_one_component(x);
            lemma_canonical_triple(x, 0, 0);
            if direct is Some {
                lemma_version_text_dots(direct.unwrap()@);
            }
        }
    }
    r
}

/// A canonical triple is its own version part, and the text form of the
/// version without tags.
pub proof fn lemma_canonical_triple(x: u64, y: u64, z: u64)
    ensures
        cleaned_requirement(triple_text(x, y, z)) == triple_text(x, y, z),
        version_text(VersionModel::plain(x, y, z)) == triple_text(x, y, z),
        VersionModel::plain(x, y, z).well_formed(),
        dot_count(triple_text(x, y, z)) == 2,
{
    let d1 = decimal(x as nat);
    let d2 = decimal(y as nat);
    let d3 = decimal(z as nat);
    let dot = seq!['.'];
    let s = triple_text(x, y, z);
    lemma_decimal_digits(x as nat);
    lemma_decimal_digits(y as nat);
    lemma_decimal_digits(z as nat);
    assert(s[0] == d1[0]);
    assert(s.last() == d3.last());
    lemma_cleaned_digits(s);
    assert(dot.drop_last() == Seq::<char>::empty());
    assert(dot_count(dot.drop_last()) == 0);
    lemma_dot_count_concat(d1, dot);
    lemma_dot_count_concat(d1 + dot, d2);
    lemma_dot_count_concat(d1 + dot + d2, dot);
    lemma_dot_count_concat(d1 + dot + d2 + dot, d3);
    assert(s + Seq::<char>::empty() + Seq::<char>::empty() == s);
}

/// Two components are their own version part, hold one dot, and padded
/// they are the canonical triple with patch number zero.
pub proof fn lemma_two_components(x: u64, y: u64)
    ensures
        cleaned_requirement(decimal(x as nat) + seq!['.'] + decimal(y as nat)) == decimal(x as nat)
            + seq!['.'] + decimal(y as nat),
        dot_count(decimal(x as nat) + seq!['.'] + decimal(y as nat)) == 1,
        normalized(decimal(x as nat) + seq!['.'] + decimal(y as nat)) == triple_text(x, y, 0),
{
    let d1 = decimal(x as nat);
    let d2 = decimal(y as nat);
    let dot = seq!['.'];
    let s = d1 + dot + d2;
    lemma_decimal_digits(x as nat);
    lemma_decimal_digits(y as nat);
    assert(s[0] == d1[0]);
    assert(s.last() == d2.last());
    lemma_cleaned_digits(s);
    assert(dot.drop_last() == Seq::<char>::empty());
    assert(dot_count(dot.drop_last()) == 0);
    lemma_dot_count_concat(d1, dot);
    lemma_dot_count_concat(d1 + dot, d2);
    assert(decimal(0) == seq![digit(0)]);
    assert(digit(0) == '0');
    assert(s + seq!['.', '0'] == triple_text(x, y, 0));
}

/// One component is its own version part, holds no dot, and padded it is
/// the canonical triple with minor and patch number zero.
pub proof fn lemma_one_component(x: u64)
    ensures
        cleaned_requirement(decimal(x as nat)) == decimal(x as nat),
        dot_count(decimal(x as nat)) == 0,
        normalized(decimal(x as nat)) == triple_text(x, 0, 0),
{
    let s = decimal(x as nat);
    lemma_decimal_digits(x as nat);
    lemma_cleaned_digits(s);
    assert(decimal(0) == seq![digit(0)]);
    assert(digit(0) == '0');
    assert(s + seq!['.', '0', '.', '0'] == triple_text(x, 0, 0));
}

/// What the check does with one declared dependency.
#[derive(Debug, Clone)]
pub enum CheckStep {
    /// It comes from a git repository or a path: the registry is not asked.
    SkipSource,
    /// It declares no version: the registry is not asked.
    SkipUnversioned,
    /// Its version, given here, cannot be read: the registry is not asked,
    /// and the check goes on with the next dependency.
    Unparsable(String),
    /// The registry is asked for the newest version; this is the current one.
    Lookup(Version),
}

/// The current version of a dependency that declares `spec`, where the
/// registry is to be asked for it: the dependency comes from the registry
/// and declares a version that can be read.
pub open spec fn lookup_version(spec: SpecModel) -> Option<VersionModel> {
    if spec.is_registry_resolvable() {
        match spec.version() {
            Some(v) => concrete_version(v),
            None => None,
        }
    } else {
        None
    }
}

/// The names and current versions of those of `deps` that the registry is
/// asked for, in the order of declaration.
pub open spec fn lookups_of(deps: Seq<(Seq<char>, SpecModel)>) -> Seq<(Seq<char>, VersionModel)>
    decreases deps.len(),
{
    if deps.len() == 0 {
        Seq::empty()
    } else {
        let rest = lookups_of(deps.drop_last());
        match lookup_version(deps.last().1) {
            Some(v) => rest.push((deps.last().0, v)),
            None => rest,
        }
    }
}

/// The name and the current version of each of `found`.
pub open spec fn lookup_views(found: Seq<Dependency>) -> Seq<(Seq<char>, VersionModel)> {
    Seq::new(found.len(), |i: int| (found[i].name@, found[i].current_version@))
}

/// What the check does with a dependency that declares `spec`.
pub fn check_step(spec: &DependencySpec) -> (r: CheckStep)
    ensures
        match r {
            CheckStep::SkipSource => !spec.deep_view().is_registry_resolvable(),
            CheckStep::SkipUnversioned => spec.deep_view().is_registry_resolvable()
                && spec.deep_view().version() is None,
            CheckStep::Unparsable(text) => spec.deep_view().is_registry_resolvable()
                && spec.deep_view().version() == Some(text@) && concrete_version(text@) is None,
            CheckStep::Lookup(current) => lookup_version(spec.deep_view()) == Some(current@),
        },
        r is Lookup <==> lookup_version(spec.deep_view()) is Some,
{
    if !spec.is_crates_io() {
        return CheckStep::SkipSource;
    }
    match spec.version() {
        None => CheckStep::SkipUnversioned,
        Some(text) => match parse_version_req(text) {
            Some(current) => CheckStep::Lookup(current),
            None => CheckStep::Unparsable(text.to_string()),
        },
    }
}

/// The dependencies that the registry is asked for, in the order of
/// declaration, each a direct dependency without a latest version yet.
pub fn pending_lookups(deps: &Vec<(String, DependencySpec)>) -> (r: Vec<Dependency>)
    ensures
        lookup_views(r@) == lookups_of(deps.deep_view()),
        forall|i: int|
            0 <= i < r@.len() ==> (#[trigger] r@[i]).latest_version is None && r@[i].is_direct,
{
    let ghost all = deps.deep_view();
    let mut r: Vec<Dependency> = Vec::new();
    let mut i: usize = 0;
    assert(all.take(0) =~= Seq::<(Seq<char>, SpecModel)>::empty());
    assert(lookup_views(r@) =~= Seq::<(Seq<char>, VersionModel)>::empty());
    while i < deps.len()
        invariant
            i <= deps.len(),
            all == deps.deep_view(),
            lookup_views(r@) == lookups_of(all.take(i as int)),
            forall|k: int|
                0 <= k < r@.len() ==> (#[trigger] r@[k]).latest_version is None && r@[k].is_direct,
        decreases deps.len() - i,
    {
        let ghost before = lookup_views(r@);
        proof {
            assert(all.take(i + 1).drop_last() =~= all.take(i as int));
            assert(all.take(i + 1).last() == (deps@[i as int].0@, deps@[i as int].1.deep_view()));
        }
        match check_step(&deps[i].1) {
            CheckStep::Lookup(current) => {
                let ghost m = current@;
                r.push(Dependency::new(deps[i].0.clone(), current, true));
                assert(lookup_views(r@) =~= before.push((deps@[i as int].0@, m)));
            },
            _ => {},
        }
        i += 1;
    }
    assert(all.take(deps.len() as int) =~= all);
    r
}

/// The dependency as checked: with the newest version where the registry
/// gave one, without where the lookup failed.
pub fn checked_dependency(pending: Dependency, latest: Option<Version>) -> (r: Dependency)
    ensures
        r.name == pending.name,
        r.current_version == pending.current_version,
        r.is_direct == pending.is_direct,
        r.latest_version == latest,
{
    let mut d = pending;
    d.latest_version = latest;
    d
}

} // verus!
