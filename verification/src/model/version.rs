//! Semantic versions: their text form, their order, and the comparisons that
//! classify an update.

use crate::text::{append_range, chars_of, string_of};
use std::cmp::Ordering;
use vstd::prelude::*;

verus! {

/// What a version holds: the numeric triple and the two optional tags.
pub struct VersionModel {
    pub major: u64,
    pub minor: u64,
    pub patch: u64,
    pub pre: Seq<char>,
    pub build: Seq<char>,
}

/// A semantic version. The tags are empty, or identifiers that the version
/// grammar accepts.
#[derive(Debug, PartialEq, Eq)]
pub struct Version {
    major: u64,
    minor: u64,
    patch: u64,
    pre: String,
    build: String,
}

/// The outcome of comparing two versions.
#[derive(Clone, Copy, Debug, PartialEq, Eq, Structural)]
pub enum VersionOrder {
    Less,
    Equal,
    Greater,
}

/// -1, 0 or 1 for less, equal or greater.
pub open spec fn order_sign(o: VersionOrder) -> int {
    match o {
        VersionOrder::Less => -1,
        VersionOrder::Equal => 0,
        VersionOrder::Greater => 1,
    }
}

/// An ASCII digit.
pub open spec fn is_digit(c: char) -> bool {
    '0' <= c <= '9'
}

/// A character that a tag's identifier may hold: an ASCII letter, digit or hyphen.
pub open spec fn is_tag_char(c: char) -> bool {
    is_digit(c) || ('A' <= c <= 'Z') || ('a' <= c <= 'z') || c == '-'
}

/// `s[i..j]` is one of the identifiers that the dots of `s` separate.
pub open spec fn is_identifier_of(s: Seq<char>, i: int, j: int) -> bool {
    &&& 0 <= i <= j <= s.len()
    &&& (i == 0 || s[i - 1] == '.')
    &&& (j == s.len() || s[j] == '.')
    &&& forall|k: int| i <= k < j ==> s[k] != '.'
}

/// Build metadata: empty, or identifiers of tag characters, none of them
/// empty, separated by dots.
pub open spec fn valid_build(s: Seq<char>) -> bool {
    s.len() == 0 || {
        &&& forall|k: int| 0 <= k < s.len() ==> is_tag_char(s[k]) || s[k] == '.'
        &&& forall|i: int, j: int| #[trigger] is_identifier_of(s, i, j) ==> i < j
    }
}

/// A pre-release tag: as build metadata, and no identifier made of digits
/// alone starts with a zero that another digit follows.
pub open spec fn valid_prerelease(s: Seq<char>) -> bool {
    s.len() == 0 || {
        &&& valid_build(s)
        &&& forall|i: int, j: int|
            #[trigger] is_identifier_of(s, i, j) && j - i > 1 && s[i] == '0' ==> exists|k: int|
                i <= k < j && !is_digit(s[k])
    }
}

impl VersionModel {
    /// Both tags are well formed.
    pub open spec fn well_formed(self) -> bool {
        valid_prerelease(self.pre) && valid_build(self.build)
    }

    /// The version `major.minor.patch` without tags.
    pub open spec fn plain(major: u64, minor: u64, patch: u64) -> VersionModel {
        VersionModel { major, minor, patch, pre: Seq::empty(), build: Seq::empty() }
    }

    /// Whether the two versions have the same three numbers.
    pub open spec fn same_triple(self, other: VersionModel) -> bool {
        self.major == other.major && self.minor == other.minor && self.patch == other.patch
    }
}

/// The decimal digit `d`, for `d` below ten.
pub open spec fn digit(d: nat) -> char {
    (0x30 + d) as char
}

/// `n` in decimal, without leading zeros.
pub open spec fn decimal(n: nat) -> Seq<char>
    decreases n,
{
    if n < 10 {
        seq![digit(n)]
    } else {
        decimal(n / 10).push(digit(n % 10))
    }
}

/// `major.minor.patch` in decimal.
pub open spec fn triple_text(major: u64, minor: u64, patch: u64) -> Seq<char> {
    decimal(major as nat) + seq!['.'] + decimal(minor as nat) + seq!['.'] + decimal(patch as nat)
}

/// The text form of a version: the triple, then `-` and the pre-release tag
/// if there is one, then `+` and the build metadata if there is any.
pub open spec fn version_text(v: VersionModel) -> Seq<char> {
    triple_text(v.major, v.minor, v.patch) + (if v.pre.len() > 0 {
        seq!['-'] + v.pre
    } else {
        Seq::empty()
    }) + (if v.build.len() > 0 {
        seq!['+'] + v.build
    } else {
        Seq::empty()
    })
}

/// The version that `text` is the text form of: a well-formed version
/// with that text form, where there is one.
pub open spec fn semver_parse(text: Seq<char>) -> Option<VersionModel> {
    if exists|m: VersionModel| m.well_formed() && #[trigger] version_text(m) == text {
        Some(choose|m: VersionModel| m.well_formed() && #[trigger] version_text(m) == text)
    } else {
        None
    }
}

/// How the grammar's order ranks the tags of two versions with equal triples:
/// negative, zero or positive.
pub uninterp spec fn semver_tail_order(
    pre_a: Seq<char>,
    build_a: Seq<char>,
    pre_b: Seq<char>,
    build_b: Seq<char>,
) -> int;

/// The order of versions: by major, then minor, then patch number; versions
/// with equal numbers by their tags.
pub open spec fn precedence(a: VersionModel, b: VersionModel) -> int {
    if a.major != b.major {
        if a.major < b.major {
            -1
        } else {
            1
        }
    } else if a.minor != b.minor {
        if a.minor < b.minor {
            -1
        } else {
            1
        }
    } else if a.patch != b.patch {
        if a.patch < b.patch {
            -1
        } else {
            1
        }
    } else {
        semver_tail_order(a.pre, a.build, b.pre, b.build)
    }
}

/// What an optional version holds.
pub open spec fn model_of(v: Option<Version>) -> Option<VersionModel> {
    match v {
        Some(v) => Some(v@),
        None => None,
    }
}

impl View for Version {
    type V = VersionModel;

    closed spec fn view(&self) -> VersionModel {
        VersionModel {
            major: self.major,
            minor: self.minor,
            patch: self.patch,
            pre: self.pre@,
            build: self.build@,
        }
    }
}

/// `semver::Version::parse`. A version that is read is well formed and has
/// the text as its text form, and every text form of a well-formed version
/// is read as that version.
#[verifier::external_body]
fn semver_parse_text(text: &str) -> (r: Option<Version>)
    ensures
        r matches Some(v) ==> v@.well_formed() && version_text(v@) == text@,
        forall|m: VersionModel|
            m.well_formed() && #[trigger] version_text(m) == text@ ==> model_of(r) == Some(m),
{
    match semver::Version::parse(text) {
        Ok(v) => Some(
            Version {
                major: v.major,
                minor: v.minor,
                patch: v.patch,
                pre: v.pre.as_str().to_string(),
                build: v.build.as_str().to_string(),
            },
        ),
        Err(_) => None,
    }
}

/// `Ord::cmp` of `semver::Version`. Versions are ordered by their numbers
/// first. With equal numbers the tags decide: only versions that are equal
/// in every part compare equal, and a version with a pre-release tag comes
/// before the one without. The order is total: compared the other way
/// round the two versions rank the other way round, and what is at most
/// the first is at most the second where the first is at most the second.
#[verifier::external_body]
fn semver_compare(a: &Version, b: &Version) -> (r: VersionOrder)
    ensures
        order_sign(r) == precedence(a@, b@),
        precedence(b@, a@) == -order_sign(r),
        forall|c: VersionModel|
            c.well_formed() && #[trigger] precedence(c, a@) <= 0 && order_sign(r) <= 0
                ==> precedence(c, b@) <= 0,
        a@.same_triple(b@) ==> order_sign(r) == semver_tail_order(
            a@.pre,
            a@.build,
            b@.pre,
            b@.build,
        ),
        r == VersionOrder::Equal <==> a@ == b@,
        a@.same_triple(b@) && a@.pre.len() > 0 && b@.pre.len() == 0 ==> r == VersionOrder::Less,
        a@.same_triple(b@) && a@.pre.len() == 0 && b@.pre.len() > 0 ==> r == VersionOrder::Greater,
{
    let mut x = semver::Version::new(a.major, a.minor, a.patch);
    let mut y = semver::Version::new(b.major, b.minor, b.patch);
    x.pre = semver::Prerelease::new(&a.pre).unwrap();
    x.build = semver::BuildMetadata::new(&a.build).unwrap();
    y.pre = semver::Prerelease::new(&b.pre).unwrap();
    y.build = semver::BuildMetadata::new(&b.build).unwrap();
    match x.cmp(&y) {
        Ordering::Less => VersionOrder::Less,
        Ordering::Equal => VersionOrder::Equal,
        Ordering::Greater => VersionOrder::Greater,
    }
}

/// The decimal digit `d`.
fn digit_char(d: u8) -> (c: char)
    requires
        d < 10,
    ensures
        c == digit(d as nat),
{
    (0x30u8 + d) as char
}

/// Appends `n` in decimal to `out`.
pub fn push_decimal(out: &mut Vec<char>, n: u64)
    ensures
        final(out)@ == old(out)@ + decimal(n as nat),
    decreases n,
{
    if n >= 10 {
        push_decimal(out, n / 10);
    }
    out.push(digit_char((n % 10) as u8));
    proof {
        if n < 10 {
            assert(old(out)@.push(digit(n as nat)) == old(out)@ + seq![digit(n as nat)]);
        } else {
            let prefix = decimal((n / 10) as nat);
            assert((old(out)@ + prefix).push(digit((n % 10) as nat)) == old(out)@ + prefix.push(
                digit((n % 10) as nat),
            ));
        }
    }
}

impl Version {
    #[verifier::type_invariant]
    spec fn tags_valid(self) -> bool {
        valid_prerelease(self.pre@) && valid_build(self.build@)
    }

    /// The version `major.minor.patch`, without tags.
    pub fn new(major: u64, minor: u64, patch: u64) -> (v: Version)
        ensures
            v@ == VersionModel::plain(major, minor, patch),
    {
        Version { major, minor, patch, pre: String::new(), build: String::new() }
    }

    /// Reads a version from its text form: three decimal numbers separated
    /// by dots, then the optional tags. `None` when `text` is no version.
    pub fn parse(text: &str) -> (r: Option<Version>)
        ensures
            model_of(r) == semver_parse(text@),
            r matches Some(v) ==> v@.well_formed() && version_text(v@) == text@,
            forall|m: VersionModel|
                m.well_formed() && #[trigger] version_text(m) == text@ ==> model_of(r) == Some(m),
    {
        let r = semver_parse_text(text);
        proof {
            if exists|m: VersionModel| m.well_formed() && #[trigger] version_text(m) == text@ {
                let m = choose|m: VersionModel|
                    m.well_formed() && #[trigger] version_text(m) == text@;
                assert(model_of(r) == Some(m));
            } else if r is Some {
                let v = r.unwrap();
                assert(v@.well_formed() && version_text(v@) == text@);
            }
        }
        r
    }

    /// The major number.
    pub fn major(&self) -> (r: u64)
        ensures
            r == self@.major,
    {
        self.major
    }

    /// The minor number.
    pub fn minor(&self) -> (r: u64)
        ensures
            r == self@.minor,
    {
        self.minor
    }

    /// The patch number.
    pub fn patch(&self) -> (r: u64)
        ensures
            r == self@.patch,
    {
        self.patch
    }

    /// The pre-release tag; empty when there is none.
    pub fn pre(&self) -> (r: &str)
        ensures
            r@ == self@.pre,
    {
        self.pre.as_str()
    }

    /// The build metadata; empty when there is none.
    pub fn build(&self) -> (r: &str)
        ensures
            r@ == self@.build,
    {
        self.build.as_str()
    }

    /// The text form of this version.
    pub fn to_text(&self) -> (s: String)
        ensures
            s@ == version_text(self@),
    {
        let mut out: Vec<char> = Vec::new();
        push_decimal(&mut out, self.major);
        out.push('.');
        push_decimal(&mut out, self.minor);
        out.push('.');
        push_decimal(&mut out, self.patch);
        assert(out@ == triple_text(self.major, self.minor, self.patch));
        let pre = chars_of(self.pre.as_str());
        if pre.len() > 0 {
            out.push('-');
            append_range(&mut out, &pre, 0, pre.len());
            assert(pre@.subrange(0, pre.len() as int) == pre@);
        }
        let build = chars_of(self.build.as_str());
        if build.len() > 0 {
            out.push('+');
            append_range(&mut out, &build, 0, build.len());
            assert(build@.subrange(0, build.len() as int) == build@);
        }
        assert(out@ == version_text(self@));
        string_of(&out)
    }

    /// Compares two versions by the order of semantic versions, which is total.
    pub fn compare(&self, other: &Version) -> (r: VersionOrder)
        ensures
            order_sign(r) == precedence(self@, other@),
            precedence(other@, self@) == -order_sign(r),
            forall|c: VersionModel|
                c.well_formed() && #[trigger] precedence(c, self@) <= 0 && order_sign(r) <= 0
                    ==> precedence(c, other@) <= 0,
            r == VersionOrder::Equal <==> self@ == other@,
            self@.same_triple(other@) && self@.pre.len() > 0 && other@.pre.len() == 0 ==> r
                == VersionOrder::Less,
            self@.same_triple(other@) && self@.pre.len() == 0 && other@.pre.len() > 0 ==> r
                == VersionOrder::Greater,
    {
        semver_compare(self, other)
    }

    /// Whether this version is `other` or comes before it.
    pub fn at_most(&self, other: &Version) -> (r: bool)
        ensures
            r == (precedence(self@, other@) <= 0),
    {
        match self.compare(other) {
            VersionOrder::Greater => false,
            _ => true,
        }
    }

    /// Whether this version comes before `other`.
    pub fn before(&self, other: &Version) -> (r: bool)
        ensures
            r == (precedence(self@, other@) < 0),
    {
        match self.compare(other) {
            VersionOrder::Less => true,
            _ => false,
        }
    }
}

impl Clone for Version {
    fn clone(&self) -> (r: Version)
        ensures
            r@ == self@,
    {
        proof {
            use_type_invariant(self);
        }
        Version {
            major: self.major,
            minor: self.minor,
            patch: self.patch,
            pre: self.pre.clone(),
            build: self.build.clone(),
        }
    }
}

/// Whether `latest` has a higher major number than `current`.
pub fn is_major_update(current: &Version, latest: &Version) -> (r: bool)
    ensures
        r == (latest@.major > current@.major),
{
    latest.major > current.major
}

/// Whether `latest` has the major number of `current` and a higher minor number.
pub fn is_minor_update(current: &Version, latest: &Version) -> (r: bool)
    ensures
        r == (latest@.major == current@.major && latest@.minor > current@.minor),
{
    latest.major == current.major && latest.minor > current.minor
}

/// Whether `latest` has the major and minor numbers of `current` and a higher
/// patch number.
pub fn is_patch_update(current: &Version, latest: &Version) -> (r: bool)
    ensures
        r == (latest@.major == current@.major && latest@.minor == current@.minor && latest@.patch
            > current@.patch),
{
    latest.major == current.major && latest.minor == current.minor && latest.patch > current.patch
}

} // verus!
