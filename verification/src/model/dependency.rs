//! A declared dependency and the update that is open to it.

use crate::model::version::{model_of, precedence, Version, VersionModel};
use vstd::prelude::*;

verus! {

/// A dependency, with the version it is declared at and the newest version known.
#[derive(Debug, Clone)]
pub struct Dependency {
    pub name: String,
    pub current_version: Version,
    pub latest_version: Option<Version>,
    pub is_direct: bool,
}

/// How far the newest version is from the declared one.
#[derive(Debug, Clone, Copy, PartialEq, Eq, Structural)]
pub enum UpdateType {
    Patch,
    Minor,
    Major,
    UpToDate,
}

/// The update from `current` to `latest`: none where no latest version is
/// known or where it is not above the current one; else major, minor or
/// patch, by the first number that rose.
pub open spec fn classify_update(current: VersionModel, latest: Option<VersionModel>)
    -> UpdateType {
    match latest {
        None => UpdateType::UpToDate,
        Some(l) => if precedence(l, current) <= 0 {
            UpdateType::UpToDate
        } else if l.major > current.major {
            UpdateType::Major
        } else if l.minor > current.minor {
            UpdateType::Minor
        } else {
            UpdateType::Patch
        },
    }
}

impl Dependency {
    /// A dependency declared at `current_version`, with no latest version known.
    pub fn new(name: String, current_version: Version, is_direct: bool) -> (r: Self)
        ensures
            r.name == name,
            r.current_version == current_version,
            r.latest_version is None,
            r.is_direct == is_direct,
    {
        Dependency { name, current_version, latest_version: None, is_direct }
    }

    /// The dependency with `latest` as the newest version known.
    pub fn with_latest(self, latest: Version) -> (r: Self)
        ensures
            r.name == self.name,
            r.current_version == self.current_version,
            r.latest_version == Some(latest),
            r.is_direct == self.is_direct,
    {
        let mut d = self;
        d.latest_version = Some(latest);
        d
    }

    /// The update that is open to this dependency.
    pub fn update_type(&self) -> (r: UpdateType)
        ensures
            r == classify_update(self.current_version@, model_of(self.latest_version)),
            self.latest_version matches Some(l) && precedence(l@, self.current_version@) <= 0
                ==> r == UpdateType::UpToDate,
    {
        match &self.latest_version {
            None => UpdateType::UpToDate,
            Some(latest) => {
                if latest.at_most(&self.current_version) {
                    UpdateType::UpToDate
                } else if latest.major() > self.current_version.major() {
                    UpdateType::Major
                } else if latest.minor() > self.current_version.minor() {
                    UpdateType::Minor
                } else {
                    UpdateType::Patch
                }
            },
        }
    }

    /// Whether an update is open to this dependency.
    pub fn has_update(&self) -> (r: bool)
        ensures
            r == (classify_update(self.current_version@, model_of(self.latest_version))
                != UpdateType::UpToDate),
    {
        self.update_type() != UpdateType::UpToDate
    }
}

/// A version that is not above the current one is no update, and every
/// pair of versions falls in exactly one of the four classes.
pub proof fn lemma_classification_total(current: VersionModel, latest: Option<VersionModel>)
    ensures
        latest matches Some(l) && precedence(l, current) <= 0 ==> classify_update(current, latest)
            == UpdateType::UpToDate,
        latest is None ==> classify_update(current, latest) == UpdateType::UpToDate,
        ({
            let c = classify_update(current, latest);
            c == UpdateType::UpToDate || c == UpdateType::Patch || c == UpdateType::Minor || c
                == UpdateType::Major
        }),
{
}

/// An update by class: a major update raises the major number; a minor
/// update keeps it at least and raises the minor number; a patch update
/// raises neither.
pub proof fn lemma_update_classes(current: VersionModel, latest: VersionModel)
    requires
        precedence(latest, current) > 0,
    ensures
        classify_update(current, Some(latest)) == UpdateType::Major <==> latest.major
            > current.major,
        classify_update(current, Some(latest)) == UpdateType::Minor <==> latest.major
            <= current.major && latest.minor > current.minor,
        classify_update(current, Some(latest)) == UpdateType::Patch <==> latest.major
            <= current.major && latest.minor <= current.minor,
{
}

} // verus!
