//! The registry's answers, and what is read from them.

use crate::model::version::{model_of, semver_parse, Version, VersionModel};
use vstd::prelude::*;
use vstd::string::StringExecFns;

verus! {

/// The registry's answer to the question for a package.
#[derive(Debug)]
pub struct CrateResponse {
    pub krate: CrateInfo,
}

/// What the registry tells of a package.
#[derive(Debug)]
pub struct CrateInfo {
    pub name: String,
    pub newest_version: String,
    pub description: Option<String>,
    pub updated_at: String,
}

/// The registry's answer to the question for the versions of a package.
#[derive(Debug)]
pub struct VersionsResponse {
    pub versions: Vec<VersionInfo>,
}

/// A published version; a yanked one is not to be used.
#[derive(Debug)]
pub struct VersionInfo {
    pub num: String,
    pub yanked: bool,
}

/// Where the registry answers.
pub open spec fn registry_api() -> Seq<char> {
    "https://crates.io/api/v1/crates/"@
}

/// The address that answers for the package `crate_name`.
pub fn crate_url(crate_name: &str) -> (r: String)
    ensures
        r@ == registry_api() + crate_name@,
{
    let mut url = "https://crates.io/api/v1/crates/".to_string();
    url.append(crate_name);
    url
}

/// The address that answers for the versions of the package `crate_name`.
pub fn versions_url(crate_name: &str) -> (r: String)
    ensures
        r@ == registry_api() + crate_name@ + "/versions"@,
{
    let mut url = crate_url(crate_name);
    url.append("/versions");
    url
}

/// Whether the registry answered with success: a status from 200 to 299.
/// Any other status is a failed lookup, which leaves the latest version of
/// that one dependency unknown.
pub fn is_success_status(status: u16) -> (r: bool)
    ensures
        r == (200 <= status <= 299),
{
    200 <= status && status <= 299
}

/// The versions that `infos` offer for use: those not yanked whose number
/// is a semantic version, in order.
pub open spec fn usable(infos: Seq<(Seq<char>, bool)>) -> Seq<VersionModel>
    decreases infos.len(),
{
    if infos.len() == 0 {
        Seq::empty()
    } else {
        let rest = usable(infos.drop_last());
        let last = infos.last();
        if !last.1 && semver_parse(last.0) is Some {
            rest.push(semver_parse(last.0).unwrap())
        } else {
            rest
        }
    }
}

/// The number and the yanked mark of each of `infos`.
pub open spec fn info_views(infos: Seq<VersionInfo>) -> Seq<(Seq<char>, bool)> {
    Seq::new(infos.len(), |i: int| (infos[i].num@, infos[i].yanked))
}

/// What each of `versions` holds.
pub open spec fn version_views(versions: Seq<Version>) -> Seq<VersionModel> {
    Seq::new(versions.len(), |i: int| versions[i]@)
}

impl CrateResponse {
    /// The newest version of the package, if the answer names one that is a
    /// semantic version.
    pub fn latest_version(&self) -> (r: Option<Version>)
        ensures
            model_of(r) == semver_parse(self.krate.newest_version@),
    {
        Version::parse(self.krate.newest_version.as_str())
    }
}

impl VersionsResponse {
    /// The versions that can be used: those not yanked whose number is a
    /// semantic version, in the order of the answer.
    pub fn usable_versions(&self) -> (r: Vec<Version>)
        ensures
            version_views(r@) == usable(info_views(self.versions@)),
    {
        let ghost infos = info_views(self.versions@);
        let mut r: Vec<Version> = Vec::new();
        let mut i: usize = 0;
        assert(infos.take(0) =~= Seq::<(Seq<char>, bool)>::empty());
        assert(version_views(r@) =~= Seq::<VersionModel>::empty());
        while i < self.versions.len()
            invariant
                i <= self.versions.len(),
                infos == info_views(self.versions@),
                version_views(r@) == usable(infos.take(i as int)),
            decreases self.versions.len() - i,
        {
            let ghost before = version_views(r@);
            proof {
                assert(infos.take(i + 1).drop_last() =~= infos.take(i as int));
                assert(infos.take(i + 1).last() == infos[i as int]);
            }
            if !self.versions[i].yanked {
                match Version::parse(self.versions[i].num.as_str()) {
                    Some(v) => {
                        let ghost m = v@;
                        r.push(v);
                        assert(version_views(r@) =~= before.push(m));
                    },
                    None => {},
                }
            }
            i += 1;
        }
        assert(infos.take(self.versions.len() as int) =~= infos);
        r
    }
}

} // verus!
