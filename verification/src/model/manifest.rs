//! The package manifest: the package's identity and its declared dependencies.

use crate::text::{clone_optional, clone_pairs, clone_strings};
use vstd::prelude::*;
use vstd::string::StringExecFns;

verus! {

/// A manifest and the place it was read from.
#[derive(Debug, Clone)]
pub struct Manifest {
    pub path: String,
    pub content: ManifestContent,
}

/// The sections of a manifest. Each dependency section lists its entries in
/// the order of the file.
#[derive(Debug, Clone)]
pub struct ManifestContent {
    pub package: Option<Package>,
    pub dependencies: Option<Vec<(String, DependencySpec)>>,
    pub dev_dependencies: Option<Vec<(String, DependencySpec)>>,
    pub build_dependencies: Option<Vec<(String, DependencySpec)>>,
}

/// The identity of the package.
#[derive(Debug, Clone)]
pub struct Package {
    pub name: String,
    pub version: String,
}

/// What a manifest declares for one dependency.
#[derive(Debug)]
pub enum DependencySpec {
    /// A version requirement alone.
    Simple(String),
    /// A table of keys.
    Detailed(DetailedDependency),
}

/// The keys of a dependency that is declared as a table.
#[derive(Debug)]
pub struct DetailedDependency {
    pub version: Option<String>,
    pub git: Option<String>,
    pub path: Option<String>,
    pub features: Option<Vec<String>>,
    pub optional: Option<bool>,
    pub default_features: Option<bool>,
    /// The keys that are not among the above, each with its value as text.
    pub other: Vec<(String, String)>,
}

/// Why a manifest could not be loaded.
#[derive(Debug, Clone, PartialEq, Eq)]
pub enum ManifestError {
    /// There is no file at this path.
    NotFound(String),
    /// The file is not a manifest: its syntax is broken, or a key holds a
    /// value of the wrong type. The text says where.
    Parse(String),
    /// The direct dependencies declare this name more than once.
    DuplicateDependency(String),
}

/// What a `DetailedDependency` holds.
pub struct DetailedModel {
    pub version: Option<Seq<char>>,
    pub git: Option<Seq<char>>,
    pub path: Option<Seq<char>>,
    pub features: Option<Seq<Seq<char>>>,
    pub optional: Option<bool>,
    pub default_features: Option<bool>,
    pub other: Seq<(Seq<char>, Seq<char>)>,
}

/// What a `DependencySpec` holds.
pub enum SpecModel {
    Simple(Seq<char>),
    Detailed(DetailedModel),
}

impl DeepView for DetailedDependency {
    type V = DetailedModel;

    open spec fn deep_view(&self) -> DetailedModel {
        DetailedModel {
            version: self.version.deep_view(),
            git: self.git.deep_view(),
            path: self.path.deep_view(),
            features: self.features.deep_view(),
            optional: self.optional,
            default_features: self.default_features,
            other: self.other.deep_view(),
        }
    }
}

impl DeepView for DependencySpec {
    type V = SpecModel;

    open spec fn deep_view(&self) -> SpecModel {
        match self {
            DependencySpec::Simple(v) => SpecModel::Simple(v@),
            DependencySpec::Detailed(d) => SpecModel::Detailed(d.deep_view()),
        }
    }
}

impl SpecModel {
    /// The version requirement, if one is declared.
    pub open spec fn version(self) -> Option<Seq<char>> {
        match self {
            SpecModel::Simple(v) => Some(v),
            SpecModel::Detailed(d) => d.version,
        }
    }

    /// Whether the dependency comes from a git repository.
    pub open spec fn is_git(self) -> bool {
        match self {
            SpecModel::Simple(_) => false,
            SpecModel::Detailed(d) => d.git is Some,
        }
    }

    /// Whether the dependency comes from a local path.
    pub open spec fn is_path(self) -> bool {
        match self {
            SpecModel::Simple(_) => false,
            SpecModel::Detailed(d) => d.path is Some,
        }
    }

    /// Whether the registry can resolve the dependency: it names neither a
    /// git repository nor a path, whether or not it declares a version.
    pub open spec fn is_registry_resolvable(self) -> bool {
        !self.is_git() && !self.is_path()
    }
}

/// Whether no name occurs twice among `entries`.
pub open spec fn names_unique(entries: Seq<(Seq<char>, SpecModel)>) -> bool {
    forall|i: int, j: int|
        0 <= i < j < entries.len() ==> (#[trigger] entries[i]).0 != (#[trigger] entries[j]).0
}

/// The sentence that tells of the error `e`.
pub open spec fn error_message(e: ManifestError) -> Seq<char> {
    match e {
        ManifestError::NotFound(path) => path@ + " not found"@,
        ManifestError::Parse(detail) => "Failed to parse Cargo.toml: "@ + detail@,
        ManifestError::DuplicateDependency(name) => "Failed to parse Cargo.toml: dependency "@
            + name@ + " is declared more than once"@,
    }
}

impl ManifestError {
    /// The error as a sentence.
    pub fn message(&self) -> (r: String)
        ensures
            r@ == error_message(*self),
    {
        match self {
            ManifestError::NotFound(path) => {
                let mut m = path.clone();
                m.append(" not found");
                m
            },
            ManifestError::Parse(detail) => {
                let mut m = "Failed to parse Cargo.toml: ".to_string();
                m.append(detail.as_str());
                m
            },
            ManifestError::DuplicateDependency(name) => {
                let mut m = "Failed to parse Cargo.toml: dependency ".to_string();
                m.append(name.as_str());
                m.append(" is declared more than once");
                m
            },
        }
    }
}

/// Whether the entry of index `j` declares a name that an entry before it declares.
pub open spec fn repeats_at(entries: Seq<(Seq<char>, SpecModel)>, j: int) -> bool {
    exists|i: int| 0 <= i < j && (#[trigger] entries[i]).0 == entries[j].0
}

/// The name of the first entry, at or after index `from`, that declares a
/// name declared before it.
pub open spec fn first_repeated(entries: Seq<(Seq<char>, SpecModel)>, from: int) -> Option<
    Seq<char>,
>
    decreases entries.len() - from,
{
    if from >= entries.len() {
        None
    } else if repeats_at(entries, from) {
        Some(entries[from].0)
    } else {
        first_repeated(entries, from + 1)
    }
}

impl Clone for DetailedDependency {
    fn clone(&self) -> (r: Self)
        ensures
            r.deep_view() == self.deep_view(),
    {
        let features = match &self.features {
            Some(f) => Some(clone_strings(f)),
            None => None,
        };
        DetailedDependency {
            version: clone_optional(&self.version),
            git: clone_optional(&self.git),
            path: clone_optional(&self.path),
            features,
            optional: self.optional,
            default_features: self.default_features,
            other: clone_pairs(&self.other),
        }
    }
}

impl Clone for DependencySpec {
    fn clone(&self) -> (r: Self)
        ensures
            r.deep_view() == self.deep_view(),
    {
        match self {
            DependencySpec::Simple(v) => DependencySpec::Simple(v.clone()),
            DependencySpec::Detailed(d) => DependencySpec::Detailed(d.clone()),
        }
    }
}

/// A copy of the entries of a dependency section.
pub fn clone_entries(entries: &Vec<(String, DependencySpec)>) -> (r: Vec<(String, DependencySpec)>)
    ensures
        r.deep_view() == entries.deep_view(),
{
    let mut r: Vec<(String, DependencySpec)> = Vec::new();
    let mut i: usize = 0;
    while i < entries.len()
        invariant
            i <= entries.len(),
            r.len() == i,
            forall|j: int|
                0 <= j < i ==> r@[j].0@ == entries@[j].0@ && r@[j].1.deep_view()
                    == entries@[j].1.deep_view(),
        decreases entries.len() - i,
    {
        r.push((entries[i].0.clone(), entries[i].1.clone()));
        i += 1;
    }
    assert(r.deep_view() =~= entries.deep_view());
    r
}

impl Manifest {
    /// The manifest read from `path` with the sections `content`. A name
    /// that the direct dependencies declare twice is refused: the edits of
    /// the manifest text reach the first declaration of a name only.
    pub fn checked(path: String, content: ManifestContent) -> (r: Result<Manifest, ManifestError>)
        ensures
            match r {
                Ok(m) => m.path == path && m.content == content && names_unique(
                    m.direct_dependencies(),
                ),
                Err(e) => e matches ManifestError::DuplicateDependency(name) && Some(name@)
                    == first_repeated((Manifest { path, content }).direct_dependencies(), 0),
            },
    {
        let manifest = Manifest { path, content };
        match manifest.repeated_dependency() {
            Some(name) => Err(ManifestError::DuplicateDependency(name)),
            None => Ok(manifest),
        }
    }

    /// The direct dependencies that the manifest declares.
    pub open spec fn direct_dependencies(&self) -> Seq<(Seq<char>, SpecModel)> {
        match self.content.dependencies {
            Some(d) => d.deep_view(),
            None => Seq::empty(),
        }
    }

    /// The direct runtime dependencies, in the order of the manifest. What
    /// the manifest declares for development or for the build is not among them.
    pub fn get_dependencies(&self) -> (r: Vec<(String, DependencySpec)>)
        ensures
            r.deep_view() == self.direct_dependencies(),
    {
        match &self.content.dependencies {
            Some(dependencies) => clone_entries(dependencies),
            None => {
                let r: Vec<(String, DependencySpec)> = Vec::new();
                assert(r.deep_view() =~= Seq::<(Seq<char>, SpecModel)>::empty());
                r
            },
        }
    }

    /// The name of the package, where the manifest gives one.
    pub fn package_name(&self) -> (r: Option<&str>)
        ensures
            match r {
                Some(name) => self.content.package matches Some(p) && p.name@ == name@,
                None => self.content.package is None,
            },
    {
        match &self.content.package {
            Some(p) => Some(p.name.as_str()),
            None => None,
        }
    }

    /// The first name that the direct dependencies declare a second time, if any.
    pub fn repeated_dependency(&self) -> (r: Option<String>)
        ensures
            r.deep_view() == first_repeated(self.direct_dependencies(), 0),
            r is None <==> names_unique(self.direct_dependencies()),
    {
        let ghost all = self.direct_dependencies();
        match &self.content.dependencies {
            None => None,
            Some(deps) => {
                let mut j: usize = 0;
                while j < deps.len()
                    invariant
                        j <= deps.len(),
                        all == deps.deep_view(),
                        all == self.direct_dependencies(),
                        first_repeated(all, 0) == first_repeated(all, j as int),
                        forall|a: int, b: int|
                            0 <= a < b < j ==> (#[trigger] all[a]).0 != (#[trigger] all[b]).0,
                    decreases deps.len() - j,
                {
                    let mut i: usize = 0;
                    while i < j
                        invariant
                            i <= j < deps.len(),
                            all == deps.deep_view(),
                            all == self.direct_dependencies(),
                            first_repeated(all, 0) == first_repeated(all, j as int),
                            forall|a: int| 0 <= a < i ==> (#[trigger] all[a]).0 != all[j as int].0,
                        decreases j - i,
                    {
                        assert(all[i as int].0 == deps@[i as int].0@);
                        assert(all[j as int].0 == deps@[j as int].0@);
                        if deps[i].0 == deps[j].0 {
                            assert(repeats_at(all, j as int));
                            return Some(deps[j].0.clone());
                        }
                        i += 1;
                    }
                    proof {
                        if repeats_at(all, j as int) {
                            let w = choose|w: int|
                                0 <= w < j && (#[trigger] all[w]).0 == all[j as int].0;
                            assert(false);
                        }
                    }
                    j += 1;
                }
                None
            },
        }
    }
}

impl DependencySpec {
    /// The version requirement, if one is declared.
    pub fn version(&self) -> (r: Option<&str>)
        ensures
            match r {
                Some(v) => self.deep_view().version() == Some(v@),
                None => self.deep_view().version() is None,
            },
    {
        match self {
            DependencySpec::Simple(v) => Some(v.as_str()),
            DependencySpec::Detailed(d) => match &d.version {
                Some(v) => Some(v.as_str()),
                None => None,
            },
        }
    }

    /// Whether the dependency comes from a git repository.
    pub fn is_git(&self) -> (r: bool)
        ensures
            r == self.deep_view().is_git(),
    {
        match self {
            DependencySpec::Simple(_) => false,
            DependencySpec::Detailed(d) => d.git.is_some(),
        }
    }

    /// Whether the dependency comes from a local path.
    pub fn is_path(&self) -> (r: bool)
        ensures
            r == self.deep_view().is_path(),
    {
        match self {
            DependencySpec::Simple(_) => false,
            DependencySpec::Detailed(d) => d.path.is_some(),
        }
    }

    /// Whether the dependency comes from the registry: neither from a git
    /// repository nor from a path.
    pub fn is_crates_io(&self) -> (r: bool)
        ensures
            r == self.deep_view().is_registry_resolvable(),
    {
        !self.is_git() && !self.is_path()
    }
}

} // verus!
