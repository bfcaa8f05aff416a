//! Types representing the relevant parts of a crate manifest.

use vstd::prelude::*;

use crate::versions::req_syntax_ok;
use crate::versions::version_req_valid;

verus! {

/// The `[package]` section of a crate manifest.
#[derive(Debug)]
pub struct Package {
    /// Human-readable crate name.
    pub name: String,
    /// Crate version.
    pub version: String,
    /// Human-readable crate description.
    pub description: String,
    /// Author(s) of the crate.
    pub authors: Vec<String>,
    /// Crate license.
    pub license: Option<String>,
    /// Keywords associated with the crate.
    pub keywords: Vec<String>,
    /// Crate categories.
    pub categories: Vec<String>,
    /// Crate homepage, if any.
    pub homepage: Option<String>,
    /// Documentation URL.
    pub documentation: Option<String>,
    /// Repository URL.
    pub repository: Option<String>,
}

/// Describes where a particular dependent crate is located.
#[derive(Debug)]
pub enum CrateLocation {
    /// Crate is hosted on the central registry, under a version requirement.
    Registry { version: String },
    /// Crate is available under the given filesystem path.
    Filesystem { path: String },
    /// Crate is kept in a Git repository under the given URL.
    Git { url: String },
}

impl CrateLocation {
    pub fn is_registry(&self) -> (r: bool)
        ensures
            r == (self is Registry),
    {
        match self {
            CrateLocation::Registry { .. } => true,
            _ => false,
        }
    }

    pub fn is_filesystem(&self) -> (r: bool)
        ensures
            r == (self is Filesystem),
    {
        match self {
            CrateLocation::Filesystem { .. } => true,
            _ => false,
        }
    }

    pub fn is_git(&self) -> (r: bool)
        ensures
            r == (self is Git),
    {
        match self {
            CrateLocation::Git { .. } => true,
            _ => false,
        }
    }
}

/// A dependent crate read from a manifest.
#[derive(Debug)]
pub struct Dependency {
    pub name: String,
    pub location: CrateLocation,
}

/// A version requirement is accepted when it is the wildcard or parses as a
/// semantic-version requirement.
pub open spec fn version_ok(v: Seq<char>) -> bool {
    v == "*"@ || req_syntax_ok(v)
}

/// Tests whether a string is the version wildcard.
fn is_star(s: &str) -> (r: bool)
    ensures
        r == (s@ == "*"@),
{
    proof {
        reveal_strlit("*");
    }
    if s.unicode_len() == 1 && s.get_char(0) == '*' {
        proof {
            assert(s@ =~= "*"@);
        }
        true
    } else {
        proof {
            if s@ == "*"@ {
                assert(s@.len() == 1 && s@[0] == '*');
            }
        }
        false
    }
}

impl Dependency {
    /// A registry dependency under a version requirement.
    pub fn with_version(name: &str, version: &str) -> (r: Self)
        requires
            version_ok(version@),
        ensures
            r.name@ == name@,
            match r.location {
                CrateLocation::Registry { version: v } => v@ == version@,
                _ => false,
            },
    {
        Dependency {
            name: name.to_owned(),
            location: CrateLocation::Registry { version: version.to_owned() },
        }
    }

    /// A dependency on another crate in the workspace, by path.
    pub fn with_path(name: &str, path: &str) -> (r: Self)
        ensures
            r.name@ == name@,
            match r.location {
                CrateLocation::Filesystem { path: p } => p@ == path@,
                _ => false,
            },
    {
        Dependency {
            name: name.to_owned(),
            location: CrateLocation::Filesystem { path: path.to_owned() },
        }
    }

    /// A dependency kept in a Git repository.
    pub fn with_git_url(name: &str, url: &str) -> (r: Self)
        ensures
            r.name@ == name@,
            match r.location {
                CrateLocation::Git { url: u } => u@ == url@,
                _ => false,
            },
    {
        Dependency {
            name: name.to_owned(),
            location: CrateLocation::Git { url: url.to_owned() },
        }
    }

    pub fn name(&self) -> (r: &str)
        ensures
            r@ == self.name@,
    {
        self.name.as_str()
    }

    pub fn location(&self) -> (r: &CrateLocation)
        ensures
            r == &self.location,
    {
        &self.location
    }
}

/// Error in the dependency section of a manifest.
#[derive(Debug, PartialEq, Eq, Structural, Clone, Copy)]
pub enum ManifestError {
    /// A dependency entry is neither a version string nor a table.
    BadDependencySpec,
    /// A dependency entry specifies none or several of
    /// `version`, `path` and `git`.
    AmbiguousDependency,
    /// A version requirement does not parse.
    InvalidVersionRequirement,
}

impl ManifestError {
    /// A human-readable description of the error.
    pub fn message(&self) -> (r: &'static str)
        ensures
            self is BadDependencySpec ==> r@ == "dependency spec must be a string or a table"@,
            self is AmbiguousDependency ==> r@
                == "dependency must specify exactly one of `version`, `path` and `git`"@,
            self is InvalidVersionRequirement ==> r@ == "invalid version requirement"@,
    {
        match self {
            ManifestError::BadDependencySpec => "dependency spec must be a string or a table",
            ManifestError::AmbiguousDependency => "dependency must specify exactly one of `version`, `path` and `git`",
            ManifestError::InvalidVersionRequirement => "invalid version requirement",
        }
    }
}

/// A dependency entry as it appears in the manifest: a bare version string,
/// a table of location attributes, or something else.
#[derive(Debug)]
pub enum DependencySpec {
    Version(String),
    Table { version: Option<String>, path: Option<String>, git: Option<String> },
    Unsupported,
}

/// The error an entry produces, or `None` when it is well-formed.
pub open spec fn spec_entry_error(spec: DependencySpec) -> Option<ManifestError> {
    match spec {
        DependencySpec::Version(v) => if version_ok(v@) {
            None
        } else {
            Some(ManifestError::InvalidVersionRequirement)
        },
        DependencySpec::Table { version, path, git } => match (version, path, git) {
            (Some(v), None, None) => if version_ok(v@) {
                None
            } else {
                Some(ManifestError::InvalidVersionRequirement)
            },
            (None, Some(p), None) => None,
            (None, None, Some(g)) => None,
            _ => Some(ManifestError::AmbiguousDependency),
        },
        DependencySpec::Unsupported => Some(ManifestError::BadDependencySpec),
    }
}

/// The location a well-formed entry denotes.
pub open spec fn spec_location_matches(loc: CrateLocation, spec: DependencySpec) -> bool {
    match spec {
        DependencySpec::Version(v) => match loc {
            CrateLocation::Registry { version } => version@ == v@,
            _ => false,
        },
        DependencySpec::Table { version, path, git } => match (version, path, git) {
            (Some(v), None, None) => match loc {
                CrateLocation::Registry { version: rv } => rv@ == v@,
                _ => false,
            },
            (None, Some(p), None) => match loc {
                CrateLocation::Filesystem { path: rp } => rp@ == p@,
                _ => false,
            },
            (None, None, Some(g)) => match loc {
                CrateLocation::Git { url: ru } => ru@ == g@,
                _ => false,
            },
            _ => false,
        },
        DependencySpec::Unsupported => false,
    }
}

impl Dependency {
    /// Interprets one dependency entry of a manifest.
    pub fn from_toml(name: &str, spec: &DependencySpec) -> (r: Result<Dependency, ManifestError>)
        ensures
            match r {
                Ok(d) => spec_entry_error(*spec) is None && d.name@ == name@
                    && spec_location_matches(d.location, *spec),
                Err(e) => spec_entry_error(*spec) == Some(e),
            },
    {
        match spec {
            DependencySpec::Version(v) => Dependency::registry_entry(name, v),
            DependencySpec::Table { version, path, git } => match (version, path, git) {
                (Some(v), None, None) => Dependency::registry_entry(name, v),
                (None, Some(p), None) => Ok(Dependency::with_path(name, p.as_str())),
                (None, None, Some(g)) => Ok(Dependency::with_git_url(name, g.as_str())),
                _ => Err(ManifestError::AmbiguousDependency),
            },
            DependencySpec::Unsupported => Err(ManifestError::BadDependencySpec),
        }
    }

    fn registry_entry(name: &str, version: &String) -> (r: Result<Dependency, ManifestError>)
        ensures
            match r {
                Ok(d) => version_ok(version@) && d.name@ == name@ && (match d.location {
                    CrateLocation::Registry { version: v } => v@ == version@,
                    _ => false,
                }),
                Err(e) => !version_ok(version@) && e == ManifestError::InvalidVersionRequirement,
            },
    {
        if is_star(version.as_str()) || version_req_valid(version.as_str()) {
            Ok(Dependency::with_version(name, version.as_str()))
        } else {
            Err(ManifestError::InvalidVersionRequirement)
        }
    }
}

/// Interprets the whole dependency section; the first ill-formed entry
/// fails the manifest.
pub fn dependencies_from_entries(entries: &Vec<(String, DependencySpec)>) -> (r: Result<
    Vec<Dependency>,
    ManifestError,
>)
    ensures
        match r {
            Ok(deps) => deps@.len() == entries@.len() && forall|i: int|
                0 <= i < entries@.len() ==> spec_entry_error(#[trigger] entries@[i].1) is None
                    && deps@[i].name@ == entries@[i].0@ && spec_location_matches(
                    deps@[i].location,
                    entries@[i].1,
                ),
            Err(e) => exists|i: int|
                0 <= i < entries@.len() && spec_entry_error(#[trigger] entries@[i].1) == Some(e)
                    && (forall|j: int|
                    0 <= j < i ==> spec_entry_error(#[trigger] entries@[j].1) is None),
        },
{
    let mut deps: Vec<Dependency> = Vec::new();
    let mut i: usize = 0;
    while i < entries.len()
        invariant
            i <= entries@.len(),
            deps@.len() == i,
            forall|t: int|
                0 <= t < i ==> spec_entry_error(#[trigger] entries@[t].1) is None
                    && deps@[t].name@ == entries@[t].0@ && spec_location_matches(
                    deps@[t].location,
                    entries@[t].1,
                ),
        decreases entries@.len() - i,
    {
        let (name, spec) = &entries[i];
        match Dependency::from_toml(name.as_str(), spec) {
            Ok(d) => {
                deps.push(d);
            },
            Err(e) => {
                return Err(e);
            },
        }
        i = i + 1;
    }
    Ok(deps)
}

} // verus!
