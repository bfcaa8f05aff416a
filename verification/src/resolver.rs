//! Resolving a dependency to the repository that hosts it.
//!
//! Resolution is a layered lookup: the local package cache first, then the
//! registry, then pattern matching on version-control locators.  The caller
//! performs the filesystem and network lookups and feeds their results back
//! into the next step.

use vstd::prelude::*;

use crate::crates_io::Metadata;
use crate::manifest::CrateLocation;
use crate::manifest::Dependency;
use crate::manifest::Package;
use crate::model::parse_git_locator;
use crate::model::parse_http_locator;
use crate::model::Repository;

use rand::seq::SliceRandom;

verus! {

/// `r` carries exactly the owner/name pair `p`, if any.
pub open spec fn opt_repo_matches(
    r: Option<Repository>,
    p: Option<(Seq<char>, Seq<char>)>,
) -> bool {
    match (r, p) {
        (Some(repo), Some(k)) => repo.owner@ == k.0 && repo.name@ == k.1,
        (None, None) => true,
        _ => false,
    }
}

/// The repository named by an optional URL field.
pub open spec fn spec_url_repo(u: Option<String>) -> Option<(Seq<char>, Seq<char>)> {
    match u {
        Some(s) => parse_http_locator(s@),
        None => None,
    }
}

/// The repository a package manifest points at: the `repository` field
/// takes precedence over `homepage`.
pub open spec fn spec_package_repo(p: Package) -> Option<(Seq<char>, Seq<char>)> {
    if spec_url_repo(p.repository) is Some {
        spec_url_repo(p.repository)
    } else {
        spec_url_repo(p.homepage)
    }
}

/// The repository the registry metadata points at: the repository URL
/// takes precedence over the homepage.
pub open spec fn spec_metadata_repo(m: Metadata) -> Option<(Seq<char>, Seq<char>)> {
    if spec_url_repo(m.repo_url) is Some {
        spec_url_repo(m.repo_url)
    } else {
        spec_url_repo(m.homepage_url)
    }
}

/// Extracts a repository locator from a package manifest,
/// `repository` first, then `homepage`.
pub fn repo_from_package(p: &Package) -> (r: Option<Repository>)
    ensures
        opt_repo_matches(r, spec_package_repo(*p)),
{
    if let Some(u) = &p.repository {
        if let Some(repo) = Repository::from_http_url(u.as_str()) {
            return Some(repo);
        }
    }
    if let Some(u) = &p.homepage {
        if let Some(repo) = Repository::from_http_url(u.as_str()) {
            return Some(repo);
        }
    }
    None
}

/// Extracts a repository locator from registry metadata,
/// the repository URL first, then the homepage.
pub fn repo_from_metadata(m: &Metadata) -> (r: Option<Repository>)
    ensures
        opt_repo_matches(r, spec_metadata_repo(*m)),
{
    if let Some(u) = &m.repo_url {
        if let Some(repo) = Repository::from_http_url(u.as_str()) {
            return Some(repo);
        }
    }
    if let Some(u) = &m.homepage_url {
        if let Some(repo) = Repository::from_http_url(u.as_str()) {
            return Some(repo);
        }
    }
    None
}

/// What the resolver needs next for one dependency.
#[derive(Debug)]
pub enum ResolutionStep {
    /// The repository is determined (possibly none was found).
    Resolved(Option<Repository>),
    /// Look in the local package cache for this crate and requirement.
    NeedCacheLookup { name: String, version: String },
    /// Ask the registry for this crate's metadata.
    NeedRegistryLookup { name: String },
    /// Read the manifest of the workspace crate at this path.
    NeedLocalManifest { path: String },
}

/// Starts resolving one dependency.  A registry dependency consults the
/// cache first; a path dependency needs its local manifest; a Git
/// dependency is resolved immediately from its locator.
pub fn resolution_start(dep: &Dependency) -> (r: ResolutionStep)
    ensures
        match dep.location {
            CrateLocation::Registry { version } => match r {
                ResolutionStep::NeedCacheLookup { name: n, version: v } => n@ == dep.name@ && v@
                    == version@,
                _ => false,
            },
            CrateLocation::Filesystem { path } => match r {
                ResolutionStep::NeedLocalManifest { path: p } => p@ == path@,
                _ => false,
            },
            CrateLocation::Git { url } => match r {
                ResolutionStep::Resolved(opt) => opt_repo_matches(opt, parse_git_locator(url@)),
                _ => false,
            },
        },
{
    match &dep.location {
        CrateLocation::Registry { version } => ResolutionStep::NeedCacheLookup {
            name: dep.name.clone(),
            version: version.clone(),
        },
        CrateLocation::Filesystem { path } => ResolutionStep::NeedLocalManifest {
            path: path.clone(),
        },
        CrateLocation::Git { url } => ResolutionStep::Resolved(
            Repository::from_git_url(url.as_str()),
        ),
    }
}

/// Continues a registry dependency after the cache lookup: a cached
/// manifest decides; a miss falls through to the registry.
pub fn resolution_after_cache(dep: &Dependency, cached: Option<&Package>) -> (r: ResolutionStep)
    ensures
        match cached {
            Some(p) => match r {
                ResolutionStep::Resolved(opt) => opt_repo_matches(opt, spec_package_repo(*p)),
                _ => false,
            },
            None => match r {
                ResolutionStep::NeedRegistryLookup { name: n } => n@ == dep.name@,
                _ => false,
            },
        },
{
    match cached {
        Some(p) => ResolutionStep::Resolved(repo_from_package(p)),
        None => ResolutionStep::NeedRegistryLookup { name: dep.name.clone() },
    }
}

/// Finishes a registry dependency after the registry lookup.
pub fn resolution_after_registry(found: Option<&Metadata>) -> (r: Option<Repository>)
    ensures
        match found {
            Some(m) => opt_repo_matches(r, spec_metadata_repo(*m)),
            None => r is None,
        },
{
    match found {
        Some(m) => repo_from_metadata(m),
        None => None,
    }
}

/// Finishes a path dependency after its local manifest was read (or could
/// not be: any filesystem or parse error degrades to "not found").
pub fn resolution_after_local_manifest(found: Option<&Package>) -> (r: Option<Repository>)
    ensures
        match found {
            Some(p) => opt_repo_matches(r, spec_package_repo(*p)),
            None => r is None,
        },
{
    match found {
        Some(p) => repo_from_package(p),
        None => None,
    }
}

/// The set of repositories already resolved in this run, used to open each
/// repository's issue search exactly once.
pub struct RepoSet {
    pub repos: Vec<Repository>,
}

impl RepoSet {
    pub open spec fn spec_contains(&self, key: (Seq<char>, Seq<char>)) -> bool {
        exists|i: int| 0 <= i < self.repos@.len() && (#[trigger] self.repos@[i]).key() == key
    }

    /// No repository occurs twice.
    pub open spec fn wf(&self) -> bool {
        forall|i: int, j: int|
            0 <= i < j < self.repos@.len() ==> (#[trigger] self.repos@[i]).key() != (
            #[trigger] self.repos@[j]).key()
    }

    pub fn new() -> (r: Self)
        ensures
            r.wf(),
            r.repos@.len() == 0,
    {
        RepoSet { repos: Vec::new() }
    }

    /// Inserts the repository unless an equal one is present; returns
    /// whether it was new (i.e. whether its issue search must be opened).
    pub fn try_insert(&mut self, repo: Repository) -> (added: bool)
        requires
            old(self).wf(),
        ensures
            final(self).wf(),
            added == !old(self).spec_contains(repo.key()),
            added ==> final(self).repos@ == old(self).repos@.push(repo),
            !added ==> final(self).repos@ == old(self).repos@,
            final(self).spec_contains(repo.key()),
    {
        let mut i: usize = 0;
        while i < self.repos.len()
            invariant
                i <= self.repos@.len(),
                forall|t: int| 0 <= t < i ==> (#[trigger] self.repos@[t]).key() != repo.key(),
                *self == *old(self),
                old(self).wf(),
            decreases self.repos@.len() - i,
        {
            if self.repos[i] == repo {
                proof {
                    assert(self.repos@[i as int].key() == repo.key());
                }
                return false;
            }
            i = i + 1;
        }
        proof {
            assert(!old(self).spec_contains(repo.key()));
        }
        self.repos.push(repo);
        proof {
            assert(final(self).repos@[final(self).repos@.len() - 1].key() == repo.key());
        }
        true
    }
}

/// Deduplication opens each repository's search at most once: of two
/// insertions with the same repository identity, at most one reports the
/// repository as new, and the identity is in the set afterwards.
pub proof fn lemma_search_opened_once(
    s0: RepoSet,
    s1: RepoSet,
    r1: Repository,
    r2: Repository,
    a1: bool,
    a2: bool,
)
    requires
        s0.wf(),
        a1 == !s0.spec_contains(r1.key()),
        s1.repos@ == if a1 {
            s0.repos@.push(r1)
        } else {
            s0.repos@
        },
        a2 == !s1.spec_contains(r2.key()),
        r1.key() == r2.key(),
    ensures
        !(a1 && a2),
        a1 || s0.spec_contains(r1.key()),
{
    if a1 {
        assert(s1.repos@[s1.repos@.len() - 1].key() == r2.key());
        assert(s1.spec_contains(r2.key()));
    }
}

/// A repository identity among a sequence of resolved repositories.
pub open spec fn resolved_has_key(rs: Seq<Repository>, k: (Seq<char>, Seq<char>)) -> bool {
    exists|i: int| 0 <= i < rs.len() && (#[trigger] rs[i]).key() == k
}

/// Reordering the dependencies does not change which repositories are
/// searched: two resolution orders with the same repositories (as before
/// and after shuffling) yield the same repository identities, so the same
/// deduplicated set of issue searches.
pub proof fn lemma_order_insensitive(rs1: Seq<Repository>, rs2: Seq<Repository>)
    requires
        rs1.to_multiset() == rs2.to_multiset(),
    ensures
        forall|k: (Seq<char>, Seq<char>)| resolved_has_key(rs1, k) == resolved_has_key(rs2, k),
{
    broadcast use vstd::seq_lib::group_to_multiset_ensures;

    assert forall|k: (Seq<char>, Seq<char>)| resolved_has_key(rs1, k) == resolved_has_key(
        rs2,
        k,
    ) by {
        if resolved_has_key(rs1, k) {
            let i = choose|i: int| 0 <= i < rs1.len() && (#[trigger] rs1[i]).key() == k;
            assert(rs1.contains(rs1[i]));
            assert(rs1.to_multiset().count(rs1[i]) > 0);
            assert(rs2.contains(rs1[i]));
            let j = choose|j: int| 0 <= j < rs2.len() && rs2[j] == rs1[i];
            assert(rs2[j].key() == k);
        }
        if resolved_has_key(rs2, k) {
            let i = choose|i: int| 0 <= i < rs2.len() && (#[trigger] rs2[i]).key() == k;
            assert(rs2.contains(rs2[i]));
            assert(rs2.to_multiset().count(rs2[i]) > 0);
            assert(rs1.contains(rs2[i]));
            let j = choose|j: int| 0 <= j < rs1.len() && rs1[j] == rs2[i];
            assert(rs1[j].key() == k);
        }
    }
}

/// Relies on `rand::seq::SliceRandom::shuffle` (driven by `rand::rng`):
/// shuffling permutes the slice in place, so the dependencies afterwards
/// are exactly the dependencies before, in some order.
#[verifier::external_body]
pub fn shuffle_dependencies(deps: &mut Vec<Dependency>)
    ensures
        final(deps)@.len() == old(deps)@.len(),
        final(deps)@.to_multiset() == old(deps)@.to_multiset(),
{
    deps.shuffle(&mut rand::rng());
}

} // verus!
