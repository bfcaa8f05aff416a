//! Semantic-version constraints and selection among cached crate versions.
//!
//! Constraint parsing and matching are delegated to the `semver` crate; the
//! selection of the best cached version (highest satisfying version, earlier
//! entries winning ties) is verified here.

use vstd::prelude::*;

use crate::text::find_last;
use crate::text::last_index_of;
use crate::text::string_from_chars;
use crate::text::sub_chars;
use crate::text::to_chars;

verus! {

/// Whether a string parses as a semantic-version requirement.
pub uninterp spec fn req_syntax_ok(s: Seq<char>) -> bool;

/// The `(major, minor, patch)` triple of a version string, when it parses.
pub uninterp spec fn semver_triple(s: Seq<char>) -> Option<(u64, u64, u64)>;

/// Whether the version `ver` satisfies the requirement `req`;
/// `None` when either string does not parse.
pub uninterp spec fn req_allows(req: Seq<char>, ver: Seq<char>) -> Option<bool>;

/// Relies on `semver::VersionReq::parse`: whether a requirement string is
/// well-formed depends on the string alone.
#[verifier::external_body]
pub fn version_req_valid(s: &str) -> (r: bool)
    ensures
        r == req_syntax_ok(s@),
{
    semver::VersionReq::parse(s).is_ok()
}

/// Relies on `semver::Version::parse`: the numeric components of a version
/// depend on the string alone.
#[verifier::external_body]
pub fn parse_version_triple(s: &str) -> (r: Option<(u64, u64, u64)>)
    ensures
        r == semver_triple(s@),
{
    match semver::Version::parse(s) {
        Ok(v) => Some((v.major, v.minor, v.patch)),
        Err(_) => None,
    }
}

/// Relies on `semver::VersionReq::parse`, `semver::Version::parse` and
/// `semver::VersionReq::matches`: whether a version satisfies a requirement
/// depends on the two strings alone, and the call succeeds exactly when both
/// strings parse.
#[verifier::external_body]
pub fn constraint_allows(req: &str, ver: &str) -> (r: Option<bool>)
    ensures
        r == req_allows(req@, ver@),
        r is Some <==> (req_syntax_ok(req@) && semver_triple(ver@) is Some),
{
    match (semver::VersionReq::parse(req), semver::Version::parse(ver)) {
        (Ok(r), Ok(v)) => Some(r.matches(&v)),
        _ => None,
    }
}

/// The version suffix of a cached crate directory name: what follows the
/// last dash, or the whole name when there is none.
pub open spec fn suffix_after_dash(s: Seq<char>) -> Seq<char> {
    s.skip(last_index_of(s, '-') + 1)
}

/// Extracts the version suffix of a cached crate directory name.
pub fn version_suffix(dir_name: &str) -> (r: String)
    ensures
        r@ == suffix_after_dash(dir_name@),
{
    let v = to_chars(dir_name);
    let n = v.len();
    let from = match find_last(&v, '-') {
        Some(k) => k + 1,
        None => 0,
    };
    let tail = sub_chars(&v, from, n);
    proof {
        assert(tail@ =~= v@.skip(last_index_of(v@, '-') + 1));
    }
    string_from_chars(&tail)
}

/// Strict lexicographic order on `(major, minor, patch)` triples.
pub open spec fn triple_lt(a: (u64, u64, u64), b: (u64, u64, u64)) -> bool {
    a.0 < b.0 || (a.0 == b.0 && (a.1 < b.1 || (a.1 == b.1 && a.2 < b.2)))
}

pub open spec fn opt_triple_lt(a: Option<(u64, u64, u64)>, b: Option<(u64, u64, u64)>) -> bool {
    match (a, b) {
        (Some(x), Some(y)) => triple_lt(x, y),
        _ => false,
    }
}

fn triple_less(a: (u64, u64, u64), b: (u64, u64, u64)) -> (r: bool)
    ensures
        r == triple_lt(a, b),
{
    a.0 < b.0 || (a.0 == b.0 && (a.1 < b.1 || (a.1 == b.1 && a.2 < b.2)))
}

/// The version of a cached directory name, when its suffix parses.
pub open spec fn entry_triple(name: Seq<char>) -> Option<(u64, u64, u64)> {
    semver_triple(suffix_after_dash(name))
}

/// Whether a cached directory name carries a version satisfying `req`.
pub open spec fn entry_allowed(req: Seq<char>, name: Seq<char>) -> bool {
    req_allows(req, suffix_after_dash(name)) == Some(true)
}

/// Picks the cached entry with the highest satisfying version.
///
/// `names` are cached crate directory names, most recently modified first;
/// among entries with equal versions the earliest (most recent) index wins.
pub fn best_cached_entry(req: &str, names: &Vec<String>) -> (r: Option<usize>)
    ensures
        match r {
            Some(i) => 0 <= i < names@.len() && entry_allowed(req@, names@[i as int]@) && (forall|
                j: int,
            |
                0 <= j < names@.len() && entry_allowed(req@, names@[j]@) ==> !opt_triple_lt(
                    entry_triple(names@[i as int]@),
                    entry_triple(#[trigger] names@[j]@),
                )) && (forall|j: int|
                0 <= j < i && entry_allowed(req@, names@[j]@) ==> opt_triple_lt(
                    entry_triple(#[trigger] names@[j]@),
                    entry_triple(names@[i as int]@),
                )),
            None => forall|j: int|
                0 <= j < names@.len() ==> !entry_allowed(req@, #[trigger] names@[j]@),
        },
{
    let mut best: Option<(usize, (u64, u64, u64))> = None;
    let mut j: usize = 0;
    while j < names.len()
        invariant
            j <= names@.len(),
            forall|t: int|
                0 <= t < j && entry_allowed(req@, names@[t]@) ==> entry_triple(
                    #[trigger] names@[t]@,
                ) is Some,
            match best {
                None => forall|t: int|
                    0 <= t < j ==> !entry_allowed(req@, #[trigger] names@[t]@),
                Some((bi, bt)) => 0 <= bi < j && entry_allowed(req@, names@[bi as int]@)
                    && entry_triple(names@[bi as int]@) == Some(bt) && (forall|t: int|
                    0 <= t < j && entry_allowed(req@, names@[t]@) ==> !opt_triple_lt(
                        Some(bt),
                        entry_triple(#[trigger] names@[t]@),
                    )) && (forall|t: int|
                    0 <= t < bi && entry_allowed(req@, names@[t]@) ==> opt_triple_lt(
                        entry_triple(#[trigger] names@[t]@),
                        Some(bt),
                    )),
            },
        decreases names@.len() - j,
    {
        let suffix = version_suffix(names[j].as_str());
        let allowed = constraint_allows(req, suffix.as_str());
        let is_allowed = match allowed {
            Some(b) => b,
            None => false,
        };
        proof {
            assert(suffix@ == suffix_after_dash(names@[j as int]@));
            assert(allowed == req_allows(req@, suffix_after_dash(names@[j as int]@)));
            assert(is_allowed == entry_allowed(req@, names@[j as int]@));
        }
        if is_allowed {
            let triple = parse_version_triple(suffix.as_str());
            proof {
                assert(entry_allowed(req@, names@[j as int]@));
                assert(semver_triple(suffix@) is Some);
            }
            let t = match triple {
                Some(t) => t,
                None => {
                    proof {
                        assert(false);
                    }
                    (0, 0, 0)
                },
            };
            match best {
                None => {
                    best = Some((j, t));
                },
                Some((bi, bt)) => {
                    if triple_less(bt, t) {
                        best = Some((j, t));
                    }
                },
            }
        }
        j = j + 1;
    }
    match best {
        None => None,
        Some((bi, _)) => Some(bi),
    }
}

} // verus!
