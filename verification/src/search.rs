//! The per-repository issue search: query construction, screening of
//! upstream results, and classification of upstream faults.

use vstd::prelude::*;

use crate::labels::string_views;
use crate::labels::LabelFilter;
use crate::model::Issue;
use crate::model::Repository;
use crate::text::find_last;
use crate::text::last_index_of;
use crate::text::string_from_chars;
use crate::text::sub_chars;
use crate::text::to_chars;

verus! {

/// The owner and project of a repository API URL: its last two
/// slash-separated components.
pub open spec fn spec_repo_tuple(s: Seq<char>) -> (Seq<char>, Seq<char>) {
    let k1 = last_index_of(s, '/');
    let name = s.skip(k1 + 1);
    if k1 < 0 {
        (Seq::<char>::empty(), name)
    } else {
        let head = s.take(k1);
        (head.skip(last_index_of(head, '/') + 1), name)
    }
}

/// Reads the owner and project out of a repository API URL
/// (`.../repos/OWNER/NAME`): the last two slash-separated components.
pub fn repo_tuple(repository_url: &str) -> (r: (String, String))
    ensures
        (r.0@, r.1@) == spec_repo_tuple(repository_url@),
{
    let v = to_chars(repository_url);
    let n = v.len();
    match find_last(&v, '/') {
        None => {
            proof {
                assert(v@.skip(0) =~= v@);
            }
            (String::new(), string_from_chars(&v))
        },
        Some(k1) => {
            let name = sub_chars(&v, k1 + 1, n);
            proof {
                assert(name@ =~= v@.skip(k1 + 1));
            }
            let head = sub_chars(&v, 0, k1);
            proof {
                assert(head@ =~= v@.take(k1 as int));
            }
            match find_last(&head, '/') {
                None => {
                    proof {
                        assert(head@.skip(0) =~= head@);
                    }
                    (string_from_chars(&head), string_from_chars(&name))
                },
                Some(k2) => {
                    let owner = sub_chars(&head, k2 + 1, head.len());
                    proof {
                        assert(owner@ =~= head@.skip(k2 + 1));
                    }
                    (string_from_chars(&owner), string_from_chars(&name))
                },
            }
        },
    }
}

/// One upstream search result, as handed over by the issue-tracker client.
#[derive(Debug)]
pub struct SearchItem {
    /// API URL of the repository the issue belongs to.
    pub repository_url: String,
    /// Issue number.
    pub number: u64,
    /// URL to the HTML page of the issue.
    pub html_url: String,
    /// Issue title.
    pub title: String,
    /// Issue text, if any.
    pub body: Option<String>,
    /// Number of comments.
    pub comments: u64,
    /// Label names attached to the issue.
    pub labels: Vec<String>,
}

/// Converts an upstream search result into an [`Issue`].
pub fn issue_from_item(item: &SearchItem) -> (iss: Issue)
    ensures
        iss.repo.owner@ == spec_repo_tuple(item.repository_url@).0,
        iss.repo.name@ == spec_repo_tuple(item.repository_url@).1,
        iss.number == item.number,
        iss.url@ == item.html_url@,
        iss.title@ == item.title@,
        match item.body {
            Some(b) => iss.body@ == b@,
            None => iss.body@ == Seq::<char>::empty(),
        },
        iss.comment_count == item.comments as usize,
{
    let (owner, project) = repo_tuple(item.repository_url.as_str());
    let body = match &item.body {
        Some(b) => b.clone(),
        None => String::new(),
    };
    Issue {
        repo: Repository { owner, name: project },
        number: item.number,
        url: item.html_url.clone(),
        title: item.title.clone(),
        body,
        #[verifier::truncate]
        comment_count: item.comments as usize,
    }
}

/// Screens one upstream result: `Some` exactly when one of its labels,
/// canonicalized, is on the allow-list.
pub fn screen_item(filter: &LabelFilter, item: &SearchItem) -> (r: Option<Issue>)
    ensures
        r is Some <==> filter.spec_accepts(string_views(item.labels@)),
        match r {
            Some(iss) => iss.repo.owner@ == spec_repo_tuple(item.repository_url@).0
                && iss.repo.name@ == spec_repo_tuple(item.repository_url@).1 && iss.number
                == item.number && iss.url@ == item.html_url@ && iss.title@ == item.title@
                && (match item.body {
                Some(b) => iss.body@ == b@,
                None => iss.body@ == Seq::<char>::empty(),
            }) && iss.comment_count == item.comments as usize,
            None => true,
        },
{
    if filter.accepts_labels(&item.labels) {
        Some(issue_from_item(item))
    } else {
        None
    }
}

/// The query and paging parameters of the per-repository issue search:
/// open, unassigned issues, most recently updated first, largest page the
/// upstream API allows.
#[derive(Debug)]
pub struct SearchQuery {
    pub query: String,
    pub per_page: u32,
    pub sort_by_updated: bool,
    pub descending: bool,
}

/// Builds the search query for a repository's pending issues.
pub fn pending_issues_query(repo: &Repository) -> (r: SearchQuery)
    ensures
        r.query@ == "repo:"@ + repo.owner@ + "/"@ + repo.name@
            + " type:issue state:open no:assignee"@,
        r.per_page == 100,
        r.sort_by_updated,
        r.descending,
{
    let mut q = String::from_str("repo:");
    q.append(repo.owner.as_str());
    q.append("/");
    q.append(repo.name.as_str());
    q.append(" type:issue state:open no:assignee");
    proof {
        assert(q@ =~= "repo:"@ + repo.owner@ + "/"@ + repo.name@
            + " type:issue state:open no:assignee"@);
    }
    SearchQuery { query: q, per_page: 100, sort_by_updated: true, descending: true }
}

/// An upstream failure while fetching a page of search results.
#[derive(Debug, PartialEq, Eq, Structural, Clone, Copy)]
pub enum SearchFault {
    /// The rate limit was hit; it resets after this many seconds.
    RateLimit { reset_secs: u64 },
    /// An HTTP fault with this status code.
    Http { status: u16 },
    /// A transport-level failure (connection, protocol, decoding).
    Transport,
}

/// Why a repository's stream ended early.
#[derive(Debug, PartialEq, Eq, Structural, Clone, Copy)]
pub enum EndReason {
    /// Rate-limited; a retry would be possible after the reset.
    RateLimited { reset_secs: u64 },
    /// The repository does not exist (the manifest may reference a renamed
    /// or deleted repository).
    RepositoryNotFound,
    /// The repository exists but cannot be searched (likely private).
    AccessDenied,
}

/// What to do about an upstream fault.
#[derive(Debug, PartialEq, Eq, Structural, Clone, Copy)]
pub enum FaultDisposition {
    /// Recoverable: end this repository's stream quietly.
    EndStream { reason: EndReason },
    /// Non-recoverable: propagate and terminate the whole run.
    Fatal,
}

/// The classification rule: rate limiting, a missing repository (HTTP 422)
/// and a forbidden repository (HTTP 403) end the one stream; every other
/// fault is fatal to the run.
pub open spec fn spec_classify(f: SearchFault) -> FaultDisposition {
    match f {
        SearchFault::RateLimit { reset_secs } => FaultDisposition::EndStream {
            reason: EndReason::RateLimited { reset_secs },
        },
        SearchFault::Http { status } => if status == 422 {
            FaultDisposition::EndStream { reason: EndReason::RepositoryNotFound }
        } else if status == 403 {
            FaultDisposition::EndStream { reason: EndReason::AccessDenied }
        } else {
            FaultDisposition::Fatal
        },
        SearchFault::Transport => FaultDisposition::Fatal,
    }
}

/// Classifies an upstream fault as recoverable or fatal.
pub fn classify_fault(f: &SearchFault) -> (r: FaultDisposition)
    ensures
        r == spec_classify(*f),
{
    match f {
        SearchFault::RateLimit { reset_secs } => FaultDisposition::EndStream {
            reason: EndReason::RateLimited { reset_secs: *reset_secs },
        },
        SearchFault::Http { status } => {
            if *status == 422 {
                FaultDisposition::EndStream { reason: EndReason::RepositoryNotFound }
            } else if *status == 403 {
                FaultDisposition::EndStream { reason: EndReason::AccessDenied }
            } else {
                FaultDisposition::Fatal
            }
        },
        SearchFault::Transport => FaultDisposition::Fatal,
    }
}

} // verus!
