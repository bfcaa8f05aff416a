//! Data model: repositories and issues, and parsing repository locators.
//!
//! A repository locator is accepted in two web-URL shapes
//! (`http(s)://github.com/OWNER/NAME` and the `www.`-prefixed variant, with
//! an optional `.git` suffix on the name) and one SSH shape
//! (`git@github.com:OWNER/NAME.git`).  A web URL's query and fragment are
//! not part of the path and are ignored.

use vstd::prelude::*;

use crate::text::find_char;
use crate::text::is_alnum_char;
use crate::text::lemma_find_char_at;
use crate::text::lemma_find_char_missing;
use crate::text::lemma_find_char_props;
use crate::text::match_at;
use crate::text::chars_match_at;
use crate::text::find_char_from;
use crate::text::string_from_chars;
use crate::text::sub_chars;
use crate::text::to_chars;

verus! {

/// A GitHub repository, identified by its owner and project name.
#[derive(Debug)]
pub struct Repository {
    pub owner: String,
    pub name: String,
}

impl Repository {
    /// The pair of character sequences that identifies this repository.
    pub open spec fn key(&self) -> (Seq<char>, Seq<char>) {
        (self.owner@, self.name@)
    }

    pub fn new(owner: &str, name: &str) -> (r: Self)
        ensures
            r.owner@ == owner@,
            r.name@ == name@,
    {
        Repository { owner: owner.to_owned(), name: name.to_owned() }
    }

    /// Renders the repository as `owner/name`.
    pub fn display_text(&self) -> (r: String)
        ensures
            r@ == self.owner@ + "/"@ + self.name@,
    {
        let mut s = self.owner.clone();
        s.append("/");
        s.append(self.name.as_str());
        s
    }
}

impl Clone for Repository {
    fn clone(&self) -> (r: Self)
        ensures
            r.owner@ == self.owner@,
            r.name@ == self.name@,
    {
        Repository { owner: self.owner.clone(), name: self.name.clone() }
    }
}

impl PartialEq for Repository {
    fn eq(&self, other: &Repository) -> (r: bool) {
        self.owner == other.owner && self.name == other.name
    }
}

impl vstd::std_specs::cmp::PartialEqSpecImpl for Repository {
    open spec fn obeys_eq_spec() -> bool {
        true
    }

    open spec fn eq_spec(&self, other: &Repository) -> bool {
        self.owner@ == other.owner@ && self.name@ == other.name@
    }
}

/// An issue suggested to the user.
#[derive(Debug)]
pub struct Issue {
    /// Repository where this issue comes from.
    pub repo: Repository,
    /// Issue number.
    pub number: u64,
    /// URL to the HTML page of the issue.
    pub url: String,
    /// Issue title.
    pub title: String,
    /// Issue text (body of the first comment).
    pub body: String,
    /// Number of comments on the issue.
    pub comment_count: usize,
}

impl Issue {
    /// Renders the issue as `[owner/name] #number: title`.
    pub fn display_line(&self) -> (r: String)
        ensures
            r@ == "["@ + self.repo.owner@ + "/"@ + self.repo.name@ + "] #"@ + crate::text::dec_str(
                self.number as nat,
            ) + ": "@ + self.title@,
    {
        let mut s = String::from_str("[");
        s.append(self.repo.owner.as_str());
        s.append("/");
        s.append(self.repo.name.as_str());
        s.append("] #");
        let num = crate::text::u64_to_dec_string(self.number);
        s.append(num.as_str());
        s.append(": ");
        s.append(self.title.as_str());
        proof {
            assert(s@ =~= "["@ + self.repo.owner@ + "/"@ + self.repo.name@ + "] #"@
                + crate::text::dec_str(self.number as nat) + ": "@ + self.title@);
        }
        s
    }
}

impl Clone for Issue {
    fn clone(&self) -> (r: Self)
        ensures
            r.repo.owner@ == self.repo.owner@,
            r.repo.name@ == self.repo.name@,
            r.number == self.number,
            r.url@ == self.url@,
            r.title@ == self.title@,
            r.body@ == self.body@,
            r.comment_count == self.comment_count,
    {
        Issue {
            repo: self.repo.clone(),
            number: self.number,
            url: self.url.clone(),
            title: self.title.clone(),
            body: self.body.clone(),
            comment_count: self.comment_count,
        }
    }
}

// Locator grammar, over character sequences.

/// Strips the literal `p` from the front of `s`.
pub open spec fn strip_lit(s: Seq<char>, p: Seq<char>) -> Option<Seq<char>> {
    if match_at(s, 0, p) {
        Some(s.skip(p.len() as int))
    } else {
        None
    }
}

/// What follows `http://` or `https://`.
pub open spec fn after_scheme(s: Seq<char>) -> Option<Seq<char>> {
    match strip_lit(s, "http://"@) {
        Some(r) => Some(r),
        None => strip_lit(s, "https://"@),
    }
}

/// What follows the scheme and the `github.com/` host
/// (an optional `www.` host prefix is admitted).
pub open spec fn after_host(s: Seq<char>) -> Option<Seq<char>> {
    match after_scheme(s) {
        Some(r) => match strip_lit(r, "www."@) {
            Some(x) => strip_lit(x, "github.com/"@),
            None => strip_lit(r, "github.com/"@),
        },
        None => None,
    }
}

/// Splits `r` into exactly two non-empty path segments.
pub open spec fn two_segments(r: Seq<char>) -> Option<(Seq<char>, Seq<char>)> {
    let k = find_char(r, '/');
    if k <= 0 {
        None
    } else {
        let rest = r.skip(k + 1);
        if rest.len() == 0 || find_char(rest, '/') >= 0 {
            None
        } else {
            Some((r.take(k), rest))
        }
    }
}

/// Strips trailing `.git` suffixes from a name.
pub open spec fn strip_git_suffix(n: Seq<char>) -> Seq<char>
    decreases n.len(),
{
    if n.len() >= 4 && n.subrange(n.len() - 4, n.len() as int) == ".git"@ {
        strip_git_suffix(n.take(n.len() - 4))
    } else {
        n
    }
}

/// Cuts a URL at the start of its query or fragment: everything from the
/// first `?` or `#` on is dropped.
pub open spec fn cut_at_query(s: Seq<char>) -> Seq<char>
    decreases s.len(),
{
    if s.len() == 0 {
        s
    } else if s[0] == '?' || s[0] == '#' {
        Seq::<char>::empty()
    } else {
        seq![s[0]] + cut_at_query(s.skip(1))
    }
}

/// `w` holds no query or fragment delimiter.
pub open spec fn query_free(w: Seq<char>) -> bool {
    forall|i: int| 0 <= i < w.len() ==> #[trigger] w[i] != '?' && w[i] != '#'
}

/// The path part of a web URL: scheme, host, exactly two non-empty path
/// segments, the trailing `.git` stripped from the second.
pub open spec fn parse_http_path(s: Seq<char>) -> Option<(Seq<char>, Seq<char>)> {
    match after_host(s) {
        Some(r) => match two_segments(r) {
            Some((owner, raw)) => {
                let name = strip_git_suffix(raw);
                if name.len() == 0 {
                    None
                } else {
                    Some((owner, name))
                }
            },
            None => None,
        },
        None => None,
    }
}

/// Parsing a web URL: the query and fragment are ignored, then the path
/// must name exactly two segments under the `github.com` or
/// `www.github.com` host.
pub open spec fn parse_http_locator(s: Seq<char>) -> Option<(Seq<char>, Seq<char>)> {
    parse_http_path(cut_at_query(s))
}

pub open spec fn is_owner_char(c: char) -> bool {
    is_alnum_char(c) || c == '_' || c == '-'
}

pub open spec fn all_owner_chars(w: Seq<char>) -> bool {
    forall|i: int| 0 <= i < w.len() ==> is_owner_char(#[trigger] w[i])
}

/// A project name in a source-control locator: non-empty, without dots or
/// slashes.
pub open spec fn plain_name(w: Seq<char>) -> bool {
    w.len() >= 1 && forall|i: int| 0 <= i < w.len() ==> #[trigger] w[i] != '.' && w[i] != '/'
}

/// The HTTPS shape of a version-control locator:
/// `http(s)://(www.)github.com/OWNER/NAME(.git)`.
pub open spec fn parse_git_https(s: Seq<char>) -> Option<(Seq<char>, Seq<char>)> {
    match after_host(s) {
        Some(r) => match two_segments(r) {
            Some((owner, raw)) => if !all_owner_chars(owner) {
                None
            } else {
                let name = if raw.len() >= 4 && raw.subrange(raw.len() - 4, raw.len() as int)
                    == ".git"@ {
                    raw.take(raw.len() - 4)
                } else {
                    raw
                };
                if plain_name(name) {
                    Some((owner, name))
                } else {
                    None
                }
            },
            None => None,
        },
        None => None,
    }
}

/// The SSH shape of a version-control locator:
/// `git@github.com:OWNER/NAME.git`.
pub open spec fn parse_git_ssh(s: Seq<char>) -> Option<(Seq<char>, Seq<char>)> {
    match strip_lit(s, "git@github.com:"@) {
        Some(r) => match two_segments(r) {
            Some((owner, raw)) => if !all_owner_chars(owner) {
                None
            } else if raw.len() >= 4 && raw.subrange(raw.len() - 4, raw.len() as int) == ".git"@ {
                let name = raw.take(raw.len() - 4);
                if plain_name(name) {
                    Some((owner, name))
                } else {
                    None
                }
            } else {
                None
            },
            None => None,
        },
        None => None,
    }
}

/// A version-control locator, in either accepted shape.
pub open spec fn parse_git_locator(s: Seq<char>) -> Option<(Seq<char>, Seq<char>)> {
    if parse_git_https(s) is Some {
        parse_git_https(s)
    } else {
        parse_git_ssh(s)
    }
}

proof fn lemma_match_at_shift(s: Seq<char>, k: int, p: Seq<char>)
    requires
        0 <= k <= s.len(),
    ensures
        match_at(s.skip(k), 0, p) == match_at(s, k, p),
{
    if k + p.len() <= s.len() {
        assert(s.skip(k).subrange(0, p.len() as int) =~= s.subrange(k, k + p.len()));
    }
}

proof fn lemma_cut_at(s: Seq<char>, k: int)
    requires
        0 <= k < s.len(),
        s[k] == '?' || s[k] == '#',
        forall|t: int| 0 <= t < k ==> #[trigger] s[t] != '?' && s[t] != '#',
    ensures
        cut_at_query(s) == s.take(k),
    decreases s.len(),
{
    if k == 0 {
        assert(cut_at_query(s) =~= s.take(0));
    } else {
        assert(forall|t: int|
            0 <= t < s.skip(1).len() ==> #[trigger] s.skip(1)[t] == s[t + 1]);
        lemma_cut_at(s.skip(1), k - 1);
        assert(seq![s[0]] + s.skip(1).take(k - 1) =~= s.take(k));
    }
}

proof fn lemma_cut_identity(s: Seq<char>)
    requires
        query_free(s),
    ensures
        cut_at_query(s) == s,
    decreases s.len(),
{
    if s.len() > 0 {
        assert(forall|t: int|
            0 <= t < s.skip(1).len() ==> #[trigger] s.skip(1)[t] == s[t + 1]);
        lemma_cut_identity(s.skip(1));
        assert(seq![s[0]] + s.skip(1) =~= s);
    } else {
        assert(cut_at_query(s) =~= s);
    }
}

proof fn lemma_cut_append(a: Seq<char>, b: Seq<char>)
    requires
        query_free(a),
    ensures
        cut_at_query(a + b) == a + cut_at_query(b),
    decreases a.len(),
{
    if a.len() == 0 {
        assert(a + b =~= b);
        assert(a + cut_at_query(b) =~= cut_at_query(b));
    } else {
        let s = a + b;
        assert(s[0] == a[0]);
        assert(forall|t: int|
            0 <= t < a.skip(1).len() ==> #[trigger] a.skip(1)[t] == a[t + 1]);
        lemma_cut_append(a.skip(1), b);
        assert(s.skip(1) =~= a.skip(1) + b);
        assert(seq![a[0]] + (a.skip(1) + cut_at_query(b)) =~= a + cut_at_query(b));
    }
}

/// Drops the query and fragment of a URL: everything from the first `?`
/// or `#` on.
fn cut_chars(v: &Vec<char>) -> (r: Vec<char>)
    ensures
        r@ == cut_at_query(v@),
{
    let n = v.len();
    let mut k: usize = 0;
    while k < n
        invariant
            k <= n,
            n == v@.len(),
            forall|t: int| 0 <= t < k ==> #[trigger] v@[t] != '?' && v@[t] != '#',
        decreases n - k,
    {
        let c = v[k];
        if c == '?' || c == '#' {
            proof {
                lemma_cut_at(v@, k as int);
            }
            return sub_chars(v, 0, k);
        }
        k = k + 1;
    }
    proof {
        lemma_cut_identity(v@);
        assert(v@.subrange(0, n as int) =~= v@);
    }
    sub_chars(v, 0, n)
}

/// Consumes the scheme and github host; returns the index where the path
/// segments begin.
fn skip_scheme_and_host(v: &Vec<char>) -> (r: Option<usize>)
    ensures
        match r {
            Some(pos) => pos <= v@.len() && after_host(v@) == Some(v@.skip(pos as int)),
            None => after_host(v@) is None,
        },
{
    proof {
        reveal_strlit("http://");
        reveal_strlit("https://");
        reveal_strlit("www.");
        reveal_strlit("github.com/");
    }
    let n = v.len();
    let mut pos: usize;
    if chars_match_at(v, 0, "http://") {
        pos = 7;
    } else if chars_match_at(v, 0, "https://") {
        pos = 8;
    } else {
        return None;
    }
    proof {
        assert(after_scheme(v@) == Some(v@.skip(pos as int)));
        lemma_match_at_shift(v@, pos as int, "www."@);
        lemma_match_at_shift(v@, pos as int, "github.com/"@);
    }
    let ghost r0 = v@.skip(pos as int);
    if chars_match_at(v, pos, "www.") {
        proof {
            assert(r0.skip(4) =~= v@.skip(pos + 4));
            lemma_match_at_shift(v@, pos + 4, "github.com/"@);
        }
        pos = pos + 4;
        if chars_match_at(v, pos, "github.com/") {
            proof {
                assert(v@.skip(pos as int).skip(11) =~= v@.skip(pos + 11));
            }
            return Some(pos + 11);
        }
        return None;
    }
    if chars_match_at(v, pos, "github.com/") {
        proof {
            assert(v@.skip(pos as int).skip(11) =~= v@.skip(pos + 11));
        }
        return Some(pos + 11);
    }
    None
}

/// Splits the path part beginning at `pos` into exactly two non-empty
/// segments.
fn two_segments_exec(v: &Vec<char>, pos: usize) -> (r: Option<(Vec<char>, Vec<char>)>)
    requires
        pos <= v@.len(),
    ensures
        match r {
            Some(p) => two_segments(v@.skip(pos as int)) == Some((p.0@, p.1@)),
            None => two_segments(v@.skip(pos as int)) is None,
        },
{
    let ghost rr = v@.skip(pos as int);
    let k = match find_char_from(v, pos, '/') {
        Some(k) => k,
        None => {
            return None;
        },
    };
    if k == pos {
        return None;
    }
    let n = v.len();
    if k + 1 >= n {
        proof {
            assert(rr.skip(k - pos + 1) =~= v@.skip(k + 1));
            assert(rr.skip(k - pos + 1).len() == 0);
        }
        return None;
    }
    match find_char_from(v, k + 1, '/') {
        Some(_) => {
            proof {
                let j = choose|j: int| k + 1 <= j < v@.len() && v@[j] == '/';
                assert(rr.skip(k - pos + 1) =~= v@.skip(k + 1));
            }
            return None;
        },
        None => {},
    }
    let owner = sub_chars(v, pos, k);
    let rest = sub_chars(v, k + 1, v.len());
    proof {
        assert(rr.take(k - pos) =~= v@.subrange(pos as int, k as int));
        assert(rr.skip(k - pos + 1) =~= v@.subrange(k + 1, v@.len() as int));
        assert(rr.skip(k - pos + 1) =~= v@.skip(k + 1));
    }
    Some((owner, rest))
}

impl Repository {
    /// Determines the repository from a GitHub web URL
    /// (`github.com` or `www.github.com` host, `.git` suffix stripped,
    /// query and fragment ignored).
    pub fn from_http_url(repo_url: &str) -> (r: Option<Repository>)
        ensures
            match r {
                Some(repo) => parse_http_locator(repo_url@) == Some((repo.owner@, repo.name@)),
                None => parse_http_locator(repo_url@) is None,
            },
    {
        let v = to_chars(repo_url);
        let path = cut_chars(&v);
        Repository::http_locator(&path)
    }

    /// Determines the repository from a GitHub web URL; accepts the same
    /// locators as [`Repository::from_http_url`].
    pub fn from_url(repo_url: &str) -> (r: Option<Repository>)
        ensures
            match r {
                Some(repo) => parse_http_locator(repo_url@) == Some((repo.owner@, repo.name@)),
                None => parse_http_locator(repo_url@) is None,
            },
    {
        Repository::from_http_url(repo_url)
    }

    fn http_locator(v: &Vec<char>) -> (r: Option<Repository>)
        ensures
            match r {
                Some(repo) => parse_http_path(v@) == Some((repo.owner@, repo.name@)),
                None => parse_http_path(v@) is None,
            },
    {
        let pos = match skip_scheme_and_host(v) {
            Some(p) => p,
            None => {
                return None;
            },
        };
        let (owner, mut name) = match two_segments_exec(v, pos) {
            Some(p) => p,
            None => {
                return None;
            },
        };
        let ghost raw = name@;
        proof {
            reveal_strlit(".git");
        }
        while name.len() >= 4 && chars_match_at(&name, name.len() - 4, ".git")
            invariant
                strip_git_suffix(name@) == strip_git_suffix(raw),
            decreases name@.len(),
        {
            proof {
                reveal_strlit(".git");
                assert(name@.subrange(name@.len() - 4, name@.len() as int) == ".git"@);
            }
            let m = name.len() - 4;
            let shorter = sub_chars(&name, 0, m);
            proof {
                assert(shorter@ =~= name@.take(name@.len() - 4));
            }
            name = shorter;
        }
        proof {
            reveal_strlit(".git");
            if name@.len() >= 4 {
                assert(!match_at(name@, name@.len() - 4, ".git"@));
                assert(name@.subrange(name@.len() - 4, name@.len() as int) != ".git"@);
            }
            assert(strip_git_suffix(name@) == name@);
        }
        if name.len() == 0 {
            return None;
        }
        Some(Repository {
            owner: string_from_chars(&owner),
            name: string_from_chars(&name),
        })
    }
}

fn owner_chars_check(w: &Vec<char>) -> (b: bool)
    ensures
        b == all_owner_chars(w@),
{
    let mut i: usize = 0;
    while i < w.len()
        invariant
            i <= w@.len(),
            forall|t: int| 0 <= t < i ==> is_owner_char(#[trigger] w@[t]),
        decreases w@.len() - i,
    {
        let c = w[i];
        if !(crate::text::alnum_char(c) || c == '_' || c == '-') {
            return false;
        }
        i = i + 1;
    }
    true
}

fn plain_name_check(w: &Vec<char>) -> (b: bool)
    ensures
        b == plain_name(w@),
{
    if w.len() == 0 {
        return false;
    }
    let mut i: usize = 0;
    while i < w.len()
        invariant
            i <= w@.len(),
            forall|t: int| 0 <= t < i ==> #[trigger] w@[t] != '.' && w@[t] != '/',
        decreases w@.len() - i,
    {
        let c = w[i];
        if c == '.' || c == '/' {
            return false;
        }
        i = i + 1;
    }
    true
}

impl Repository {
    /// Determines the repository from a version-control locator, in the
    /// HTTPS or the SSH shape.
    pub fn from_git_url(url: &str) -> (r: Option<Repository>)
        ensures
            match r {
                Some(repo) => parse_git_locator(url@) == Some((repo.owner@, repo.name@)),
                None => parse_git_locator(url@) is None,
            },
    {
        let v = to_chars(url);
        match Repository::git_https_locator(&v) {
            Some(repo) => Some(repo),
            None => Repository::git_ssh_locator(&v),
        }
    }

    fn git_https_locator(v: &Vec<char>) -> (r: Option<Repository>)
        ensures
            match r {
                Some(repo) => parse_git_https(v@) == Some((repo.owner@, repo.name@)),
                None => parse_git_https(v@) is None,
            },
    {
        let pos = match skip_scheme_and_host(v) {
            Some(p) => p,
            None => {
                return None;
            },
        };
        let (owner, raw) = match two_segments_exec(v, pos) {
            Some(p) => p,
            None => {
                return None;
            },
        };
        if !owner_chars_check(&owner) {
            return None;
        }
        let name = if raw.len() >= 4 && chars_match_at(&raw, raw.len() - 4, ".git") {
            proof {
                reveal_strlit(".git");
                assert(raw@.subrange(raw@.len() - 4, raw@.len() as int) == ".git"@);
            }
            let stripped = sub_chars(&raw, 0, raw.len() - 4);
            proof {
                assert(stripped@ =~= raw@.take(raw@.len() - 4));
            }
            stripped
        } else {
            proof {
                reveal_strlit(".git");
                if raw@.len() >= 4 {
                    assert(raw@.subrange(raw@.len() - 4, raw@.len() as int) != ".git"@);
                }
            }
            raw
        };
        if !plain_name_check(&name) {
            return None;
        }
        Some(Repository {
            owner: string_from_chars(&owner),
            name: string_from_chars(&name),
        })
    }

    fn git_ssh_locator(v: &Vec<char>) -> (r: Option<Repository>)
        ensures
            match r {
                Some(repo) => parse_git_ssh(v@) == Some((repo.owner@, repo.name@)),
                None => parse_git_ssh(v@) is None,
            },
    {
        proof {
            reveal_strlit("git@github.com:");
        }
        if !chars_match_at(v, 0, "git@github.com:") {
            return None;
        }
        let pos: usize = 15;
        proof {
            assert(strip_lit(v@, "git@github.com:"@) == Some(v@.skip(pos as int)));
        }
        let (owner, raw) = match two_segments_exec(v, pos) {
            Some(p) => p,
            None => {
                return None;
            },
        };
        if !owner_chars_check(&owner) {
            return None;
        }
        if !(raw.len() >= 4 && chars_match_at(&raw, raw.len() - 4, ".git")) {
            proof {
                reveal_strlit(".git");
                if raw@.len() >= 4 {
                    assert(raw@.subrange(raw@.len() - 4, raw@.len() as int) != ".git"@);
                }
            }
            return None;
        }
        proof {
            reveal_strlit(".git");
            assert(raw@.subrange(raw@.len() - 4, raw@.len() as int) == ".git"@);
        }
        let name = sub_chars(&raw, 0, raw.len() - 4);
        proof {
            assert(name@ =~= raw@.take(raw@.len() - 4));
        }
        if !plain_name_check(&name) {
            return None;
        }
        Some(Repository {
            owner: string_from_chars(&owner),
            name: string_from_chars(&name),
        })
    }
}

// Round-trip laws: each accepted locator shape parses back to its owner and
// name.

pub open spec fn slash_free(w: Seq<char>) -> bool {
    forall|i: int| 0 <= i < w.len() ==> #[trigger] w[i] != '/'
}

/// A web-URL locator built from its parts.
pub open spec fn https_shape(
    secure: bool,
    www: bool,
    owner: Seq<char>,
    name: Seq<char>,
    git_suffix: bool,
) -> Seq<char> {
    (if secure {
        "https://"@
    } else {
        "http://"@
    }) + (if www {
        "www."@
    } else {
        Seq::<char>::empty()
    }) + "github.com/"@ + owner + "/"@ + name + (if git_suffix {
        ".git"@
    } else {
        Seq::<char>::empty()
    })
}

/// An SSH locator built from its parts.
pub open spec fn ssh_shape(owner: Seq<char>, name: Seq<char>) -> Seq<char> {
    "git@github.com:"@ + owner + "/"@ + name + ".git"@
}

proof fn lemma_after_host_shape(secure: bool, www: bool, tail: Seq<char>)
    ensures
        after_host(
            (if secure {
                "https://"@
            } else {
                "http://"@
            }) + (if www {
                "www."@
            } else {
                Seq::<char>::empty()
            }) + "github.com/"@ + tail,
        ) == Some(tail),
{
    reveal_strlit("http://");
    reveal_strlit("https://");
    reveal_strlit("www.");
    reveal_strlit("github.com/");
    let sch = if secure {
        "https://"@
    } else {
        "http://"@
    };
    let w = if www {
        "www."@
    } else {
        Seq::<char>::empty()
    };
    let s = sch + w + "github.com/"@ + tail;
    let rest1 = w + "github.com/"@ + tail;
    assert(s.subrange(0, sch.len() as int) =~= sch);
    assert(s.skip(sch.len() as int) =~= rest1);
    if secure {
        assert(!match_at(s, 0, "http://"@)) by {
            assert(s[4] == 's');
            if match_at(s, 0, "http://"@) {
                assert(s.subrange(0, 7)[4] == s[4]);
            }
        }
        assert(match_at(s, 0, "https://"@));
        assert(after_scheme(s) == Some(rest1));
    } else {
        assert(match_at(s, 0, "http://"@));
        assert(after_scheme(s) == Some(rest1));
    }
    if www {
        assert(rest1.subrange(0, 4) =~= "www."@);
        assert(match_at(rest1, 0, "www."@));
        let x = rest1.skip(4);
        assert(x =~= "github.com/"@ + tail);
        assert(x.subrange(0, 11) =~= "github.com/"@);
        assert(match_at(x, 0, "github.com/"@));
        assert(x.skip(11) =~= tail);
    } else {
        assert(rest1 =~= "github.com/"@ + tail);
        if match_at(rest1, 0, "www."@) {
            assert(rest1.subrange(0, 4)[0] == rest1[0]);
            assert(rest1[0] == 'g');
            assert(false);
        }
        assert(rest1.subrange(0, 11) =~= "github.com/"@);
        assert(match_at(rest1, 0, "github.com/"@));
        assert(rest1.skip(11) =~= tail);
    }
}

proof fn lemma_two_segments_shape(owner: Seq<char>, tail: Seq<char>)
    requires
        owner.len() >= 1,
        slash_free(owner),
        slash_free(tail),
        tail.len() >= 1,
    ensures
        two_segments(owner + "/"@ + tail) == Some((owner, tail)),
{
    reveal_strlit("/");
    let r = owner + "/"@ + tail;
    let k = owner.len() as int;
    assert(r[k] == '/');
    assert(forall|t: int| 0 <= t < k ==> #[trigger] r[t] == owner[t]);
    lemma_find_char_at(r, '/', k);
    let rest = r.skip(k + 1);
    assert(rest =~= tail);
    lemma_find_char_missing(rest, '/');
    assert(r.take(k) =~= owner);
}

proof fn lemma_strip_git_plain(name: Seq<char>)
    requires
        plain_name(name),
    ensures
        strip_git_suffix(name) == name,
        strip_git_suffix(name + ".git"@) == name,
{
    reveal_strlit(".git");
    if name.len() >= 4 {
        assert(name.subrange(name.len() - 4, name.len() as int) != ".git"@) by {
            assert(name.subrange(name.len() - 4, name.len() as int)[0] == name[name.len() - 4]);
        }
    }
    assert(strip_git_suffix(name) == name);
    let m = name + ".git"@;
    assert(m.len() == name.len() + 4);
    assert(m.subrange(m.len() - 4, m.len() as int) =~= ".git"@);
    assert(m.take(m.len() - 4) =~= name);
    assert(strip_git_suffix(m) == strip_git_suffix(name));
}

proof fn lemma_shape_tail(name: Seq<char>, git_suffix: bool)
    requires
        plain_name(name),
    ensures
        slash_free(
            name + (if git_suffix {
                ".git"@
            } else {
                Seq::<char>::empty()
            }),
        ),
        (name + (if git_suffix {
            ".git"@
        } else {
            Seq::<char>::empty()
        })).len() >= 1,
{
    reveal_strlit(".git");
    let suffix = if git_suffix {
        ".git"@
    } else {
        Seq::<char>::empty()
    };
    let tail = name + suffix;
    assert forall|i: int| 0 <= i < tail.len() implies #[trigger] tail[i] != '/' by {
        if i < name.len() {
            assert(tail[i] == name[i]);
        } else {
            assert(tail[i] == ".git"@[i - name.len()]);
        }
    }
}

proof fn lemma_lit_query_free()
    ensures
        query_free("http://"@),
        query_free("https://"@),
        query_free("www."@),
        query_free("github.com/"@),
        query_free("/"@),
        query_free(".git"@),
{
    reveal_strlit("http://");
    reveal_strlit("https://");
    reveal_strlit("www.");
    reveal_strlit("github.com/");
    reveal_strlit("/");
    reveal_strlit(".git");
    assert("http://"@[0] == 'h' && "http://"@[1] == 't' && "http://"@[2] == 't' && "http://"@[3]
        == 'p' && "http://"@[4] == ':' && "http://"@[5] == '/' && "http://"@[6] == '/');
    assert("https://"@[0] == 'h' && "https://"@[1] == 't' && "https://"@[2] == 't'
        && "https://"@[3] == 'p' && "https://"@[4] == 's' && "https://"@[5] == ':'
        && "https://"@[6] == '/' && "https://"@[7] == '/');
    assert("www."@[0] == 'w' && "www."@[1] == 'w' && "www."@[2] == 'w' && "www."@[3] == '.');
    assert("github.com/"@[0] == 'g' && "github.com/"@[1] == 'i' && "github.com/"@[2] == 't'
        && "github.com/"@[3] == 'h' && "github.com/"@[4] == 'u' && "github.com/"@[5] == 'b'
        && "github.com/"@[6] == '.' && "github.com/"@[7] == 'c' && "github.com/"@[8] == 'o'
        && "github.com/"@[9] == 'm' && "github.com/"@[10] == '/');
    assert("/"@[0] == '/');
    assert(".git"@[0] == '.' && ".git"@[1] == 'g' && ".git"@[2] == 'i' && ".git"@[3] == 't');
}

proof fn lemma_shape_query_free(
    secure: bool,
    www: bool,
    git_suffix: bool,
    owner: Seq<char>,
    name: Seq<char>,
)
    requires
        query_free(owner),
        query_free(name),
    ensures
        query_free(https_shape(secure, www, owner, name, git_suffix)),
{
    lemma_lit_query_free();
    let sch = if secure {
        "https://"@
    } else {
        "http://"@
    };
    let w = if www {
        "www."@
    } else {
        Seq::<char>::empty()
    };
    let suffix = if git_suffix {
        ".git"@
    } else {
        Seq::<char>::empty()
    };
    let s = https_shape(secure, www, owner, name, git_suffix);
    assert(query_free(sch));
    assert(query_free(w));
    assert(query_free(suffix));
    assert forall|i: int| 0 <= i < s.len() implies #[trigger] s[i] != '?' && s[i] != '#' by {
        let o1 = sch.len() as int;
        let o2 = o1 + w.len();
        let o3 = o2 + "github.com/"@.len();
        let o4 = o3 + owner.len();
        let o5 = o4 + "/"@.len();
        let o6 = o5 + name.len();
        if i < o1 {
            assert(s[i] == sch[i]);
        } else if i < o2 {
            assert(s[i] == w[i - o1]);
        } else if i < o3 {
            assert(s[i] == "github.com/"@[i - o2]);
        } else if i < o4 {
            assert(s[i] == owner[i - o3]);
        } else if i < o5 {
            assert(s[i] == "/"@[i - o4]);
        } else if i < o6 {
            assert(s[i] == name[i - o5]);
        } else {
            assert(s[i] == suffix[i - o6]);
        }
    }
}

/// Each accepted web-URL shape parses back to its owner and name:
/// `http` or `https`, with or without `www.`, with or without `.git`.
pub proof fn lemma_http_locator_round_trip(
    secure: bool,
    www: bool,
    git_suffix: bool,
    owner: Seq<char>,
    name: Seq<char>,
)
    requires
        owner.len() >= 1,
        slash_free(owner),
        query_free(owner),
        plain_name(name),
        query_free(name),
    ensures
        parse_http_locator(https_shape(secure, www, owner, name, git_suffix)) == Some(
            (owner, name),
        ),
{
    let suffix = if git_suffix {
        ".git"@
    } else {
        Seq::<char>::empty()
    };
    let tail = name + suffix;
    let s = https_shape(secure, www, owner, name, git_suffix);
    lemma_shape_query_free(secure, www, git_suffix, owner, name);
    lemma_cut_identity(s);
    assert(s =~= (if secure {
        "https://"@
    } else {
        "http://"@
    }) + (if www {
        "www."@
    } else {
        Seq::<char>::empty()
    }) + "github.com/"@ + (owner + "/"@ + tail));
    lemma_after_host_shape(secure, www, owner + "/"@ + tail);
    lemma_shape_tail(name, git_suffix);
    lemma_two_segments_shape(owner, tail);
    lemma_strip_git_plain(name);
    if git_suffix {
        assert(tail == name + ".git"@);
    } else {
        assert(tail =~= name);
    }
}

proof fn lemma_host_slash_prefix(h: Seq<char>, path: Seq<char>)
    requires
        slash_free(h),
        match_at(h + "/"@ + path, 0, "github.com/"@),
    ensures
        h == "github.com"@,
{
    reveal_strlit("github.com/");
    reveal_strlit("github.com");
    reveal_strlit("/");
    let lit = "github.com/"@;
    let r = h + "/"@ + path;
    assert(forall|i: int| 0 <= i < 11 ==> #[trigger] r[i] == lit[i]) by {
        assert(r.subrange(0, 11) == lit);
        assert(forall|i: int| 0 <= i < 11 ==> #[trigger] r.subrange(0, 11)[i] == r[i]);
    }
    let hl = h.len() as int;
    if hl >= 11 {
        assert(r[10] == h[10]);
        assert(h[10] != '/');
        assert(lit[10] == '/');
        assert(false);
    } else if hl < 10 {
        assert(r[hl] == '/');
        assert(lit[0] != '/');
        assert(lit[1] != '/');
        assert(lit[2] != '/');
        assert(lit[3] != '/');
        assert(lit[4] != '/');
        assert(lit[5] != '/');
        assert(lit[6] != '/');
        assert(lit[7] != '/');
        assert(lit[8] != '/');
        assert(lit[9] != '/');
        assert(false);
    } else {
        assert(hl == 10);
        assert(h =~= "github.com"@) by {
            assert(forall|i: int| 0 <= i < 10 ==> #[trigger] h[i] == r[i]);
            assert(forall|i: int| 0 <= i < 10 ==> #[trigger] lit[i] == "github.com"@[i]);
        }
    }
}

/// A web URL on any host other than `github.com` or `www.github.com` is
/// not accepted as a repository locator.
pub proof fn lemma_unrelated_host_no_match(secure: bool, host: Seq<char>, path: Seq<char>)
    requires
        slash_free(host),
        query_free(host),
        host != "github.com"@,
        host != "www.github.com"@,
    ensures
        parse_http_locator(
            (if secure {
                "https://"@
            } else {
                "http://"@
            }) + host + "/"@ + path,
        ) is None,
{
    reveal_strlit("http://");
    reveal_strlit("https://");
    reveal_strlit("www.");
    reveal_strlit("github.com/");
    reveal_strlit("github.com");
    reveal_strlit("www.github.com");
    reveal_strlit("/");
    lemma_lit_query_free();
    let sch = if secure {
        "https://"@
    } else {
        "http://"@
    };
    // Cutting the query touches only the part after the host.
    let head = sch + host + "/"@;
    assert(query_free(head)) by {
        assert forall|i: int| 0 <= i < head.len() implies #[trigger] head[i] != '?' && head[i]
            != '#' by {
            if i < sch.len() {
                assert(head[i] == sch[i]);
            } else if i < sch.len() + host.len() {
                assert(head[i] == host[i - sch.len()]);
            } else {
                assert(head[i] == "/"@[i - sch.len() - host.len()]);
            }
        }
    }
    lemma_cut_append(head, path);
    let path2 = cut_at_query(path);
    assert(cut_at_query(sch + host + "/"@ + path) == head + path2) by {
        assert(sch + host + "/"@ + path =~= head + path);
    }
    let s = sch + host + "/"@ + path2;
    assert(head + path2 =~= s);
    let rest1 = host + "/"@ + path2;
    assert(s.subrange(0, sch.len() as int) =~= sch);
    assert(s.skip(sch.len() as int) =~= rest1);
    if secure {
        assert(!match_at(s, 0, "http://"@)) by {
            assert(s[4] == 's');
            if match_at(s, 0, "http://"@) {
                assert(s.subrange(0, 7)[4] == s[4]);
            }
        }
        assert(match_at(s, 0, "https://"@));
        assert(after_scheme(s) == Some(rest1));
    } else {
        assert(match_at(s, 0, "http://"@));
        assert(after_scheme(s) == Some(rest1));
    }
    if match_at(rest1, 0, "www."@) {
        let wlit = "www."@;
        assert(forall|i: int| 0 <= i < 4 ==> #[trigger] rest1[i] == wlit[i]) by {
            assert(rest1.subrange(0, 4) == wlit);
            assert(forall|i: int| 0 <= i < 4 ==> #[trigger] rest1.subrange(0, 4)[i] == rest1[i]);
        }
        let hl = host.len() as int;
        if hl < 4 {
            assert(rest1[hl] == '/');
            assert(wlit[0] != '/');
            assert(wlit[1] != '/');
            assert(wlit[2] != '/');
            assert(wlit[3] != '/');
            assert(false);
        }
        let h2 = host.skip(4);
        assert(rest1.skip(4) =~= h2 + "/"@ + path2);
        if match_at(rest1.skip(4), 0, "github.com/"@) {
            assert(forall|i: int| 0 <= i < h2.len() ==> #[trigger] h2[i] == host[i + 4]);
            lemma_host_slash_prefix(h2, path2);
            assert(host =~= "www."@ + h2) by {
                assert(forall|i: int| 0 <= i < 4 ==> #[trigger] host[i] == wlit[i]);
            }
            assert(host == "www."@ + "github.com"@);
            let glued = "www."@ + "github.com"@;
            let whole = "www.github.com"@;
            assert(glued =~= whole) by {
                assert(glued[0] == 'w' && whole[0] == 'w');
                assert(glued[1] == 'w' && whole[1] == 'w');
                assert(glued[2] == 'w' && whole[2] == 'w');
                assert(glued[3] == '.' && whole[3] == '.');
                assert(glued[4] == 'g' && whole[4] == 'g');
                assert(glued[5] == 'i' && whole[5] == 'i');
                assert(glued[6] == 't' && whole[6] == 't');
                assert(glued[7] == 'h' && whole[7] == 'h');
                assert(glued[8] == 'u' && whole[8] == 'u');
                assert(glued[9] == 'b' && whole[9] == 'b');
                assert(glued[10] == '.' && whole[10] == '.');
                assert(glued[11] == 'c' && whole[11] == 'c');
                assert(glued[12] == 'o' && whole[12] == 'o');
                assert(glued[13] == 'm' && whole[13] == 'm');
            }
            assert(false);
        }
    } else {
        if match_at(rest1, 0, "github.com/"@) {
            lemma_host_slash_prefix(host, path2);
            assert(false);
        }
    }
}

/// `s` is exactly a scheme, an accepted github host, and two non-empty
/// path segments `owner` and `raw`.
pub open spec fn web_locator_shape(
    s: Seq<char>,
    secure: bool,
    www: bool,
    owner: Seq<char>,
    raw: Seq<char>,
) -> bool {
    &&& s == (if secure {
        "https://"@
    } else {
        "http://"@
    }) + (if www {
        "www."@
    } else {
        Seq::<char>::empty()
    }) + "github.com/"@ + owner + "/"@ + raw
    &&& owner.len() >= 1
    &&& slash_free(owner)
    &&& raw.len() >= 1
    &&& slash_free(raw)
}

/// Completeness of the web-URL parse: a locator is accepted only when,
/// after dropping the query and fragment, it is exactly an `http` or
/// `https` scheme, the `github.com` or `www.github.com` host, and two
/// non-empty path segments — and the result is then that owner and that
/// second segment with its `.git` suffix stripped.  Together with
/// [`lemma_http_locator_round_trip`], this characterizes exactly which
/// URLs name a repository.
pub proof fn lemma_http_locator_complete(s: Seq<char>)
    requires
        parse_http_locator(s) is Some,
    ensures
        exists|secure: bool, www: bool, owner: Seq<char>, raw: Seq<char>|
            web_locator_shape(cut_at_query(s), secure, www, owner, raw)
                && parse_http_locator(s) == Some((owner, strip_git_suffix(raw))),
{
    reveal_strlit("http://");
    reveal_strlit("https://");
    reveal_strlit("www.");
    reveal_strlit("github.com/");
    reveal_strlit("/");
    let t = cut_at_query(s);
    // Recover the scheme.
    let secure = !match_at(t, 0, "http://"@);
    let sch = if secure {
        "https://"@
    } else {
        "http://"@
    };
    assert(match_at(t, 0, sch));
    let r = t.skip(sch.len() as int);
    assert(after_scheme(t) == Some(r));
    assert(t =~= sch + r) by {
        assert(t.subrange(0, sch.len() as int) == sch);
    }
    // Recover the host.
    let www = match_at(r, 0, "www."@);
    let x = if www {
        r.skip(4)
    } else {
        r
    };
    if www {
        assert(r =~= "www."@ + x) by {
            assert(r.subrange(0, 4) == "www."@);
        }
    }
    assert(strip_lit(x, "github.com/"@) is Some);
    let h = x.skip(11);
    assert(x =~= "github.com/"@ + h) by {
        assert(x.subrange(0, 11) == "github.com/"@);
    }
    // Recover the two path segments.
    assert(two_segments(h) is Some);
    let k = find_char(h, '/');
    lemma_find_char_props(h, '/');
    assert(k > 0);
    let owner = h.take(k);
    let raw = h.skip(k + 1);
    assert(slash_free(owner)) by {
        assert(forall|i: int| 0 <= i < k ==> #[trigger] owner[i] == h[i]);
    }
    lemma_find_char_props(raw, '/');
    assert(slash_free(raw));
    assert(h =~= owner + "/"@ + raw) by {
        assert(h[k] == '/');
    }
    // Assemble the shape.
    let whole = (if secure {
        "https://"@
    } else {
        "http://"@
    }) + (if www {
        "www."@
    } else {
        Seq::<char>::empty()
    }) + "github.com/"@ + owner + "/"@ + raw;
    assert(t =~= whole);
    assert(web_locator_shape(cut_at_query(s), secure, www, owner, raw));
    assert(parse_http_locator(s) == Some((owner, strip_git_suffix(raw))));
}

proof fn lemma_owner_chars_slash_free(owner: Seq<char>)
    requires
        all_owner_chars(owner),
    ensures
        slash_free(owner),
{
    assert forall|i: int| 0 <= i < owner.len() implies #[trigger] owner[i] != '/' by {
        assert(is_owner_char(owner[i]));
    }
}

/// Each accepted version-control locator shape, HTTPS or SSH, parses back
/// to its owner and name.
pub proof fn lemma_git_locator_round_trip_https(
    secure: bool,
    www: bool,
    git_suffix: bool,
    owner: Seq<char>,
    name: Seq<char>,
)
    requires
        owner.len() >= 1,
        all_owner_chars(owner),
        plain_name(name),
    ensures
        parse_git_locator(https_shape(secure, www, owner, name, git_suffix)) == Some(
            (owner, name),
        ),
{
    reveal_strlit(".git");
    let suffix = if git_suffix {
        ".git"@
    } else {
        Seq::<char>::empty()
    };
    let tail = name + suffix;
    let s = https_shape(secure, www, owner, name, git_suffix);
    assert(s =~= (if secure {
        "https://"@
    } else {
        "http://"@
    }) + (if www {
        "www."@
    } else {
        Seq::<char>::empty()
    }) + "github.com/"@ + (owner + "/"@ + tail));
    lemma_after_host_shape(secure, www, owner + "/"@ + tail);
    lemma_shape_tail(name, git_suffix);
    lemma_owner_chars_slash_free(owner);
    lemma_two_segments_shape(owner, tail);
    if git_suffix {
        assert(tail.subrange(tail.len() - 4, tail.len() as int) =~= ".git"@);
        assert(tail.take(tail.len() - 4) =~= name);
    } else {
        assert(tail =~= name);
        if name.len() >= 4 {
            assert(name.subrange(name.len() - 4, name.len() as int) != ".git"@) by {
                assert(name.subrange(name.len() - 4, name.len() as int)[0] == name[name.len()
                    - 4]);
            }
        }
    }
    assert(parse_git_https(s) == Some((owner, name)));
}

pub proof fn lemma_git_locator_round_trip_ssh(owner: Seq<char>, name: Seq<char>)
    requires
        owner.len() >= 1,
        all_owner_chars(owner),
        plain_name(name),
    ensures
        parse_git_locator(ssh_shape(owner, name)) == Some((owner, name)),
{
    reveal_strlit("git@github.com:");
    reveal_strlit("http://");
    reveal_strlit("https://");
    reveal_strlit(".git");
    let s = ssh_shape(owner, name);
    // The HTTPS shape does not match: the string starts with `git@`.
    assert(s[0] == 'g') by {
        assert(s[0] == "git@github.com:"@[0]);
    }
    assert(parse_git_https(s) is None) by {
        if match_at(s, 0, "http://"@) {
            assert(s.subrange(0, 7)[0] == s[0]);
            assert(false);
        }
        if match_at(s, 0, "https://"@) {
            assert(s.subrange(0, 8)[0] == s[0]);
            assert(false);
        }
    }
    let tail = name + ".git"@;
    assert(s.subrange(0, 15) =~= "git@github.com:"@);
    assert(match_at(s, 0, "git@github.com:"@));
    assert(s.skip(15) =~= owner + "/"@ + tail);
    lemma_shape_tail(name, true);
    lemma_owner_chars_slash_free(owner);
    lemma_two_segments_shape(owner, tail);
    assert(tail.subrange(tail.len() - 4, tail.len() as int) =~= ".git"@);
    assert(tail.take(tail.len() - 4) =~= name);
    assert(parse_git_ssh(s) == Some((owner, name)));
}

} // verus!
