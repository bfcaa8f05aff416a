//! Formatters for the pieces of a suggested issue.

use vstd::prelude::*;

use crate::model::Issue;
use crate::text::dec_str;
use crate::text::u64_to_dec_string;

verus! {

/// The pieces of an issue a format placeholder can name.
#[derive(Debug, PartialEq, Eq, Structural, Clone, Copy)]
pub enum FmtKey {
    Owner,
    Project,
    Repo,
    Number,
    Url,
    Title,
    Body,
    Comments,
}

/// What a format placeholder renders to, over the issue's fields.
pub open spec fn spec_fmt_value(key: FmtKey, issue: Issue) -> Seq<char> {
    match key {
        FmtKey::Owner => issue.repo.owner@,
        FmtKey::Project => issue.repo.name@,
        FmtKey::Repo => issue.repo.owner@ + "/"@ + issue.repo.name@,
        FmtKey::Number => dec_str(issue.number as nat),
        FmtKey::Url => issue.url@,
        FmtKey::Title => issue.title@,
        FmtKey::Body => issue.body@,
        FmtKey::Comments => dec_str(issue.comment_count as nat),
    }
}

/// Formatter for a particular piece of data in an issue.
#[derive(Debug)]
pub struct Fmt {
    pub key: FmtKey,
    pub desc: String,
}

impl Fmt {
    pub fn new(key: FmtKey, desc: &str) -> (r: Self)
        ensures
            r.key == key,
            r.desc@ == desc@,
    {
        Fmt { key, desc: desc.to_owned() }
    }

    pub fn description(&self) -> (r: &str)
        ensures
            r@ == self.desc@,
    {
        self.desc.as_str()
    }

    /// Renders this formatter's piece of the issue.
    pub fn apply(&self, issue: &Issue) -> (r: String)
        ensures
            r@ == spec_fmt_value(self.key, *issue),
    {
        match self.key {
            FmtKey::Owner => issue.repo.owner.clone(),
            FmtKey::Project => issue.repo.name.clone(),
            FmtKey::Repo => issue.repo.display_text(),
            FmtKey::Number => u64_to_dec_string(issue.number),
            FmtKey::Url => issue.url.clone(),
            FmtKey::Title => issue.title.clone(),
            FmtKey::Body => issue.body.clone(),
            FmtKey::Comments => u64_to_dec_string(issue.comment_count as u64),
        }
    }
}

/// The built-in formatters, keyed by their placeholder names.
pub fn issue_formatters() -> (r: Vec<(String, Fmt)>)
    ensures
        r@.len() == 8,
        r@[0].0@ == "owner"@ && r@[0].1.key == FmtKey::Owner && r@[0].1.desc@
            == "Owner of the project where the issue comes from"@,
        r@[1].0@ == "project"@ && r@[1].1.key == FmtKey::Project && r@[1].1.desc@
            == "Issue's project name"@,
        r@[2].0@ == "repo"@ && r@[2].1.key == FmtKey::Repo && r@[2].1.desc@
            == "Issue's repository, equivalent to {owner}/{project}"@,
        r@[3].0@ == "number"@ && r@[3].1.key == FmtKey::Number && r@[3].1.desc@
            == "GitHub issue number (ID)"@,
        r@[4].0@ == "url"@ && r@[4].1.key == FmtKey::Url && r@[4].1.desc@
            == "URL to issue's HTML page on GitHub"@,
        r@[5].0@ == "title"@ && r@[5].1.key == FmtKey::Title && r@[5].1.desc@ == "Issue title"@,
        r@[6].0@ == "body"@ && r@[6].1.key == FmtKey::Body && r@[6].1.desc@
            == "Issue body, i.e. the text of its first comment by the creator"@,
        r@[7].0@ == "comments"@ && r@[7].1.key == FmtKey::Comments && r@[7].1.desc@
            == "Number of comments the issue has"@,
{
    let mut r: Vec<(String, Fmt)> = Vec::new();
    r.push(
        (
            String::from_str("owner"),
            Fmt::new(FmtKey::Owner, "Owner of the project where the issue comes from"),
        ),
    );
    r.push((String::from_str("project"), Fmt::new(FmtKey::Project, "Issue's project name")));
    r.push(
        (
            String::from_str("repo"),
            Fmt::new(FmtKey::Repo, "Issue's repository, equivalent to {owner}/{project}"),
        ),
    );
    r.push((String::from_str("number"), Fmt::new(FmtKey::Number, "GitHub issue number (ID)")));
    r.push((String::from_str("url"), Fmt::new(FmtKey::Url, "URL to issue's HTML page on GitHub")));
    r.push((String::from_str("title"), Fmt::new(FmtKey::Title, "Issue title")));
    r.push(
        (
            String::from_str("body"),
            Fmt::new(FmtKey::Body, "Issue body, i.e. the text of its first comment by the creator"),
        ),
    );
    r.push(
        (
            String::from_str("comments"),
            Fmt::new(FmtKey::Comments, "Number of comments the issue has"),
        ),
    );
    r
}

} // verus!
