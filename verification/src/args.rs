//! Options received from the command line.

use vstd::prelude::*;

use crate::text::parse_usize;
use crate::text::valid_usize_str;

verus! {

/// Options the program runs with.
#[derive(Debug)]
pub struct Options {
    /// Verbosity of the logging output: the number of times the verbose
    /// flag was passed, negative if the quiet flag was used instead.
    pub verbosity: isize,
    /// Path to a crate manifest to look at for dependencies.
    /// If omitted, the one in the current directory is used.
    pub manifest_path: Option<String>,
    /// Maximum number of issues to yield.
    /// If omitted, the search continues indefinitely.
    pub count: Option<usize>,
    /// Optional personal access token to use for authentication.
    pub github_token: Option<String>,
    /// Optional format string to use when printing issues.
    pub format: Option<String>,
}

impl Options {
    pub fn verbose(&self) -> (r: bool)
        ensures
            r == (self.verbosity > 0),
    {
        self.verbosity > 0
    }

    pub fn quiet(&self) -> (r: bool)
        ensures
            r == (self.verbosity < 0),
    {
        self.verbosity < 0
    }

    /// Combines the parsed pieces of the command line: the verbosity is
    /// the number of verbose flags minus the number of quiet flags.
    pub fn from_parts(
        verbose_count: u16,
        quiet_count: u16,
        manifest_path: Option<String>,
        count: Option<usize>,
        github_token: Option<String>,
        format: Option<String>,
    ) -> (r: Options)
        ensures
            r.verbosity as int == verbose_count as int - quiet_count as int,
            r.manifest_path == manifest_path,
            r.count == count,
            r.github_token == github_token,
            r.format == format,
    {
        let verbosity = verbose_count as isize - quiet_count as isize;
        Options { verbosity, manifest_path, count, github_token, format }
    }
}

/// Validates the maximum-count flag: accepted exactly when it parses as a
/// non-negative integer that fits the machine.
pub fn validate_count(count: String) -> (r: Result<(), String>)
    ensures
        r is Ok <==> valid_usize_str(count@),
{
    match parse_usize(count.as_str()) {
        Some(_) => Ok(()),
        None => Err(String::from_str("expected a non-negative integer")),
    }
}

} // verus!
