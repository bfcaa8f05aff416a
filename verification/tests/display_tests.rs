use cargo_contribute::args::validate_count;
use cargo_contribute::args::Options;
use cargo_contribute::display::issue_formatters;
use cargo_contribute::display::Fmt;
use cargo_contribute::display::FmtKey;
use cargo_contribute::model::Issue;
use cargo_contribute::model::Repository;
use cargo_contribute::text::parse_usize;
use cargo_contribute::text::u64_to_dec_string;
use cargo_contribute::versions::best_cached_entry;
use cargo_contribute::versions::version_suffix;

fn example_issue() -> Issue {
    Issue {
        repo: Repository::new("Octocat", "hello-world"),
        number: 42,
        url: "http://example.com/42".to_string(),
        title: "Optimize reticulating splines".to_string(),
        body: "...".to_string(),
        comment_count: 7,
    }
}

#[test]
fn formatters_render_issue_pieces() {
    let issue = example_issue();
    assert_eq!(Fmt::new(FmtKey::Owner, "owner").apply(&issue), "Octocat");
    assert_eq!(Fmt::new(FmtKey::Project, "project").apply(&issue), "hello-world");
    assert_eq!(Fmt::new(FmtKey::Repo, "repo").apply(&issue), "Octocat/hello-world");
    assert_eq!(Fmt::new(FmtKey::Number, "number").apply(&issue), "42");
    assert_eq!(Fmt::new(FmtKey::Url, "url").apply(&issue), "http://example.com/42");
    assert_eq!(
        Fmt::new(FmtKey::Title, "title").apply(&issue),
        "Optimize reticulating splines"
    );
    assert_eq!(Fmt::new(FmtKey::Body, "body").apply(&issue), "...");
    assert_eq!(Fmt::new(FmtKey::Comments, "comments").apply(&issue), "7");
    let f = Fmt::new(FmtKey::Owner, "Owner of the project");
    assert_eq!(f.description(), "Owner of the project");
}

#[test]
fn formatter_table_covers_all_placeholders() {
    let table = issue_formatters();
    let names: Vec<&str> = table.iter().map(|(n, _)| n.as_str()).collect();
    assert_eq!(
        names,
        vec!["owner", "project", "repo", "number", "url", "title", "body", "comments"]
    );
}

#[test]
fn issue_display_line() {
    assert_eq!(
        example_issue().display_line(),
        "[Octocat/hello-world] #42: Optimize reticulating splines"
    );
}

#[test]
fn decimal_rendering() {
    assert_eq!(u64_to_dec_string(0), "0");
    assert_eq!(u64_to_dec_string(7), "7");
    assert_eq!(u64_to_dec_string(1234567890), "1234567890");
    assert_eq!(u64_to_dec_string(u64::MAX), "18446744073709551615");
}

#[test]
fn count_validation() {
    assert!(validate_count("0".to_string()).is_ok());
    assert!(validate_count("123".to_string()).is_ok());
    assert!(validate_count("+9".to_string()).is_ok());
    assert!(validate_count("".to_string()).is_err());
    assert!(validate_count("-1".to_string()).is_err());
    assert!(validate_count("12a".to_string()).is_err());
    assert!(validate_count("99999999999999999999999999".to_string()).is_err());
    assert_eq!(parse_usize("123"), Some(123));
    assert_eq!(parse_usize("+0"), Some(0));
    assert_eq!(parse_usize("+"), None);
}

#[test]
fn options_verbosity() {
    let opts = Options::from_parts(2, 0, None, Some(5), None, None);
    assert_eq!(opts.verbosity, 2);
    assert!(opts.verbose());
    assert!(!opts.quiet());
    assert_eq!(opts.count, Some(5));

    let opts = Options::from_parts(0, 3, Some("Cargo.toml".to_string()), None, None, None);
    assert_eq!(opts.verbosity, -3);
    assert!(!opts.verbose());
    assert!(opts.quiet());
    assert_eq!(opts.manifest_path.as_deref(), Some("Cargo.toml"));
}

#[test]
fn cached_version_selection() {
    let names: Vec<String> = ["foo-1.0.3", "foo-0.9.0", "foo-1.2.0", "foo-2.0.0"]
        .iter()
        .map(|s| s.to_string())
        .collect();
    // The highest satisfying version wins, not the first.
    assert_eq!(best_cached_entry("^1.0", &names), Some(2));
    // A wildcard admits everything; 2.0.0 is the highest.
    assert_eq!(best_cached_entry("*", &names), Some(3));
    // Nothing satisfies ^3.
    assert_eq!(best_cached_entry("^3", &names), None);
    // Ties go to the earlier (more recently modified) entry.
    let dup: Vec<String> =
        ["bar-1.0.0", "bar-1.0.0"].iter().map(|s| s.to_string()).collect();
    assert_eq!(best_cached_entry("1.0.0", &dup), Some(0));
    // A malformed requirement matches nothing.
    assert_eq!(best_cached_entry("not a requirement", &names), None);
}

#[test]
fn version_suffix_of_cache_directories() {
    assert_eq!(version_suffix("foo-1.2.3"), "1.2.3");
    assert_eq!(version_suffix("serde-json-1.0.3"), "1.0.3");
    assert_eq!(version_suffix("noversion"), "noversion");
}
