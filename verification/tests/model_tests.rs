use cargo_contribute::model::Repository;

#[test]
fn github_repository_from_project_url() {
    let repo = Repository::from_http_url("https://github.com/Xion/gisht").unwrap();
    assert_eq!("Xion", repo.owner);
    assert_eq!("gisht", repo.name);
}

#[test]
fn github_repository_from_git_url() {
    let repo = Repository::from_http_url("https://github.com/Xion/callee.git").unwrap();
    assert_eq!("Xion", repo.owner);
    assert_eq!("callee", repo.name);
}

#[test]
fn mod_repository_from_project_url() {
    let repo = Repository::from_url("https://github.com/Xion/gisht").unwrap();
    assert_eq!("Xion", repo.owner);
    assert_eq!("gisht", repo.name);
}

#[test]
fn mod_repository_from_git_url() {
    let repo = Repository::from_url("https://github.com/Xion/callee.git").unwrap();
    assert_eq!("Xion", repo.owner);
    assert_eq!("callee", repo.name);
}

#[test]
fn repository_from_www_url() {
    let repo = Repository::from_http_url("http://www.github.com/Xion/gisht").unwrap();
    assert_eq!("Xion", repo.owner);
    assert_eq!("gisht", repo.name);
    // The `www.`-prefixed variant is one of the accepted shapes for both
    // entry points.
    let repo = Repository::from_url("https://www.github.com/Xion/gisht").unwrap();
    assert_eq!("Xion", repo.owner);
    assert_eq!("gisht", repo.name);
}

#[test]
fn unrelated_host_is_no_repository() {
    assert!(Repository::from_http_url("https://gitlab.com/Xion/gisht").is_none());
    assert!(Repository::from_http_url("https://example.com/Xion/gisht").is_none());
    assert!(Repository::from_http_url("ftp://github.com/Xion/gisht").is_none());
    assert!(Repository::from_url("https://gitlab.com/Xion/gisht").is_none());
}

#[test]
fn query_and_fragment_are_ignored() {
    let repo = Repository::from_http_url("https://github.com/Xion/gisht?tab=issues").unwrap();
    assert_eq!("Xion", repo.owner);
    assert_eq!("gisht", repo.name);
    let repo = Repository::from_http_url("https://github.com/Xion/gisht.git#readme").unwrap();
    assert_eq!("Xion", repo.owner);
    assert_eq!("gisht", repo.name);
    // A query is not a path segment.
    assert!(Repository::from_http_url("https://github.com/Xion?tab=repositories").is_none());
}

#[test]
fn urls_without_two_segments_are_no_repository() {
    assert!(Repository::from_http_url("https://github.com/Xion").is_none());
    assert!(Repository::from_http_url("https://github.com/Xion/gisht/issues").is_none());
    assert!(Repository::from_http_url("https://github.com//gisht").is_none());
}

#[test]
fn repository_from_ssh_locator() {
    let repo = Repository::from_git_url("git@github.com:Xion/gisht.git").unwrap();
    assert_eq!("Xion", repo.owner);
    assert_eq!("gisht", repo.name);
    // The SSH shape requires the `.git` suffix.
    assert!(Repository::from_git_url("git@github.com:Xion/gisht").is_none());
}

#[test]
fn repository_display_text() {
    let repo = Repository::new("Xion", "gisht");
    assert_eq!(repo.display_text(), "Xion/gisht");
}

#[test]
fn repository_equality_is_by_owner_and_name() {
    assert_eq!(Repository::new("a", "b"), Repository::new("a", "b"));
    assert_ne!(Repository::new("a", "b"), Repository::new("a", "c"));
    assert_ne!(Repository::new("a", "b"), Repository::new("x", "b"));
}
