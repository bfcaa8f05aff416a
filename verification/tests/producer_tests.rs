use cargo_contribute::manifest::Dependency;
use cargo_contribute::model::Repository;
use cargo_contribute::resolver::resolution_start;
use cargo_contribute::resolver::shuffle_dependencies;
use cargo_contribute::resolver::RepoSet;
use cargo_contribute::resolver::ResolutionStep;

fn resolved_repo(step: ResolutionStep) -> Option<Repository> {
    match step {
        ResolutionStep::Resolved(repo) => repo,
        other => panic!("expected an immediately resolved step, got {:?}", other),
    }
}

#[test]
fn repo_for_github_http_git_dependency() {
    const REPO_URLS: &[&str] = &[
        "https://github.com/Xion/gisht.git",
        "http://github.com/Xion/gisht.git",
        "http://www.github.com/Xion/gisht.git",
        "https://www.github.com/Xion/gisht.git",
        "https://github.com/Xion/gisht",
        "http://github.com/Xion/gisht",
        "http://www.github.com/Xion/gisht",
        "https://www.github.com/Xion/gisht",
    ];
    let expected_repo = Repository { owner: "Xion".into(), name: "gisht".into() };
    for &repo_url in REPO_URLS {
        let dep = Dependency::with_git_url("unused", repo_url);
        let repo = resolved_repo(resolution_start(&dep));
        assert_eq!(Some(&expected_repo), repo.as_ref());
    }
}

#[test]
fn repo_for_github_ssh_git_dependency() {
    let dep = Dependency::with_git_url("unused", "git@github.com:Xion/gisht.git");
    let repo = resolved_repo(resolution_start(&dep));
    assert_eq!(Some(Repository { owner: "Xion".into(), name: "gisht".into() }), repo);
}

#[test]
fn dedup_suppresses_duplicate_repositories() {
    let mut set = RepoSet::new();
    assert!(set.try_insert(Repository::new("Xion", "gisht")));
    assert!(!set.try_insert(Repository::new("Xion", "gisht")));
    assert!(set.try_insert(Repository::new("Xion", "callee")));
    assert!(!set.try_insert(Repository::new("Xion", "callee")));
    assert_eq!(set.repos.len(), 2);
}

#[test]
fn resolution_order_does_not_change_the_searched_set() {
    let repos = ["gisht", "callee", "gisht", "recursive", "callee"];
    let mut in_order = RepoSet::new();
    for name in repos {
        in_order.try_insert(Repository::new("Xion", name));
    }
    let mut reversed = RepoSet::new();
    for name in repos.iter().rev() {
        reversed.try_insert(Repository::new("Xion", name));
    }
    let keys = |set: &RepoSet| {
        let mut names: Vec<String> = set.repos.iter().map(|r| r.name.clone()).collect();
        names.sort();
        names
    };
    assert_eq!(keys(&in_order), keys(&reversed));
    assert_eq!(in_order.repos.len(), 3);
}

#[test]
fn shuffle_keeps_the_dependencies() {
    let names = ["alpha", "bravo", "charlie", "delta", "echo", "foxtrot"];
    let mut deps: Vec<Dependency> =
        names.iter().map(|n| Dependency::with_path(n, "../x")).collect();
    shuffle_dependencies(&mut deps);
    assert_eq!(deps.len(), names.len());
    let mut shuffled: Vec<String> = deps.iter().map(|d| d.name().to_string()).collect();
    shuffled.sort();
    let mut expected: Vec<String> = names.iter().map(|n| n.to_string()).collect();
    expected.sort();
    assert_eq!(shuffled, expected);
}
