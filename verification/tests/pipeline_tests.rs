use cargo_contribute::crates_io::Metadata;
use cargo_contribute::labels::LabelFilter;
use cargo_contribute::manifest::dependencies_from_entries;
use cargo_contribute::manifest::CrateLocation;
use cargo_contribute::manifest::Dependency;
use cargo_contribute::manifest::DependencySpec;
use cargo_contribute::manifest::ManifestError;
use cargo_contribute::manifest::Package;
use cargo_contribute::merge::merge_events;
use cargo_contribute::merge::SourceEvent;
use cargo_contribute::model::Repository;
use cargo_contribute::resolver::repo_from_package;
use cargo_contribute::resolver::resolution_after_cache;
use cargo_contribute::resolver::resolution_after_registry;
use cargo_contribute::resolver::resolution_start;
use cargo_contribute::resolver::RepoSet;
use cargo_contribute::resolver::ResolutionStep;
use cargo_contribute::search::screen_item;
use cargo_contribute::search::SearchItem;

fn metadata(repo_url: Option<&str>, homepage: Option<&str>) -> Metadata {
    Metadata {
        id: "foo".to_string(),
        name: "foo".to_string(),
        description: "a crate".to_string(),
        created_at: "2017-01-01T00:00:00Z".to_string(),
        updated_at: "2018-01-01T00:00:00Z".to_string(),
        keywords: vec![],
        categories: vec![],
        homepage_url: homepage.map(|s| s.to_string()),
        docs_url: None,
        repo_url: repo_url.map(|s| s.to_string()),
    }
}

fn package(repository: Option<&str>, homepage: Option<&str>) -> Package {
    Package {
        name: "foo".to_string(),
        version: "1.0.0".to_string(),
        description: String::new(),
        authors: vec!["someone".to_string()],
        license: None,
        keywords: vec![],
        categories: vec![],
        homepage: homepage.map(|s| s.to_string()),
        documentation: None,
        repository: repository.map(|s| s.to_string()),
    }
}

#[test]
fn manifest_entries_become_dependencies() {
    let entries = vec![
        ("serde".to_string(), DependencySpec::Version("1.0".to_string())),
        (
            "local".to_string(),
            DependencySpec::Table {
                version: None,
                path: Some("../local".to_string()),
                git: None,
            },
        ),
        (
            "gisht".to_string(),
            DependencySpec::Table {
                version: None,
                path: None,
                git: Some("https://github.com/Xion/gisht.git".to_string()),
            },
        ),
    ];
    let deps = dependencies_from_entries(&entries).unwrap();
    assert_eq!(deps.len(), 3);
    assert_eq!(deps[0].name(), "serde");
    assert!(deps[0].location().is_registry());
    assert!(deps[1].location().is_filesystem());
    assert!(deps[2].location().is_git());
}

#[test]
fn bad_manifest_entries_are_rejected() {
    let conflicting = DependencySpec::Table {
        version: Some("1.0".to_string()),
        path: Some("../x".to_string()),
        git: None,
    };
    assert_eq!(
        Dependency::from_toml("x", &conflicting).err(),
        Some(ManifestError::AmbiguousDependency)
    );
    let empty = DependencySpec::Table { version: None, path: None, git: None };
    assert_eq!(
        Dependency::from_toml("x", &empty).err(),
        Some(ManifestError::AmbiguousDependency)
    );
    assert_eq!(
        Dependency::from_toml("x", &DependencySpec::Unsupported).err(),
        Some(ManifestError::BadDependencySpec)
    );
    assert_eq!(
        Dependency::from_toml("x", &DependencySpec::Version("not a version".to_string())).err(),
        Some(ManifestError::InvalidVersionRequirement)
    );
    // The wildcard requirement is accepted.
    assert!(Dependency::from_toml("x", &DependencySpec::Version("*".to_string())).is_ok());

    // The first offending entry decides the error.
    let entries = vec![
        ("ok".to_string(), DependencySpec::Version("0.3".to_string())),
        ("bad".to_string(), DependencySpec::Unsupported),
        (
            "worse".to_string(),
            DependencySpec::Table { version: None, path: None, git: None },
        ),
    ];
    assert_eq!(
        dependencies_from_entries(&entries).err(),
        Some(ManifestError::BadDependencySpec)
    );
}

#[test]
fn repository_field_takes_precedence_over_homepage() {
    let p = package(
        Some("https://github.com/Xion/gisht"),
        Some("https://github.com/other/place"),
    );
    assert_eq!(repo_from_package(&p), Some(Repository::new("Xion", "gisht")));
    // An unparseable repository field falls back to the homepage.
    let p2 = package(Some("https://example.com/nope"), Some("https://github.com/fall/back"));
    assert_eq!(repo_from_package(&p2), Some(Repository::new("fall", "back")));
    let p3 = package(None, None);
    assert_eq!(repo_from_package(&p3), None);
}

#[test]
fn end_to_end_registry_dependency() {
    // The manifest declares one registry dependency: foo = "1.0".
    let entries = vec![("foo".to_string(), DependencySpec::Version("1.0".to_string()))];
    let deps = dependencies_from_entries(&entries).unwrap();
    assert_eq!(deps.len(), 1);
    let dep = &deps[0];

    // Resolution: the cache is consulted first and misses, then the
    // registry metadata names the repository.
    let step = resolution_start(dep);
    match &step {
        ResolutionStep::NeedCacheLookup { name, version } => {
            assert_eq!(name, "foo");
            assert_eq!(version, "1.0");
        },
        other => panic!("expected a cache lookup first, got {:?}", other),
    }
    let step2 = resolution_after_cache(dep, None);
    match &step2 {
        ResolutionStep::NeedRegistryLookup { name } => assert_eq!(name, "foo"),
        other => panic!("expected a registry lookup after the cache miss, got {:?}", other),
    }
    let meta = metadata(Some("https://github.com/acme/foo"), None);
    let repo = resolution_after_registry(Some(&meta)).unwrap();
    assert_eq!(repo, Repository::new("acme", "foo"));

    // The repository is new: its issue search is opened.
    let mut seen = RepoSet::new();
    assert!(seen.try_insert(repo.clone()));

    // The tracker returns two open, unassigned issues; only the one with
    // the matching label is suggested.
    let filter = LabelFilter::with_default_labels();
    let items = vec![
        SearchItem {
            repository_url: "https://api.github.com/repos/acme/foo".to_string(),
            number: 1,
            html_url: "https://github.com/acme/foo/issues/1".to_string(),
            title: "Add a beginner guide".to_string(),
            body: None,
            comments: 0,
            labels: vec!["good first issue".to_string()],
        },
        SearchItem {
            repository_url: "https://api.github.com/repos/acme/foo".to_string(),
            number: 2,
            html_url: "https://github.com/acme/foo/issues/2".to_string(),
            title: "Rewrite the docs".to_string(),
            body: None,
            comments: 5,
            labels: vec!["documentation".to_string()],
        },
    ];
    let mut events: Vec<SourceEvent> = Vec::new();
    for item in &items {
        if let Some(issue) = screen_item(&filter, item) {
            events.push(SourceEvent::Item { source: 0, item: issue });
        }
    }
    events.push(SourceEvent::Finished { source: 0 });

    let (out, fault) = merge_events(1, events);
    assert!(fault.is_none());
    assert_eq!(out.len(), 1);
    assert_eq!(out[0].repo, Repository::new("acme", "foo"));
    assert_eq!(out[0].number, 1);
}

#[test]
fn dependency_builders_keep_their_fields() {
    let d = Dependency::with_version("serde", "^1.0");
    assert_eq!(d.name(), "serde");
    match d.location() {
        CrateLocation::Registry { version } => assert_eq!(version, "^1.0"),
        other => panic!("expected a registry location, got {:?}", other),
    }
    let d = Dependency::with_path("local", "../local");
    match d.location() {
        CrateLocation::Filesystem { path } => assert_eq!(path, "../local"),
        other => panic!("expected a filesystem location, got {:?}", other),
    }
    let d = Dependency::with_git_url("gisht", "git@github.com:Xion/gisht.git");
    match d.location() {
        CrateLocation::Git { url } => assert_eq!(url, "git@github.com:Xion/gisht.git"),
        other => panic!("expected a git location, got {:?}", other),
    }
}
