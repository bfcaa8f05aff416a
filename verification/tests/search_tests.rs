use cargo_contribute::labels::LabelFilter;
use cargo_contribute::model::Repository;
use cargo_contribute::search::classify_fault;
use cargo_contribute::search::issue_from_item;
use cargo_contribute::search::pending_issues_query;
use cargo_contribute::search::repo_tuple;
use cargo_contribute::search::screen_item;
use cargo_contribute::search::EndReason;
use cargo_contribute::search::FaultDisposition;
use cargo_contribute::search::SearchFault;
use cargo_contribute::search::SearchItem;

fn sample_item(labels: &[&str]) -> SearchItem {
    SearchItem {
        repository_url: "https://api.github.com/repos/Xion/gisht".to_string(),
        number: 42,
        html_url: "https://github.com/Xion/gisht/issues/42".to_string(),
        title: "Optimize reticulating splines".to_string(),
        body: Some("It is too slow.".to_string()),
        comments: 3,
        labels: labels.iter().map(|l| l.to_string()).collect(),
    }
}

#[test]
fn repo_tuple_reads_the_last_two_segments() {
    assert_eq!(
        repo_tuple("https://api.github.com/repos/Xion/gisht"),
        ("Xion".to_string(), "gisht".to_string())
    );
    assert_eq!(repo_tuple("no-slashes"), ("".to_string(), "no-slashes".to_string()));
}

#[test]
fn issue_from_item_maps_all_fields() {
    let issue = issue_from_item(&sample_item(&["easy"]));
    assert_eq!(issue.repo.owner, "Xion");
    assert_eq!(issue.repo.name, "gisht");
    assert_eq!(issue.number, 42);
    assert_eq!(issue.url, "https://github.com/Xion/gisht/issues/42");
    assert_eq!(issue.title, "Optimize reticulating splines");
    assert_eq!(issue.body, "It is too slow.");
    assert_eq!(issue.comment_count, 3);

    let mut bodyless = sample_item(&["easy"]);
    bodyless.body = None;
    assert_eq!(issue_from_item(&bodyless).body, "");
}

#[test]
fn screen_item_filters_by_label() {
    let filter = LabelFilter::with_default_labels();
    assert!(screen_item(&filter, &sample_item(&["Good First Issue"])).is_some());
    assert!(screen_item(&filter, &sample_item(&["documentation"])).is_none());
    assert!(screen_item(&filter, &sample_item(&[])).is_none());
}

#[test]
fn pending_issues_query_shape() {
    let q = pending_issues_query(&Repository::new("Xion", "gisht"));
    assert_eq!(q.query, "repo:Xion/gisht type:issue state:open no:assignee");
    assert_eq!(q.per_page, 100);
    assert!(q.sort_by_updated);
    assert!(q.descending);
}

#[test]
fn fault_classification() {
    assert_eq!(
        classify_fault(&SearchFault::Http { status: 422 }),
        FaultDisposition::EndStream { reason: EndReason::RepositoryNotFound }
    );
    assert_eq!(
        classify_fault(&SearchFault::Http { status: 403 }),
        FaultDisposition::EndStream { reason: EndReason::AccessDenied }
    );
    assert_eq!(
        classify_fault(&SearchFault::RateLimit { reset_secs: 60 }),
        FaultDisposition::EndStream { reason: EndReason::RateLimited { reset_secs: 60 } }
    );
    assert_eq!(classify_fault(&SearchFault::Http { status: 500 }), FaultDisposition::Fatal);
    assert_eq!(classify_fault(&SearchFault::Http { status: 404 }), FaultDisposition::Fatal);
    assert_eq!(classify_fault(&SearchFault::Transport), FaultDisposition::Fatal);
}
