use std::collections::BTreeSet;

use cargo_contribute::merge::merge_events;
use cargo_contribute::merge::MergeAction;
use cargo_contribute::merge::SourceEvent;
use cargo_contribute::merge::StreamMerger;
use cargo_contribute::model::Issue;
use cargo_contribute::model::Repository;
use cargo_contribute::search::SearchFault;

fn issue(owner: &str, name: &str, number: u64) -> Issue {
    Issue {
        repo: Repository::new(owner, name),
        number,
        url: format!("https://github.com/{}/{}/issues/{}", owner, name, number),
        title: format!("issue {}", number),
        body: String::new(),
        comment_count: 0,
    }
}

fn key_of(i: &Issue) -> (String, String, u64) {
    (i.repo.owner.clone(), i.repo.name.clone(), i.number)
}

/// Three repositories with known result sets: the merged output, as a set,
/// is their union, whatever the interleaving.
#[test]
fn merge_outputs_union_of_three_sources() {
    let expected: BTreeSet<(String, String, u64)> = [
        ("a".to_string(), "x".to_string(), 1),
        ("a".to_string(), "x".to_string(), 2),
        ("b".to_string(), "y".to_string(), 7),
        ("c".to_string(), "z".to_string(), 9),
        ("c".to_string(), "z".to_string(), 10),
    ]
    .into_iter()
    .collect();

    let interleavings: [Vec<SourceEvent>; 2] = [
        vec![
            SourceEvent::Item { source: 0, item: issue("a", "x", 1) },
            SourceEvent::Item { source: 1, item: issue("b", "y", 7) },
            SourceEvent::Item { source: 2, item: issue("c", "z", 9) },
            SourceEvent::Item { source: 0, item: issue("a", "x", 2) },
            SourceEvent::Finished { source: 1 },
            SourceEvent::Item { source: 2, item: issue("c", "z", 10) },
            SourceEvent::Finished { source: 0 },
            SourceEvent::Finished { source: 2 },
        ],
        vec![
            SourceEvent::Item { source: 2, item: issue("c", "z", 9) },
            SourceEvent::Item { source: 2, item: issue("c", "z", 10) },
            SourceEvent::Finished { source: 2 },
            SourceEvent::Item { source: 1, item: issue("b", "y", 7) },
            SourceEvent::Finished { source: 1 },
            SourceEvent::Item { source: 0, item: issue("a", "x", 1) },
            SourceEvent::Item { source: 0, item: issue("a", "x", 2) },
            SourceEvent::Finished { source: 0 },
        ],
    ];
    for events in interleavings {
        let (out, fault) = merge_events(3, events);
        assert!(fault.is_none());
        let got: BTreeSet<(String, String, u64)> = out.iter().map(key_of).collect();
        assert_eq!(got, expected);
    }
}

/// A repository that is not found ends its stream with zero items and no
/// surfaced error.
#[test]
fn missing_repository_ends_quietly() {
    let events = vec![SourceEvent::Finished { source: 0 }];
    let (out, fault) = merge_events(1, events);
    assert!(out.is_empty());
    assert!(fault.is_none());
}

/// A generic server error terminates the whole output stream with an
/// error; the first fault wins and later events are not consumed.
#[test]
fn server_error_terminates_the_run() {
    let events = vec![
        SourceEvent::Item { source: 0, item: issue("a", "x", 1) },
        SourceEvent::Failed { source: 1, fault: SearchFault::Http { status: 500 } },
        SourceEvent::Item { source: 0, item: issue("a", "x", 2) },
        SourceEvent::Failed { source: 0, fault: SearchFault::Transport },
    ];
    let (out, fault) = merge_events(2, events);
    assert_eq!(fault, Some(SearchFault::Http { status: 500 }));
    assert_eq!(out.len(), 1);
    assert_eq!(key_of(&out[0]), ("a".to_string(), "x".to_string(), 1));
}

#[test]
fn merger_tracks_open_sources() {
    let mut merger = StreamMerger::new();
    assert!(merger.is_finished());
    let s0 = merger.add_source();
    let s1 = merger.add_source();
    assert_eq!((s0, s1), (0, 1));
    assert!(!merger.is_finished());

    // Items from finished sources are dropped.
    match merger.on_event(SourceEvent::Finished { source: 0 }) {
        MergeAction::Skip => {},
        other => panic!("expected the event to be skipped, got {:?}", other),
    }
    match merger.on_event(SourceEvent::Item { source: 0, item: issue("a", "x", 1) }) {
        MergeAction::Skip => {},
        other => panic!("expected the late item to be skipped, got {:?}", other),
    }
    match merger.on_event(SourceEvent::Item { source: 1, item: issue("b", "y", 2) }) {
        MergeAction::Emit(i) => assert_eq!(i.number, 2),
        other => panic!("expected the item to be emitted, got {:?}", other),
    }
    assert!(!merger.is_finished());
    merger.on_event(SourceEvent::Finished { source: 1 });
    assert!(merger.is_finished());
}
