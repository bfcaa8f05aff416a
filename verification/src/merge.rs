//! Merging the per-repository issue streams into one output stream.
//!
//! The merger consumes events in whatever order the sources produce them —
//! an item, a quiet end of one source, or a fault.  Items are emitted as
//! they arrive; the first fault wins, cancels the remaining sources, and is
//! the only one surfaced.

use vstd::prelude::*;

use crate::model::Issue;
use crate::search::SearchFault;

verus! {

/// One event from one of the merged sources.
#[derive(Debug)]
pub enum SourceEvent {
    /// The source produced an issue.
    Item { source: usize, item: Issue },
    /// The source ended, quietly or exhausted.
    Finished { source: usize },
    /// The source failed with a non-recoverable fault.
    Failed { source: usize, fault: SearchFault },
}

/// What the merger does with one event.
#[derive(Debug)]
pub enum MergeAction {
    /// Pass the issue on to the output stream.
    Emit(Issue),
    /// Consume the event without output.
    Skip,
    /// Terminate the output stream with this fault.
    Abort(SearchFault),
}

/// The merge of a growing collection of issue streams.
pub struct StreamMerger {
    /// Which sources are still open.
    pub open_sources: Vec<bool>,
    /// The first fault, if any occurred.
    pub failure: Option<SearchFault>,
}

/// The transition of the merger on one event, over its mathematical state:
/// the open flags and the first fault.
pub open spec fn spec_step(open: Seq<bool>, failure: Option<SearchFault>, e: SourceEvent) -> (
    Seq<bool>,
    Option<SearchFault>,
    MergeAction,
) {
    if failure is Some {
        // A fault cancelled the run: consume nothing more.
        (open, failure, MergeAction::Skip)
    } else {
        match e {
            SourceEvent::Item { source, item } => {
                if source < open.len() && open[source as int] {
                    (open, failure, MergeAction::Emit(item))
                } else {
                    (open, failure, MergeAction::Skip)
                }
            },
            SourceEvent::Finished { source } => {
                if source < open.len() {
                    (open.update(source as int, false), failure, MergeAction::Skip)
                } else {
                    (open, failure, MergeAction::Skip)
                }
            },
            SourceEvent::Failed { source, fault } => {
                let open2 = if source < open.len() {
                    open.update(source as int, false)
                } else {
                    open
                };
                (open2, Some(fault), MergeAction::Abort(fault))
            },
        }
    }
}

impl StreamMerger {
    pub fn new() -> (r: Self)
        ensures
            r.open_sources@.len() == 0,
            r.failure is None,
    {
        StreamMerger { open_sources: Vec::new(), failure: None }
    }

    /// Registers one more source; sources are added dynamically as
    /// resolution completes.
    pub fn add_source(&mut self) -> (id: usize)
        ensures
            id == old(self).open_sources@.len(),
            final(self).open_sources@ == old(self).open_sources@.push(true),
            final(self).failure == old(self).failure,
    {
        let id = self.open_sources.len();
        self.open_sources.push(true);
        id
    }

    /// The merge is finished when a fault cancelled it or every source has
    /// terminated.
    pub fn is_finished(&self) -> (r: bool)
        ensures
            r == (self.failure is Some || forall|i: int|
                0 <= i < self.open_sources@.len() ==> !self.open_sources@[i]),
    {
        if self.failure.is_some() {
            return true;
        }
        let mut i: usize = 0;
        while i < self.open_sources.len()
            invariant
                i <= self.open_sources@.len(),
                self.failure is None,
                forall|t: int| 0 <= t < i ==> !self.open_sources@[t],
            decreases self.open_sources@.len() - i,
        {
            if self.open_sources[i] {
                return false;
            }
            i = i + 1;
        }
        true
    }

    /// Consumes one event.
    pub fn on_event(&mut self, e: SourceEvent) -> (a: MergeAction)
        ensures
            ({
                let step = spec_step(old(self).open_sources@, old(self).failure, e);
                final(self).open_sources@ == step.0 && final(self).failure == step.1 && a
                    == step.2
            }),
    {
        if self.failure.is_some() {
            return MergeAction::Skip;
        }
        match e {
            SourceEvent::Item { source, item } => {
                if source < self.open_sources.len() && self.open_sources[source] {
                    MergeAction::Emit(item)
                } else {
                    MergeAction::Skip
                }
            },
            SourceEvent::Finished { source } => {
                if source < self.open_sources.len() {
                    self.open_sources.set(source, false);
                }
                MergeAction::Skip
            },
            SourceEvent::Failed { source, fault } => {
                if source < self.open_sources.len() {
                    self.open_sources.set(source, false);
                }
                self.failure = Some(fault);
                MergeAction::Abort(fault)
            },
        }
    }
}

/// The output of merging a whole event sequence from a given state: the
/// issues emitted, in arrival order, and the surfaced fault, if any.
pub open spec fn spec_merge_outputs(
    open: Seq<bool>,
    failure: Option<SearchFault>,
    events: Seq<SourceEvent>,
) -> (Seq<Issue>, Option<SearchFault>)
    decreases events.len(),
{
    if events.len() == 0 {
        (Seq::<Issue>::empty(), failure)
    } else {
        let step = spec_step(open, failure, events[0]);
        let rest = spec_merge_outputs(step.0, step.1, events.skip(1));
        match step.2 {
            MergeAction::Emit(item) => (seq![item] + rest.0, rest.1),
            _ => rest,
        }
    }
}

/// Merges a fixed collection of `n_sources` event streams, given as one
/// interleaved event sequence, into the output stream and the surfaced
/// fault.
pub fn merge_events(n_sources: usize, events: Vec<SourceEvent>) -> (r: (
    Vec<Issue>,
    Option<SearchFault>,
))
    ensures
        ({
            let spec = spec_merge_outputs(
                Seq::<bool>::new(n_sources as nat, |i: int| true),
                None::<SearchFault>,
                events@,
            );
            r.0@ == spec.0 && r.1 == spec.1
        }),
{
    let mut merger = StreamMerger::new();
    let mut s: usize = 0;
    while s < n_sources
        invariant
            s <= n_sources,
            merger.open_sources@ =~= Seq::<bool>::new(s as nat, |i: int| true),
            merger.failure is None,
        decreases n_sources - s,
    {
        let ghost before = merger.open_sources@;
        merger.add_source();
        proof {
            assert(before.push(true) =~= Seq::<bool>::new((s + 1) as nat, |i: int| true));
        }
        s = s + 1;
    }
    let mut out: Vec<Issue> = Vec::new();
    let mut rest = events;
    let ghost open0 = merger.open_sources@;
    while rest.len() > 0
        invariant
            ({
                let total = spec_merge_outputs(open0, None::<SearchFault>, events@);
                let remaining = spec_merge_outputs(
                    merger.open_sources@,
                    merger.failure,
                    rest@,
                );
                total.0 == out@ + remaining.0 && total.1 == remaining.1
            }),
        decreases rest@.len(),
    {
        let ghost rest0 = rest@;
        let ghost pre_open = merger.open_sources@;
        let ghost pre_fail = merger.failure;
        let ghost out0 = out@;
        let e = rest.remove(0);
        proof {
            assert(rest@ =~= rest0.skip(1));
        }
        let ghost ge = e;
        let a = merger.on_event(e);
        match a {
            MergeAction::Emit(item) => {
                out.push(item);
            },
            _ => {},
        }
        proof {
            assert(rest0[0] == ge);
            let step = spec_step(pre_open, pre_fail, ge);
            let pre_remaining = spec_merge_outputs(pre_open, pre_fail, rest0);
            let remaining = spec_merge_outputs(merger.open_sources@, merger.failure, rest@);
            assert(spec_merge_outputs(step.0, step.1, rest0.skip(1)) == remaining);
            match step.2 {
                MergeAction::Emit(item) => {
                    assert(pre_remaining.0 == seq![item] + remaining.0);
                    assert(out@ == out0.push(item));
                    assert(out0 + (seq![item] + remaining.0) =~= out@ + remaining.0);
                },
                _ => {
                    assert(out@ == out0);
                },
            }
        }
    }
    proof {
        assert(out@ + Seq::<Issue>::empty() =~= out@);
    }
    (out, merger.failure)
}

pub open spec fn event_source(e: SourceEvent) -> int {
    match e {
        SourceEvent::Item { source, .. } => source as int,
        SourceEvent::Finished { source } => source as int,
        SourceEvent::Failed { source, .. } => source as int,
    }
}

/// The issues carried by the item events, in arrival order.
pub open spec fn item_issues(events: Seq<SourceEvent>) -> Seq<Issue>
    decreases events.len(),
{
    if events.len() == 0 {
        Seq::<Issue>::empty()
    } else {
        let rest = item_issues(events.skip(1));
        match events[0] {
            SourceEvent::Item { source, item } => seq![item] + rest,
            _ => rest,
        }
    }
}

pub open spec fn no_failures(events: Seq<SourceEvent>) -> bool {
    forall|i: int| 0 <= i < events.len() ==> !((#[trigger] events[i]) is Failed)
}

/// Every item arrives while its source is live: the source is one of the
/// merged sources, open at the start, and no earlier event finished it.
pub open spec fn items_live(open: Seq<bool>, events: Seq<SourceEvent>) -> bool {
    forall|i: int|
        0 <= i < events.len() && (#[trigger] events[i]) is Item ==> {
            let s = event_source(events[i]);
            0 <= s < open.len() && open[s] && (forall|j: int|
                0 <= j < i ==> !((#[trigger] events[j]) is Finished && event_source(events[j])
                    == s))
        }
}

proof fn lemma_merge_complete_rec(open: Seq<bool>, events: Seq<SourceEvent>)
    requires
        no_failures(events),
        items_live(open, events),
    ensures
        spec_merge_outputs(open, None::<SearchFault>, events).0 == item_issues(events),
        spec_merge_outputs(open, None::<SearchFault>, events).1 is None,
    decreases events.len(),
{
    if events.len() > 0 {
        let e = events[0];
        let tail = events.skip(1);
        assert(forall|i: int| 0 <= i < tail.len() ==> #[trigger] tail[i] == events[i + 1]);
        assert(no_failures(tail));
        match e {
            SourceEvent::Failed { .. } => {
                assert(events[0] is Failed);
                assert(false);
            },
            SourceEvent::Item { source, item } => {
                assert(events[0] is Item);
                assert(0 <= source < open.len() && open[source as int]);
                assert(items_live(open, tail)) by {
                    assert forall|i: int|
                        0 <= i < tail.len() && (#[trigger] tail[i]) is Item implies {
                        let s = event_source(tail[i]);
                        0 <= s < open.len() && open[s] && (forall|j: int|
                            0 <= j < i ==> !((#[trigger] tail[j]) is Finished && event_source(
                                tail[j],
                            ) == s))
                    } by {
                        assert(events[i + 1] is Item);
                        let s = event_source(events[i + 1]);
                        assert(0 <= s < open.len() && open[s]);
                        assert(forall|j: int|
                            0 <= j < i + 1 ==> !((#[trigger] events[j]) is Finished
                                && event_source(events[j]) == s));
                    }
                }
                lemma_merge_complete_rec(open, tail);
            },
            SourceEvent::Finished { source } => {
                let open2 = if 0 <= source < open.len() {
                    open.update(source as int, false)
                } else {
                    open
                };
                assert(items_live(open2, tail)) by {
                    assert forall|i: int|
                        0 <= i < tail.len() && (#[trigger] tail[i]) is Item implies {
                        let s = event_source(tail[i]);
                        0 <= s < open2.len() && open2[s] && (forall|j: int|
                            0 <= j < i ==> !((#[trigger] tail[j]) is Finished && event_source(
                                tail[j],
                            ) == s))
                    } by {
                        assert(events[i + 1] is Item);
                        let s = event_source(events[i + 1]);
                        assert(0 <= s < open.len() && open[s]);
                        assert(forall|j: int|
                            0 <= j < i + 1 ==> !((#[trigger] events[j]) is Finished
                                && event_source(events[j]) == s));
                        assert(events[0] is Finished);
                        assert(event_source(events[0]) != s);
                        assert(open2[s] == open[s]);
                    }
                }
                lemma_merge_complete_rec(open2, tail);
            },
        }
    }
}

/// The first fault wins: once a fault is recorded, the merge consumes
/// nothing further — it emits no issue and surfaces that first fault,
/// whatever events still arrive from the cancelled sources.
pub proof fn lemma_first_failure_wins(
    open: Seq<bool>,
    fault: SearchFault,
    events: Seq<SourceEvent>,
)
    ensures
        spec_merge_outputs(open, Some(fault), events).0 == Seq::<Issue>::empty(),
        spec_merge_outputs(open, Some(fault), events).1 == Some(fault),
    decreases events.len(),
{
    if events.len() > 0 {
        lemma_first_failure_wins(open, fault, events.skip(1));
    }
}

/// Merge completeness: when no source fails and every item arrives while
/// its source is live, the merged output is exactly the issues the sources
/// produced, whatever the interleaving — so, as a set, the union of the
/// per-source result sets.
pub proof fn lemma_merge_completeness(n: nat, events: Seq<SourceEvent>)
    requires
        no_failures(events),
        items_live(Seq::<bool>::new(n, |i: int| true), events),
    ensures
        spec_merge_outputs(Seq::<bool>::new(n, |i: int| true), None::<SearchFault>, events).0
            == item_issues(events),
        spec_merge_outputs(Seq::<bool>::new(n, |i: int| true), None::<SearchFault>, events).1
            is None,
{
    lemma_merge_complete_rec(Seq::<bool>::new(n, |i: int| true), events);
}

} // verus!
