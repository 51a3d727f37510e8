//! The loader as a transition system: which action answers which event.

use crate::batch::{batch_result, jobs_of, OutcomeView, SignJobView, SignedUrlView};
use crate::error::LoadError;
use crate::keys::distinct;
use crate::presign::SIGNED_URL_EXPIRY_SECS;
use crate::record::RecordView;
use vstd::prelude::*;

verus! {

/// Where a loader stands between two events.
pub enum PhaseView {
    /// No batch is in flight.
    Collecting,
    /// The bulk query for `callers` is outstanding.
    Fetching { callers: Seq<u32> },
    /// The signing call for `jobs[signed.len()]` is outstanding.
    Signing { callers: Seq<u32>, jobs: Seq<SignJobView>, signed: Seq<SignedUrlView> },
    /// The owning scope is gone.
    Closed,
}

/// The mathematical value of a loader.
pub struct LoaderView {
    /// The bucket that paths are signed for.
    pub bucket: Seq<char>,
    /// The keys registered for the next batch, one per waiting caller, in
    /// the order of registration.
    pub pending: Seq<u32>,
    /// The batch in flight, if any.
    pub phase: PhaseView,
}

/// What happens around a loader.
pub enum EventView {
    /// A caller asks for a key.
    Register(u32),
    /// The scheduling tick has drained: every caller that was going to
    /// register in this window has done so.
    Tick,
    /// The bulk query returned these records.
    Fetched(Seq<RecordView>),
    /// The bulk query failed.
    FetchFailed,
    /// The outstanding signing call returned this URL.
    Signed(Seq<char>),
    /// The outstanding signing call failed.
    SignFailed,
    /// The owning scope is torn down.
    Cancel,
}

/// What a loader asks its driver to do.
pub enum ActionView {
    /// Nothing: wait for the next event.
    Idle,
    /// Issue one bulk query for the records whose key is among `keys`.
    Fetch { keys: Seq<u32> },
    /// Sign `path` in `bucket`, valid for `expires_in_secs` seconds.
    Sign { bucket: Seq<char>, path: Seq<char>, expires_in_secs: nat },
    /// Resume each of `callers` with its reply from `outcome`.
    Dispense { callers: Seq<u32>, outcome: OutcomeView },
}

impl LoaderView {
    /// A loader with no batch in flight, for `bucket`, on which `pending`
    /// callers wait.
    pub open spec fn collecting(bucket: Seq<char>, pending: Seq<u32>) -> LoaderView {
        LoaderView { bucket, pending, phase: PhaseView::Collecting }
    }

    /// A loader as it is made: nothing registered, nothing in flight.
    pub open spec fn fresh(bucket: Seq<char>) -> LoaderView {
        LoaderView::collecting(bucket, Seq::empty())
    }

    /// The callers of the batch in flight.
    pub open spec fn in_flight(self) -> Seq<u32> {
        match self.phase {
            PhaseView::Fetching { callers } => callers,
            PhaseView::Signing { callers, .. } => callers,
            _ => Seq::empty(),
        }
    }

    /// Every caller that waits for a reply: those of the batch in flight,
    /// then those registered for the next one.
    pub open spec fn waiting(self) -> Seq<u32> {
        self.in_flight() + self.pending
    }

    /// The request to sign the path of `job`.
    pub open spec fn sign(self, job: SignJobView) -> ActionView {
        ActionView::Sign {
            bucket: self.bucket,
            path: job.path,
            expires_in_secs: SIGNED_URL_EXPIRY_SECS as nat,
        }
    }

    /// The end of the batch in flight: its callers are handed `outcome`, and
    /// nothing of the batch stays behind.
    pub open spec fn finish(self, outcome: OutcomeView) -> (LoaderView, ActionView) {
        (
            LoaderView::collecting(self.bucket, self.pending),
            ActionView::Dispense { callers: self.in_flight(), outcome },
        )
    }

    /// The loader after `event`, and the action it answers with.
    pub open spec fn step(self, event: EventView) -> (LoaderView, ActionView) {
        match (self.phase, event) {
            (PhaseView::Closed, EventView::Register(key)) => (
                self,
                ActionView::Dispense { callers: seq![key], outcome: Err(LoadError::Cancelled) },
            ),
            (PhaseView::Closed, _) => (self, ActionView::Idle),
            (_, EventView::Cancel) => (
                LoaderView { bucket: self.bucket, pending: Seq::empty(), phase: PhaseView::Closed },
                ActionView::Dispense {
                    callers: self.waiting(),
                    outcome: Err(LoadError::Cancelled),
                },
            ),
            (_, EventView::Register(key)) => (
                LoaderView { pending: self.pending.push(key), ..self },
                ActionView::Idle,
            ),
            (PhaseView::Collecting, EventView::Tick) => if self.pending.len() == 0 {
                (self, ActionView::Idle)
            } else {
                (
                    LoaderView {
                        bucket: self.bucket,
                        pending: Seq::empty(),
                        phase: PhaseView::Fetching { callers: self.pending },
                    },
                    ActionView::Fetch { keys: distinct(self.pending) },
                )
            },
            (PhaseView::Fetching { callers }, EventView::Fetched(records)) => {
                let jobs = jobs_of(records);
                if jobs.len() == 0 {
                    self.finish(Ok(batch_result(Seq::empty())))
                } else {
                    (
                        LoaderView {
                            phase: PhaseView::Signing { callers, jobs, signed: Seq::empty() },
                            ..self
                        },
                        self.sign(jobs[0]),
                    )
                }
            },
            (PhaseView::Fetching { .. }, EventView::FetchFailed) => self.finish(
                Err(LoadError::BackingStore),
            ),
            (PhaseView::Signing { callers, jobs, signed }, EventView::Signed(url)) => {
                let signed = signed.push(SignedUrlView { key: jobs[signed.len() as int].key, url });
                if signed.len() >= jobs.len() {
                    self.finish(Ok(batch_result(signed)))
                } else {
                    (
                        LoaderView { phase: PhaseView::Signing { callers, jobs, signed }, ..self },
                        self.sign(jobs[signed.len() as int]),
                    )
                }
            },
            (PhaseView::Signing { .. }, EventView::SignFailed) => self.finish(
                Err(LoadError::Signing),
            ),
            _ => (self, ActionView::Idle),
        }
    }

    /// The loader after `events` in turn, and the actions it answered with,
    /// one per event.
    pub open spec fn run(self, events: Seq<EventView>) -> (LoaderView, Seq<ActionView>)
        decreases events.len(),
    {
        if events.len() == 0 {
            (self, Seq::empty())
        } else {
            let (before, actions) = self.run(events.drop_last());
            let (after, action) = before.step(events.last());
            (after, actions.push(action))
        }
    }
}

/// Running two stretches of events one after the other is running their
/// concatenation.
pub proof fn lemma_run_concat(start: LoaderView, first: Seq<EventView>, second: Seq<EventView>)
    ensures
        start.run(first + second).0 == start.run(first).0.run(second).0,
        start.run(first + second).1 == start.run(first).1 + start.run(first).0.run(second).1,
    decreases second.len(),
{
    let middle = start.run(first).0;
    if second.len() == 0 {
        assert(first + second =~= first);
        assert(start.run(first).1 + middle.run(second).1 =~= start.run(first).1);
    } else {
        let all = first + second;
        assert(all.drop_last() =~= first + second.drop_last());
        assert(all.last() == second.last());
        lemma_run_concat(start, first, second.drop_last());
        let (before, actions) = middle.run(second.drop_last());
        let action = before.step(second.last()).1;
        assert(start.run(all).1 =~= start.run(first).1 + actions.push(action));
    }
}

/// Running a single event is taking one step.
pub proof fn lemma_run_one(start: LoaderView, event: EventView)
    ensures
        start.run(seq![event]).0 == start.step(event).0,
        start.run(seq![event]).1 == seq![start.step(event).1],
{
    let events = seq![event];
    assert(events.drop_last() =~= Seq::<EventView>::empty());
    assert(events.last() == event);
    assert(start.run(events.drop_last()).1 =~= Seq::<ActionView>::empty());
    assert(start.run(events).1 =~= seq![start.step(event).1]);
}

} // verus!
