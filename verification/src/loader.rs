//! The loader: collects keys, and drives each batch from query to replies.

use crate::batch::{assemble, outcome_view, signing_jobs, SignJob, SignedUrl};
use crate::error::LoadError;
use crate::keys::distinct_keys;
use crate::model::{ActionView, EventView, LoaderView, PhaseView};
use crate::presign::{signing_config, SIGNED_URL_EXPIRY_SECS};
use crate::record::SnapshotRecord;
use aws_sdk_s3::presigning::PresigningConfig;
use std::collections::HashMap;
use vstd::prelude::*;

verus! {

/// What happens around a loader.
#[derive(Debug)]
pub enum Event {
    /// A caller asks for a key.
    Register(u32),
    /// The scheduling tick has drained: every caller that was going to
    /// register in this window has done so.
    Tick,
    /// The bulk query returned these records.
    Fetched(Vec<SnapshotRecord>),
    /// The bulk query failed.
    FetchFailed,
    /// The outstanding signing call returned this URL.
    Signed(String),
    /// The outstanding signing call failed.
    SignFailed,
    /// The owning scope is torn down.
    Cancel,
}

impl View for Event {
    type V = EventView;

    open spec fn view(&self) -> EventView {
        match self {
            Event::Register(key) => EventView::Register(*key),
            Event::Tick => EventView::Tick,
            Event::Fetched(records) => EventView::Fetched(records.deep_view()),
            Event::FetchFailed => EventView::FetchFailed,
            Event::Signed(url) => EventView::Signed(url@),
            Event::SignFailed => EventView::SignFailed,
            Event::Cancel => EventView::Cancel,
        }
    }
}

/// What a loader asks its driver to do.
#[derive(Debug)]
pub enum Action {
    /// Nothing: wait for the next event.
    Idle,
    /// Issue one bulk query for the records whose key is among `keys`, and
    /// report `Fetched` or `FetchFailed`.
    Fetch { keys: Vec<u32> },
    /// Sign `path` in `bucket` with `config`, which was made for a validity
    /// of `expires_in_secs` seconds, and report `Signed` or `SignFailed`.
    Sign { bucket: String, path: String, expires_in_secs: u64, config: PresigningConfig },
    /// Resume each of `callers` with its reply from `outcome`.
    Dispense { callers: Vec<u32>, outcome: Result<HashMap<u32, Vec<String>>, LoadError> },
}

impl View for Action {
    type V = ActionView;

    open spec fn view(&self) -> ActionView {
        match self {
            Action::Idle => ActionView::Idle,
            Action::Fetch { keys } => ActionView::Fetch { keys: keys@ },
            Action::Sign { bucket, path, expires_in_secs, .. } => ActionView::Sign {
                bucket: bucket@,
                path: path@,
                expires_in_secs: *expires_in_secs as nat,
            },
            Action::Dispense { callers, outcome } => ActionView::Dispense {
                callers: callers@,
                outcome: outcome_view(*outcome),
            },
        }
    }
}

/// Where a loader stands between two events.
#[derive(Debug)]
enum Phase {
    Collecting,
    Fetching { callers: Vec<u32> },
    Signing { callers: Vec<u32>, jobs: Vec<SignJob>, signed: Vec<SignedUrl> },
    Closed,
}

impl View for Phase {
    type V = PhaseView;

    closed spec fn view(&self) -> PhaseView {
        match self {
            Phase::Collecting => PhaseView::Collecting,
            Phase::Fetching { callers } => PhaseView::Fetching { callers: callers@ },
            Phase::Signing { callers, jobs, signed } => PhaseView::Signing {
                callers: callers@,
                jobs: jobs.deep_view(),
                signed: signed.deep_view(),
            },
            Phase::Closed => PhaseView::Closed,
        }
    }
}

/// Loader for crystal snapshot URLs: the keys that wait for the next batch,
/// and the batch in flight.
#[derive(Debug)]
pub struct CrystalSnapshotDataLoader {
    s3_bucket: String,
    pending: Vec<u32>,
    phase: Phase,
}

impl View for CrystalSnapshotDataLoader {
    type V = LoaderView;

    closed spec fn view(&self) -> LoaderView {
        LoaderView { bucket: self.s3_bucket@, pending: self.pending@, phase: self.phase@ }
    }
}

impl CrystalSnapshotDataLoader {
    /// While signing, one call is outstanding: not every job is done yet.
    #[verifier::type_invariant]
    spec fn one_call_outstanding(&self) -> bool {
        match self.phase {
            Phase::Signing { jobs, signed, .. } => signed.len() < jobs.len(),
            _ => true,
        }
    }

    /// A loader that signs for `s3_bucket`, with nothing registered and no
    /// batch in flight.
    pub fn new(s3_bucket: String) -> (loader: CrystalSnapshotDataLoader)
        ensures
            loader@ == LoaderView::fresh(s3_bucket@),
    {
        CrystalSnapshotDataLoader { s3_bucket, pending: Vec::new(), phase: Phase::Collecting }
    }

    /// Takes `event` in, and returns what the driver is to do next.
    pub fn step(&mut self, event: Event) -> (action: Action)
        ensures
            final(self)@ == old(self)@.step(event@).0,
            action@ == old(self)@.step(event@).1,
    {
        proof {
            use_type_invariant(&*self);
        }
        let mut phase = Phase::Collecting;
        let mut pending: Vec<u32> = Vec::new();
        std::mem::swap(&mut self.phase, &mut phase);
        std::mem::swap(&mut self.pending, &mut pending);
        match (phase, event) {
            (Phase::Closed, Event::Register(key)) => {
                self.phase = Phase::Closed;
                self.pending = pending;
                let mut callers: Vec<u32> = Vec::new();
                callers.push(key);
                assert(callers@ =~= seq![key]);
                Action::Dispense { callers, outcome: Err(LoadError::Cancelled) }
            },
            (Phase::Closed, _) => {
                self.phase = Phase::Closed;
                self.pending = pending;
                Action::Idle
            },
            (phase, Event::Cancel) => {
                let mut callers = match phase {
                    Phase::Fetching { callers } => callers,
                    Phase::Signing { callers, .. } => callers,
                    _ => Vec::new(),
                };
                callers.append(&mut pending);
                self.phase = Phase::Closed;
                Action::Dispense { callers, outcome: Err(LoadError::Cancelled) }
            },
            (phase, Event::Register(key)) => {
                pending.push(key);
                self.phase = phase;
                self.pending = pending;
                Action::Idle
            },
            (Phase::Collecting, Event::Tick) => {
                if pending.len() == 0 {
                    self.pending = pending;
                    Action::Idle
                } else {
                    let keys = distinct_keys(&pending);
                    self.phase = Phase::Fetching { callers: pending };
                    Action::Fetch { keys }
                }
            },
            (Phase::Fetching { callers }, Event::Fetched(records)) => {
                self.pending = pending;
                let jobs = signing_jobs(&records);
                if jobs.len() == 0 {
                    let signed: Vec<SignedUrl> = Vec::new();
                    assert(signed.deep_view() =~= Seq::empty());
                    Action::Dispense { callers, outcome: Ok(assemble(&signed)) }
                } else {
                    assert(jobs.deep_view()[0] == jobs[0]@);
                    match self.sign(&jobs[0]) {
                        Ok(action) => {
                            let signed: Vec<SignedUrl> = Vec::new();
                            assert(signed.deep_view() =~= Seq::empty());
                            self.phase = Phase::Signing { callers, jobs, signed };
                            action
                        },
                        Err(error) => Action::Dispense { callers, outcome: Err(error) },
                    }
                }
            },
            (Phase::Fetching { callers }, Event::FetchFailed) => {
                self.pending = pending;
                Action::Dispense { callers, outcome: Err(LoadError::BackingStore) }
            },
            (Phase::Signing { callers, jobs, signed }, Event::Signed(url)) => {
                self.pending = pending;
                let mut signed = signed;
                let ghost before = signed.deep_view();
                let done = SignedUrl { key: jobs[signed.len()].key, url };
                assert(jobs.deep_view()[signed.len() as int] == jobs[signed.len() as int]@);
                signed.push(done);
                assert(signed.deep_view() =~= before.push(done@));
                if signed.len() >= jobs.len() {
                    Action::Dispense { callers, outcome: Ok(assemble(&signed)) }
                } else {
                    assert(jobs.deep_view()[signed.len() as int] == jobs[signed.len() as int]@);
                    match self.sign(&jobs[signed.len()]) {
                        Ok(action) => {
                            self.phase = Phase::Signing { callers, jobs, signed };
                            action
                        },
                        Err(error) => Action::Dispense { callers, outcome: Err(error) },
                    }
                }
            },
            (Phase::Signing { callers, .. }, Event::SignFailed) => {
                self.pending = pending;
                Action::Dispense { callers, outcome: Err(LoadError::Signing) }
            },
            (phase, _) => {
                self.phase = phase;
                self.pending = pending;
                Action::Idle
            },
        }
    }

    /// The request to sign the path of `job`, with a fresh configuration for
    /// the fixed validity. It is always granted: the validity is under the
    /// service's limit.
    fn sign(&self, job: &SignJob) -> (r: Result<Action, LoadError>)
        ensures
            r matches Ok(action) && action@ == self@.sign(job@),
    {
        match signing_config(SIGNED_URL_EXPIRY_SECS) {
            Ok(config) => Ok(
                Action::Sign {
                    bucket: self.s3_bucket.clone(),
                    path: job.path.clone(),
                    expires_in_secs: SIGNED_URL_EXPIRY_SECS,
                    config,
                },
            ),
            Err(error) => Err(error),
        }
    }
}

} // verus!
