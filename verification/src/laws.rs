//! What holds of every loader, whatever it is asked and whatever the backing
//! store and the signing service answer.

use crate::batch::{
    batch_result, has_urls, jobs_of, lemma_job_has_record, lemma_jobs_of_concat,
    lemma_jobs_of_one, lemma_urls_for_absent, lemma_urls_for_concat, lemma_urls_for_only,
    record_jobs, reply_of, url_of, SignJobView, SignedUrlView,
};
use crate::error::LoadError;
use crate::keys::{distinct, lemma_distinct_contains, lemma_distinct_no_duplicates};
use crate::model::{lemma_run_concat, lemma_run_one, ActionView, EventView, LoaderView, PhaseView};
use crate::presign::SIGNED_URL_EXPIRY_SECS;
use crate::record::{present, RecordView};
use vstd::prelude::*;

verus! {

/// The events of `keys.len()` callers that ask for `keys` in turn.
pub open spec fn registrations(keys: Seq<u32>) -> Seq<EventView> {
    Seq::new(keys.len(), |i: int| EventView::Register(keys[i]))
}

/// `count` times no action.
pub open spec fn idle(count: nat) -> Seq<ActionView> {
    Seq::new(count, |i: int| ActionView::Idle)
}

/// Registering never triggers anything by itself: on a loader that is not
/// closed the callers queue up behind those already waiting, in the order of
/// their registration, and the batch in flight goes on untouched.
pub proof fn law_registrations_queue(start: LoaderView, keys: Seq<u32>)
    requires
        !(start.phase is Closed),
    ensures
        start.run(registrations(keys)).0 == (LoaderView {
            pending: start.pending + keys,
            ..start
        }),
        start.run(registrations(keys)).1 == idle(keys.len()),
    decreases keys.len(),
{
    let events = registrations(keys);
    if keys.len() == 0 {
        assert(start.pending + keys =~= start.pending);
        assert(start.run(events).1 =~= idle(0));
    } else {
        let init = keys.drop_last();
        assert(events.drop_last() =~= registrations(init));
        assert(events.last() == EventView::Register(keys.last()));
        law_registrations_queue(start, init);
        assert((start.pending + init).push(keys.last()) =~= start.pending + keys);
        assert(idle(init.len()).push(ActionView::Idle) =~= idle(keys.len()));
    }
}

/// One window, one query. When callers register `keys` on a loader with no
/// batch in flight and the tick then drains, the loader answers the whole
/// window with exactly one bulk query: nothing for each registration, then a
/// single `Fetch`. The query names every key that waits, each once, however
/// often it was registered; all waiting callers are now in flight, and
/// nobody is left pending.
pub proof fn law_one_query_per_window(bucket: Seq<char>, waiting: Seq<u32>, keys: Seq<u32>)
    requires
        waiting.len() + keys.len() > 0,
    ensures
        ({
            let start = LoaderView::collecting(bucket, waiting);
            let (after, actions) = start.run(registrations(keys).push(EventView::Tick));
            let query = distinct(waiting + keys);
            &&& actions == idle(keys.len()).push(ActionView::Fetch { keys: query })
            &&& after == LoaderView {
                bucket,
                pending: Seq::empty(),
                phase: PhaseView::Fetching { callers: waiting + keys },
            }
            &&& query.no_duplicates()
            &&& forall|key: u32| query.contains(key) <==> (waiting + keys).contains(key)
        }),
{
    let start = LoaderView::collecting(bucket, waiting);
    let events = registrations(keys).push(EventView::Tick);
    assert(events =~= registrations(keys) + seq![EventView::Tick]);
    law_registrations_queue(start, keys);
    lemma_run_concat(start, registrations(keys), seq![EventView::Tick]);
    let middle = start.run(registrations(keys)).0;
    lemma_run_one(middle, EventView::Tick);
    let query = distinct(waiting + keys);
    assert(idle(keys.len()) + seq![ActionView::Fetch { keys: query }] =~= idle(keys.len()).push(
        ActionView::Fetch { keys: query },
    ));
    lemma_distinct_no_duplicates(waiting + keys);
    assert forall|key: u32| query.contains(key) <==> (waiting + keys).contains(key) by {
        lemma_distinct_contains(waiting + keys, key);
    }
}

/// While a batch is in flight no second query goes out: whatever happens,
/// the loader never answers with a `Fetch`.
pub proof fn law_no_query_while_in_flight(state: LoaderView, event: EventView)
    requires
        !(state.phase is Collecting),
    ensures
        !(state.step(event).1 is Fetch),
{
}

/// The events of signing calls that return `urls` in turn.
pub open spec fn answers(urls: Seq<Seq<char>>) -> Seq<EventView> {
    Seq::new(urls.len(), |i: int| EventView::Signed(urls[i]))
}

/// The signing results when the calls for the first jobs of `jobs` returned
/// `urls` in turn: each URL under the key of its job.
pub open spec fn signed_as(jobs: Seq<SignJobView>, urls: Seq<Seq<char>>) -> Seq<SignedUrlView> {
    Seq::new(urls.len(), |i: int| SignedUrlView { key: jobs[i].key, url: urls[i] })
}

/// The requests to sign `jobs` in turn, as `state` issues them.
pub open spec fn sign_requests(state: LoaderView, jobs: Seq<SignJobView>) -> Seq<ActionView> {
    Seq::new(jobs.len(), |i: int| state.sign(jobs[i]))
}

/// A batch under way: after the bulk query returned `records` and the first
/// signing calls returned `urls`, with calls still to make, the loader has
/// asked for one signature per job so far, in job order, holds what was
/// signed, and waits for the next signature.
pub proof fn law_signing_in_order(state: LoaderView, records: Seq<RecordView>, urls: Seq<Seq<char>>)
    requires
        state.phase is Fetching,
        urls.len() < jobs_of(records).len(),
    ensures
        ({
            let jobs = jobs_of(records);
            let (after, actions) = state.run(seq![EventView::Fetched(records)] + answers(urls));
            &&& after == LoaderView {
                phase: PhaseView::Signing {
                    callers: state.in_flight(),
                    jobs,
                    signed: signed_as(jobs, urls),
                },
                ..state
            }
            &&& actions == sign_requests(state, jobs.take(urls.len() as int + 1))
        }),
    decreases urls.len(),
{
    let jobs = jobs_of(records);
    let fetched = seq![EventView::Fetched(records)];
    let events = fetched + answers(urls);
    if urls.len() == 0 {
        assert(events =~= fetched);
        lemma_run_one(state, EventView::Fetched(records));
        assert(signed_as(jobs, urls) =~= Seq::<SignedUrlView>::empty());
        assert(seq![state.sign(jobs[0])] =~= sign_requests(state, jobs.take(1)));
    } else {
        let init = urls.drop_last();
        law_signing_in_order(state, records, init);
        assert(events =~= (fetched + answers(init)) + seq![EventView::Signed(urls.last())]);
        lemma_run_concat(state, fetched + answers(init), seq![EventView::Signed(urls.last())]);
        let (before, asked) = state.run(fetched + answers(init));
        lemma_run_one(before, EventView::Signed(urls.last()));
        let signed = signed_as(jobs, init).push(
            SignedUrlView { key: jobs[init.len() as int].key, url: urls.last() },
        );
        assert(signed =~= signed_as(jobs, urls));
        assert(asked + seq![state.sign(jobs[urls.len() as int])] =~= sign_requests(
            state,
            jobs.take(urls.len() as int + 1),
        ));
    }
}

/// A batch that succeeds. From the bulk query on, when the query returns
/// `records` and every signing call returns its URL, the loader asks for
/// exactly one signature per present path, in record and slot order and each
/// for the fixed validity, and then hands all callers of the batch the
/// result mapping built from those URLs. Afterwards no batch is in flight
/// and nothing of this one is kept.
pub proof fn law_batch_resolves(state: LoaderView, records: Seq<RecordView>, urls: Seq<Seq<char>>)
    requires
        state.phase is Fetching,
        urls.len() == jobs_of(records).len(),
    ensures
        ({
            let jobs = jobs_of(records);
            let (after, actions) = state.run(seq![EventView::Fetched(records)] + answers(urls));
            &&& after == LoaderView::collecting(state.bucket, state.pending)
            &&& actions == sign_requests(state, jobs).push(
                ActionView::Dispense {
                    callers: state.in_flight(),
                    outcome: Ok(batch_result(signed_as(jobs, urls))),
                },
            )
            &&& forall|i: int| 0 <= i < jobs.len() ==> #[trigger] actions[i] == (ActionView::Sign {
                bucket: state.bucket,
                path: jobs[i].path,
                expires_in_secs: SIGNED_URL_EXPIRY_SECS as nat,
            })
        }),
{
    let jobs = jobs_of(records);
    let fetched = seq![EventView::Fetched(records)];
    let events = fetched + answers(urls);
    if urls.len() == 0 {
        assert(events =~= fetched);
        lemma_run_one(state, EventView::Fetched(records));
        assert(signed_as(jobs, urls) =~= Seq::<SignedUrlView>::empty());
        assert(sign_requests(state, jobs) =~= Seq::<ActionView>::empty());
        let done = ActionView::Dispense {
            callers: state.in_flight(),
            outcome: Ok(batch_result(Seq::empty())),
        };
        assert(seq![done] =~= Seq::<ActionView>::empty().push(done));
    } else {
        let init = urls.drop_last();
        law_signing_in_order(state, records, init);
        assert(events =~= (fetched + answers(init)) + seq![EventView::Signed(urls.last())]);
        lemma_run_concat(state, fetched + answers(init), seq![EventView::Signed(urls.last())]);
        let (before, asked) = state.run(fetched + answers(init));
        lemma_run_one(before, EventView::Signed(urls.last()));
        let signed = signed_as(jobs, init).push(
            SignedUrlView { key: jobs[init.len() as int].key, url: urls.last() },
        );
        assert(signed =~= signed_as(jobs, urls));
        assert(jobs.take(init.len() as int + 1) =~= jobs);
        let done = ActionView::Dispense {
            callers: state.in_flight(),
            outcome: Ok(batch_result(signed_as(jobs, urls))),
        };
        assert(asked + seq![done] =~= sign_requests(state, jobs).push(done));
    }
}

/// No record, no error: a key that none of the returned records carries
/// resolves to absent.
pub proof fn law_absent_without_record(records: Seq<RecordView>, urls: Seq<Seq<char>>, key: u32)
    requires
        urls.len() == jobs_of(records).len(),
        forall|r: int| 0 <= r < records.len() ==> #[trigger] records[r].id != key,
    ensures
        reply_of(key, Ok(batch_result(signed_as(jobs_of(records), urls)))) == Ok::<
            Option<Seq<Seq<char>>>,
            LoadError,
        >(None),
{
    let jobs = jobs_of(records);
    let signed = signed_as(jobs, urls);
    if has_urls(key, signed) {
        let i = choose|i: int| 0 <= i < signed.len() && #[trigger] signed[i].key == key;
        let r = lemma_job_has_record(records, i);
        assert(records[r].id != key);
    }
}

/// Each key resolves to its own record. When the record at place `r` is the
/// only one with its key, that key's reply is made of the URLs that came
/// back for the signing calls of that very record: one per present path, in
/// slot order, absent slots skipped. A record without any present path
/// resolves to absent. What the other records hold changes only where in the
/// run of signing calls this record's calls stand.
pub proof fn law_own_record_own_urls(records: Seq<RecordView>, urls: Seq<Seq<char>>, r: int)
    requires
        0 <= r < records.len(),
        urls.len() == jobs_of(records).len(),
        forall|j: int| 0 <= j < records.len() && j != r ==> #[trigger] records[j].id != records[r].id,
    ensures
        ({
            let key = records[r].id;
            let paths = present(records[r].slots);
            let jobs = jobs_of(records);
            let first = jobs_of(records.take(r)).len() as int;
            let reply = reply_of(key, Ok(batch_result(signed_as(jobs, urls))));
            &&& first + paths.len() <= jobs.len()
            &&& forall|i: int| 0 <= i < paths.len() ==> #[trigger] jobs[first + i] == (SignJobView {
                key,
                path: paths[i],
            })
            &&& reply == if paths.len() == 0 {
                Ok::<Option<Seq<Seq<char>>>, LoadError>(None)
            } else {
                Ok(Some(urls.subrange(first, first + paths.len())))
            }
        }),
{
    let key = records[r].id;
    let paths = present(records[r].slots);
    let jobs = jobs_of(records);
    let signed = signed_as(jobs, urls);
    let before = records.take(r);
    let after = records.skip(r + 1);
    let mine = record_jobs(records[r]);
    let first = jobs_of(before).len() as int;
    let end = first + mine.len();

    assert(records =~= (before + seq![records[r]]) + after);
    lemma_jobs_of_concat(before + seq![records[r]], after);
    lemma_jobs_of_concat(before, seq![records[r]]);
    lemma_jobs_of_one(records[r]);
    assert(jobs == (jobs_of(before) + mine) + jobs_of(after));

    let head = signed.subrange(0, first);
    let body = signed.subrange(first, end);
    let tail = signed.subrange(end, signed.len() as int);
    assert(signed =~= (head + body) + tail);
    lemma_urls_for_concat(key, head + body, tail);
    lemma_urls_for_concat(key, head, body);

    if has_urls(key, head) {
        let i = choose|i: int| 0 <= i < head.len() && #[trigger] head[i].key == key;
        assert(head[i].key == jobs_of(before)[i].key);
        let j = lemma_job_has_record(before, i);
        assert(records[j].id != records[r].id);
    }
    if has_urls(key, tail) {
        let i = choose|i: int| 0 <= i < tail.len() && #[trigger] tail[i].key == key;
        assert(tail[i].key == jobs_of(after)[i].key);
        let j = lemma_job_has_record(after, i);
        assert(records[r + 1 + j].id != records[r].id);
    }
    lemma_urls_for_absent(key, head);
    lemma_urls_for_absent(key, tail);
    assert forall|i: int| 0 <= i < body.len() implies #[trigger] body[i].key == key by {
        assert(body[i].key == jobs[first + i].key);
        assert(jobs[first + i] == mine[i]);
    }
    lemma_urls_for_only(key, body);
    assert(body.map_values(url_of()) =~= urls.subrange(first, end));
    let empty = Seq::<Seq<char>>::empty();
    assert((empty + urls.subrange(first, end)) + empty =~= urls.subrange(first, end));
    if paths.len() > 0 {
        assert(body[0].key == key);
    }
    assert(has_urls(key, signed) <==> paths.len() > 0);
    assert forall|i: int| 0 <= i < paths.len() implies #[trigger] jobs[first + i] == (SignJobView {
        key,
        path: paths[i],
    }) by {
        assert(jobs[first + i] == mine[i]);
    }
}

/// Callers that share a key share the reply: whoever registered the same
/// key in one batch receives the same result.
pub proof fn law_same_key_same_reply(
    callers: Seq<u32>,
    outcome: Result<Map<u32, Seq<Seq<char>>>, LoadError>,
    i: int,
    j: int,
)
    requires
        0 <= i < callers.len(),
        0 <= j < callers.len(),
        callers[i] == callers[j],
    ensures
        reply_of(callers[i], outcome) == reply_of(callers[j], outcome),
{
}

/// A failed bulk query fails the whole batch at once: the loader makes no
/// signing call, every caller of the batch receives the backing-store error
/// whatever its key, and no batch is in flight afterwards.
pub proof fn law_failed_query_fails_every_caller(state: LoaderView)
    requires
        state.phase is Fetching,
    ensures
        state.step(EventView::FetchFailed).0 == LoaderView::collecting(state.bucket, state.pending),
        state.step(EventView::FetchFailed).1 == (ActionView::Dispense {
            callers: state.in_flight(),
            outcome: Err(LoadError::BackingStore),
        }),
        forall|key: u32| #[trigger]
            reply_of(key, Err(LoadError::BackingStore)) == Err::<
                Option<Seq<Seq<char>>>,
                LoadError,
            >(LoadError::BackingStore),
{
}

/// One failed signing call fails the whole batch. When the bulk query
/// returned `records`, some signing calls returned `urls` and the next one
/// fails, the loader asks for no further signature: every caller of the
/// batch receives the signing error, also those whose own paths were all
/// signed, and no batch is in flight afterwards.
pub proof fn law_failed_signature_fails_every_caller(
    state: LoaderView,
    records: Seq<RecordView>,
    urls: Seq<Seq<char>>,
)
    requires
        state.phase is Fetching,
        urls.len() < jobs_of(records).len(),
    ensures
        ({
            let jobs = jobs_of(records);
            let events = (seq![EventView::Fetched(records)] + answers(urls)).push(
                EventView::SignFailed,
            );
            let (after, actions) = state.run(events);
            &&& after == LoaderView::collecting(state.bucket, state.pending)
            &&& actions == sign_requests(state, jobs.take(urls.len() as int + 1)).push(
                ActionView::Dispense {
                    callers: state.in_flight(),
                    outcome: Err(LoadError::Signing),
                },
            )
        }),
        forall|key: u32| #[trigger]
            reply_of(key, Err(LoadError::Signing)) == Err::<Option<Seq<Seq<char>>>, LoadError>(
                LoadError::Signing,
            ),
{
    let so_far = seq![EventView::Fetched(records)] + answers(urls);
    law_signing_in_order(state, records, urls);
    assert(so_far.push(EventView::SignFailed) =~= so_far + seq![EventView::SignFailed]);
    lemma_run_concat(state, so_far, seq![EventView::SignFailed]);
    let (before, asked) = state.run(so_far);
    lemma_run_one(before, EventView::SignFailed);
    let done = ActionView::Dispense {
        callers: state.in_flight(),
        outcome: Err(LoadError::Signing),
    };
    assert(asked + seq![done] =~= asked.push(done));
}

/// Batches are independent. A batch that fails, at the query or at a
/// signature, leaves the loader as one that never ran it: with the same
/// bucket and the same callers waiting, and so answering every later event
/// as such a loader would.
pub proof fn law_failed_batch_leaves_no_trace(
    state: LoaderView,
    failure: EventView,
    later: Seq<EventView>,
)
    requires
        (state.phase is Fetching && failure is FetchFailed) || (state.phase is Signing
            && failure is SignFailed),
    ensures
        state.step(failure).0 == LoaderView::collecting(state.bucket, state.pending),
        state.step(failure).0.run(later) == LoaderView::collecting(
            state.bucket,
            state.pending,
        ).run(later),
{
}

/// Nothing is cached. Whenever the loader hands out replies it keeps no
/// URL: it is left without a batch in flight, or closed, and holds only its
/// bucket and the keys of callers still waiting. A later batch therefore has
/// every path signed anew.
pub proof fn law_nothing_kept_after_dispense(state: LoaderView, event: EventView)
    requires
        state.step(event).1 is Dispense,
    ensures
        state.step(event).0.phase is Collecting || state.step(event).0.phase is Closed,
{
}

/// A whole window from registration to replies. On a loader with no batch
/// in flight, callers register `keys`, the tick drains, the bulk query
/// returns `records` and every signing call returns its URL. Then exactly
/// one of the loader's actions is a bulk query; it is followed by one
/// signing request per present path and, last, by the replies for all who
/// waited. The loader ends as it was made.
pub proof fn law_window_resolves(
    bucket: Seq<char>,
    waiting: Seq<u32>,
    keys: Seq<u32>,
    records: Seq<RecordView>,
    urls: Seq<Seq<char>>,
)
    requires
        waiting.len() + keys.len() > 0,
        urls.len() == jobs_of(records).len(),
    ensures
        ({
            let start = LoaderView::collecting(bucket, waiting);
            let events = registrations(keys).push(EventView::Tick) + (seq![
                EventView::Fetched(records),
            ] + answers(urls));
            let (after, actions) = start.run(events);
            let jobs = jobs_of(records);
            &&& after == LoaderView::fresh(bucket)
            &&& actions.len() == keys.len() + 1 + jobs.len() + 1
            &&& actions[keys.len() as int] == (ActionView::Fetch { keys: distinct(waiting + keys) })
            &&& forall|i: int|
                0 <= i < actions.len() && i != keys.len() ==> !(#[trigger] actions[i] is Fetch)
            &&& actions.last() == (ActionView::Dispense {
                callers: waiting + keys,
                outcome: Ok(batch_result(signed_as(jobs, urls))),
            })
        }),
{
    let start = LoaderView::collecting(bucket, waiting);
    let window = registrations(keys).push(EventView::Tick);
    let batch = seq![EventView::Fetched(records)] + answers(urls);
    law_one_query_per_window(bucket, waiting, keys);
    lemma_run_concat(start, window, batch);
    let fetching = start.run(window).0;
    law_batch_resolves(fetching, records, urls);
}

/// Teardown releases everyone. When the owning scope is torn down, every
/// caller that waits, in the batch in flight or for the next one, receives
/// the cancellation; nothing of any batch is kept, and the loader stays
/// closed: it never queries or signs again, and answers each later
/// registration at once with the cancellation.
pub proof fn law_cancel_releases_every_caller(state: LoaderView, later: EventView)
    requires
        !(state.phase is Closed),
    ensures
        ({
            let (closed, action) = state.step(EventView::Cancel);
            &&& action == (ActionView::Dispense {
                callers: state.waiting(),
                outcome: Err(LoadError::Cancelled),
            })
            &&& closed == (LoaderView {
                bucket: state.bucket,
                pending: Seq::empty(),
                phase: PhaseView::Closed,
            })
            &&& closed.step(later).0 == closed
            &&& closed.step(later).1 == match later {
                EventView::Register(key) => ActionView::Dispense {
                    callers: seq![key],
                    outcome: Err(LoadError::Cancelled),
                },
                _ => ActionView::Idle,
            }
        }),
{
}

} // verus!
