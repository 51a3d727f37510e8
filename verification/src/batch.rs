//! One batch: from the fetched records to the result each caller receives.

use crate::error::LoadError;
use crate::record::{present, RecordView, SnapshotRecord};
use std::collections::HashMap;
use vstd::prelude::*;
use vstd::std_specs::hash::*;

verus! {

/// One signing call to make: a raw path, and the key whose record holds it.
#[derive(Debug, Clone)]
pub struct SignJob {
    /// The key of the record the path belongs to.
    pub key: u32,
    /// The raw path to sign.
    pub path: String,
}

/// The mathematical value of a [`SignJob`].
pub struct SignJobView {
    pub key: u32,
    pub path: Seq<char>,
}

impl View for SignJob {
    type V = SignJobView;

    open spec fn view(&self) -> SignJobView {
        SignJobView { key: self.key, path: self.path@ }
    }
}

impl DeepView for SignJob {
    type V = SignJobView;

    open spec fn deep_view(&self) -> SignJobView {
        self.view()
    }
}

/// One signing call that succeeded: the URL, and the key it was signed for.
#[derive(Debug, Clone)]
pub struct SignedUrl {
    /// The key of the record whose path was signed.
    pub key: u32,
    /// The signed URL.
    pub url: String,
}

/// The mathematical value of a [`SignedUrl`].
pub struct SignedUrlView {
    pub key: u32,
    pub url: Seq<char>,
}

impl View for SignedUrl {
    type V = SignedUrlView;

    open spec fn view(&self) -> SignedUrlView {
        SignedUrlView { key: self.key, url: self.url@ }
    }
}

impl DeepView for SignedUrl {
    type V = SignedUrlView;

    open spec fn deep_view(&self) -> SignedUrlView {
        self.view()
    }
}

/// What a batch yields: the result mapping, or the error all callers share.
pub type OutcomeView = Result<Map<u32, Seq<Seq<char>>>, LoadError>;

/// What one caller receives: its URLs, absent, or the batch's error.
pub type ReplyView = Result<Option<Seq<Seq<char>>>, LoadError>;

/// The signing calls one record asks for: one per present path, in slot order.
pub open spec fn record_jobs(record: RecordView) -> Seq<SignJobView> {
    present(record.slots).map_values(|path: Seq<char>| SignJobView { key: record.id, path })
}

/// The signing calls a batch asks for: record by record in the order the
/// backing store returned them, and within a record in slot order.
pub open spec fn jobs_of(records: Seq<RecordView>) -> Seq<SignJobView>
    decreases records.len(),
{
    if records.len() == 0 {
        Seq::empty()
    } else {
        jobs_of(records.drop_last()) + record_jobs(records.last())
    }
}

/// Selects what was signed for `key`.
pub open spec fn signed_for(key: u32) -> spec_fn(SignedUrlView) -> bool {
    |signed: SignedUrlView| signed.key == key
}

/// Projects a signing result to its URL.
pub open spec fn url_of() -> spec_fn(SignedUrlView) -> Seq<char> {
    |signed: SignedUrlView| signed.url
}

/// The URLs signed for `key`, in the order they were signed.
pub open spec fn urls_for(key: u32, signed: Seq<SignedUrlView>) -> Seq<Seq<char>> {
    signed.filter(signed_for(key)).map_values(url_of())
}

/// Whether anything was signed for `key`.
pub open spec fn has_urls(key: u32, signed: Seq<SignedUrlView>) -> bool {
    exists|i: int| 0 <= i < signed.len() && #[trigger] signed[i].key == key
}

/// The result mapping of a batch whose signing calls gave `signed`: a key has
/// an entry exactly when something was signed for it.
pub open spec fn batch_result(signed: Seq<SignedUrlView>) -> Map<u32, Seq<Seq<char>>> {
    Map::new(|key: u32| has_urls(key, signed), |key: u32| urls_for(key, signed))
}

/// The mathematical value of a result mapping.
pub open spec fn result_view(result: HashMap<u32, Vec<String>>) -> Map<u32, Seq<Seq<char>>> {
    Map::new(|key: u32| result@.contains_key(key), |key: u32| result@[key].deep_view())
}

/// The mathematical value of a batch outcome.
pub open spec fn outcome_view(outcome: Result<HashMap<u32, Vec<String>>, LoadError>) -> OutcomeView {
    match outcome {
        Ok(result) => Ok(result_view(result)),
        Err(error) => Err(error),
    }
}

/// The mathematical value of a caller's reply.
pub open spec fn reply_view(reply: Result<Option<Vec<String>>, LoadError>) -> ReplyView {
    match reply {
        Ok(urls) => Ok(urls.deep_view()),
        Err(error) => Err(error),
    }
}

/// What the caller that asked for `key` receives from a batch that ended in
/// `outcome`: the batch's error if it failed, else the entry of `key`, or
/// absent when the mapping has none.
pub open spec fn reply_of(key: u32, outcome: OutcomeView) -> ReplyView {
    match outcome {
        Ok(result) => Ok(
            if result.contains_key(key) {
                Some(result[key])
            } else {
                None
            },
        ),
        Err(error) => Err(error),
    }
}

/// The signing calls for `records`.
pub fn signing_jobs(records: &Vec<SnapshotRecord>) -> (jobs: Vec<SignJob>)
    ensures
        jobs.deep_view() == jobs_of(records.deep_view()),
{
    let mut jobs: Vec<SignJob> = Vec::new();
    let mut i: usize = 0;
    assert(records.deep_view().take(0) =~= Seq::<RecordView>::empty());
    assert(jobs.deep_view() =~= Seq::<SignJobView>::empty());
    while i < records.len()
        invariant
            0 <= i <= records.len(),
            jobs.deep_view() == jobs_of(records.deep_view().take(i as int)),
        decreases records.len() - i,
    {
        let record = &records[i];
        let paths = record.raw_paths();
        let ghost before = jobs.deep_view();
        let ghost wanted = record_jobs(record@);
        let mut j: usize = 0;
        while j < paths.len()
            invariant
                0 <= j <= paths.len(),
                paths.deep_view() == present(record@.slots),
                wanted == record_jobs(record@),
                jobs.deep_view() == before + wanted.take(j as int),
            decreases paths.len() - j,
        {
            let ghost so_far = jobs.deep_view();
            jobs.push(SignJob { key: record.data_collection_id, path: paths[j].clone() });
            proof {
                assert(paths.deep_view()[j as int] == paths[j as int]@);
                assert(jobs.deep_view() =~= so_far.push(wanted[j as int]));
                assert(wanted.take(j + 1) =~= wanted.take(j as int).push(wanted[j as int]));
                assert(jobs.deep_view() =~= before + wanted.take(j + 1));
            }
            j += 1;
        }
        proof {
            assert(wanted.take(j as int) =~= wanted);
            let next = records.deep_view().take(i + 1);
            assert(next.drop_last() =~= records.deep_view().take(i as int));
            assert(next.last() == record@);
        }
        i += 1;
    }
    assert(records.deep_view().take(i as int) =~= records.deep_view());
    jobs
}

/// The signing calls for two stretches of records are those for the first
/// stretch followed by those for the second.
pub proof fn lemma_jobs_of_concat(first: Seq<RecordView>, second: Seq<RecordView>)
    ensures
        jobs_of(first + second) == jobs_of(first) + jobs_of(second),
    decreases second.len(),
{
    if second.len() == 0 {
        assert(first + second =~= first);
        assert(jobs_of(first) + jobs_of(second) =~= jobs_of(first));
    } else {
        let all = first + second;
        assert(all.drop_last() =~= first + second.drop_last());
        assert(all.last() == second.last());
        lemma_jobs_of_concat(first, second.drop_last());
        assert(jobs_of(all) =~= jobs_of(first) + jobs_of(second));
    }
}

/// A single record asks for exactly its own signing calls.
pub proof fn lemma_jobs_of_one(record: RecordView)
    ensures
        jobs_of(seq![record]) == record_jobs(record),
{
    let one = seq![record];
    assert(one.drop_last() =~= Seq::<RecordView>::empty());
    assert(one.last() == record);
    assert(jobs_of(one.drop_last()) =~= Seq::<SignJobView>::empty());
    assert(jobs_of(one) == jobs_of(one.drop_last()) + record_jobs(one.last()));
    assert(jobs_of(one) =~= record_jobs(record));
}

/// Every signing call is for the key of one of the records.
pub proof fn lemma_job_has_record(records: Seq<RecordView>, i: int) -> (r: int)
    requires
        0 <= i < jobs_of(records).len(),
    ensures
        0 <= r < records.len(),
        records[r].id == jobs_of(records)[i].key,
    decreases records.len(),
{
    let init = records.drop_last();
    if i < jobs_of(init).len() {
        lemma_job_has_record(init, i)
    } else {
        records.len() - 1
    }
}

/// What signing one more path does to the URLs of each key.
pub proof fn lemma_urls_for_push(key: u32, signed: Seq<SignedUrlView>, last: SignedUrlView)
    ensures
        urls_for(key, signed.push(last)) == if last.key == key {
            urls_for(key, signed).push(last.url)
        } else {
            urls_for(key, signed)
        },
        has_urls(key, signed.push(last)) <==> has_urls(key, signed) || last.key == key,
{
    signed.lemma_filter_push(last, signed_for(key));
    if last.key == key {
        signed.filter(signed_for(key)).lemma_push_map_commute(url_of(), last);
    }
    let longer = signed.push(last);
    if has_urls(key, signed) {
        let i = choose|i: int| 0 <= i < signed.len() && #[trigger] signed[i].key == key;
        assert(longer[i].key == key);
    }
    if last.key == key {
        assert(longer[signed.len() as int].key == key);
    }
    if has_urls(key, longer) {
        let i = choose|i: int| 0 <= i < longer.len() && #[trigger] longer[i].key == key;
        if i < signed.len() {
            assert(signed[i].key == key);
        }
    }
}

/// Nothing signed, nothing mapped.
pub proof fn lemma_urls_for_empty(key: u32)
    ensures
        urls_for(key, Seq::empty()) == Seq::<Seq<char>>::empty(),
        !has_urls(key, Seq::empty()),
        batch_result(Seq::empty()) == Map::<u32, Seq<Seq<char>>>::empty(),
{
    reveal(Seq::filter);
    assert(urls_for(key, Seq::empty()) =~= Seq::<Seq<char>>::empty());
    assert(batch_result(Seq::empty()) =~= Map::<u32, Seq<Seq<char>>>::empty());
}

/// Builds the result mapping of a batch from its signing results: each key
/// that something was signed for is mapped to its URLs in signing order.
pub fn assemble(signed: &Vec<SignedUrl>) -> (result: HashMap<u32, Vec<String>>)
    ensures
        result_view(result) == batch_result(signed.deep_view()),
{
    broadcast use group_hash_axioms;

    let mut result: HashMap<u32, Vec<String>> = HashMap::new();
    let mut i: usize = 0;
    let ghost all = signed.deep_view();
    proof {
        assert(all.take(0) =~= Seq::<SignedUrlView>::empty());
        lemma_urls_for_empty(0);
        assert(result_view(result) =~= batch_result(all.take(0)));
    }
    while i < signed.len()
        invariant
            0 <= i <= signed.len(),
            all == signed.deep_view(),
            result_view(result) == batch_result(all.take(i as int)),
        decreases signed.len() - i,
    {
        let entry = &signed[i];
        let ghost before = result_view(result);
        let ghost prefix = all.take(i as int);
        let mut urls = match result.remove(&entry.key) {
            Some(urls) => urls,
            None => Vec::new(),
        };
        proof {
            assert(before.contains_key(entry.key) <==> has_urls(entry.key, prefix));
            if before.contains_key(entry.key) {
                assert(urls.deep_view() == before[entry.key]);
            } else {
                lemma_urls_for_empty(entry.key);
                assert(urls.deep_view() =~= Seq::<Seq<char>>::empty());
                lemma_urls_for_absent(entry.key, prefix);
            }
            assert(urls.deep_view() == urls_for(entry.key, prefix));
        }
        let ghost old_urls = urls.deep_view();
        urls.push(entry.url.clone());
        assert(urls.deep_view() =~= old_urls.push(entry.url@));
        result.insert(entry.key, urls);
        proof {
            let next = all.take(i + 1);
            assert(all[i as int] == entry@);
            assert(next =~= prefix.push(entry@));
            assert forall|key: u32|
                #[trigger] result_view(result).contains_key(key) <==> batch_result(
                    next,
                ).contains_key(key) by {
                lemma_urls_for_push(key, prefix, entry@);
                assert(before.contains_key(key) <==> has_urls(key, prefix));
            }
            assert forall|key: u32| #[trigger]
                result_view(result).contains_key(key) implies result_view(result)[key]
                == batch_result(next)[key] by {
                lemma_urls_for_push(key, prefix, entry@);
                if key != entry.key {
                    assert(before.contains_key(key));
                    assert(before[key] == batch_result(prefix)[key]);
                }
            }
            assert(result_view(result) =~= batch_result(next));
        }
        i += 1;
    }
    assert(all.take(i as int) =~= all);
    result
}

/// A key that nothing was signed for has no URLs.
pub proof fn lemma_urls_for_absent(key: u32, signed: Seq<SignedUrlView>)
    requires
        !has_urls(key, signed),
    ensures
        urls_for(key, signed) == Seq::<Seq<char>>::empty(),
    decreases signed.len(),
{
    if signed.len() == 0 {
        lemma_urls_for_empty(key);
    } else {
        let init = signed.drop_last();
        assert(init.push(signed.last()) =~= signed);
        lemma_urls_for_push(key, init, signed.last());
        lemma_urls_for_absent(key, init);
    }
}

/// When everything was signed for `key`, its URLs are all the URLs.
pub proof fn lemma_urls_for_only(key: u32, signed: Seq<SignedUrlView>)
    requires
        forall|i: int| 0 <= i < signed.len() ==> #[trigger] signed[i].key == key,
    ensures
        urls_for(key, signed) == signed.map_values(url_of()),
    decreases signed.len(),
{
    if signed.len() == 0 {
        lemma_urls_for_empty(key);
        assert(signed.map_values(url_of()) =~= Seq::<Seq<char>>::empty());
    } else {
        let init = signed.drop_last();
        assert(init.push(signed.last()) =~= signed);
        lemma_urls_for_push(key, init, signed.last());
        assert forall|i: int| 0 <= i < init.len() implies #[trigger] init[i].key == key by {
            assert(signed[i].key == key);
        }
        lemma_urls_for_only(key, init);
        assert(signed[signed.len() - 1].key == key);
        init.lemma_push_map_commute(url_of(), signed.last());
    }
}

/// The URLs of a key over two stretches of signing results are those of the
/// first stretch followed by those of the second.
pub proof fn lemma_urls_for_concat(key: u32, first: Seq<SignedUrlView>, second: Seq<SignedUrlView>)
    ensures
        urls_for(key, first + second) == urls_for(key, first) + urls_for(key, second),
        has_urls(key, first + second) <==> has_urls(key, first) || has_urls(key, second),
    decreases second.len(),
{
    if second.len() == 0 {
        lemma_urls_for_empty(key);
        assert(second =~= Seq::<SignedUrlView>::empty());
        assert(first + second =~= first);
        assert(urls_for(key, first) + urls_for(key, second) =~= urls_for(key, first));
    } else {
        let init = second.drop_last();
        let last = second.last();
        assert(init.push(last) =~= second);
        assert((first + init).push(last) =~= first + second);
        lemma_urls_for_concat(key, first, init);
        lemma_urls_for_push(key, first + init, last);
        lemma_urls_for_push(key, init, last);
        if last.key == key {
            assert((urls_for(key, first) + urls_for(key, init)).push(last.url) =~= urls_for(
                key,
                first,
            ) + urls_for(key, init).push(last.url));
        }
    }
}

/// The reply for the caller that asked for `key`: its own copy of the entry
/// of `key`, absent when the mapping has none, or the error of the batch.
pub fn reply(outcome: &Result<HashMap<u32, Vec<String>>, LoadError>, key: u32) -> (r: Result<
    Option<Vec<String>>,
    LoadError,
>)
    ensures
        reply_view(r) == reply_of(key, outcome_view(*outcome)),
{
    broadcast use group_hash_axioms;

    match outcome {
        Ok(result) => match result.get(&key) {
            Some(urls) => {
                let copy = urls.clone();
                assert(copy.deep_view() =~= urls.deep_view());
                Ok(Some(copy))
            },
            None => Ok(None),
        },
        Err(error) => Err(*error),
    }
}

/// The replies of a batch, one per caller and in the callers' order: each
/// caller is answered for its own key.
pub fn replies(callers: &Vec<u32>, outcome: &Result<HashMap<u32, Vec<String>>, LoadError>) -> (out:
    Vec<Result<Option<Vec<String>>, LoadError>>)
    ensures
        out.len() == callers.len(),
        forall|i: int|
            0 <= i < callers.len() ==> reply_view(#[trigger] out[i]) == reply_of(
                callers[i],
                outcome_view(*outcome),
            ),
{
    let mut out: Vec<Result<Option<Vec<String>>, LoadError>> = Vec::new();
    let mut i: usize = 0;
    while i < callers.len()
        invariant
            0 <= i <= callers.len(),
            out.len() == i,
            forall|j: int|
                0 <= j < i ==> reply_view(#[trigger] out[j]) == reply_of(
                    callers[j],
                    outcome_view(*outcome),
                ),
        decreases callers.len() - i,
    {
        out.push(reply(outcome, callers[i]));
        i += 1;
    }
    out
}

} // verus!
