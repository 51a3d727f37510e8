//! Collapsing the keys of one batch window to a set.

use std::collections::HashSet;
use vstd::prelude::*;
use vstd::seq_lib::lemma_seq_contains_after_push;
use vstd::std_specs::hash::*;

verus! {

/// The keys of `keys` without repetition, each at the place of its first
/// occurrence.
pub open spec fn distinct(keys: Seq<u32>) -> Seq<u32>
    decreases keys.len(),
{
    if keys.len() == 0 {
        Seq::empty()
    } else if distinct(keys.drop_last()).contains(keys.last()) {
        distinct(keys.drop_last())
    } else {
        distinct(keys.drop_last()).push(keys.last())
    }
}

/// Deduplication neither loses nor invents a key.
pub proof fn lemma_distinct_contains(keys: Seq<u32>, key: u32)
    ensures
        distinct(keys).contains(key) <==> keys.contains(key),
    decreases keys.len(),
{
    if keys.len() > 0 {
        let init = keys.drop_last();
        lemma_distinct_contains(init, key);
        lemma_distinct_contains(init, keys.last());
        assert(init.push(keys.last()) =~= keys);
        lemma_seq_contains_after_push(init, keys.last(), key);
        lemma_seq_contains_after_push(distinct(init), keys.last(), key);
    }
}

/// No key occurs twice after deduplication.
pub proof fn lemma_distinct_no_duplicates(keys: Seq<u32>)
    ensures
        distinct(keys).no_duplicates(),
    decreases keys.len(),
{
    if keys.len() > 0 {
        lemma_distinct_no_duplicates(keys.drop_last());
    }
}

/// Deduplication never lengthens, and keeps a sequence that is already free
/// of repetition as it is.
pub proof fn lemma_distinct_len(keys: Seq<u32>)
    ensures
        distinct(keys).len() <= keys.len(),
        keys.no_duplicates() ==> distinct(keys) == keys,
    decreases keys.len(),
{
    if keys.len() > 0 {
        let init = keys.drop_last();
        lemma_distinct_len(init);
        if keys.no_duplicates() {
            assert(init.no_duplicates());
            if init.contains(keys.last()) {
                let i = choose|i: int| 0 <= i < init.len() && init[i] == keys.last();
                assert(keys[i] == keys[keys.len() - 1]);
            }
            assert(init.push(keys.last()) =~= keys);
        }
    }
}

/// The distinct keys of `keys`, in order of first occurrence.
pub fn distinct_keys(keys: &Vec<u32>) -> (out: Vec<u32>)
    ensures
        out@ == distinct(keys@),
        out@.no_duplicates(),
        out.len() <= keys.len(),
        forall|key: u32| out@.contains(key) <==> keys@.contains(key),
{
    broadcast use group_hash_axioms;

    let mut out: Vec<u32> = Vec::new();
    let mut seen: HashSet<u32> = HashSet::new();
    let mut i: usize = 0;
    assert(keys@.take(0) =~= Seq::<u32>::empty());
    while i < keys.len()
        invariant
            0 <= i <= keys.len(),
            out@ == distinct(keys@.take(i as int)),
            forall|key: u32| seen@.contains(key) <==> out@.contains(key),
        decreases keys.len() - i,
    {
        let key = keys[i];
        proof {
            let next = keys@.take(i + 1);
            assert(next.drop_last() =~= keys@.take(i as int));
            assert(next.last() == key);
        }
        let ghost before = out@;
        let ghost seen_before = seen@;
        if seen.insert(key) {
            out.push(key);
            assert forall|k: u32| seen@.contains(k) <==> out@.contains(k) by {
                assert(seen@ == seen_before.insert(key));
                assert(seen_before.contains(k) <==> before.contains(k));
                lemma_seq_contains_after_push(before, key, k);
            }
        }
        i += 1;
    }
    assert(keys@.take(i as int) =~= keys@);
    proof {
        lemma_distinct_no_duplicates(keys@);
        lemma_distinct_len(keys@);
        assert forall|key: u32| out@.contains(key) <==> keys@.contains(key) by {
            lemma_distinct_contains(keys@, key);
        }
    }
    out
}

} // verus!
