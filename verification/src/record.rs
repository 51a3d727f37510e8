//! Backing-store records and their raw object-storage paths.

use vstd::prelude::*;

verus! {

/// How many raw-path slots a record has.
pub const SLOTS: usize = 4;

/// One row of the backing store: a data collection and its snapshot paths.
#[derive(Debug, Clone)]
pub struct SnapshotRecord {
    /// The key of the data collection.
    pub data_collection_id: u32,
    /// First raw-path slot.
    pub xtal_snapshot_full_path1: Option<String>,
    /// Second raw-path slot.
    pub xtal_snapshot_full_path2: Option<String>,
    /// Third raw-path slot.
    pub xtal_snapshot_full_path3: Option<String>,
    /// Fourth raw-path slot.
    pub xtal_snapshot_full_path4: Option<String>,
}

/// The mathematical value of a record: its key and its slots in slot order.
pub struct RecordView {
    pub id: u32,
    pub slots: Seq<Option<Seq<char>>>,
}

impl View for SnapshotRecord {
    type V = RecordView;

    open spec fn view(&self) -> RecordView {
        RecordView {
            id: self.data_collection_id,
            slots: seq![
                self.xtal_snapshot_full_path1.deep_view(),
                self.xtal_snapshot_full_path2.deep_view(),
                self.xtal_snapshot_full_path3.deep_view(),
                self.xtal_snapshot_full_path4.deep_view(),
            ],
        }
    }
}

impl DeepView for SnapshotRecord {
    type V = RecordView;

    open spec fn deep_view(&self) -> RecordView {
        self.view()
    }
}

/// The paths that are present in `slots`, in slot order; absent slots leave
/// no trace.
pub open spec fn present(slots: Seq<Option<Seq<char>>>) -> Seq<Seq<char>>
    decreases slots.len(),
{
    if slots.len() == 0 {
        Seq::empty()
    } else {
        match slots.last() {
            Some(path) => present(slots.drop_last()).push(path),
            None => present(slots.drop_last()),
        }
    }
}

/// Every present slot contributes one path, so there are at most as many
/// paths as slots, and exactly as many when no slot is absent.
pub proof fn lemma_present_len(slots: Seq<Option<Seq<char>>>)
    ensures
        present(slots).len() <= slots.len(),
        present(slots).len() == slots.len() <==> forall|i: int|
            0 <= i < slots.len() ==> slots[i] is Some,
    decreases slots.len(),
{
    if slots.len() > 0 {
        let init = slots.drop_last();
        lemma_present_len(init);
        if present(slots).len() == slots.len() {
            assert forall|i: int| 0 <= i < slots.len() implies slots[i] is Some by {
                if i < init.len() {
                    assert(init[i] == slots[i]);
                }
            }
        }
        if forall|i: int| 0 <= i < slots.len() ==> slots[i] is Some {
            assert forall|i: int| 0 <= i < init.len() implies init[i] is Some by {
                assert(init[i] == slots[i]);
            }
        }
    }
}

/// The path of one slot: a single path when present, none when absent.
pub open spec fn slot_paths(slot: Option<Seq<char>>) -> Seq<Seq<char>> {
    match slot {
        Some(path) => seq![path],
        None => Seq::empty(),
    }
}

/// The paths of four slots are the paths of each slot, one after the other:
/// a present slot gives its path at its place in slot order, and an absent
/// slot leaves no gap.
pub proof fn law_paths_follow_slots(
    first: Option<Seq<char>>,
    second: Option<Seq<char>>,
    third: Option<Seq<char>>,
    fourth: Option<Seq<char>>,
)
    ensures
        present(seq![first, second, third, fourth]) == slot_paths(first) + slot_paths(second)
            + slot_paths(third) + slot_paths(fourth),
{
    let none = Seq::<Option<Seq<char>>>::empty();
    let one = seq![first];
    let two = seq![first, second];
    let three = seq![first, second, third];
    let four = seq![first, second, third, fourth];
    assert(one.drop_last() =~= none);
    assert(two.drop_last() =~= one);
    assert(three.drop_last() =~= two);
    assert(four.drop_last() =~= three);
    assert(present(none) =~= Seq::<Seq<char>>::empty());
    assert(present(one) =~= slot_paths(first));
    assert(present(two) =~= slot_paths(first) + slot_paths(second));
    assert(present(three) =~= slot_paths(first) + slot_paths(second) + slot_paths(third));
    assert(present(four) =~= slot_paths(first) + slot_paths(second) + slot_paths(third)
        + slot_paths(fourth));
}

/// Of the slots `[a, absent, c, absent]` exactly two paths remain: `a`, then
/// `c`.
pub proof fn law_absent_slots_are_skipped(a: Seq<char>, c: Seq<char>)
    ensures
        present(seq![Some(a), None, Some(c), None]) == seq![a, c],
{
    law_paths_follow_slots(Some(a), None, Some(c), None);
    assert(slot_paths(Some(a)) + slot_paths(None) + slot_paths(Some(c)) + slot_paths(None)
        =~= seq![a, c]);
}

impl SnapshotRecord {
    /// The record's raw paths in slot order, absent slots skipped.
    pub fn raw_paths(&self) -> (paths: Vec<String>)
        ensures
            paths.deep_view() == present(self@.slots),
            paths.len() <= SLOTS,
    {
        let mut paths: Vec<String> = Vec::new();
        let ghost slots = self@.slots;
        assert(paths.deep_view() =~= present(slots.take(0))) by {
            assert(slots.take(0).len() == 0);
        }
        push_present(&mut paths, &self.xtal_snapshot_full_path1, Ghost(slots.take(0)));
        assert(slots.take(0).push(slots[0]) =~= slots.take(1));
        push_present(&mut paths, &self.xtal_snapshot_full_path2, Ghost(slots.take(1)));
        assert(slots.take(1).push(slots[1]) =~= slots.take(2));
        push_present(&mut paths, &self.xtal_snapshot_full_path3, Ghost(slots.take(2)));
        assert(slots.take(2).push(slots[2]) =~= slots.take(3));
        push_present(&mut paths, &self.xtal_snapshot_full_path4, Ghost(slots.take(3)));
        assert(slots.take(3).push(slots[3]) =~= slots);
        proof {
            lemma_present_len(slots);
        }
        paths
    }
}

/// Appends `slot`'s path to `paths` when the slot is present.
fn push_present(paths: &mut Vec<String>, slot: &Option<String>, Ghost(before): Ghost<Seq<Option<Seq<char>>>>)
    requires
        old(paths).deep_view() == present(before),
    ensures
        final(paths).deep_view() == present(before.push(slot.deep_view())),
{
    let ghost after = before.push(slot.deep_view());
    assert(after.drop_last() =~= before);
    match slot {
        Some(path) => {
            paths.push(path.clone());
            assert(paths.deep_view() =~= present(before).push(path@));
        },
        None => {},
    }
}

} // verus!
