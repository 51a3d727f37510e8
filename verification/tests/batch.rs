use crystal_snapshots::batch::{assemble, reply, replies, signing_jobs, SignedUrl};
use crystal_snapshots::error::LoadError;
use crystal_snapshots::keys::distinct_keys;
use crystal_snapshots::presign::{signing_config, MAX_EXPIRY_SECS, SIGNED_URL_EXPIRY_SECS};
use crystal_snapshots::record::{SnapshotRecord, SLOTS};
use std::collections::HashMap;
use std::time::Duration;

fn row(id: u32, slots: [Option<&str>; 4]) -> SnapshotRecord {
    SnapshotRecord {
        data_collection_id: id,
        xtal_snapshot_full_path1: slots[0].map(String::from),
        xtal_snapshot_full_path2: slots[1].map(String::from),
        xtal_snapshot_full_path3: slots[2].map(String::from),
        xtal_snapshot_full_path4: slots[3].map(String::from),
    }
}

fn url(key: u32, url: &str) -> SignedUrl {
    SignedUrl { key, url: String::from(url) }
}

#[test]
fn distinct_keys_keeps_first_occurrences() {
    assert_eq!(distinct_keys(&vec![3, 1, 3, 2, 1, 3]), vec![3, 1, 2]);
    assert_eq!(distinct_keys(&vec![5, 5, 5]), vec![5]);
    assert_eq!(distinct_keys(&vec![0, u32::MAX]), vec![0, u32::MAX]);
    assert_eq!(distinct_keys(&Vec::new()), Vec::<u32>::new());
}

#[test]
fn raw_paths_skip_absent_slots() {
    assert_eq!(SLOTS, 4);
    assert_eq!(row(1, [Some("A"), None, Some("C"), None]).raw_paths(), vec!["A", "C"]);
    assert_eq!(row(1, [None, None, None, Some("D")]).raw_paths(), vec!["D"]);
    assert_eq!(
        row(1, [Some("A"), Some("B"), Some("C"), Some("D")]).raw_paths(),
        vec!["A", "B", "C", "D"]
    );
    assert!(row(1, [None, None, None, None]).raw_paths().is_empty());
    assert_eq!(row(1, [Some(""), None, None, None]).raw_paths(), vec![""]);
}

#[test]
fn signing_jobs_follow_record_then_slot_order() {
    let jobs = signing_jobs(&vec![
        row(2, [None, Some("b"), None, Some("d")]),
        row(9, [None, None, None, None]),
        row(1, [Some("a"), None, None, None]),
    ]);
    let flat: Vec<(u32, &str)> = jobs.iter().map(|job| (job.key, job.path.as_str())).collect();
    assert_eq!(flat, vec![(2, "b"), (2, "d"), (1, "a")]);
    assert!(signing_jobs(&Vec::new()).is_empty());
}

#[test]
fn assemble_groups_urls_by_key_in_signing_order() {
    let result = assemble(&vec![url(1, "u1"), url(2, "u2"), url(1, "u3"), url(3, "u4"), url(1, "u5")]);
    let mut expected = HashMap::new();
    expected.insert(1, vec![String::from("u1"), String::from("u3"), String::from("u5")]);
    expected.insert(2, vec![String::from("u2")]);
    expected.insert(3, vec![String::from("u4")]);
    assert_eq!(result, expected);
    assert!(assemble(&Vec::new()).is_empty());
}

#[test]
fn reply_copies_the_entry_or_the_error() {
    let outcome = Ok(assemble(&vec![url(1, "u1"), url(1, "u2")]));
    assert_eq!(reply(&outcome, 1), Ok(Some(vec![String::from("u1"), String::from("u2")])));
    assert_eq!(reply(&outcome, 2), Ok(None));
    for error in [LoadError::BackingStore, LoadError::Signing, LoadError::Cancelled] {
        assert_eq!(reply(&Err(error), 1), Err(error));
    }
}

#[test]
fn replies_answer_each_caller_in_order() {
    let outcome = Ok(assemble(&vec![url(1, "u1"), url(2, "u2")]));
    assert_eq!(
        replies(&vec![2, 7, 1, 2], &outcome),
        vec![
            Ok(Some(vec![String::from("u2")])),
            Ok(None),
            Ok(Some(vec![String::from("u1")])),
            Ok(Some(vec![String::from("u2")])),
        ]
    );
    assert!(replies(&Vec::new(), &outcome).is_empty());
    assert_eq!(
        replies(&vec![1, 2], &Err(LoadError::Signing)),
        vec![Err(LoadError::Signing), Err(LoadError::Signing)]
    );
}

#[test]
fn signing_config_carries_the_asked_validity() {
    assert_eq!(SIGNED_URL_EXPIRY_SECS, 600);
    let config = signing_config(SIGNED_URL_EXPIRY_SECS).unwrap();
    assert_eq!(config.expires(), Duration::from_secs(600));
    let config = signing_config(0).unwrap();
    assert_eq!(config.expires(), Duration::from_secs(0));
}

#[test]
fn signing_config_refuses_more_than_a_week() {
    assert_eq!(MAX_EXPIRY_SECS, 7 * 24 * 60 * 60);
    assert!(signing_config(MAX_EXPIRY_SECS).is_ok());
    assert_eq!(signing_config(MAX_EXPIRY_SECS + 1).err(), Some(LoadError::Signing));
    assert_eq!(signing_config(u64::MAX).err(), Some(LoadError::Signing));
}

#[test]
fn each_error_has_its_own_message() {
    assert_eq!(LoadError::BackingStore.message(), "the backing store could not be queried");
    assert_eq!(LoadError::Signing.message(), "a snapshot path could not be signed");
    assert_eq!(
        LoadError::Cancelled.message(),
        "the request was cancelled before the batch completed"
    );
}
