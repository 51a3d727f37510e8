use crystal_snapshots::batch::{reply, replies};
use crystal_snapshots::entities::{DataCollection, Query};
use crystal_snapshots::error::LoadError;
use crystal_snapshots::loader::{Action, CrystalSnapshotDataLoader, Event};
use crystal_snapshots::record::SnapshotRecord;
use std::collections::HashMap;
use std::time::Duration;

fn record(id: u32, slots: [Option<&str>; 4]) -> SnapshotRecord {
    SnapshotRecord {
        data_collection_id: id,
        xtal_snapshot_full_path1: slots[0].map(String::from),
        xtal_snapshot_full_path2: slots[1].map(String::from),
        xtal_snapshot_full_path3: slots[2].map(String::from),
        xtal_snapshot_full_path4: slots[3].map(String::from),
    }
}

fn loader() -> CrystalSnapshotDataLoader {
    CrystalSnapshotDataLoader::new(String::from("snapshots"))
}

fn signed(path: &str) -> String {
    format!("https://storage.test/snapshots/{path}?signature=abc")
}

fn expect_idle(action: Action) {
    assert!(matches!(action, Action::Idle), "expected no action, got {action:?}");
}

fn expect_fetch(action: Action) -> Vec<u32> {
    match action {
        Action::Fetch { keys } => keys,
        other => panic!("expected a bulk query, got {other:?}"),
    }
}

fn expect_sign(action: Action) -> (String, String, u64) {
    match action {
        Action::Sign { bucket, path, expires_in_secs, config } => {
            assert_eq!(config.expires(), Duration::from_secs(expires_in_secs));
            (bucket, path, expires_in_secs)
        }
        other => panic!("expected a signing request, got {other:?}"),
    }
}

fn expect_dispense(action: Action) -> (Vec<u32>, Result<HashMap<u32, Vec<String>>, LoadError>) {
    match action {
        Action::Dispense { callers, outcome } => (callers, outcome),
        other => panic!("expected replies, got {other:?}"),
    }
}

/// Answers every signing request with `signed(path)` until the batch ends.
fn sign_all(
    loader: &mut CrystalSnapshotDataLoader,
    mut action: Action,
) -> (Vec<String>, Vec<u32>, Result<HashMap<u32, Vec<String>>, LoadError>) {
    let mut asked = Vec::new();
    loop {
        match action {
            Action::Sign { path, .. } => {
                let url = signed(&path);
                asked.push(path);
                action = loader.step(Event::Signed(url));
            }
            other => {
                let (callers, outcome) = expect_dispense(other);
                return (asked, callers, outcome);
            }
        }
    }
}

#[test]
fn two_keys_share_one_query_and_resolve_separately() {
    let mut loader = loader();
    expect_idle(loader.step(Event::Register(7)));
    expect_idle(loader.step(Event::Register(9)));
    assert_eq!(expect_fetch(loader.step(Event::Tick)), vec![7, 9]);
    expect_idle(loader.step(Event::Tick));

    let records = vec![
        record(9, [Some("nine/a.png"), None, None, None]),
        record(7, [Some("seven/a.png"), Some("seven/b.png"), None, None]),
    ];
    let first = loader.step(Event::Fetched(records));
    let (asked, callers, outcome) = sign_all(&mut loader, first);
    assert_eq!(asked, vec!["nine/a.png", "seven/a.png", "seven/b.png"]);
    assert_eq!(callers, vec![7, 9]);
    assert_eq!(
        reply(&outcome, 7),
        Ok(Some(vec![signed("seven/a.png"), signed("seven/b.png")]))
    );
    assert_eq!(reply(&outcome, 9), Ok(Some(vec![signed("nine/a.png")])));
    let result = outcome.unwrap();
    assert_eq!(result.len(), 2);
}

#[test]
fn duplicate_registration_is_queried_once_and_answered_twice() {
    let mut loader = loader();
    expect_idle(loader.step(Event::Register(4)));
    expect_idle(loader.step(Event::Register(5)));
    expect_idle(loader.step(Event::Register(4)));
    assert_eq!(expect_fetch(loader.step(Event::Tick)), vec![4, 5]);

    let records = vec![
        record(4, [Some("four.png"), None, None, None]),
        record(5, [None, Some("five.png"), None, None]),
    ];
    let first = loader.step(Event::Fetched(records));
    let (asked, callers, outcome) = sign_all(&mut loader, first);
    assert_eq!(asked, vec!["four.png", "five.png"]);
    assert_eq!(callers, vec![4, 5, 4]);
    let all = replies(&callers, &outcome);
    assert_eq!(all.len(), 3);
    assert_eq!(all[0], Ok(Some(vec![signed("four.png")])));
    assert_eq!(all[0], all[2]);
    assert_eq!(all[1], Ok(Some(vec![signed("five.png")])));
}

#[test]
fn key_without_record_resolves_to_absent() {
    let mut loader = loader();
    loader.step(Event::Register(1));
    loader.step(Event::Register(2));
    assert_eq!(expect_fetch(loader.step(Event::Tick)), vec![1, 2]);
    let first = loader.step(Event::Fetched(vec![record(2, [Some("two.png"), None, None, None])]));
    let (_, callers, outcome) = sign_all(&mut loader, first);
    assert_eq!(callers, vec![1, 2]);
    assert_eq!(reply(&outcome, 1), Ok(None));
    assert_eq!(reply(&outcome, 2), Ok(Some(vec![signed("two.png")])));
}

#[test]
fn no_records_at_all_resolves_everyone_to_absent_without_signing() {
    let mut loader = loader();
    loader.step(Event::Register(1));
    loader.step(Event::Tick);
    let (callers, outcome) = expect_dispense(loader.step(Event::Fetched(Vec::new())));
    assert_eq!(callers, vec![1]);
    assert_eq!(outcome, Ok(HashMap::new()));
    assert_eq!(reply(&outcome, 1), Ok(None));
}

#[test]
fn record_without_any_path_resolves_to_absent() {
    let mut loader = loader();
    loader.step(Event::Register(3));
    loader.step(Event::Tick);
    let (callers, outcome) =
        expect_dispense(loader.step(Event::Fetched(vec![record(3, [None, None, None, None])])));
    assert_eq!(callers, vec![3]);
    assert_eq!(reply(&outcome, 3), Ok(None));
}

#[test]
fn absent_slots_are_skipped_and_slot_order_is_kept() {
    let mut loader = loader();
    loader.step(Event::Register(11));
    loader.step(Event::Tick);
    let first = loader.step(Event::Fetched(vec![record(11, [Some("A"), None, Some("C"), None])]));
    let (bucket, path, expires_in_secs) = expect_sign(first);
    assert_eq!(bucket, "snapshots");
    assert_eq!(path, "A");
    assert_eq!(expires_in_secs, 600);
    let second = loader.step(Event::Signed(String::from("signed(A)")));
    let (bucket, path, expires_in_secs) = expect_sign(second);
    assert_eq!(bucket, "snapshots");
    assert_eq!(path, "C");
    assert_eq!(expires_in_secs, 600);
    let (callers, outcome) = expect_dispense(loader.step(Event::Signed(String::from("signed(C)"))));
    assert_eq!(callers, vec![11]);
    assert_eq!(
        reply(&outcome, 11),
        Ok(Some(vec![String::from("signed(A)"), String::from("signed(C)")]))
    );
}

#[test]
fn failed_query_fails_every_caller() {
    let mut loader = loader();
    loader.step(Event::Register(1));
    loader.step(Event::Register(2));
    loader.step(Event::Register(1));
    loader.step(Event::Tick);
    let (callers, outcome) = expect_dispense(loader.step(Event::FetchFailed));
    assert_eq!(callers, vec![1, 2, 1]);
    assert_eq!(outcome, Err(LoadError::BackingStore));
    for reply in replies(&callers, &outcome) {
        assert_eq!(reply, Err(LoadError::BackingStore));
    }
}

#[test]
fn one_failed_signature_fails_every_caller() {
    let mut loader = loader();
    loader.step(Event::Register(1));
    loader.step(Event::Register(2));
    loader.step(Event::Tick);
    let records = vec![
        record(1, [Some("one/a"), Some("one/b"), None, None]),
        record(2, [Some("two/a"), None, None, None]),
    ];
    let (_, path, _) = expect_sign(loader.step(Event::Fetched(records)));
    assert_eq!(path, "one/a");
    let (_, path, _) = expect_sign(loader.step(Event::Signed(signed("one/a"))));
    assert_eq!(path, "one/b");
    let (_, path, _) = expect_sign(loader.step(Event::Signed(signed("one/b"))));
    assert_eq!(path, "two/a");
    let (callers, outcome) = expect_dispense(loader.step(Event::SignFailed));
    assert_eq!(callers, vec![1, 2]);
    assert_eq!(outcome, Err(LoadError::Signing));
    assert_eq!(reply(&outcome, 1), Err(LoadError::Signing));
    assert_eq!(reply(&outcome, 2), Err(LoadError::Signing));
    expect_idle(loader.step(Event::Signed(signed("two/a"))));
}

#[test]
fn failed_batch_does_not_poison_the_next() {
    let mut loader = loader();
    loader.step(Event::Register(1));
    loader.step(Event::Tick);
    let (_, outcome) = expect_dispense(loader.step(Event::FetchFailed));
    assert_eq!(outcome, Err(LoadError::BackingStore));

    loader.step(Event::Register(1));
    assert_eq!(expect_fetch(loader.step(Event::Tick)), vec![1]);
    let first = loader.step(Event::Fetched(vec![record(1, [Some("one"), None, None, None])]));
    let (_, path, _) = expect_sign(first);
    assert_eq!(path, "one");
    let (_, outcome) = expect_dispense(loader.step(Event::SignFailed));
    assert_eq!(outcome, Err(LoadError::Signing));

    loader.step(Event::Register(1));
    assert_eq!(expect_fetch(loader.step(Event::Tick)), vec![1]);
    let first = loader.step(Event::Fetched(vec![record(1, [Some("one"), None, None, None])]));
    let (asked, callers, outcome) = sign_all(&mut loader, first);
    assert_eq!(asked, vec!["one"]);
    assert_eq!(callers, vec![1]);
    assert_eq!(reply(&outcome, 1), Ok(Some(vec![signed("one")])));
}

#[test]
fn every_batch_signs_anew_with_its_own_window() {
    let mut loader = loader();
    let mut starts = Vec::new();
    let mut results = Vec::new();
    for round in 0..2 {
        loader.step(Event::Register(8));
        assert_eq!(expect_fetch(loader.step(Event::Tick)), vec![8]);
        let action = loader.step(Event::Fetched(vec![record(8, [Some("eight"), None, None, None])]));
        match action {
            Action::Sign { path, expires_in_secs, config, .. } => {
                assert_eq!(path, "eight");
                assert_eq!(expires_in_secs, 600);
                assert_eq!(config.expires(), Duration::from_secs(10 * 60));
                starts.push(config.start_time());
            }
            other => panic!("expected a signing request, got {other:?}"),
        }
        let url = format!("https://storage.test/eight?round={round}");
        let (_, outcome) = expect_dispense(loader.step(Event::Signed(url)));
        results.push(reply(&outcome, 8));
    }
    assert!(starts[0] <= starts[1]);
    assert_eq!(
        results[0],
        Ok(Some(vec![String::from("https://storage.test/eight?round=0")]))
    );
    assert_eq!(
        results[1],
        Ok(Some(vec![String::from("https://storage.test/eight?round=1")]))
    );
    assert_ne!(results[0], results[1]);
}

#[test]
fn tick_without_callers_does_nothing() {
    let mut loader = loader();
    expect_idle(loader.step(Event::Tick));
    expect_idle(loader.step(Event::Fetched(Vec::new())));
    expect_idle(loader.step(Event::FetchFailed));
    expect_idle(loader.step(Event::Signed(String::from("stray"))));
    expect_idle(loader.step(Event::SignFailed));
    loader.step(Event::Register(1));
    assert_eq!(expect_fetch(loader.step(Event::Tick)), vec![1]);
}

#[test]
fn registrations_during_a_batch_wait_for_the_next() {
    let mut loader = loader();
    loader.step(Event::Register(1));
    assert_eq!(expect_fetch(loader.step(Event::Tick)), vec![1]);
    expect_idle(loader.step(Event::Register(2)));
    expect_idle(loader.step(Event::Tick));
    let first = loader.step(Event::Fetched(vec![record(1, [Some("one"), None, None, None])]));
    expect_idle(loader.step(Event::Register(3)));
    let (_, path, _) = expect_sign(first);
    assert_eq!(path, "one");
    let (callers, outcome) = expect_dispense(loader.step(Event::Signed(signed("one"))));
    assert_eq!(callers, vec![1]);
    assert_eq!(reply(&outcome, 1), Ok(Some(vec![signed("one")])));
    assert_eq!(reply(&outcome, 2), Ok(None));
    assert_eq!(expect_fetch(loader.step(Event::Tick)), vec![2, 3]);
}

#[test]
fn rows_that_share_a_key_append_in_row_order() {
    let mut loader = loader();
    loader.step(Event::Register(6));
    loader.step(Event::Tick);
    let records = vec![
        record(6, [None, Some("first"), None, None]),
        record(5, [Some("other"), None, None, None]),
        record(6, [Some("second"), None, None, Some("third")]),
    ];
    let first = loader.step(Event::Fetched(records));
    let (asked, _, outcome) = sign_all(&mut loader, first);
    assert_eq!(asked, vec!["first", "other", "second", "third"]);
    assert_eq!(
        reply(&outcome, 6),
        Ok(Some(vec![signed("first"), signed("second"), signed("third")]))
    );
    assert_eq!(reply(&outcome, 5), Ok(Some(vec![signed("other")])));
}

#[test]
fn cancel_releases_batch_and_pending_callers() {
    let mut loader = loader();
    loader.step(Event::Register(1));
    loader.step(Event::Register(2));
    loader.step(Event::Tick);
    loader.step(Event::Register(3));
    let (callers, outcome) = expect_dispense(loader.step(Event::Cancel));
    assert_eq!(callers, vec![1, 2, 3]);
    assert_eq!(outcome, Err(LoadError::Cancelled));
    for reply in replies(&callers, &outcome) {
        assert_eq!(reply, Err(LoadError::Cancelled));
    }
    expect_idle(loader.step(Event::Fetched(vec![record(1, [Some("one"), None, None, None])])));
    expect_idle(loader.step(Event::Tick));
    let (callers, outcome) = expect_dispense(loader.step(Event::Register(4)));
    assert_eq!(callers, vec![4]);
    assert_eq!(outcome, Err(LoadError::Cancelled));
    expect_idle(loader.step(Event::Cancel));
}

#[test]
fn cancel_while_signing_drops_what_was_signed() {
    let mut loader = loader();
    loader.step(Event::Register(1));
    loader.step(Event::Tick);
    let records = vec![record(1, [Some("a"), Some("b"), None, None])];
    expect_sign(loader.step(Event::Fetched(records)));
    expect_sign(loader.step(Event::Signed(signed("a"))));
    let (callers, outcome) = expect_dispense(loader.step(Event::Cancel));
    assert_eq!(callers, vec![1]);
    assert_eq!(outcome, Err(LoadError::Cancelled));
    expect_idle(loader.step(Event::Signed(signed("b"))));
}

#[test]
fn cancel_of_an_idle_loader_releases_nobody() {
    let mut loader = loader();
    let (callers, outcome) = expect_dispense(loader.step(Event::Cancel));
    assert!(callers.is_empty());
    assert_eq!(outcome, Err(LoadError::Cancelled));
}

#[test]
fn entity_resolver_registers_its_key() {
    let mut loader = loader();
    let entity = Query.router_data_collection(42);
    assert_eq!(entity.id, 42);
    expect_idle(entity.crystal_snapshots(&mut loader));
    let other = DataCollection { id: 43 };
    expect_idle(other.crystal_snapshots(&mut loader));
    expect_idle(entity.crystal_snapshots(&mut loader));
    assert_eq!(expect_fetch(loader.step(Event::Tick)), vec![42, 43]);
    let (callers, _) = expect_dispense(loader.step(Event::FetchFailed));
    assert_eq!(callers, vec![42, 43, 42]);
}

#[test]
fn entity_resolver_on_a_closed_loader_is_cancelled() {
    let mut loader = loader();
    loader.step(Event::Cancel);
    let entity = Query::default().router_data_collection(5);
    let (callers, outcome) = expect_dispense(entity.crystal_snapshots(&mut loader));
    assert_eq!(callers, vec![5]);
    assert_eq!(reply(&outcome, 5), Err(LoadError::Cancelled));
}
