use urlharvest::db_util::{MetaCtx, UrlCtx};
use urlharvest::mem_store::{FlakyStorage, MemStorage};
use urlharvest::poll::{backlog_done, poll_decision, poll_step};
use urlharvest::schedule::{tail_schedule, FileAction};
use urlharvest::writer::{db_add_meta, db_add_url, db_last_change, db_mark_change, replay_batch};

fn event(n: u32) -> UrlCtx {
    UrlCtx {
        ts: 1_000 + n as i64,
        chan: "#test".to_string(),
        nick: format!("nick{n}"),
        url: format!("http://example.com/{n}"),
    }
}

#[test]
fn scenario_batch_of_two_commits_after_second_and_fourth() {
    let mut db = MemStorage::new();
    let events: Vec<UrlCtx> = (1..=5).map(event).collect();
    let n = replay_batch(&mut db, &events, 2, 3);
    assert_eq!(n, 5);
    let batches = db.committed_batches();
    assert_eq!(batches.len(), 3);
    assert_eq!(batches[0], vec![event(1), event(2)]);
    assert_eq!(batches[1], vec![event(3), event(4)]);
    assert_eq!(batches[2], vec![event(5)]);
}

#[test]
fn replay_of_full_batches_leaves_no_trailing_commit() {
    let mut db = MemStorage::new();
    let events: Vec<UrlCtx> = (1..=4).map(event).collect();
    let n = replay_batch(&mut db, &events, 2, 3);
    assert_eq!(n, 4);
    assert_eq!(db.committed_batches().len(), 2);
}

#[test]
fn replay_of_nothing_commits_nothing() {
    let mut db = MemStorage::new();
    let events: Vec<UrlCtx> = Vec::new();
    let n = replay_batch(&mut db, &events, 2, 3);
    assert_eq!(n, 0);
    assert_eq!(db.committed_batches().len(), 0);
}

#[test]
fn failures_below_the_ceiling_still_persist_exactly_once() {
    let mut db = FlakyStorage::new(3);
    let rows = db_add_url(&mut db, &event(1), 5, false, 0);
    assert_eq!(rows, 1);
    let batches = db.committed_batches();
    assert_eq!(batches.len(), 1);
    assert_eq!(batches[0], vec![event(1)]);
}

#[test]
fn failures_at_the_ceiling_drop_the_event() {
    let mut db = FlakyStorage::new(5);
    let rows = db_add_url(&mut db, &event(1), 5, false, 0);
    assert_eq!(rows, 0);
    assert_eq!(db.committed_batches().len(), 0);
}

#[test]
fn a_dropped_event_does_not_stop_the_ones_after_it() {
    let mut db = FlakyStorage::new(3);
    let events: Vec<UrlCtx> = (1..=3).map(event).collect();
    // Three failures ahead and three attempts per event: the first event is
    // dropped, the rest go through.
    let n = replay_batch(&mut db, &events, 10, 3);
    assert_eq!(n, 2);
    let batches = db.committed_batches();
    assert_eq!(batches.len(), 1);
    assert_eq!(batches[0], vec![event(2), event(3)]);
}

#[test]
fn live_insert_commits_alone_and_marks_change() {
    let mut db = MemStorage::new();
    assert_eq!(db_last_change(&db), 0);
    let rows = db_add_url(&mut db, &event(7), 3, true, 4_200);
    assert_eq!(rows, 1);
    assert_eq!(db_last_change(&db), 4_200);
    let batches = db.committed_batches();
    assert_eq!(batches.len(), 1);
    assert_eq!(batches[0], vec![event(7)]);
}

#[test]
fn replay_does_not_touch_the_change_marker() {
    let mut db = MemStorage::new();
    db_mark_change(&mut db, 17);
    let events: Vec<UrlCtx> = (1..=3).map(event).collect();
    replay_batch(&mut db, &events, 2, 3);
    assert_eq!(db_last_change(&db), 17);
}

#[test]
fn last_change_is_stable_without_writes_and_moves_with_them() {
    let mut db = MemStorage::new();
    let a = db_last_change(&db);
    let b = db_last_change(&db);
    assert_eq!(a, b);

    db_add_url(&mut db, &event(1), 3, true, 100);
    assert!(db_last_change(&db) > b);
    let c = db_last_change(&db);
    assert_eq!(c, db_last_change(&db));

    let meta = MetaCtx {
        url_id: 1,
        lang: "en".to_string(),
        title: "a title".to_string(),
        descr: "words".to_string(),
    };
    let inserted = db_add_meta(&mut db, &meta, true, 250).unwrap();
    assert_eq!(inserted, 1);
    assert!(db_last_change(&db) > c);
    assert_eq!(db.meta_records().len(), 1);
    assert_eq!(db.meta_records()[0], meta);
}

#[test]
fn poll_decision_wakes_only_on_newer_marker() {
    let idle = poll_decision(7, 7);
    assert!(!idle.wake);
    assert_eq!(idle.latest, 7);

    let stale = poll_decision(7, 3);
    assert!(!stale.wake);
    assert_eq!(stale.latest, 7);

    let wake = poll_decision(7, 9);
    assert!(wake.wake);
    assert_eq!(wake.latest, 9);
}

#[test]
fn poll_step_reads_the_store_marker() {
    let mut db = MemStorage::new();
    db_mark_change(&mut db, 50);
    let first = poll_step(&db, 0);
    assert!(first.wake);
    assert_eq!(first.latest, 50);
    let second = poll_step(&db, first.latest);
    assert!(!second.wake);
    assert_eq!(second.latest, 50);
}

#[test]
fn backlog_terminates_on_a_short_unit() {
    assert!(backlog_done(3, 10));
    assert!(backlog_done(0, 1));
    assert!(!backlog_done(10, 10));
}

#[test]
fn schedule_replays_each_file_before_registering_it() {
    let with_history = tail_schedule(true, 3);
    assert_eq!(
        with_history,
        vec![
            FileAction::Replay(0),
            FileAction::Register(0),
            FileAction::Replay(1),
            FileAction::Register(1),
            FileAction::Replay(2),
            FileAction::Register(2),
        ]
    );

    let without_history = tail_schedule(false, 3);
    assert_eq!(
        without_history,
        vec![
            FileAction::Register(0),
            FileAction::Register(1),
            FileAction::Register(2),
        ]
    );
}

#[test]
fn dropped_live_insert_leaves_the_marker_alone() {
    let mut db = FlakyStorage::new(5);
    db_mark_change(&mut db, 10);
    let rows = db_add_url(&mut db, &event(1), 5, true, 99);
    assert_eq!(rows, 0);
    assert_eq!(db.committed_batches().len(), 0);
    assert_eq!(db_last_change(&db), 10);
}

#[test]
fn duplicate_meta_row_is_refused() {
    let mut db = MemStorage::new();
    let first = MetaCtx {
        url_id: 7,
        lang: "en".to_string(),
        title: "one".to_string(),
        descr: "a".to_string(),
    };
    assert_eq!(db_add_meta(&mut db, &first, true, 5).unwrap(), 1);

    let second = MetaCtx {
        url_id: 7,
        lang: "de".to_string(),
        title: "two".to_string(),
        descr: "b".to_string(),
    };
    assert!(db_add_meta(&mut db, &second, true, 9).is_err());
    assert_eq!(db.meta_records().len(), 1);
    assert_eq!(db.meta_records()[0], first);
    assert_eq!(db_last_change(&db), 5);
}
