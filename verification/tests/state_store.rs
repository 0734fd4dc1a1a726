//! Batched writes and the version of the stored format.
use actant::common::ActantError;
use actant::runtime::state::batch::{
    commit_interval_ms, drain_timeout_ms, reached, BatchEntry, FlushAction, FlushEvent,
    WriteBuffer, BATCH_FLUSH_THRESHOLD,
};
use actant::runtime::state::format::ensure_fmt_version;

fn put(key: &str) -> BatchEntry {
    BatchEntry::Put { key: key.to_string(), value: vec![1] }
}

#[test]
fn writes_are_gathered_until_the_timeout() {
    let mut b = WriteBuffer::new();
    assert!(matches!(
        b.on_event(FlushEvent::Received(put("a"))),
        FlushAction::Wait
    ));
    assert_eq!(b.entries.len(), 1);
    assert!(matches!(b.on_event(FlushEvent::Timeout), FlushAction::Flush));
    assert_eq!(b.committed, 0);
    b.flushed(false);
    assert_eq!(b.entries.len(), 1);
    b.flushed(true);
    assert_eq!(b.entries.len(), 0);
    assert_eq!(b.committed, 1);
}

#[test]
fn closing_drains_and_stops() {
    let mut b = WriteBuffer::new();
    b.push(put("a"));
    assert!(matches!(
        b.on_event(FlushEvent::Closed),
        FlushAction::DrainFlushAndStop
    ));
    assert_eq!(b.entries.len(), 1);
}

#[test]
fn a_full_buffer_is_committed() {
    let mut b = WriteBuffer::new();
    for i in 0..BATCH_FLUSH_THRESHOLD - 1 {
        b.push(put(&format!("k{i}")));
    }
    assert!(matches!(
        b.on_event(FlushEvent::Received(put("last"))),
        FlushAction::DrainAndFlush
    ));
}

#[test]
fn commits_are_counted() {
    assert!(reached(5, 5));
    assert!(reached(6, 5));
    assert!(!reached(4, 5));
    assert_eq!(commit_interval_ms(0), 1);
    assert_eq!(commit_interval_ms(20), 20);
    assert_eq!(drain_timeout_ms(10), 1020);
}

#[test]
fn a_new_store_gets_a_version() {
    let written = ensure_fmt_version(None).unwrap().unwrap();
    assert_eq!(written, vec![1, 0, 0, 0, 0, 0, 0, 0]);
    assert!(ensure_fmt_version(Some(&written)).unwrap().is_none());
}

#[test]
fn another_version_is_refused() {
    let other = vec![7, 0, 0, 0, 0, 0, 0, 0];
    assert_eq!(
        ensure_fmt_version(Some(&other)).unwrap_err(),
        ActantError::Storage(
            "store format version mismatch: data was written by format v7, but this build \
             requires v1; refusing to open a store written by an incompatible version"
                .to_string()
        )
    );
    assert!(ensure_fmt_version(Some(&vec![1])).is_err());
}
