//! The write-ahead log, checkpoints and the event log.
use std::collections::BTreeMap;

use actant::common::{fits_archive, ActantError, ActorId, ARCHIVE_LIMIT};
use actant::runtime::state::checkpoint::{
    actors_stored, checkpoint_key, checkpoint_prefix, delete_old, is_checkpoint_key,
    needed_offsets, ActorSnapshot, WalCompactor,
};
use actant::runtime::state::event_log::{
    event_key, event_prefix, EventId, EventLog, LogEntry, MemoryEventLog,
};
use actant::runtime::state::hlc::HlcTimestamp;
use actant::runtime::state::journal;
use actant::runtime::state::journal::EventJournal;
use actant::runtime::state::wal::{
    calculate_checksum, cut_log, cut_point, low_half, read_entries, EntryHeader, WalEvent,
    WalReader, WalWriter, ENTRY_HEADER_SIZE, WAL_MAX_ENTRY_SIZE,
};

use actant::store::wal as latest;

/// A file that a writer appends to.
struct Log {
    writer: WalWriter,
    bytes: Vec<u8>,
}

impl Log {
    fn open(bytes: Vec<u8>) -> Self {
        Log { writer: WalWriter::open(bytes.len() as u64), bytes }
    }

    fn append(&mut self, timestamp: HlcTimestamp, data: &[u8]) -> u64 {
        let appended = self.writer.append(timestamp, &data.to_vec()).unwrap();
        self.bytes.extend_from_slice(&appended.bytes);
        appended.offset
    }

    fn truncate_to(&mut self, offset: u64) {
        if self.writer.truncate_to(offset) {
            self.bytes.truncate(offset as usize);
        }
    }
}

/// A store in memory whose keys are in order, with an event log over it.
struct Events {
    journal: EventJournal,
    store: BTreeMap<String, Vec<u8>>,
    physical: u64,
}

impl Events {
    fn open(store: BTreeMap<String, Vec<u8>>) -> Self {
        let values: Vec<Vec<u8>> = store.values().cloned().collect();
        Events { journal: EventJournal::open(&values), store, physical: 1_000 }
    }

    fn append(&mut self, topic: &str, payload: &[u8]) -> EventId {
        self.physical += 1;
        let p = self
            .journal
            .prepare(&topic.to_string(), &payload.to_vec(), self.physical)
            .unwrap();
        self.store.insert(p.key, p.value);
        p.id
    }

    fn scan(&self, topic: &str) -> Vec<(String, Vec<u8>)> {
        let prefix = event_prefix(&topic.to_string());
        self.store
            .iter()
            .filter(|(k, _)| k.starts_with(&prefix))
            .map(|(k, v)| (k.clone(), v.clone()))
            .collect()
    }

    fn read_after(&self, topic: &str, after: Option<&EventId>) -> Vec<LogEntry> {
        journal::read_after(&self.scan(topic), &topic.to_string(), after).unwrap()
    }

    fn latest(&self, topic: &str) -> Option<LogEntry> {
        journal::latest(&self.scan(topic), &topic.to_string()).unwrap()
    }

    fn count(&self, topic: &str) -> usize {
        journal::count(&self.scan(topic), &topic.to_string())
    }
}

fn snapshot(actor: &str, sequence: u64, state: &[u8], wal_offset: u64) -> ActorSnapshot {
    ActorSnapshot {
        actor_id: ActorId(actor.into()),
        actor_type: "test".into(),
        state: state.to_vec(),
        timestamp: HlcTimestamp::from_parts(1000 + sequence, 0),
        sequence,
        wal_offset,
    }
}

#[test]
fn append_and_read() {
    let mut log = Log::open(Vec::new());
    let ts = HlcTimestamp::from_parts(1000, 0);
    let offset = log.append(ts, b"hello");

    let reader = WalReader::open(log.bytes);
    let entries = reader.read_from(offset).unwrap();
    assert_eq!(entries.len(), 1);
    assert_eq!(entries[0].0.wall_time(), 1000);
    assert_eq!(entries[0].1, b"hello");
}

#[test]
fn offset_tracks_correctly() {
    let mut log = Log::open(Vec::new());
    let ts = HlcTimestamp::from_parts(1000, 0);
    assert_eq!(log.writer.current_offset(), 0);
    log.append(ts, b"hello");
    assert_eq!(log.writer.current_offset(), ENTRY_HEADER_SIZE as u64 + 5);
    log.append(ts, b"world");
    assert_eq!(log.writer.current_offset(), 2 * (ENTRY_HEADER_SIZE as u64 + 5));
}

#[test]
fn truncate_removes_old_entries() {
    let mut log = Log::open(Vec::new());
    let ts = HlcTimestamp::from_parts(1000, 0);
    log.append(ts, b"first");
    let keep_offset = log.writer.current_offset();
    log.append(ts, b"second");
    log.append(ts, b"third");
    assert!(log.writer.current_offset() > keep_offset);

    log.truncate_to(keep_offset);
    assert_eq!(log.writer.current_offset(), keep_offset);

    let reader = WalReader::open(log.bytes);
    let entries = reader.read_from(0).unwrap();
    assert_eq!(entries.len(), 1);
    assert_eq!(entries[0].1, b"first");

    let from_offset = reader.read_from(keep_offset).unwrap();
    assert_eq!(from_offset.len(), 0);
}

#[test]
fn truncate_noop_if_offset_exceeds_current() {
    let mut log = Log::open(Vec::new());
    let ts = HlcTimestamp::from_parts(1000, 0);
    log.append(ts, b"data");
    let offset_before = log.writer.current_offset();

    log.truncate_to(offset_before + 1000);
    assert_eq!(log.writer.current_offset(), offset_before);
}

#[test]
fn compactor_truncates_based_on_checkpoints() {
    let mut log = Log::open(Vec::new());
    let ts = HlcTimestamp::from_parts(1000, 0);

    log.append(ts, b"old-event-1");
    let checkpoint_offset = log.writer.current_offset();
    log.append(ts, b"old-event-2");
    log.append(ts, b"new-event");
    let offset_before_compact = log.writer.current_offset();

    let saved = ActorSnapshot {
        actor_id: ActorId("actor-1".into()),
        actor_type: "test".into(),
        state: b"state".to_vec(),
        timestamp: ts,
        sequence: 1,
        wal_offset: checkpoint_offset,
    };
    let mut store: BTreeMap<String, Vec<u8>> = BTreeMap::new();
    let (key, value) = saved.save().unwrap();
    store.insert(key, value);

    let entries: Vec<(String, Vec<u8>)> = store.into_iter().collect();
    let compactor = latest::WalCompactor::new(offset_before_compact, 1);
    let (old, compaction) = compactor.compact(&log.bytes, &entries);
    let compaction = compaction.unwrap();
    assert!(old.is_empty());

    assert!(compaction.reclaimed > 0, "should have reclaimed some bytes");

    let bytes = compaction.log.unwrap();
    let writer = WalWriter::open(bytes.len() as u64);
    assert!(
        writer.current_offset() < offset_before_compact,
        "WAL should be shorter after compaction"
    );

    let reader = WalReader::open(bytes);
    let entries = reader.read_from(0).unwrap();
    assert!(
        entries.iter().all(|(_, data)| data != b"old-event-1"),
        "events before checkpoint should be removed"
    );
    assert_eq!(entries.len(), 2);
    assert_eq!(entries[0].1, b"old-event-2");
    assert_eq!(entries[1].1, b"new-event");
}

#[test]
fn save_and_load() {
    let mut store: BTreeMap<String, Vec<u8>> = BTreeMap::new();
    let snapshot = ActorSnapshot {
        actor_id: ActorId("actor-1".into()),
        actor_type: "test".into(),
        state: b"state-data".to_vec(),
        timestamp: HlcTimestamp::from_parts(1000, 0),
        sequence: 1,
        wal_offset: 0,
    };

    let (key, value) = snapshot.save().unwrap();
    store.insert(key, value);
    let loaded =
        ActorSnapshot::from_archived(&store[&checkpoint_key(&snapshot.actor_id, 1)]).unwrap();
    assert_eq!(loaded.state, b"state-data");
}

#[test]
fn load_latest_returns_most_recent() {
    let mut store: BTreeMap<String, Vec<u8>> = BTreeMap::new();
    let actor_id = ActorId("actor-1".into());

    for seq in 1..=3u64 {
        let saved = ActorSnapshot {
            actor_id: actor_id.clone(),
            actor_type: "test".into(),
            state: format!("state-{}", seq).into_bytes(),
            timestamp: HlcTimestamp::from_parts(1000 + seq, 0),
            sequence: seq,
            wal_offset: 0,
        };
        let (key, value) = saved.save().unwrap();
        store.insert(key, value);
    }

    let entries: Vec<(String, Vec<u8>)> = store.into_iter().collect();
    let latest = ActorSnapshot::load_latest(&entries, &actor_id).unwrap().unwrap();
    assert_eq!(latest.sequence, 3);
    assert_eq!(latest.state, b"state-3");
}

#[test]
fn an_actor_is_not_mixed_with_one_that_goes_on_after_a_colon() {
    let actor = ActorId("a".into());
    let other = ActorId("a:b".into());
    assert!(is_checkpoint_key(&checkpoint_key(&actor, 7), &actor));
    assert!(is_checkpoint_key(&checkpoint_key(&other, 7), &other));
    assert!(!is_checkpoint_key(&checkpoint_key(&other, 7), &actor));
    assert!(!is_checkpoint_key(&checkpoint_key(&actor, 7), &other));
    assert!(checkpoint_key(&other, 7).starts_with(&checkpoint_prefix(&actor)));
}

#[test]
fn archives_have_a_limit() {
    assert!(fits_archive(0, 0, 0));
    assert!(fits_archive(1, 2, ARCHIVE_LIMIT as usize - 3));
    assert!(!fits_archive(1, 2, ARCHIVE_LIMIT as usize - 2));
    assert!(!fits_archive(usize::MAX, usize::MAX, usize::MAX));
}

#[test]
fn lmdb_event_log_append_and_read() {
    let mut log = Events::open(BTreeMap::new());

    let id1 = log.append("workflow", b"e1");
    let id2 = log.append("workflow", b"e2");

    assert!(id2 > id1);
    let entries = log.read_after("workflow", None);
    assert_eq!(entries.len(), 2);
    assert_eq!(entries[0].payload, b"e1");
    assert_eq!(entries[1].payload, b"e2");
}

#[test]
fn lmdb_event_log_read_after_filters() {
    let mut log = Events::open(BTreeMap::new());

    let id1 = log.append("task", b"a");
    log.append("task", b"b");
    log.append("task", b"c");

    let entries = log.read_after("task", Some(&id1));
    assert_eq!(entries.len(), 2);
    assert_eq!(entries[0].payload, b"b");
    assert_eq!(entries[1].payload, b"c");
}

#[test]
fn lmdb_event_log_latest() {
    let mut log = Events::open(BTreeMap::new());

    assert!(log.latest("empty").is_none());
    log.append("empty", b"x");
    let latest = log.latest("empty").unwrap();
    assert_eq!(latest.payload, b"x");
}

#[test]
fn lmdb_event_log_topics_isolated() {
    let mut log = Events::open(BTreeMap::new());

    log.append("a", b"1");
    log.append("b", b"2");

    assert_eq!(log.count("a"), 1);
    assert_eq!(log.count("b"), 1);
    assert_eq!(log.count("c"), 0);
}

#[test]
fn a_topic_is_not_mixed_with_one_that_goes_on_after_a_colon() {
    let mut log = Events::open(BTreeMap::new());

    log.append("a:b", b"1");
    assert_eq!(log.count("a"), 0);
    assert!(log.read_after("a", None).is_empty());
    assert!(log.latest("a").is_none());

    log.append("a", b"2");
    log.append("a:b", b"3");
    assert_eq!(log.count("a"), 1);
    assert_eq!(log.count("a:b"), 2);
    assert_eq!(log.latest("a").unwrap().payload, b"2");
    assert_eq!(log.latest("a:b").unwrap().payload, b"3");
    let payloads: Vec<Vec<u8>> =
        log.read_after("a:b", None).into_iter().map(|e| e.payload).collect();
    assert_eq!(payloads, vec![b"1".to_vec(), b"3".to_vec()]);
}

#[test]
fn memory_event_log_basic() {
    let mut log = MemoryEventLog::default();
    let id = log.append(&"x".to_string(), &b"y".to_vec()).unwrap();
    assert_eq!(log.latest(&"x".to_string()).unwrap().unwrap().id, id);
    assert_eq!(log.read_after(&"x".to_string(), None).unwrap().len(), 1);
    assert_eq!(log.count(&"x".to_string()).unwrap(), 1);
    assert_eq!(log.count(&"y".to_string()).unwrap(), 0);
}

#[test]
fn lmdb_event_log_sequence_recovers_across_reopen() {
    let mut log = Events::open(BTreeMap::new());
    let id1 = log.append("wf", b"e1");
    let id2 = log.append("wf", b"e2");
    let id3 = log.append("wf", b"e3");
    assert_eq!(id1.sequence, 1);
    assert_eq!(id2.sequence, 2);
    assert_eq!(id3.sequence, 3);

    let mut log2 = Events::open(log.store);
    log2.physical = 2_000;
    let id4 = log2.append("wf", b"e4");
    assert_eq!(
        id4.sequence, 4,
        "sequence must continue from persisted max, not reset to 1"
    );

    let entries = log2.read_after("wf", Some(&id3));
    assert_eq!(entries.len(), 1);
    assert_eq!(entries[0].payload, b"e4");
}

#[test]
fn checksum_is_the_low_half_of_the_hash() {
    assert_eq!(low_half(0x1234_5678_9abc_def0), 0x9abc_def0);
    // XXH3 of no bytes, with seed zero, is 0x2d06800538d394c2.
    assert_eq!(calculate_checksum(&Vec::new()), 0x38d3_94c2);
    assert!(calculate_checksum(&b"a".to_vec()) != calculate_checksum(&b"b".to_vec()));
}

#[test]
fn header_round_trip() {
    let h = EntryHeader {
        timestamp: HlcTimestamp::from_parts(0x0102_0304_0506_0708, 0x1112_1314),
        len: 5,
        checksum: 0xdead_beef,
    };
    let bytes = h.to_bytes();
    assert_eq!(bytes.len(), ENTRY_HEADER_SIZE);
    let back = EntryHeader::at(&bytes, 0);
    assert_eq!(back.timestamp.wall_time(), 0x0102_0304_0506_0708);
    assert_eq!(back.timestamp.logical(), 0x1112_1314);
    assert_eq!(back.len, 5);
    assert_eq!(back.checksum, 0xdead_beef);
}

#[test]
fn torn_entry_ends_the_log() {
    let mut log = Log::open(Vec::new());
    let ts = HlcTimestamp::from_parts(7, 3);
    log.append(ts, b"whole");
    let whole = log.bytes.len();
    log.append(ts, b"torn-away");

    // A header that is not complete ends the log quietly.
    let mut cut = log.bytes.clone();
    cut.truncate(whole + 3);
    assert_eq!(WalReader::open(cut).read_from(0).unwrap().len(), 1);

    // Data that was changed ends the log quietly.
    let mut changed = log.bytes.clone();
    let last = changed.len() - 1;
    changed[last] ^= 1;
    assert_eq!(WalReader::open(changed).read_from(0).unwrap().len(), 1);

    // Data that is not complete is an error.
    let mut short = log.bytes.clone();
    short.pop();
    assert!(matches!(
        WalReader::open(short).read_from(0),
        Err(ActantError::Storage(_))
    ));
}

#[test]
fn length_beyond_the_limit_is_refused() {
    let mut log = Log::open(Vec::new());
    log.append(HlcTimestamp::from_parts(1, 0), b"12345");
    assert!(read_entries(&log.bytes, 0, 4).is_err());
    assert_eq!(read_entries(&log.bytes, 0, 5).unwrap().len(), 1);
    assert_eq!(WAL_MAX_ENTRY_SIZE, 64 * 1024 * 1024);
}

#[test]
fn events_round_trip_through_the_log() {
    let mut log = Log::open(Vec::new());
    let event = WalEvent {
        actor_id: ActorId("actor-7".into()),
        sequence: 9,
        payload: vec![1, 2, 3],
    };
    let appended = log
        .writer
        .append_event(HlcTimestamp::from_parts(5, 1), &event)
        .unwrap();
    assert_ne!(appended.bytes, event.payload);
    log.bytes.extend_from_slice(&appended.bytes);
    let events = WalReader::open(log.bytes).recover_events(0).unwrap();
    assert_eq!(events.len(), 1);
    assert_eq!(events[0].0.wall_time(), 5);
    assert_eq!(events[0].1.actor_id.0, "actor-7");
    assert_eq!(events[0].1.sequence, 9);
    assert_eq!(events[0].1.payload, vec![1, 2, 3]);
}

#[test]
fn data_that_holds_no_event_is_an_error() {
    let mut log = Log::open(Vec::new());
    log.append(HlcTimestamp::from_parts(5, 1), b"x");
    assert!(WalReader::open(log.bytes).recover_events(0).is_err());
}

#[test]
fn cut_point_is_the_least_offset_needed() {
    assert_eq!(cut_point(&vec![30, 10, 20], 40), Some(10));
    assert_eq!(cut_point(&vec![], 40), None);
    assert_eq!(cut_point(&vec![0, 10], 40), None);
    assert_eq!(cut_point(&vec![40], 40), None);
}

#[test]
fn cut_log_keeps_what_follows() {
    let mut log = Log::open(Vec::new());
    let ts = HlcTimestamp::from_parts(1, 0);
    log.append(ts, b"a");
    let cut = log.writer.current_offset();
    log.append(ts, b"b");
    let rest = cut_log(&log.bytes, cut, WAL_MAX_ENTRY_SIZE).unwrap();
    let entries = WalReader::open(rest).read_from(0).unwrap();
    assert_eq!(entries.len(), 1);
    assert_eq!(entries[0].1, b"b");
}

#[test]
fn checkpoint_keys_sort_by_sequence() {
    let a = ActorId("actor-1".into());
    assert_eq!(checkpoint_key(&a, 7), "ckpt:actor-1:00000000000000000007");
    assert!(checkpoint_key(&a, 9) < checkpoint_key(&a, 10));
    assert!(checkpoint_key(&a, 10).starts_with(&checkpoint_prefix(&a)));
}

#[test]
fn old_checkpoints_are_those_before_the_last() {
    let a = ActorId("a".into());
    let b = ActorId("a:b".into());
    let entries: Vec<(String, Vec<u8>)> = [(&a, 1), (&a, 2), (&a, 3), (&b, 1), (&b, 2)]
        .iter()
        .map(|(id, n)| (checkpoint_key(id, *n), vec![]))
        .collect();
    let key = |id: &ActorId, n: u64| checkpoint_key(id, n);
    assert_eq!(delete_old(&entries, &a, 1), vec![key(&a, 1), key(&a, 2)]);
    assert_eq!(delete_old(&entries, &a, 3), Vec::<String>::new());
    assert_eq!(delete_old(&entries, &a, 5), Vec::<String>::new());
    assert_eq!(delete_old(&entries, &a, 0).len(), 3);
    assert_eq!(delete_old(&entries, &b, 1), vec![key(&b, 1)]);
}

#[test]
fn snapshots_round_trip() {
    let s = snapshot("actor-9", 4, b"st", 77);
    let bytes = s.to_archived().unwrap();
    assert_ne!(bytes, s.state);
    let back = ActorSnapshot::from_archived(&bytes).unwrap();
    assert_eq!(back.actor_id.0, "actor-9");
    assert_eq!(back.actor_type, "test");
    assert_eq!(back.state, b"st");
    assert_eq!(back.timestamp.wall_time(), 1004);
    assert_eq!(back.sequence, 4);
    assert_eq!(back.wal_offset, 77);
    assert!(ActorSnapshot::from_archived(&vec![1, 2, 3]).is_err());
    assert!(ActorSnapshot::load_latest(&vec![], &s.actor_id).unwrap().is_none());
}

#[test]
fn needed_offsets_are_those_of_all_checkpoints() {
    let mut entries: Vec<(String, Vec<u8>)> = [
        snapshot("a", 1, b"", 10),
        snapshot("a", 2, b"", 50),
        snapshot("b", 1, b"", 30),
    ]
    .iter()
    .map(|s| s.save().unwrap())
    .collect();
    let actors: Vec<String> = actors_stored(&entries).iter().map(|a| a.0.clone()).collect();
    assert_eq!(actors, vec!["a".to_string(), "b".to_string()]);
    assert_eq!(needed_offsets(&entries).unwrap(), vec![10, 50, 30]);
    entries.push(("ckpt:c:broken".to_string(), vec![1]));
    assert!(matches!(needed_offsets(&entries), Err(ActantError::Serialization(_))));
    assert_eq!(actors_stored(&entries).len(), 2);
}

#[test]
fn the_latest_checkpoint_is_that_of_the_actor_itself() {
    let a = ActorId("a".into());
    let entries: Vec<(String, Vec<u8>)> = [
        snapshot("a", 1, b"one", 10),
        snapshot("a", 2, b"two", 50),
        snapshot("a:b", 9, b"nine", 30),
    ]
    .iter()
    .map(|s| s.save().unwrap())
    .collect();
    let latest = ActorSnapshot::load_latest(&entries, &a).unwrap().unwrap();
    assert_eq!(latest.actor_id.0, "a");
    assert_eq!(latest.sequence, 2);
    let latest =
        ActorSnapshot::load_latest(&entries, &ActorId("a:b".into())).unwrap().unwrap();
    assert_eq!(latest.state, b"nine");
}

#[test]
fn compaction_by_latest_checkpoints_cuts_more() {
    let mut log = Log::open(Vec::new());
    let ts = HlcTimestamp::from_parts(1000, 0);
    log.append(ts, b"one");
    let first = log.writer.current_offset();
    log.append(ts, b"two");
    let second = log.writer.current_offset();
    log.append(ts, b"three");
    let end = log.writer.current_offset();

    let mut store: BTreeMap<String, Vec<u8>> = BTreeMap::new();
    for s in [
        snapshot("a", 1, b"", first),
        snapshot("a", 2, b"", second),
        snapshot("b", 1, b"", second),
    ] {
        let (key, value) = s.save().unwrap();
        store.insert(key, value);
    }
    store.insert("ckpt:zz:broken".to_string(), vec![1]);
    let entries: Vec<(String, Vec<u8>)> = store.into_iter().collect();
    let (old, c) = latest::WalCompactor::new(end, 1).compact(&log.bytes, &entries);
    let c = c.unwrap();
    assert_eq!(old, vec![checkpoint_key(&ActorId("a".into()), 1)]);
    assert_eq!(c.reclaimed, second);
    let kept = WalReader::open(c.log.unwrap()).read_from(0).unwrap();
    assert_eq!(kept.len(), 1);
    assert_eq!(kept[0].1, b"three");

    // Where every checkpoint counts, the first one holds the log back.
    let (none, refused) = WalCompactor::new(end, 1).compact(&log.bytes, &entries);
    assert!(none.is_empty());
    assert!(matches!(refused, Err(ActantError::Serialization(_))));
    let readable: Vec<(String, Vec<u8>)> = entries.iter().take(3).cloned().collect();
    let (old, all) = WalCompactor::new(end, 1).compact(&log.bytes, &readable);
    assert_eq!(old, vec![checkpoint_key(&ActorId("a".into()), 1)]);
    assert_eq!(all.unwrap().reclaimed, first);

    // The checkpoints go even where the log is needed whole; by the latest ones, they stay.
    let (old, whole) = WalCompactor::new(first, 0).compact(&log.bytes, &readable);
    assert_eq!(old.len(), 1);
    assert!(whole.unwrap().log.is_none());
    let (old, whole) = latest::WalCompactor::new(first, 1).compact(&log.bytes, &readable);
    assert!(old.is_empty());
    assert_eq!(whole.unwrap().reclaimed, 0);
}

#[test]
fn event_keys_sort_as_events_do() {
    let topic = "t".to_string();
    let a = EventId { timestamp: HlcTimestamp::from_parts(9, 9), sequence: 9 };
    let b = EventId { timestamp: HlcTimestamp::from_parts(10, 0), sequence: 1 };
    let c = EventId { timestamp: HlcTimestamp::from_parts(10, 0), sequence: 10 };
    assert!(a.is_before(&b) && b.is_before(&c));
    assert!(event_key(&topic, &a) < event_key(&topic, &b));
    assert!(event_key(&topic, &b) < event_key(&topic, &c));
    assert!(event_key(&topic, &a).starts_with(&event_prefix(&topic)));
    assert!(EventId::zero().is_before(&a));
}

#[test]
fn stored_events_round_trip() {
    let id = EventId { timestamp: HlcTimestamp::from_parts(3, 4), sequence: 5 };
    let bytes = id.to_stored().unwrap();
    assert_eq!(EventId::from_stored(&bytes).unwrap(), id);
    let entry = LogEntry { id, topic: "t".into(), payload: vec![9, 8] };
    let bytes = entry.to_stored().unwrap();
    assert_ne!(bytes, entry.payload);
    let back = LogEntry::from_stored(&bytes).unwrap();
    assert_eq!(back.id.sequence, 5);
    assert_eq!(back.topic, "t");
    assert_eq!(back.payload, vec![9, 8]);
    assert!(LogEntry::from_stored(&vec![0xff]).is_none());
}

#[test]
fn unreadable_event_is_an_error() {
    let topic = "t".to_string();
    let stored = vec![(event_key(&topic, &EventId::zero()), vec![0xff])];
    assert!(journal::read_after(&stored, &topic, None).is_err());
    assert!(journal::latest(&stored, &topic).is_err());
    assert!(journal::latest(&vec![], &topic).unwrap().is_none());
    // What is under another topic's key is not looked at.
    assert!(journal::read_after(&stored, &"u".to_string(), None).unwrap().is_empty());
}
