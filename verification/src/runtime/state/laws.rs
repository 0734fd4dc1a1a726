//! What holds of logs, checkpoints, batches and replicated values.
use vstd::prelude::*;

use crate::common::{ActantError, NodeId};
use crate::runtime::state::batch;
use crate::runtime::state::batch::BatchEntry;
use crate::runtime::state::checkpoint;
use crate::runtime::state::checkpoint::Compaction;
use crate::runtime::state::crdt;
use crate::runtime::state::crdt::{Crdt, GCounter, Keyed, LWWRegister, ORSet, Written};
use crate::runtime::state::event_log;
use crate::runtime::state::event_log::{EventId, LogEntryView};
use crate::runtime::state::hlc;
use crate::runtime::state::hlc::HlcTimestamp;
use crate::runtime::state::journal;
use crate::runtime::state::wal;
use crate::runtime::state::wal::{EntryHeader, EntryView, ScanEnd};
use crate::store;
use crate::text;

verus! {

/// Reading a log ends at the first entry that is not what was written, and what stands before it
/// is read in full: data with another checksum ends it in silence, so that nothing behind it is
/// taken for an entry; a length beyond the limit, and data that is not whole, are errors.
pub proof fn law_damaged_log_is_read_up_to_the_damage(
    entries: Seq<EntryView>,
    h: EntryHeader,
    data: Seq<u8>,
    rest: Seq<u8>,
    offset: int,
    limit: u32,
)
    requires
        forall|i: int| 0 <= i < entries.len() ==> (#[trigger] entries[i]).data.len() <= limit,
        0 <= offset,
        offset + wal::frames(entries).len() <= u64::MAX,
    ensures
        ({
            let s = wal::scan(
                wal::frames(entries) + (wal::header_bytes(h) + (data + rest)),
                offset,
                limit,
            );
            &&& h.len > limit ==> s.entries == entries && s.end == (ScanEnd::TooLong {
                offset: (offset + wal::frames(entries).len()) as u64,
                len: h.len,
            })
            &&& h.len <= limit && data.len() + rest.len() < h.len ==> s.entries == entries && s.end
                == ScanEnd::Cut
            &&& h.len <= limit && data.len() == h.len && (wal::xxh3(data) as u32) != h.checksum
                ==> s.entries == entries && s.end == ScanEnd::Stopped
            &&& h.len <= limit && data.len() == h.len && (wal::xxh3(data) as u32) == h.checksum
                ==> s.entries.len() > entries.len() && s.entries.take(entries.len() as int)
                == entries && s.entries[entries.len() as int] == (EntryView {
                timestamp: h.timestamp,
                data,
            })
        }),
{
    let tail = wal::header_bytes(h) + (data + rest);
    let at = offset + wal::frames(entries).len();
    wal::law_appended_entries_are_read(entries, tail, offset, limit);
    wal::law_header_round_trip(h, data + rest);
    let t = wal::scan(tail, at, limit);
    let size = wal::ENTRY_HEADER_SIZE + h.len;
    let s = wal::scan(wal::frames(entries) + tail, offset, limit);
    assert(s.entries == entries + t.entries);
    if h.len <= limit && data.len() == h.len {
        assert(tail.subrange(wal::ENTRY_HEADER_SIZE as int, size) =~= data);
        if (wal::xxh3(data) as u32) == h.checksum {
            assert(t.entries.len() > 0);
            assert(t.entries[0] == (EntryView { timestamp: h.timestamp, data }));
            assert(s.entries.take(entries.len() as int) =~= entries);
        }
    }
    if t.entries.len() == 0 {
        assert(entries + t.entries =~= entries);
    }
}

/// A log is cut at the least offset that is still needed, where that is within the log and not
/// at its beginning; nowhere else.
pub proof fn law_log_is_cut_at_the_least_offset(offsets: Seq<u64>, current: u64)
    ensures
        wal::cut_offset(offsets, current) matches Some(cut) ==> {
            &&& 0 < cut < current
            &&& cut == u64::MAX || exists|i: int| 0 <= i < offsets.len() && #[trigger] offsets[i]
                == cut
            &&& forall|i: int| 0 <= i < offsets.len() ==> cut <= #[trigger] offsets[i]
        },
        wal::cut_offset(offsets, current) is None && offsets.len() > 0 ==> exists|i: int|
            0 <= i < offsets.len() && ((#[trigger] offsets[i]) == 0 || forall|j: int|
                0 <= j < offsets.len() ==> #[trigger] offsets[j] >= current),
        wal::cut_offset(Seq::empty(), current) is None,
{
    lemma_least(offsets);
    let least = wal::least_offset(offsets);
    if offsets.len() > 0 {
        let i = choose|i: int| 0 <= i < offsets.len() && #[trigger] offsets[i] == least;
        assert(offsets[i] == least);
    }
}

proof fn lemma_least(offsets: Seq<u64>)
    ensures
        forall|i: int| 0 <= i < offsets.len() ==> wal::least_offset(offsets) <= #[trigger] offsets[i],
        offsets.len() > 0 ==> exists|i: int|
            0 <= i < offsets.len() && #[trigger] offsets[i] == wal::least_offset(offsets),
    decreases offsets.len(),
{
    if offsets.len() > 0 {
        let init = offsets.drop_last();
        lemma_least(init);
        let least = wal::least_offset(offsets);
        assert(offsets[offsets.len() - 1] == offsets.last());
        assert forall|i: int| 0 <= i < offsets.len() implies least <= #[trigger] offsets[i] by {
            if i < init.len() {
                assert(init[i] == offsets[i]);
            }
        }
        if least != offsets.last() {
            if init.len() == 0 {
                assert(wal::least_offset(init) == u64::MAX);
                assert(offsets.last() <= u64::MAX);
            }
            let i = choose|i: int|
                0 <= i < init.len() && #[trigger] init[i] == wal::least_offset(init);
            assert(offsets[i] == least);
        }
    }
}

/// Compacting a log keeps what is needed: cut at an entry, it reads as the entries from there on
/// did, and what is cut off is told. A log that cannot be cut stays as it is.
pub proof fn law_compaction_keeps_entries(
    entries: Seq<EntryView>,
    n: int,
    offsets: Seq<u64>,
    current: u64,
    limit: u32,
    r: Result<Compaction, ActantError>,
)
    requires
        checkpoint::compacted(wal::frames(entries), offsets, current, limit, r),
        forall|i: int| 0 <= i < entries.len() ==> (#[trigger] entries[i]).data.len() <= limit,
        0 <= n <= entries.len(),
        wal::frames(entries).len() <= u64::MAX,
        wal::cut_offset(offsets, current) == Some(wal::offset_of(entries, n) as u64),
        wal::offset_of(entries, n) <= wal::frames(entries).len(),
    ensures
        r matches Ok(c) && {
            &&& c.reclaimed == wal::offset_of(entries, n)
            &&& c.log matches Some(kept)
            &&& kept@ == wal::frames(entries.skip(n))
            &&& wal::scan(kept@, 0, limit).entries == entries.skip(n)
        },
{
    wal::law_read_from_append_offset(entries, n, limit);
}

/// What a key holds after a batch of writes is what the last write to it says; a key that the
/// batch does not name holds what it held.
pub proof fn law_last_write_counts(
    store: Map<Seq<char>, Seq<u8>>,
    entries: Seq<BatchEntry>,
    k: Seq<char>,
    i: int,
)
    requires
        -1 <= i < entries.len(),
        forall|j: int|
            i < j < entries.len() ==> match #[trigger] entries[j] {
                BatchEntry::Put { key, .. } => key@ != k,
                BatchEntry::Delete { key } => key@ != k,
            },
    ensures
        i == -1 ==> (batch::batch_applied(store, entries).contains_key(k) <==> store.contains_key(k)),
        i == -1 && store.contains_key(k) ==> batch::batch_applied(store, entries)[k] == store[k],
        i >= 0 ==> match entries[i] {
            BatchEntry::Put { key, value } => key@ == k ==> batch::batch_applied(
                store,
                entries,
            ).contains_key(k) && batch::batch_applied(store, entries)[k] == value@,
            BatchEntry::Delete { key } => key@ == k ==> !batch::batch_applied(
                store,
                entries,
            ).contains_key(k),
        },
    decreases entries.len(),
{
    if entries.len() > 0 {
        let init = entries.drop_last();
        let last = entries.last();
        assert(entries[entries.len() - 1] == last);
        if i < init.len() {
            assert forall|j: int| i < j < init.len() implies match #[trigger] init[j] {
                BatchEntry::Put { key, .. } => key@ != k,
                BatchEntry::Delete { key } => key@ != k,
            } by {
                assert(entries[j] == init[j]);
            }
            law_last_write_counts(store, init, k, i);
            if i >= 0 {
                assert(init[i] == entries[i]);
            }
        }
    }
}

/// `a` was issued before `b`, by the wall clock, then by the counter, then by the number.
pub open spec fn issued_before(a: EventId, b: EventId) -> bool {
    ||| a.timestamp.wall_time < b.timestamp.wall_time
    ||| a.timestamp.wall_time == b.timestamp.wall_time && a.timestamp.logical < b.timestamp.logical
    ||| a.timestamp == b.timestamp && a.sequence < b.sequence
}

/// A reader gets each event that was issued after the one it has read up to, and no other, and
/// without such a place all of them; in the order in which they stand.
pub proof fn law_reader_gets_what_is_new(
    entries: Seq<LogEntryView>,
    after: Option<EventId>,
    e: LogEntryView,
)
    ensures
        event_log::entries_after(entries, after).contains(e) <==> entries.contains(e) && (after
            matches Some(id) ==> issued_before(id, e.id)),
        after is None ==> event_log::entries_after(entries, after) == entries,
        after matches Some(id) ==> (forall|i: int|
            0 <= i < entries.len() ==> issued_before(id, (#[trigger] entries[i]).id))
            ==> event_log::entries_after(entries, after) == entries,
    decreases entries.len(),
{
    let all = event_log::entries_after(entries, after);
    if entries.len() == 0 {
        assert(all =~= entries);
    } else {
        let init = entries.drop_last();
        let before = event_log::entries_after(init, after);
        law_reader_gets_what_is_new(init, after, e);
        assert(entries[entries.len() - 1] == entries.last());
        if init.contains(e) {
            assert(entries[init.index_of(e)] == e);
        }
        if entries.contains(e) && e != entries.last() {
            assert(init[entries.index_of(e)] == e);
        }
        if before.contains(e) {
            assert(all[before.index_of(e)] == e);
        }
        if all.len() > before.len() {
            assert(all[before.len() as int] == entries.last());
            if all.contains(e) && e != entries.last() {
                assert(before[all.index_of(e)] == e);
            }
        }
        assert(init.push(entries.last()) =~= entries);
        if let Some(id) = after {
            if forall|i: int|
                0 <= i < entries.len() ==> issued_before(id, (#[trigger] entries[i]).id) {
                assert forall|i: int| 0 <= i < init.len() implies issued_before(
                    id,
                    (#[trigger] init[i]).id,
                ) by {
                    assert(entries[i] == init[i]);
                }
            }
        }
    }
}

/// An event that is appended is the last of its topic, and no other topic changes. Its number is
/// one more than the last one of the topic, and one where it is the first.
pub proof fn law_appended_event_is_last(
    log: Map<Seq<char>, Seq<LogEntryView>>,
    e: LogEntryView,
    sequences: Map<Seq<char>, u64>,
    other: Seq<char>,
)
    ensures
        event_log::history(event_log::appended(log, e), e.topic) == event_log::history(
            log,
            e.topic,
        ).push(e),
        other != e.topic ==> event_log::history(event_log::appended(log, e), other)
            == event_log::history(log, other),
        !log.contains_key(other) ==> event_log::history(log, other).len() == 0,
        log.contains_key(other) ==> event_log::history(log, other) == log[other],
        sequences.contains_key(other) ==> event_log::next_sequence(sequences, other)
            == sequences[other] + 1,
        !sequences.contains_key(other) ==> event_log::next_sequence(sequences, other) == 1,
{
}

/// What is kept for a topic after a restart is the number of one of its events, and no event of
/// it has a greater one; a topic without events has none.
pub proof fn law_numbers_are_found_again(
    entries: Seq<Option<LogEntryView>>,
    topic: Seq<char>,
)
    ensures
        journal::last_sequences(entries).contains_key(topic) <==> exists|i: int|
            0 <= i < entries.len() && (#[trigger] entries[i]) is Some && entries[i]->0.topic == topic,
        journal::last_sequences(entries).contains_key(topic) ==> exists|i: int|
            0 <= i < entries.len() && (#[trigger] entries[i]) is Some && entries[i]->0.topic == topic
                && entries[i]->0.id.sequence == journal::last_sequences(entries)[topic],
    decreases entries.len(),
{
    if entries.len() > 0 {
        let init = entries.drop_last();
        law_numbers_are_found_again(init, topic);
        assert(entries[entries.len() - 1] == entries.last());
        if journal::last_sequences(init).contains_key(topic) {
            let i = choose|i: int|
                0 <= i < init.len() && (#[trigger] init[i]) is Some && init[i]->0.topic == topic
                    && init[i]->0.id.sequence == journal::last_sequences(init)[topic];
            assert(entries[i] == init[i]);
        }
        if exists|i: int|
            0 <= i < entries.len() && (#[trigger] entries[i]) is Some && entries[i]->0.topic == topic {
            let i = choose|i: int|
                0 <= i < entries.len() && (#[trigger] entries[i]) is Some && entries[i]->0.topic
                    == topic;
            if i < init.len() {
                assert(init[i] == entries[i]);
            }
        }
    }
}

/// Of an actor's checkpoints the one under its last key is read.
pub proof fn law_last_checkpoint_is_read(
    entries: Seq<(String, Vec<u8>)>,
    actor: Seq<char>,
    i: int,
)
    requires
        0 <= i < entries.len(),
        checkpoint::is_key_of(entries[i].0@, actor),
        forall|j: int|
            i < j < entries.len() ==> !checkpoint::is_key_of((#[trigger] entries[j]).0@, actor),
    ensures
        checkpoint::last_of(entries, actor) == Some(entries[i].1@),
    decreases entries.len(),
{
    if i < entries.len() - 1 {
        let init = entries.drop_last();
        assert(entries[entries.len() - 1] == entries.last());
        assert(init[i] == entries[i]);
        assert forall|j: int| i < j < init.len() implies !checkpoint::is_key_of(
            (#[trigger] init[j]).0@,
            actor,
        ) by {
            assert(entries[j] == init[j]);
        }
        law_last_checkpoint_is_read(init, actor, i);
    }
}

/// An actor without checkpoints has none to be read.
pub proof fn law_no_checkpoint_is_made_up(entries: Seq<(String, Vec<u8>)>, actor: Seq<char>)
    ensures
        checkpoint::last_of(entries, actor) is None <==> forall|j: int|
            0 <= j < entries.len() ==> !checkpoint::is_key_of((#[trigger] entries[j]).0@, actor),
    decreases entries.len(),
{
    if entries.len() > 0 {
        let init = entries.drop_last();
        law_no_checkpoint_is_made_up(init, actor);
        assert(entries[entries.len() - 1] == entries.last());
        if !checkpoint::is_key_of(entries.last().0@, actor) {
            if checkpoint::last_of(init, actor) is None {
                assert forall|j: int| 0 <= j < entries.len() implies !checkpoint::is_key_of(
                    (#[trigger] entries[j]).0@,
                    actor,
                ) by {
                    if j < init.len() {
                        assert(init[j] == entries[j]);
                    }
                }
            } else {
                let j = choose|j: int|
                    0 <= j < init.len() && checkpoint::is_key_of((#[trigger] init[j]).0@, actor);
                assert(entries[j] == init[j]);
            }
        }
    }
}

/// Dropping old checkpoints keeps as many of an actor's as asked for, the latest ones, or all
/// where there are no more than that: what is dropped and what stays make up its checkpoints, in
/// their order.
pub proof fn law_latest_checkpoints_are_kept(
    entries: Seq<(String, Vec<u8>)>,
    actor: Seq<char>,
    keep: int,
    k: Seq<char>,
)
    requires
        keep >= 0,
    ensures
        ({
            let own = checkpoint::own_keys(entries, actor);
            let old = checkpoint::old_keys(entries, actor, keep);
            let kept = own.skip(old.len() as int);
            &&& own == old + kept
            &&& own.len() <= keep ==> old.len() == 0
            &&& own.len() > keep ==> kept.len() == keep
            &&& own.contains(k) <==> exists|i: int|
                0 <= i < entries.len() && (#[trigger] entries[i]).0@ == k && checkpoint::is_key_of(
                    k,
                    actor,
                )
        }),
{
    let own = checkpoint::own_keys(entries, actor);
    let old = checkpoint::old_keys(entries, actor, keep);
    assert(own =~= old + own.skip(old.len() as int));
    lemma_own_keys(entries, actor, k);
}

proof fn lemma_own_keys(entries: Seq<(String, Vec<u8>)>, actor: Seq<char>, k: Seq<char>)
    ensures
        checkpoint::own_keys(entries, actor).contains(k) <==> exists|i: int|
            0 <= i < entries.len() && (#[trigger] entries[i]).0@ == k && checkpoint::is_key_of(
                k,
                actor,
            ),
    decreases entries.len(),
{
    if entries.len() > 0 {
        let init = entries.drop_last();
        let before = checkpoint::own_keys(init, actor);
        let all = checkpoint::own_keys(entries, actor);
        lemma_own_keys(init, actor, k);
        assert(entries[entries.len() - 1] == entries.last());
        if before.contains(k) {
            assert(all[before.index_of(k)] == k);
            let i = choose|i: int|
                0 <= i < init.len() && (#[trigger] init[i]).0@ == k && checkpoint::is_key_of(
                    k,
                    actor,
                );
            assert(entries[i] == init[i]);
        }
        if all.len() > before.len() {
            assert(all[before.len() as int] == entries.last().0@);
            if all.contains(k) && k != entries.last().0@ {
                assert(before[all.index_of(k)] == k);
            }
        }
        if exists|i: int|
            0 <= i < entries.len() && (#[trigger] entries[i]).0@ == k && checkpoint::is_key_of(
                k,
                actor,
            ) {
            let i = choose|i: int|
                0 <= i < entries.len() && (#[trigger] entries[i]).0@ == k && checkpoint::is_key_of(
                    k,
                    actor,
                );
            if i < init.len() {
                assert(init[i] == entries[i]);
            }
        }
    }
}

/// Each actor of a checkpoint that can be read is listed, once, and no other.
pub proof fn law_actors_are_listed(entries: Seq<(String, Vec<u8>)>, actor: Seq<char>)
    ensures
        checkpoint::stored_actors(entries).no_duplicates(),
        checkpoint::stored_actors(entries).contains(actor) <==> exists|i: int|
            {
                &&& 0 <= i < entries.len()
                &&& checkpoint::snapshot_of((#[trigger] entries[i]).1@) is Some
                &&& checkpoint::snapshot_of(entries[i].1@)->0.actor_id == actor
            },
    decreases entries.len(),
{
    if entries.len() > 0 {
        let init = entries.drop_last();
        let before = checkpoint::stored_actors(init);
        let all = checkpoint::stored_actors(entries);
        law_actors_are_listed(init, actor);
        assert(entries[entries.len() - 1] == entries.last());
        if before.contains(actor) {
            assert(all[before.index_of(actor)] == actor);
            let i = choose|i: int|
                {
                    &&& 0 <= i < init.len()
                    &&& checkpoint::snapshot_of((#[trigger] init[i]).1@) is Some
                    &&& checkpoint::snapshot_of(init[i].1@)->0.actor_id == actor
                };
            assert(entries[i] == init[i]);
        }
        if all.len() > before.len() {
            let last = checkpoint::snapshot_of(entries.last().1@)->0.actor_id;
            assert(all[before.len() as int] == last);
            if all.contains(actor) && actor != last {
                assert(before[all.index_of(actor)] == actor);
            }
            assert forall|i: int, j: int| 0 <= i < j < all.len() implies all[i] != all[j] by {
                assert(before[i] == all[i]);
                if j < before.len() {
                    assert(before[j] == all[j]);
                } else {
                    assert(before.contains(before[i]));
                }
            }
        }
        if exists|i: int|
            {
                &&& 0 <= i < entries.len()
                &&& checkpoint::snapshot_of((#[trigger] entries[i]).1@) is Some
                &&& checkpoint::snapshot_of(entries[i].1@)->0.actor_id == actor
            } {
            let i = choose|i: int|
                {
                    &&& 0 <= i < entries.len()
                    &&& checkpoint::snapshot_of((#[trigger] entries[i]).1@) is Some
                    &&& checkpoint::snapshot_of(entries[i].1@)->0.actor_id == actor
                };
            if i < init.len() {
                assert(init[i] == entries[i]);
            } else {
                if before.contains(actor) {
                    assert(all.contains(actor));
                } else {
                    assert(all[before.len() as int] == actor);
                }
            }
        }
    }
}

/// The log is still needed from the offset of each actor's latest checkpoint on, where that can
/// be read, and from nowhere else.
pub proof fn law_latest_checkpoints_need_the_log(
    entries: Seq<(String, Vec<u8>)>,
    actors: Seq<Seq<char>>,
    o: u64,
)
    ensures
        store::wal::latest_offsets(entries, actors).contains(o) <==> exists|i: int|
            {
                let bytes = checkpoint::last_of(entries, #[trigger] actors[i]);
                &&& 0 <= i < actors.len()
                &&& bytes is Some
                &&& checkpoint::snapshot_of(bytes->0) is Some
                &&& checkpoint::snapshot_of(bytes->0)->0.wal_offset == o
            },
    decreases actors.len(),
{
    if actors.len() > 0 {
        let init = actors.drop_last();
        let before = store::wal::latest_offsets(entries, init);
        let all = store::wal::latest_offsets(entries, actors);
        law_latest_checkpoints_need_the_log(entries, init, o);
        assert(actors[actors.len() - 1] == actors.last());
        if before.contains(o) {
            assert(all[before.index_of(o)] == o);
            let i = choose|i: int|
                {
                    let bytes = checkpoint::last_of(entries, #[trigger] init[i]);
                    &&& 0 <= i < init.len()
                    &&& bytes is Some
                    &&& checkpoint::snapshot_of(bytes->0) is Some
                    &&& checkpoint::snapshot_of(bytes->0)->0.wal_offset == o
                };
            assert(actors[i] == init[i]);
        }
        if all.len() > before.len() {
            if all.contains(o) && !before.contains(o) {
                let j = all.index_of(o);
                if j < before.len() {
                    assert(before[j] == o);
                }
                assert(all[before.len() as int] == o);
            }
        }
        if exists|i: int|
            {
                let bytes = checkpoint::last_of(entries, #[trigger] actors[i]);
                &&& 0 <= i < actors.len()
                &&& bytes is Some
                &&& checkpoint::snapshot_of(bytes->0) is Some
                &&& checkpoint::snapshot_of(bytes->0)->0.wal_offset == o
            } {
            let i = choose|i: int|
                {
                    let bytes = checkpoint::last_of(entries, #[trigger] actors[i]);
                    &&& 0 <= i < actors.len()
                    &&& bytes is Some
                    &&& checkpoint::snapshot_of(bytes->0) is Some
                    &&& checkpoint::snapshot_of(bytes->0)->0.wal_offset == o
                };
            if i < init.len() {
                assert(init[i] == actors[i]);
            } else {
                assert(all[before.len() as int] == o);
            }
        }
    }
}

/// A count of a node is only ever raised, and of two replicas the greater count stands. What a
/// node has not counted is none.
pub proof fn law_counts_are_raised(
    a: Map<Seq<char>, u64>,
    b: Map<Seq<char>, u64>,
    node: Seq<char>,
    count: u64,
    n: Seq<char>,
)
    ensures
        ({
            let old = if a.contains_key(n) {
                a[n] as int
            } else {
                0
            };
            let other = if b.contains_key(n) {
                b[n] as int
            } else {
                0
            };
            let r = crdt::raised(a, node, count);
            let g = crdt::greatest(a, b);
            &&& n == node ==> r.contains_key(n) && r[n] >= old && r[n] >= count && (r[n] == old
                || r[n] == count)
            &&& n != node ==> (r.contains_key(n) <==> a.contains_key(n)) && r[n] == a[n]
            &&& g.contains_key(n) <==> a.contains_key(n) || b.contains_key(n)
            &&& g.contains_key(n) ==> g[n] >= old && g[n] >= other && (g[n] == old || g[n] == other)
        }),
{
}

/// The value of a counter is the sum of the counts: it grows by as much as a count does.
pub proof fn law_counter_sums_up(
    order: Seq<Seq<char>>,
    counts: Map<Seq<char>, u64>,
    node: Seq<char>,
    count: u64,
)
    requires
        order.no_duplicates(),
    ensures
        crdt::total(Seq::empty(), counts) == 0,
        order.contains(node) ==> crdt::total(order, counts.insert(node, count)) == crdt::total(
            order,
            counts,
        ) - counts[node] + count,
        !order.contains(node) ==> crdt::total(order, counts.insert(node, count)) == crdt::total(
            order,
            counts,
        ),
        !order.contains(node) ==> crdt::total(order.push(node), counts) == crdt::total(
            order,
            counts,
        ) + counts[node],
    decreases order.len(),
{
    assert(order.push(node).drop_last() =~= order);
    if order.len() > 0 {
        let init = order.drop_last();
        assert(init.no_duplicates());
        law_counter_sums_up(init, counts, node, count);
        assert(order[order.len() - 1] == order.last());
        if order.last() == node {
            assert(!init.contains(node)) by {
                if init.contains(node) {
                    let i = init.index_of(node);
                    assert(order[i] == order[order.len() - 1]);
                }
            }
        } else {
            if order.contains(node) {
                assert(init[order.index_of(node)] == node);
            }
            if init.contains(node) {
                assert(order[init.index_of(node)] == node);
            }
        }
    }
}

/// A value is in a set that was brought together exactly where it was in one of the two, with
/// each node that had added it in either.
pub proof fn law_sets_are_united<K>(
    a: Map<K, Set<Seq<char>>>,
    b: Map<K, Set<Seq<char>>>,
    k: K,
    n: Seq<char>,
)
    ensures
        crdt::united(a, b).contains_key(k) <==> a.contains_key(k) || b.contains_key(k),
        crdt::united(a, b).contains_key(k) ==> (crdt::united(a, b)[k].contains(n) <==> (
        a.contains_key(k) && a[k].contains(n)) || (b.contains_key(k) && b[k].contains(n))),
{
}

/// A register holds what was written last, by the clock; at the same time, what the node with
/// the greater name wrote. What is there first stays where nothing later comes.
pub proof fn law_last_write_stands<K>(x: Written<K>, y: Written<K>)
    ensures
        ({
            let r = crdt::last_written(Some(x), Some(y));
            let later = x.timestamp.wall_time < y.timestamp.wall_time || (x.timestamp.wall_time
                == y.timestamp.wall_time && x.timestamp.logical < y.timestamp.logical);
            let sooner = y.timestamp.wall_time < x.timestamp.wall_time || (x.timestamp.wall_time
                == y.timestamp.wall_time && y.timestamp.logical < x.timestamp.logical);
            &&& later ==> r == Some(y)
            &&& sooner ==> r == Some(x)
            &&& x.timestamp == y.timestamp && text::text_lt(x.node, y.node) ==> r == Some(y)
            &&& x.timestamp == y.timestamp && !text::text_lt(x.node, y.node) ==> r == Some(x)
        }),
        crdt::last_written(None, Some(y)) == Some(y),
        crdt::last_written(Some(x), None) == Some(x),
        crdt::last_written::<K>(None, None) is None,
{
}

/// A clock that hears of a remote time within the drift that is allowed shows the greatest of the
/// three wall times and counts on: above the remote count where it shows the remote time, and
/// above its own where it shows its own.
pub proof fn law_store_clock_merges(
    last: HlcTimestamp,
    remote: HlcTimestamp,
    physical: u64,
    drift: u64,
)
    requires
        last.logical < u32::MAX,
        remote.logical < u32::MAX,
    ensures
        ({
            let t = store::hlc::merged(last, remote, physical, drift);
            let near = remote.wall_time <= physical + drift;
            &&& t.wall_time >= last.wall_time && t.wall_time >= physical
            &&& near ==> t.wall_time >= remote.wall_time
            &&& near ==> t.wall_time == last.wall_time || t.wall_time == physical || t.wall_time
                == remote.wall_time
            &&& !near ==> t.wall_time == last.wall_time || t.wall_time == physical || t.wall_time
                == physical + drift || t.wall_time == u64::MAX
            &&& t.wall_time == last.wall_time ==> t.logical > last.logical
            &&& near && t.wall_time == remote.wall_time ==> t.logical > remote.logical
            &&& near && t.wall_time == remote.wall_time && t.wall_time != last.wall_time
                && t.wall_time != physical ==> t.logical == remote.logical + 1
            &&& near && t.wall_time != remote.wall_time ==> t.logical == last.logical + 1
            &&& hlc::earlier(last, t)
        }),
{
}

/// Milliseconds are counted in nanoseconds, as far as these fit.
pub proof fn law_milliseconds_in_nanoseconds(ms: u64)
    ensures
        ms * 1_000_000 <= u64::MAX ==> hlc::nanos(ms) == ms * 1_000_000,
        ms * 1_000_000 > u64::MAX ==> hlc::nanos(ms) == u64::MAX,
{
}

/// The log is needed from the offset of every stored checkpoint on, where all can be read, so
/// that nothing that one of them needs is cut off.
pub proof fn law_every_checkpoint_needs_the_log(
    entries: Seq<(String, Vec<u8>)>,
    current: u64,
    i: int,
)
    requires
        checkpoint::all_readable(entries),
        0 <= i < entries.len(),
    ensures
        checkpoint::snapshot_of(entries[i].1@) is Some,
        wal::cut_offset(checkpoint::stored_offsets(entries), current) matches Some(cut) ==> cut
            <= checkpoint::snapshot_of(entries[i].1@)->0.wal_offset,
{
    let offsets = checkpoint::stored_offsets(entries);
    wal::law_cut_keeps_needed(offsets, current, i);
    assert(offsets[i] == checkpoint::snapshot_of(entries[i].1@)->0.wal_offset);
}

/// The events of a topic are read from what is stored under its keys: where all can be read, a
/// value under a key of the topic gives an event, and no other does.
pub proof fn law_topic_is_read_from_its_keys(
    stored: Seq<(String, Vec<u8>)>,
    topic: Seq<char>,
    e: LogEntryView,
)
    requires
        journal::all_decoded(journal::topic_entries(stored, topic)),
    ensures
        journal::plain(journal::topic_entries(stored, topic)).contains(e) <==> exists|i: int|
            {
                &&& 0 <= i < stored.len()
                &&& event_log::is_key_of((#[trigger] stored[i]).0@, topic)
                &&& journal::entry_of(stored[i].1@) == Some(e)
            },
{
    let values = journal::topic_values(stored, topic);
    let entries = journal::topic_entries(stored, topic);
    let list = journal::plain(entries);
    if list.contains(e) {
        let n = list.index_of(e);
        assert(entries[n] is Some);
        assert(values.contains(values[n]));
        lemma_topic_values(stored, topic, values[n]);
        let i = choose|i: int|
            {
                &&& 0 <= i < stored.len()
                &&& event_log::is_key_of((#[trigger] stored[i]).0@, topic)
                &&& stored[i].1@ == values[n]
            };
        assert(journal::entry_of(stored[i].1@) == Some(e));
    }
    if exists|i: int|
        {
            &&& 0 <= i < stored.len()
            &&& event_log::is_key_of((#[trigger] stored[i]).0@, topic)
            &&& journal::entry_of(stored[i].1@) == Some(e)
        } {
        let i = choose|i: int|
            {
                &&& 0 <= i < stored.len()
                &&& event_log::is_key_of((#[trigger] stored[i]).0@, topic)
                &&& journal::entry_of(stored[i].1@) == Some(e)
            };
        lemma_topic_values(stored, topic, stored[i].1@);
        let n = values.index_of(stored[i].1@);
        assert(entries[n] == Some(e));
        assert(list[n] == e);
    }
}

proof fn lemma_topic_values(stored: Seq<(String, Vec<u8>)>, topic: Seq<char>, b: Seq<u8>)
    ensures
        journal::topic_values(stored, topic).contains(b) <==> exists|i: int|
            {
                &&& 0 <= i < stored.len()
                &&& event_log::is_key_of((#[trigger] stored[i]).0@, topic)
                &&& stored[i].1@ == b
            },
    decreases stored.len(),
{
    if stored.len() > 0 {
        let init = stored.drop_last();
        let before = journal::topic_values(init, topic);
        let all = journal::topic_values(stored, topic);
        lemma_topic_values(init, topic, b);
        assert(stored[stored.len() - 1] == stored.last());
        if before.contains(b) {
            assert(all[before.index_of(b)] == b);
            let i = choose|i: int|
                {
                    &&& 0 <= i < init.len()
                    &&& event_log::is_key_of((#[trigger] init[i]).0@, topic)
                    &&& init[i].1@ == b
                };
            assert(stored[i] == init[i]);
        }
        if all.len() > before.len() {
            assert(all[before.len() as int] == stored.last().1@);
            if all.contains(b) && b != stored.last().1@ {
                assert(before[all.index_of(b)] == b);
            }
        }
        if exists|i: int|
            {
                &&& 0 <= i < stored.len()
                &&& event_log::is_key_of((#[trigger] stored[i]).0@, topic)
                &&& stored[i].1@ == b
            } {
            let i = choose|i: int|
                {
                    &&& 0 <= i < stored.len()
                    &&& event_log::is_key_of((#[trigger] stored[i]).0@, topic)
                    &&& stored[i].1@ == b
                };
            if i < init.len() {
                assert(init[i] == stored[i]);
            }
        }
    }
}

/// Adding a value to a set by a node leaves the value in it, added by this node too, and every
/// other value as it was.
pub proof fn law_value_is_added<T: Keyed>(
    before: ORSet<T>,
    after: ORSet<T>,
    node: NodeId,
    value: T,
    n: Seq<char>,
    k: T::K,
)
    requires
        before.applied((node, value), &after),
    ensures
        after@.contains_key(value.key()),
        after@[value.key()].contains(n) <==> n == node@ || (before@.contains_key(value.key())
            && before@[value.key()].contains(n)),
        k != value.key() ==> (after@.contains_key(k) <==> before@.contains_key(k)),
        k != value.key() && before@.contains_key(k) ==> after@[k] == before@[k],
{
}

/// Writing to a register leaves the later of what it held and what is written.
pub proof fn law_register_takes_the_later<T: Keyed>(
    before: LWWRegister<T>,
    after: LWWRegister<T>,
    node: NodeId,
    timestamp: HlcTimestamp,
    value: T,
)
    requires
        before.applied((node, timestamp, value), &after),
    ensures
        ({
            let new = Written { value: value.key(), timestamp, node: node@ };
            &&& before@ is None ==> after@ == Some(new)
            &&& before@ is Some && hlc::earlier((before@->0).timestamp, timestamp) ==> after@
                == Some(new)
            &&& before@ is Some && hlc::earlier(timestamp, (before@->0).timestamp) ==> after@
                == before@
            &&& after@ == Some(new) || after@ == before@
        }),
{
}

/// Counting for a node raises its count to the one given where that is more, and touches no
/// other node's; bringing counters together keeps the greater count of each node.
pub proof fn law_counter_is_raised(
    before: GCounter,
    other: GCounter,
    raised: GCounter,
    together: GCounter,
    node: NodeId,
    count: u64,
    n: Seq<char>,
)
    requires
        before.applied((node, count), &raised),
        before.joined(&other, &together),
    ensures
        raised.counts@.contains_key(node@),
        raised.counts@[node@] >= count,
        before.counts@.contains_key(node@) ==> raised.counts@[node@] >= before.counts@[node@],
        n != node@ && before.counts@.contains_key(n) ==> raised.counts@.contains_key(n)
            && raised.counts@[n] == before.counts@[n],
        before.counts@.contains_key(n) ==> together.counts@.contains_key(n) && together.counts@[n]
            >= before.counts@[n],
        other.counts@.contains_key(n) ==> together.counts@.contains_key(n) && together.counts@[n]
            >= other.counts@[n],
        before.counts@.contains_key(n) && other.counts@.contains_key(n) ==> together.counts@[n]
            == before.counts@[n] || together.counts@[n] == other.counts@[n],
{
}

/// What is dropped of the checkpoints of several actors is what is dropped of each of them.
pub proof fn law_old_checkpoints_of_all_are_dropped(
    entries: Seq<(String, Vec<u8>)>,
    actors: Seq<Seq<char>>,
    keep: int,
    k: Seq<char>,
)
    ensures
        checkpoint::all_old_keys(entries, actors, keep).contains(k) <==> exists|i: int|
            0 <= i < actors.len() && checkpoint::old_keys(
                entries,
                #[trigger] actors[i],
                keep,
            ).contains(k),
    decreases actors.len(),
{
    if actors.len() > 0 {
        let init = actors.drop_last();
        let before = checkpoint::all_old_keys(entries, init, keep);
        let own = checkpoint::old_keys(entries, actors.last(), keep);
        let all = checkpoint::all_old_keys(entries, actors, keep);
        law_old_checkpoints_of_all_are_dropped(entries, init, keep, k);
        assert(actors[actors.len() - 1] == actors.last());
        if before.contains(k) {
            assert(all[before.index_of(k)] == k);
            let i = choose|i: int|
                0 <= i < init.len() && checkpoint::old_keys(
                    entries,
                    #[trigger] init[i],
                    keep,
                ).contains(k);
            assert(actors[i] == init[i]);
        }
        if own.contains(k) {
            assert(all[before.len() + own.index_of(k)] == k);
        }
        if all.contains(k) {
            let j = all.index_of(k);
            if j < before.len() {
                assert(before[j] == k);
            } else {
                assert(own[j - before.len()] == k);
            }
        }
        if exists|i: int|
            0 <= i < actors.len() && checkpoint::old_keys(
                entries,
                #[trigger] actors[i],
                keep,
            ).contains(k) {
            let i = choose|i: int|
                0 <= i < actors.len() && checkpoint::old_keys(
                    entries,
                    #[trigger] actors[i],
                    keep,
                ).contains(k);
            if i < init.len() {
                assert(init[i] == actors[i]);
            }
        }
    }
}

} // verus!
