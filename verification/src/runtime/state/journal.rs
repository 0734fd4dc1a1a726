//! An event log over a key-value store: what is written for an event, and what is made of
//! what is read.
use vstd::prelude::*;
use vstd::string::*;

use crate::common::{copy_bytes, ActantError};
use crate::runtime::state::event_log;
use crate::runtime::state::event_log::{
    event_key, is_event_key, EventId, LogEntry, LogEntryView,
};
use crate::runtime::state::hlc;
use crate::runtime::state::hlc::{HlcTimestamp, HybridLogicalClock};
use crate::table::Table;

verus! {

/// The bytes that `postcard::to_allocvec` gives for the parts of an entry.
pub uninterp spec fn postcard_entry_bytes(
    wall_time: u64,
    logical: u32,
    sequence: u64,
    topic: Seq<char>,
    payload: Seq<u8>,
) -> Option<Seq<u8>>;

/// The parts of an entry that `postcard::from_bytes` reads from bytes.
pub uninterp spec fn postcard_entry_value(bytes: Seq<u8>) -> Option<
    ((u64, u32), u64, Seq<char>, Seq<u8>),
>;

/// `postcard::to_allocvec` on the parts of an entry. What it writes,
/// `postcard::from_bytes` reads back.
#[verifier::external_body]
fn postcard_encode_entry(time: (u64, u32), sequence: u64, topic: &String, payload: &Vec<u8>) -> (r:
    Option<Vec<u8>>)
    ensures
        match r {
            Some(bytes) => postcard_entry_bytes(time.0, time.1, sequence, topic@, payload@)
                == Some(bytes@) && postcard_entry_value(bytes@) == Some(
                (time, sequence, topic@, payload@),
            ),
            None => postcard_entry_bytes(time.0, time.1, sequence, topic@, payload@) is None,
        },
{
    postcard::to_allocvec(&(time, sequence, topic, payload)).ok()
}

/// `postcard::from_bytes` for the parts of an entry.
#[verifier::external_body]
fn postcard_decode_entry(bytes: &Vec<u8>) -> (r: Option<((u64, u32), u64, String, Vec<u8>)>)
    ensures
        match r {
            Some(v) => postcard_entry_value(bytes@) == Some((v.0, v.1, v.2@, v.3@)),
            None => postcard_entry_value(bytes@) is None,
        },
{
    postcard::from_bytes::<((u64, u32), u64, String, Vec<u8>)>(bytes).ok()
}

/// The bytes that `postcard::to_allocvec` gives for the parts of an identifier.
pub uninterp spec fn postcard_id_bytes(wall_time: u64, logical: u32, sequence: u64) -> Option<
    Seq<u8>,
>;

/// The parts of an identifier that `postcard::from_bytes` reads from bytes.
pub uninterp spec fn postcard_id_value(bytes: Seq<u8>) -> Option<((u64, u32), u64)>;

/// `postcard::to_allocvec` on the parts of an identifier. What it writes,
/// `postcard::from_bytes` reads back.
#[verifier::external_body]
fn postcard_encode_id(time: (u64, u32), sequence: u64) -> (r: Option<Vec<u8>>)
    ensures
        match r {
            Some(bytes) => postcard_id_bytes(time.0, time.1, sequence) == Some(bytes@)
                && postcard_id_value(bytes@) == Some((time, sequence)),
            None => postcard_id_bytes(time.0, time.1, sequence) is None,
        },
{
    postcard::to_allocvec(&(time, sequence)).ok()
}

/// `postcard::from_bytes` for the parts of an identifier.
#[verifier::external_body]
fn postcard_decode_id(bytes: &Vec<u8>) -> (r: Option<((u64, u32), u64)>)
    ensures
        r == postcard_id_value(bytes@),
{
    postcard::from_bytes::<((u64, u32), u64)>(bytes).ok()
}

/// The identifier that bytes hold.
pub open spec fn id_of(bytes: Seq<u8>) -> Option<EventId> {
    match postcard_id_value(bytes) {
        Some(v) => Some(
            EventId {
                timestamp: HlcTimestamp { wall_time: v.0.0, logical: v.0.1 },
                sequence: v.1,
            },
        ),
        None => None,
    }
}

impl EventId {
    /// The identifier as bytes. They hold the identifier.
    pub fn to_stored(&self) -> (r: Option<Vec<u8>>)
        ensures
            match r {
                Some(bytes) => id_of(bytes@) == Some(*self) && postcard_id_bytes(
                    self.timestamp.wall_time,
                    self.timestamp.logical,
                    self.sequence,
                ) == Some(bytes@),
                None => postcard_id_bytes(
                    self.timestamp.wall_time,
                    self.timestamp.logical,
                    self.sequence,
                ) is None,
            },
    {
        postcard_encode_id((self.timestamp.wall_time, self.timestamp.logical), self.sequence)
    }

    /// The identifier that bytes hold.
    pub fn from_stored(bytes: &Vec<u8>) -> (r: Option<EventId>)
        ensures
            r == id_of(bytes@),
    {
        match postcard_decode_id(bytes) {
            Some((time, sequence)) => Some(
                EventId {
                    timestamp: HlcTimestamp { wall_time: time.0, logical: time.1 },
                    sequence,
                },
            ),
            None => None,
        }
    }
}

/// The entry that bytes hold.
pub open spec fn entry_of(bytes: Seq<u8>) -> Option<LogEntryView> {
    match postcard_entry_value(bytes) {
        Some(v) => Some(
            LogEntryView {
                id: EventId {
                    timestamp: HlcTimestamp { wall_time: v.0.0, logical: v.0.1 },
                    sequence: v.1,
                },
                topic: v.2,
                payload: v.3,
            },
        ),
        None => None,
    }
}

impl LogEntry {
    /// The entry as bytes. They hold the entry.
    pub fn to_stored(&self) -> (r: Option<Vec<u8>>)
        ensures
            match r {
                Some(bytes) => entry_of(bytes@) == Some(self@) && postcard_entry_bytes(
                    self.id.timestamp.wall_time,
                    self.id.timestamp.logical,
                    self.id.sequence,
                    self.topic@,
                    self.payload@,
                ) == Some(bytes@),
                None => postcard_entry_bytes(
                    self.id.timestamp.wall_time,
                    self.id.timestamp.logical,
                    self.id.sequence,
                    self.topic@,
                    self.payload@,
                ) is None,
            },
    {
        postcard_encode_entry(
            (self.id.timestamp.wall_time, self.id.timestamp.logical),
            self.id.sequence,
            &self.topic,
            &self.payload,
        )
    }

    /// The entry that bytes hold.
    pub fn from_stored(bytes: &Vec<u8>) -> (r: Option<LogEntry>)
        ensures
            match r {
                Some(e) => entry_of(bytes@) == Some(e@),
                None => entry_of(bytes@) is None,
            },
    {
        match postcard_decode_entry(bytes) {
            Some((time, sequence, topic, payload)) => Some(
                LogEntry {
                    id: EventId {
                        timestamp: HlcTimestamp { wall_time: time.0, logical: time.1 },
                        sequence,
                    },
                    topic,
                    payload,
                },
            ),
            None => None,
        }
    }
}

/// What bytes hold, value by value.
pub open spec fn entries_of(values: Seq<Vec<u8>>) -> Seq<Option<LogEntryView>> {
    Seq::new(values.len(), |i: int| entry_of(values[i]@))
}

/// For each topic the greatest number among the entries that could be decoded.
pub open spec fn last_sequences(entries: Seq<Option<LogEntryView>>) -> Map<Seq<char>, u64>
    decreases entries.len(),
{
    if entries.len() == 0 {
        Map::empty()
    } else {
        let init = last_sequences(entries.drop_last());
        match entries.last() {
            Some(e) => if init.contains_key(e.topic) && init[e.topic] >= e.id.sequence {
                init
            } else {
                init.insert(e.topic, e.id.sequence)
            },
            None => init,
        }
    }
}

/// Every entry that could be decoded has a number no greater than the one kept for its
/// topic.
pub proof fn law_sequences_cover_entries(entries: Seq<Option<LogEntryView>>, i: int)
    requires
        0 <= i < entries.len(),
    ensures
        entries[i] matches Some(e) ==> last_sequences(entries).contains_key(e.topic)
            && e.id.sequence <= last_sequences(entries)[e.topic],
    decreases entries.len(),
{
    if i < entries.len() - 1 {
        law_sequences_cover_entries(entries.drop_last(), i);
        assert(entries.drop_last()[i] == entries[i]);
    }
}

/// The values of entries that may be missing.
pub open spec fn option_views(entries: Seq<Option<LogEntry>>) -> Seq<Option<LogEntryView>> {
    Seq::new(
        entries.len(),
        |i: int|
            match entries[i] {
                Some(e) => Some(e@),
                None => None,
            },
    )
}

/// What bytes hold, value by value.
fn decode_entries(values: &Vec<Vec<u8>>) -> (entries: Vec<Option<LogEntry>>)
    ensures
        option_views(entries@) == entries_of(values@),
{
    let mut entries: Vec<Option<LogEntry>> = Vec::new();
    let mut i: usize = 0;
    while i < values.len()
        invariant
            i <= values@.len(),
            option_views(entries@) == entries_of(values@).take(i as int),
        decreases values@.len() - i,
    {
        let ghost before = entries@;
        let ghost view = entry_of(values@[i as int]@);
        entries.push(LogEntry::from_stored(&values[i]));
        proof {
            assert(option_views(entries@) =~= option_views(before).push(view));
            assert(entries_of(values@).take(i + 1) =~= entries_of(values@).take(i as int).push(
                view,
            ));
        }
        i += 1;
    }
    assert(entries_of(values@).take(i as int) =~= entries_of(values@));
    entries
}

/// What an event is appended with: its identifier, its key, and its bytes.
#[derive(Debug)]
pub struct PreparedEvent {
    pub id: EventId,
    pub key: String,
    pub value: Vec<u8>,
}

/// Numbers and stamps the events that are appended to a store.
pub struct EventJournal {
    pub clock: HybridLogicalClock,
    pub sequences: Table<u64>,
}

impl EventJournal {
    /// The table of numbers is in order.
    pub open spec fn wf(&self) -> bool {
        self.sequences.wf()
    }

    /// A journal that goes on after the entries that are stored. What cannot be decoded is
    /// passed over.
    pub fn open(values: &Vec<Vec<u8>>) -> (j: Self)
        ensures
            j.wf(),
            j.clock.last == (HlcTimestamp { wall_time: 0, logical: 0 }),
            j.sequences@ == last_sequences(entries_of(values@)),
    {
        let entries = decode_entries(values);
        EventJournal::open_with(&entries)
    }

    /// A journal that goes on after the given entries.
    pub fn open_with(entries: &Vec<Option<LogEntry>>) -> (j: Self)
        ensures
            j.wf(),
            j.clock.last == (HlcTimestamp { wall_time: 0, logical: 0 }),
            j.sequences@ == last_sequences(option_views(entries@)),
    {
        let ghost views = option_views(entries@);
        let mut sequences: Table<u64> = Table::new();
        let mut i: usize = 0;
        assert(sequences@ =~= last_sequences(views.take(0)));
        while i < entries.len()
            invariant
                i <= entries@.len(),
                views == option_views(entries@),
                sequences.wf(),
                sequences@ == last_sequences(views.take(i as int)),
            decreases entries@.len() - i,
        {
            proof {
                assert(views.take(i + 1).drop_last() =~= views.take(i as int));
                assert(views.take(i + 1).last() == views[i as int]);
            }
            if let Some(e) = &entries[i] {
                let covered = match sequences.get(&e.topic) {
                    Some(n) => *n >= e.id.sequence,
                    None => false,
                };
                if !covered {
                    sequences.insert(e.topic.clone(), e.id.sequence);
                }
            }
            i += 1;
        }
        assert(views.take(i as int) =~= views);
        EventJournal { clock: HybridLogicalClock::new(), sequences }
    }

    /// Prepares an event at physical time `physical`. Its number is used up even where the
    /// event cannot be serialised.
    pub fn prepare(&mut self, topic: &String, payload: &Vec<u8>, physical: u64) -> (r: Result<
        PreparedEvent,
        ActantError,
    >)
        requires
            old(self).wf(),
            physical > old(self).clock.last.wall_time || old(self).clock.last.logical < u32::MAX,
            event_log::next_sequence(old(self).sequences@, topic@) <= u64::MAX,
        ensures
            final(self).wf(),
            ({
                let id = EventId {
                    timestamp: hlc::ticked(old(self).clock.last, physical),
                    sequence: event_log::next_sequence(old(self).sequences@, topic@) as u64,
                };
                let bytes = postcard_entry_bytes(
                    id.timestamp.wall_time,
                    id.timestamp.logical,
                    id.sequence,
                    topic@,
                    payload@,
                );
                if topic@.len() == 0 {
                    &&& r matches Err(e)
                    &&& event_log::empty_topic(e)
                    &&& final(self).clock.last == old(self).clock.last
                    &&& final(self).sequences@ == old(self).sequences@
                } else {
                    &&& final(self).clock.last == id.timestamp
                    &&& final(self).sequences@ == old(self).sequences@.insert(topic@, id.sequence)
                    &&& match r {
                        Ok(p) => {
                            &&& p.id == id
                            &&& p.key@ == event_log::key_text(topic@, id)
                            &&& bytes == Some(p.value@)
                            &&& entry_of(p.value@) == Some(
                                LogEntryView { id, topic: topic@, payload: payload@ },
                            )
                        },
                        Err(e) => e is Serialization && bytes is None,
                    }
                }
            }),
    {
        if topic.as_str().is_empty() {
            return Err(ActantError::Config("event topic must not be empty".to_owned()));
        }
        let timestamp = self.clock.tick_at(physical);
        let sequence: u64 = match self.sequences.get(topic) {
            Some(n) => *n + 1,
            None => 1,
        };
        self.sequences.insert(topic.clone(), sequence);
        let id = EventId { timestamp, sequence };
        let entry = LogEntry { id, topic: topic.clone(), payload: copy_bytes(payload) };
        match entry.to_stored() {
            Some(value) => Ok(PreparedEvent { id, key: event_key(topic, &id), value }),
            None => Err(ActantError::Serialization("failed to serialize event".to_owned())),
        }
    }
}

/// Every entry could be decoded.
pub open spec fn all_decoded(entries: Seq<Option<LogEntryView>>) -> bool {
    forall|i: int| 0 <= i < entries.len() ==> (#[trigger] entries[i]) is Some
}

/// The entries that could be decoded.
pub open spec fn plain(entries: Seq<Option<LogEntryView>>) -> Seq<LogEntryView> {
    Seq::new(entries.len(), |i: int| entries[i]->0)
}

/// The entries after `after` among those that were read, all of which have to be whole.
pub fn select_after(entries: Vec<Option<LogEntry>>, after: Option<&EventId>) -> (r: Result<
    Vec<LogEntry>,
    ActantError,
>)
    ensures
        match r {
            Ok(list) => {
                &&& all_decoded(option_views(entries@))
                &&& event_log::entry_views(list@) == event_log::entries_after(
                    plain(option_views(entries@)),
                    event_log::position(after),
                )
            },
            Err(e) => e is Serialization && !all_decoded(option_views(entries@)),
        },
{
    let ghost views = option_views(entries@);
    let ghost p = event_log::position(after);
    let mut list: Vec<LogEntry> = Vec::new();
    let mut i: usize = 0;
    assert(plain(views).take(0) =~= Seq::empty());
    assert(event_log::entry_views(list@) =~= event_log::entries_after(plain(views).take(0), p));
    while i < entries.len()
        invariant
            i <= entries@.len(),
            views == option_views(entries@),
            p == event_log::position(after),
            forall|j: int| 0 <= j < i ==> (#[trigger] views[j]) is Some,
            event_log::entry_views(list@) == event_log::entries_after(
                plain(views).take(i as int),
                p,
            ),
        decreases entries@.len() - i,
    {
        match &entries[i] {
            Some(e) => {
                let ghost before = list@;
                proof {
                    assert(plain(views).take(i + 1).drop_last() =~= plain(views).take(i as int));
                    assert(plain(views).take(i + 1).last() == e@);
                    assert(views[i as int] is Some);
                }
                let take = match after {
                    Some(id) => id.is_before(&e.id),
                    None => true,
                };
                if take {
                    list.push(e.copy());
                    assert(event_log::entry_views(list@) =~= event_log::entry_views(before).push(
                        e@,
                    ));
                }
            },
            None => {
                assert(views[i as int] is None);
                return Err(ActantError::Serialization("failed to decode event".to_owned()));
            },
        }
        i += 1;
    }
    assert(plain(views).take(i as int) =~= plain(views));
    Ok(list)
}

/// The values under the keys of a topic, in the order of `stored`.
pub open spec fn topic_values(stored: Seq<(String, Vec<u8>)>, topic: Seq<char>) -> Seq<Seq<u8>>
    decreases stored.len(),
{
    if stored.len() == 0 {
        Seq::empty()
    } else {
        let init = topic_values(stored.drop_last(), topic);
        if event_log::is_key_of(stored.last().0@, topic) {
            init.push(stored.last().1@)
        } else {
            init
        }
    }
}

/// What the values under the keys of a topic hold.
pub open spec fn topic_entries(
    stored: Seq<(String, Vec<u8>)>,
    topic: Seq<char>,
) -> Seq<Option<LogEntryView>> {
    let values = topic_values(stored, topic);
    Seq::new(values.len(), |i: int| entry_of(values[i]))
}

/// What the values under the keys of a topic hold.
fn decode_topic(stored: &Vec<(String, Vec<u8>)>, topic: &String) -> (entries: Vec<
    Option<LogEntry>,
>)
    ensures
        option_views(entries@) == topic_entries(stored@, topic@),
{
    let mut entries: Vec<Option<LogEntry>> = Vec::new();
    let mut i: usize = 0;
    assert(option_views(entries@) =~= topic_entries(stored@.take(0), topic@));
    while i < stored.len()
        invariant
            i <= stored@.len(),
            option_views(entries@) == topic_entries(stored@.take(i as int), topic@),
        decreases stored@.len() - i,
    {
        let ghost before = entries@;
        proof {
            assert(stored@.take(i + 1).drop_last() =~= stored@.take(i as int));
            assert(stored@.take(i + 1).last() == stored@[i as int]);
        }
        if is_event_key(&stored[i].0, topic) {
            entries.push(LogEntry::from_stored(&stored[i].1));
            proof {
                let view = entry_of(stored@[i as int].1@);
                assert(option_views(entries@) =~= option_views(before).push(view));
                assert(topic_entries(stored@.take(i + 1), topic@) =~= topic_entries(
                    stored@.take(i as int),
                    topic@,
                ).push(view));
            }
        }
        i += 1;
    }
    assert(stored@.take(i as int) =~= stored@);
    entries
}

/// The events of a topic after `after`, among what is stored under keys that start as those
/// of the topic do.
pub fn read_after(
    stored: &Vec<(String, Vec<u8>)>,
    topic: &String,
    after: Option<&EventId>,
) -> (r: Result<Vec<LogEntry>, ActantError>)
    ensures
        match r {
            Ok(list) => {
                &&& all_decoded(topic_entries(stored@, topic@))
                &&& event_log::entry_views(list@) == event_log::entries_after(
                    plain(topic_entries(stored@, topic@)),
                    event_log::position(after),
                )
            },
            Err(e) => e is Serialization && !all_decoded(topic_entries(stored@, topic@)),
        },
{
    let entries = decode_topic(stored, topic);
    select_after(entries, after)
}

/// The last event of a topic, from what is stored in the order of the keys.
pub fn latest(stored: &Vec<(String, Vec<u8>)>, topic: &String) -> (r: Result<
    Option<LogEntry>,
    ActantError,
>)
    ensures
        ({
            let values = topic_values(stored@, topic@);
            if values.len() == 0 {
                r matches Ok(None)
            } else {
                match r {
                    Ok(e) => e matches Some(x) && entry_of(values.last()) == Some(x@),
                    Err(e) => e is Serialization && entry_of(values.last()) is None,
                }
            }
        }),
{
    let mut last: Option<usize> = None;
    let mut i: usize = 0;
    while i < stored.len()
        invariant
            i <= stored@.len(),
            match last {
                Some(n) => {
                    &&& n < i
                    &&& topic_values(stored@.take(i as int), topic@).len() > 0
                    &&& topic_values(stored@.take(i as int), topic@).last()
                        == stored@[n as int].1@
                },
                None => topic_values(stored@.take(i as int), topic@).len() == 0,
            },
        decreases stored@.len() - i,
    {
        proof {
            assert(stored@.take(i + 1).drop_last() =~= stored@.take(i as int));
            assert(stored@.take(i + 1).last() == stored@[i as int]);
        }
        if is_event_key(&stored[i].0, topic) {
            last = Some(i);
        }
        i += 1;
    }
    assert(stored@.take(i as int) =~= stored@);
    match last {
        None => Ok(None),
        Some(n) => match LogEntry::from_stored(&stored[n].1) {
            Some(e) => Ok(Some(e)),
            None => Err(ActantError::Serialization("failed to decode event".to_owned())),
        },
    }
}

/// How many events a topic has, among what is stored under keys that start as those of the
/// topic do.
pub fn count(stored: &Vec<(String, Vec<u8>)>, topic: &String) -> (n: usize)
    ensures
        n == topic_values(stored@, topic@).len(),
{
    let mut n: usize = 0;
    let mut i: usize = 0;
    while i < stored.len()
        invariant
            i <= stored@.len(),
            n <= i,
            n == topic_values(stored@.take(i as int), topic@).len(),
        decreases stored@.len() - i,
    {
        proof {
            assert(stored@.take(i + 1).drop_last() =~= stored@.take(i as int));
            assert(stored@.take(i + 1).last() == stored@[i as int]);
        }
        if is_event_key(&stored[i].0, topic) {
            n += 1;
        }
        i += 1;
    }
    assert(stored@.take(i as int) =~= stored@);
    n
}

/// The values that were stored under `topic`, where `topics` says of each what it was stored
/// under.
pub open spec fn stored_under(
    stored: Seq<(String, Vec<u8>)>,
    topics: Seq<Seq<char>>,
    topic: Seq<char>,
) -> Seq<Seq<u8>>
    decreases stored.len(),
{
    if stored.len() == 0 {
        Seq::empty()
    } else {
        let init = stored_under(stored.drop_last(), topics, topic);
        if topics[stored.len() - 1] == topic {
            init.push(stored.last().1@)
        } else {
            init
        }
    }
}

/// Events are read and counted by topic: of what was stored under the keys of events, a
/// topic has what was stored under it, and nothing of any other topic.
pub proof fn law_events_are_kept_by_topic(
    stored: Seq<(String, Vec<u8>)>,
    topics: Seq<Seq<char>>,
    ids: Seq<EventId>,
    topic: Seq<char>,
)
    requires
        forall|i: int|
            0 <= i < stored.len() ==> (#[trigger] stored[i]).0@ == event_log::key_text(
                topics[i],
                ids[i],
            ),
    ensures
        topic_values(stored, topic) == stored_under(stored, topics, topic),
    decreases stored.len(),
{
    if stored.len() > 0 {
        let n = stored.len() - 1;
        assert forall|i: int| 0 <= i < n implies (#[trigger] stored.drop_last()[i]).0@
            == event_log::key_text(topics[i], ids[i]) by {
            assert(stored.drop_last()[i] == stored[i]);
        }
        law_events_are_kept_by_topic(stored.drop_last(), topics, ids, topic);
        event_log::law_topics_isolated(topic, topics[n], ids[n]);
        assert(stored[n] == stored.last());
    }
}

/// After a restart the numbers of a topic go on after every number that is stored.
pub proof fn law_sequence_continues(
    entries: Seq<Option<LogEntryView>>,
    topic: Seq<char>,
    i: int,
)
    requires
        0 <= i < entries.len(),
        entries[i] matches Some(e) && e.topic == topic,
    ensures
        event_log::next_sequence(last_sequences(entries), topic) > entries[i]->0.id.sequence,
{
    law_sequences_cover_entries(entries, i);
}

} // verus!
