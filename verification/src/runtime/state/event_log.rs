//! The event log: ordered entries under topics.
use vstd::prelude::*;
use vstd::string::*;

use crate::common::{copy_bytes, ActantError};
use crate::keymap::KeyMap;
use crate::runtime::state::hlc;
use crate::runtime::state::hlc::{physical_now, HlcTimestamp, HybridLogicalClock};
use crate::text;
use crate::text::{push_fixed_width, without_prefix};

verus! {

/// Identifies an entry of the log: when it was appended, and its number in the topic.
#[derive(Debug, Clone, Copy, PartialEq, Eq, PartialOrd, Ord, Structural)]
pub struct EventId {
    pub timestamp: HlcTimestamp,
    pub sequence: u64,
}

/// `a` comes strictly before `b`: the timestamp decides, the number breaks ties.
pub open spec fn precedes(a: EventId, b: EventId) -> bool {
    hlc::earlier(a.timestamp, b.timestamp) || (a.timestamp == b.timestamp && a.sequence
        < b.sequence)
}

impl EventId {
    /// The identifier before all others.
    pub fn zero() -> (id: Self)
        ensures
            id == (EventId {
                timestamp: (HlcTimestamp { wall_time: 0, logical: 0 }),
                sequence: 0,
            }),
    {
        EventId { timestamp: HlcTimestamp::zero(), sequence: 0 }
    }

    /// Whether `self` comes strictly before `other`.
    pub fn is_before(&self, other: &EventId) -> (b: bool)
        ensures
            b == precedes(*self, *other),
    {
        self.timestamp.is_before(&other.timestamp) || (self.timestamp == other.timestamp
            && self.sequence < other.sequence)
    }
}

/// Identifiers are totally ordered, and none comes before zero.
pub proof fn law_event_ids_totally_ordered(a: EventId, b: EventId, c: EventId)
    ensures
        !precedes(a, a),
        precedes(a, b) ==> !precedes(b, a),
        a == b || precedes(a, b) || precedes(b, a),
        precedes(a, b) && precedes(b, c) ==> precedes(a, c),
        !precedes(
            a,
            EventId { timestamp: HlcTimestamp { wall_time: 0, logical: 0 }, sequence: 0 },
        ),
{
}

/// An entry of the log.
#[derive(Debug)]
pub struct LogEntry {
    pub id: EventId,
    pub topic: String,
    pub payload: Vec<u8>,
}

/// The mathematical value of a [`LogEntry`].
#[verifier::ext_equal]
pub struct LogEntryView {
    pub id: EventId,
    pub topic: Seq<char>,
    pub payload: Seq<u8>,
}

impl View for LogEntry {
    type V = LogEntryView;

    open spec fn view(&self) -> LogEntryView {
        LogEntryView { id: self.id, topic: self.topic@, payload: self.payload@ }
    }
}

impl LogEntry {
    /// A copy of the entry.
    pub fn copy(&self) -> (e: LogEntry)
        ensures
            e@ == self@,
    {
        LogEntry {
            id: self.id,
            topic: self.topic.clone(),
            payload: copy_bytes(&self.payload),
        }
    }
}

/// The values of entries.
pub open spec fn entry_views(entries: Seq<LogEntry>) -> Seq<LogEntryView> {
    Seq::new(entries.len(), |i: int| entries[i]@)
}

/// The entry is wanted by a reader that has read up to `after`.
pub open spec fn wanted(e: LogEntryView, after: Option<EventId>) -> bool {
    match after {
        Some(id) => precedes(id, e.id),
        None => true,
    }
}

/// The entries that are wanted, in order.
pub open spec fn entries_after(entries: Seq<LogEntryView>, after: Option<EventId>) -> Seq<
    LogEntryView,
>
    decreases entries.len(),
{
    if entries.len() == 0 {
        Seq::empty()
    } else {
        let init = entries_after(entries.drop_last(), after);
        if wanted(entries.last(), after) {
            init.push(entries.last())
        } else {
            init
        }
    }
}

/// Whether a reader that has read up to `after` wants the entry.
fn is_wanted(e: &LogEntry, after: Option<&EventId>) -> (b: bool)
    ensures
        b == wanted(
            e@,
            match after {
                Some(id) => Some(*id),
                None => None,
            },
        ),
{
    match after {
        Some(id) => id.is_before(&e.id),
        None => true,
    }
}

/// The entries of a topic; none where nothing was appended to it.
pub open spec fn history(
    log: Map<Seq<char>, Seq<LogEntryView>>,
    topic: Seq<char>,
) -> Seq<LogEntryView> {
    if log.contains_key(topic) {
        log[topic]
    } else {
        Seq::empty()
    }
}

/// `log` with an entry appended to its topic.
pub open spec fn appended(
    log: Map<Seq<char>, Seq<LogEntryView>>,
    e: LogEntryView,
) -> Map<Seq<char>, Seq<LogEntryView>> {
    log.insert(e.topic, history(log, e.topic).push(e))
}

/// The error for an empty topic.
pub open spec fn empty_topic(e: ActantError) -> bool {
    e matches ActantError::Config(m) && m@ == "event topic must not be empty"@
}

/// The option that holds what a reference points to.
pub open spec fn position(after: Option<&EventId>) -> Option<EventId> {
    match after {
        Some(id) => Some(*id),
        None => None,
    }
}

/// A log of events under topics.
pub trait EventLog {
    /// The entries under each topic.
    spec fn entries(&self) -> Map<Seq<char>, Seq<LogEntryView>>;

    /// The log is in order, and can be appended to.
    spec fn usable(&self) -> bool;

    /// Appends an event to a topic. Returns its identifier.
    fn append(&mut self, topic: &String, payload: &Vec<u8>) -> (r: Result<EventId, ActantError>)
        requires
            old(self).usable(),
        ensures
            topic@.len() == 0 ==> (r matches Err(e) && empty_topic(e)),
            match r {
                Ok(id) => final(self).entries() == appended(
                    old(self).entries(),
                    LogEntryView { id, topic: topic@, payload: payload@ },
                ),
                Err(_) => final(self).entries() == old(self).entries(),
            },
    ;

    /// The events of a topic after `after`; all of them without it.
    fn read_after(&self, topic: &String, after: Option<&EventId>) -> (r: Result<
        Vec<LogEntry>,
        ActantError,
    >)
        ensures
            r matches Ok(list) ==> entry_views(list@) == entries_after(
                history(self.entries(), topic@),
                position(after),
            ),
    ;

    /// The last event of a topic.
    fn latest(&self, topic: &String) -> (r: Result<Option<LogEntry>, ActantError>)
        ensures
            match r {
                Ok(Some(e)) => history(self.entries(), topic@).len() > 0 && e@ == history(
                    self.entries(),
                    topic@,
                ).last(),
                Ok(None) => history(self.entries(), topic@).len() == 0,
                Err(_) => true,
            },
    ;

    /// The number of events of a topic.
    fn count(&self, topic: &String) -> (r: Result<usize, ActantError>)
        ensures
            r matches Ok(n) ==> n == history(self.entries(), topic@).len(),
    ;
}

/// A log in memory.
#[derive(Debug)]
pub struct MemoryEventLog {
    pub topics: KeyMap<Vec<LogEntry>>,
    pub clock: HybridLogicalClock,
    pub sequences: KeyMap<u64>,
}

/// The entries under each topic.
pub open spec fn topic_views(m: Map<Seq<char>, Vec<LogEntry>>) -> Map<
    Seq<char>,
    Seq<LogEntryView>,
> {
    m.map_values(|l: Vec<LogEntry>| entry_views(l@))
}

/// The number that the next event of a topic gets.
pub open spec fn next_sequence(sequences: Map<Seq<char>, u64>, topic: Seq<char>) -> int {
    if sequences.contains_key(topic) {
        sequences[topic] + 1
    } else {
        1
    }
}

impl Default for MemoryEventLog {
    fn default() -> (l: Self)
        ensures
            l.entries() == Map::<Seq<char>, Seq<LogEntryView>>::empty(),
            l.usable(),
    {
        let l = MemoryEventLog {
            topics: KeyMap::new(),
            clock: HybridLogicalClock::new(),
            sequences: KeyMap::new(),
        };
        assert(l.entries() =~= Map::<Seq<char>, Seq<LogEntryView>>::empty());
        l
    }
}

impl MemoryEventLog {
    /// The events of each topic are in order, and none is later than the clock.
    pub open spec fn in_order(&self) -> bool {
        &&& forall|t: Seq<char>, i: int, j: int|
            #![trigger self.entries()[t][i], self.entries()[t][j]]
            self.entries().contains_key(t) && 0 <= i < j < self.entries()[t].len() ==> precedes(
                self.entries()[t][i].id,
                self.entries()[t][j].id,
            )
        &&& forall|t: Seq<char>, i: int|
            #![trigger self.entries()[t][i]]
            self.entries().contains_key(t) && 0 <= i < self.entries()[t].len() ==> !hlc::earlier(
                self.clock.last,
                self.entries()[t][i].id.timestamp,
            )
    }

    /// Appends an event at physical time `physical`.
    pub fn append_at(&mut self, topic: &String, payload: &Vec<u8>, physical: u64) -> (r: Result<
        EventId,
        ActantError,
    >)
        requires
            physical > old(self).clock.last.wall_time || old(self).clock.last.logical < u32::MAX,
            next_sequence(old(self).sequences@, topic@) <= u64::MAX,
        ensures
            old(self).in_order() ==> final(self).in_order(),
            match r {
                Ok(id) => {
                    &&& topic@.len() > 0
                    &&& id == (EventId {
                        timestamp: hlc::ticked(old(self).clock.last, physical),
                        sequence: next_sequence(old(self).sequences@, topic@) as u64,
                    })
                    &&& final(self).entries() == appended(
                        old(self).entries(),
                        LogEntryView { id, topic: topic@, payload: payload@ },
                    )
                    &&& final(self).sequences@ == old(self).sequences@.insert(topic@, id.sequence)
                    &&& final(self).clock.last == id.timestamp
                    &&& hlc::earlier(old(self).clock.last, id.timestamp)
                },
                Err(e) => {
                    &&& topic@.len() == 0
                    &&& empty_topic(e)
                    &&& final(self).entries() == old(self).entries()
                    &&& final(self).sequences@ == old(self).sequences@
                    &&& final(self).clock.last == old(self).clock.last
                },
            },
    {
        if topic.as_str().is_empty() {
            return Err(ActantError::Config("event topic must not be empty".to_owned()));
        }
        let ghost before = self.entries();
        let timestamp = self.clock.tick_at(physical);
        let sequence: u64 = match self.sequences.get(topic) {
            Some(n) => *n + 1,
            None => 1,
        };
        self.sequences.insert(topic.clone(), sequence);
        let id = EventId { timestamp, sequence };
        let entry = LogEntry { id, topic: topic.clone(), payload: copy_bytes(payload) };
        if !self.topics.contains_key(topic) {
            self.topics.insert(topic.clone(), Vec::new());
        }
        let ghost list = history(before, topic@);
        assert(entry_views(self.topics@[topic@]@) =~= list);
        if let Some(entries) = self.topics.get_mut(topic) {
            let ghost e = entries@;
            entries.push(entry);
            assert(entry_views(entries@) =~= entry_views(e).push(entry@));
        }
        assert(self.entries() =~= appended(before, entry@));
        Ok(id)
    }
}

impl EventLog for MemoryEventLog {
    open spec fn entries(&self) -> Map<Seq<char>, Seq<LogEntryView>> {
        topic_views(self.topics@)
    }

    open spec fn usable(&self) -> bool {
        &&& self.clock.last.logical < u32::MAX
        &&& forall|t: Seq<char>| #[trigger]
            self.sequences@.contains_key(t) ==> self.sequences@[t] < u64::MAX
    }

    fn append(&mut self, topic: &String, payload: &Vec<u8>) -> (r: Result<EventId, ActantError>)
        ensures
            r is Ok <==> topic@.len() > 0,
            r matches Ok(id) ==> id.sequence == next_sequence(old(self).sequences@, topic@)
                && hlc::earlier(old(self).clock.last, id.timestamp) && final(self).clock.last
                == id.timestamp,
    {
        let physical: u64 = physical_now();
        self.append_at(topic, payload, physical)
    }

    fn read_after(&self, topic: &String, after: Option<&EventId>) -> (r: Result<
        Vec<LogEntry>,
        ActantError,
    >)
        ensures
            r is Ok,
    {
        let mut list: Vec<LogEntry> = Vec::new();
        let ghost p = position(after);
        assert(entry_views(list@) =~= entries_after(Seq::empty(), p));
        if let Some(entries) = self.topics.get(topic) {
            let ghost views = entry_views(entries@);
            let mut i: usize = 0;
            assert(views.take(0) =~= Seq::empty());
            while i < entries.len()
                invariant
                    i <= entries@.len(),
                    views == entry_views(entries@),
                    p == position(after),
                    entry_views(list@) == entries_after(views.take(i as int), p),
                decreases entries@.len() - i,
            {
                let ghost before = list@;
                proof {
                    assert(views.take(i + 1).drop_last() =~= views.take(i as int));
                }
                if is_wanted(&entries[i], after) {
                    list.push(entries[i].copy());
                    assert(entry_views(list@) =~= entry_views(before).push(views[i as int]));
                }
                i += 1;
            }
            assert(views.take(i as int) =~= views);
        }
        Ok(list)
    }

    fn latest(&self, topic: &String) -> (r: Result<Option<LogEntry>, ActantError>)
        ensures
            r is Ok,
    {
        match self.topics.get(topic) {
            Some(entries) => {
                let n: usize = entries.len();
                if n == 0 {
                    Ok(None)
                } else {
                    Ok(Some(entries[n - 1].copy()))
                }
            },
            None => Ok(None),
        }
    }

    fn count(&self, topic: &String) -> (r: Result<usize, ActantError>)
        ensures
            r is Ok,
    {
        match self.topics.get(topic) {
            Some(entries) => Ok(entries.len()),
            None => Ok(0),
        }
    }
}

/// What the keys of all events start with.
pub const EVENT_PREFIX: &'static str = "event:";

/// What the keys of a topic's events start with.
pub open spec fn prefix_text(topic: Seq<char>) -> Seq<char> {
    EVENT_PREFIX@ + topic + ":"@
}

/// The part of an event's key that its identifier gives, every number of a fixed width.
pub open spec fn id_text(id: EventId) -> Seq<char> {
    text::fixed_width(id.timestamp.wall_time as nat, 16, 16) + (":"@ + (text::fixed_width(
        id.timestamp.logical as nat,
        16,
        8,
    ) + (":"@ + text::fixed_width(id.sequence as nat, 16, 16))))
}

/// The key of an event.
pub open spec fn key_text(topic: Seq<char>, id: EventId) -> Seq<char> {
    prefix_text(topic) + id_text(id)
}

/// What the keys of a topic's events start with.
pub fn event_prefix(topic: &String) -> (p: String)
    ensures
        p@ == prefix_text(topic@),
{
    let mut p = EVENT_PREFIX.to_owned();
    p.append(topic.as_str());
    p.append(":");
    p
}

/// The key of an event.
pub fn event_key(topic: &String, id: &EventId) -> (k: String)
    ensures
        k@ == key_text(topic@, *id),
{
    let mut k = event_prefix(topic);
    push_fixed_width(&mut k, id.timestamp.wall_time, 16, 16);
    k.append(":");
    push_fixed_width(&mut k, id.timestamp.logical as u64, 16, 8);
    k.append(":");
    push_fixed_width(&mut k, id.sequence, 16, 16);
    assert(k@ =~= key_text(topic@, *id));
    k
}

/// The keys of a topic's events are in the order of the events.
pub proof fn law_event_keys_ordered(topic: Seq<char>, a: EventId, b: EventId)
    requires
        precedes(a, b),
    ensures
        text::text_lt(key_text(topic, a), key_text(topic, b)),
{
    text::lemma_machine_widths(a.timestamp.wall_time, a.timestamp.logical);
    text::lemma_machine_widths(b.timestamp.wall_time, b.timestamp.logical);
    text::lemma_machine_widths(a.sequence, 0);
    text::lemma_machine_widths(b.sequence, 0);
    let (wa, wb) = (a.timestamp.wall_time as nat, b.timestamp.wall_time as nat);
    let (la, lb) = (a.timestamp.logical as nat, b.timestamp.logical as nat);
    let (sa, sb) = (a.sequence as nat, b.sequence as nat);
    let ra = ":"@ + text::fixed_width(sa, 16, 16);
    let rb = ":"@ + text::fixed_width(sb, 16, 16);
    let ma = ":"@ + (text::fixed_width(la, 16, 8) + ra);
    let mb = ":"@ + (text::fixed_width(lb, 16, 8) + rb);
    text::lemma_text_prefix(prefix_text(topic), id_text(a), id_text(b));
    if wa < wb {
        text::lemma_fixed_width_order(wa, wb, 16, 16, ma, mb);
    } else {
        text::lemma_text_prefix(text::fixed_width(wa, 16, 16), ma, mb);
        text::lemma_text_prefix(
            ":"@,
            text::fixed_width(la, 16, 8) + ra,
            text::fixed_width(lb, 16, 8) + rb,
        );
        if la < lb {
            text::lemma_fixed_width_order(la, lb, 16, 8, ra, rb);
        } else {
            text::lemma_text_prefix(text::fixed_width(la, 16, 8), ra, rb);
            text::lemma_text_prefix(
                ":"@,
                text::fixed_width(sa, 16, 16),
                text::fixed_width(sb, 16, 16),
            );
            text::lemma_fixed_width_order(sa, sb, 16, 16, Seq::empty(), Seq::empty());
            assert(text::fixed_width(sa, 16, 16) + Seq::empty() =~= text::fixed_width(sa, 16, 16));
            assert(text::fixed_width(sb, 16, 16) + Seq::empty() =~= text::fixed_width(sb, 16, 16));
        }
    }
}

/// The length of the part of an event's key that its identifier gives.
pub const EVENT_ID_LEN: usize = 42;

/// `key` is the key of an event of `topic`: after what such keys start with comes an
/// identifier and nothing else.
pub open spec fn is_key_of(key: Seq<char>, topic: Seq<char>) -> bool {
    &&& prefix_text(topic).is_prefix_of(key)
    &&& key.len() == prefix_text(topic).len() + EVENT_ID_LEN
}

/// Whether a key that starts as those of `topic` do is the key of an event of it, and not of
/// a topic whose name goes on after a colon.
pub fn is_event_key(key: &String, topic: &String) -> (b: bool)
    ensures
        b == is_key_of(key@, topic@),
{
    let prefix = event_prefix(topic);
    match without_prefix(key.as_str(), prefix.as_str()) {
        Some(rest) => {
            assert(prefix@.is_prefix_of(key@)) by {
                assert(key@.subrange(0, prefix@.len() as int) =~= prefix@);
            }
            rest.unicode_len() == EVENT_ID_LEN
        },
        None => false,
    }
}

/// The identifiers of all events take up the same length.
pub proof fn lemma_id_text_len(id: EventId)
    ensures
        id_text(id).len() == EVENT_ID_LEN,
{
    reveal_strlit(":");
    text::lemma_fixed_width_len(id.timestamp.wall_time as nat, 16, 16);
    text::lemma_fixed_width_len(id.timestamp.logical as nat, 16, 8);
    text::lemma_fixed_width_len(id.sequence as nat, 16, 16);
}

/// The events of one topic are never found among those of another.
pub proof fn law_topics_isolated(a: Seq<char>, b: Seq<char>, id: EventId)
    ensures
        is_key_of(key_text(b, id), a) <==> a == b,
{
    reveal_strlit(":");
    lemma_id_text_len(id);
    let k = key_text(b, id);
    assert(prefix_text(b) =~= k.subrange(0, prefix_text(b).len() as int));
    if is_key_of(k, a) {
        assert(prefix_text(a).len() == prefix_text(b).len());
        assert(prefix_text(a) =~= prefix_text(b));
        assert forall|i: int| 0 <= i < a.len() implies a[i] == b[i] by {
            assert(prefix_text(a)[EVENT_PREFIX@.len() + i] == a[i]);
            assert(prefix_text(b)[EVENT_PREFIX@.len() + i] == b[i]);
        }
        assert(a =~= b);
    }
}

} // verus!
