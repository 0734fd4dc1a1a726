//! The write-ahead log: its framing, reading it back, and cutting off what is no longer
//! needed.
use vstd::bytes::*;
use vstd::prelude::*;
use vstd::slice::*;
use vstd::string::*;
use vstd::utf8::*;

use crate::common;
use crate::common::{copy_bytes, fits_archive, ActantError, ActorId, ARCHIVE_LIMIT};
use crate::runtime::state::hlc::HlcTimestamp;
use crate::text;
use crate::text::push_decimal;

verus! {

/// The size of what precedes the data of an entry: wall time, counter, length, checksum.
pub const ENTRY_HEADER_SIZE: usize = 20;

/// The greatest length of an entry's data that is believed.
pub const WAL_MAX_ENTRY_SIZE: u32 = 67_108_864;

/// What `xxhash_rust::xxh3::xxh3_64` gives for bytes.
pub uninterp spec fn xxh3(data: Seq<u8>) -> u64;

/// `xxhash_rust::xxh3::xxh3_64`.
#[verifier::external_body]
fn xxh3_64(data: &Vec<u8>) -> (h: u64)
    ensures
        h == xxh3(data@),
{
    xxhash_rust::xxh3::xxh3_64(data)
}

/// The checksum of an entry's data: the low half of its hash.
pub open spec fn checksum(data: Seq<u8>) -> u32 {
    xxh3(data) as u32
}

/// The checksum of an entry's data.
pub fn calculate_checksum(data: &Vec<u8>) -> (c: u32)
    ensures
        c == checksum(data@),
{
    low_half(xxh3_64(data))
}

/// The low half of a hash.
pub fn low_half(h: u64) -> (c: u32)
    ensures
        c == h as u32,
        c == h % 0x1_0000_0000,
{
    assert(h as u32 == h % 0x1_0000_0000) by (bit_vector);
    #[verifier::truncate]
    let c: u32 = h as u32;
    c
}

/// What precedes the data of an entry.
#[derive(Debug, Clone, Copy, PartialEq, Eq, Structural)]
pub struct EntryHeader {
    pub timestamp: HlcTimestamp,
    pub len: u32,
    pub checksum: u32,
}

/// A header as bytes, least significant byte first.
pub open spec fn header_bytes(h: EntryHeader) -> Seq<u8> {
    spec_u64_to_le_bytes(h.timestamp.wall_time) + spec_u32_to_le_bytes(h.timestamp.logical)
        + spec_u32_to_le_bytes(h.len) + spec_u32_to_le_bytes(h.checksum)
}

/// The header that the first bytes hold.
pub open spec fn header_of(bytes: Seq<u8>) -> EntryHeader {
    EntryHeader {
        timestamp: HlcTimestamp {
            wall_time: spec_u64_from_le_bytes(bytes.subrange(0, 8)),
            logical: spec_u32_from_le_bytes(bytes.subrange(8, 12)),
        },
        len: spec_u32_from_le_bytes(bytes.subrange(12, 16)),
        checksum: spec_u32_from_le_bytes(bytes.subrange(16, 20)),
    }
}

/// What a header was written as, it is read as, whatever follows it.
pub proof fn law_header_round_trip(h: EntryHeader, rest: Seq<u8>)
    ensures
        header_bytes(h).len() == ENTRY_HEADER_SIZE,
        header_of(header_bytes(h) + rest) == h,
{
    lemma_auto_spec_u64_to_from_le_bytes();
    lemma_auto_spec_u32_to_from_le_bytes();
    let all = header_bytes(h) + rest;
    assert(all.subrange(0, 8) =~= spec_u64_to_le_bytes(h.timestamp.wall_time));
    assert(all.subrange(8, 12) =~= spec_u32_to_le_bytes(h.timestamp.logical));
    assert(all.subrange(12, 16) =~= spec_u32_to_le_bytes(h.len));
    assert(all.subrange(16, 20) =~= spec_u32_to_le_bytes(h.checksum));
}

impl EntryHeader {
    /// The header as bytes.
    pub fn to_bytes(&self) -> (bytes: Vec<u8>)
        ensures
            bytes@ == header_bytes(*self),
            bytes@.len() == ENTRY_HEADER_SIZE,
    {
        let mut bytes = u64_to_le_bytes(self.timestamp.wall_time);
        let mut logical = u32_to_le_bytes(self.timestamp.logical);
        let mut len = u32_to_le_bytes(self.len);
        let mut sum = u32_to_le_bytes(self.checksum);
        bytes.append(&mut logical);
        bytes.append(&mut len);
        bytes.append(&mut sum);
        assert(bytes@ =~= header_bytes(*self));
        bytes
    }

    /// The header that stands at `pos`.
    pub fn at(bytes: &Vec<u8>, pos: usize) -> (h: EntryHeader)
        requires
            pos + ENTRY_HEADER_SIZE <= bytes@.len(),
        ensures
            h == header_of(bytes@.skip(pos as int)),
    {
        let all = bytes.as_slice();
        let _n: usize = bytes.len();
        let wall = slice_subrange(all, pos, pos + 8);
        let logical = slice_subrange(all, pos + 8, pos + 12);
        let len = slice_subrange(all, pos + 12, pos + 16);
        let sum = slice_subrange(all, pos + 16, pos + 20);
        proof {
            let tail = bytes@.skip(pos as int);
            assert(wall@ =~= tail.subrange(0, 8));
            assert(logical@ =~= tail.subrange(8, 12));
            assert(len@ =~= tail.subrange(12, 16));
            assert(sum@ =~= tail.subrange(16, 20));
        }
        EntryHeader {
            timestamp: HlcTimestamp {
                wall_time: u64_from_le_bytes(wall),
                logical: u32_from_le_bytes(logical),
            },
            len: u32_from_le_bytes(len),
            checksum: u32_from_le_bytes(sum),
        }
    }
}

/// An entry of the log.
#[verifier::ext_equal]
pub struct EntryView {
    pub timestamp: HlcTimestamp,
    pub data: Seq<u8>,
}

/// An entry as bytes.
pub open spec fn frame(e: EntryView) -> Seq<u8> {
    header_bytes(
        EntryHeader {
            timestamp: e.timestamp,
            len: e.data.len() as u32,
            checksum: checksum(e.data),
        },
    ) + e.data
}

/// Entries as bytes, one after another.
pub open spec fn frames(entries: Seq<EntryView>) -> Seq<u8>
    decreases entries.len(),
{
    if entries.len() == 0 {
        Seq::empty()
    } else {
        frame(entries[0]) + frames(entries.drop_first())
    }
}

/// How reading a log ends.
#[derive(Debug, Clone, Copy, PartialEq, Eq, Structural)]
pub enum ScanEnd {
    /// At the end of the log, or where an entry is not what was written.
    Stopped,
    /// At an entry whose length is not believed.
    TooLong { offset: u64, len: u32 },
    /// Within the data of an entry.
    Cut,
}

/// What reading a log gives: entries, and how it ended.
#[verifier::ext_equal]
pub struct Scan {
    pub entries: Seq<EntryView>,
    pub end: ScanEnd,
}

/// Reading `bytes`, which stand at `offset`, entry by entry: it stops at a header that is
/// not whole and at data that does not have its checksum; it fails at a length beyond
/// `limit` and at data that is not whole.
pub open spec fn scan(bytes: Seq<u8>, offset: int, limit: u32) -> Scan
    decreases bytes.len(),
{
    if bytes.len() < ENTRY_HEADER_SIZE {
        Scan { entries: Seq::empty(), end: ScanEnd::Stopped }
    } else {
        let h = header_of(bytes);
        let size = ENTRY_HEADER_SIZE + h.len;
        let data = bytes.subrange(ENTRY_HEADER_SIZE as int, size);
        if h.len > limit {
            Scan {
                entries: Seq::empty(),
                end: ScanEnd::TooLong { offset: offset as u64, len: h.len },
            }
        } else if bytes.len() < size {
            Scan { entries: Seq::empty(), end: ScanEnd::Cut }
        } else if checksum(data) != h.checksum {
            Scan { entries: Seq::empty(), end: ScanEnd::Stopped }
        } else {
            let rest = scan(bytes.skip(size), offset + size, limit);
            Scan {
                entries: seq![EntryView { timestamp: h.timestamp, data }] + rest.entries,
                ..rest
            }
        }
    }
}

/// Whatever follows them, entries that were appended are read back first, in order.
pub proof fn law_appended_entries_are_read(
    entries: Seq<EntryView>,
    rest: Seq<u8>,
    offset: int,
    limit: u32,
)
    requires
        forall|i: int| 0 <= i < entries.len() ==> (#[trigger] entries[i]).data.len() <= limit,
    ensures
        ({
            let s = scan(rest, offset + frames(entries).len(), limit);
            scan(frames(entries) + rest, offset, limit) == Scan {
                entries: entries + s.entries,
                ..s
            }
        }),
    decreases entries.len(),
{
    let s = scan(rest, offset + frames(entries).len(), limit);
    if entries.len() == 0 {
        assert(frames(entries) + rest =~= rest);
        assert(entries + s.entries =~= s.entries);
    } else {
        let e = entries[0];
        let others = entries.drop_first();
        let h = EntryHeader {
            timestamp: e.timestamp,
            len: e.data.len() as u32,
            checksum: checksum(e.data),
        };
        let all = frames(entries) + rest;
        let size = ENTRY_HEADER_SIZE + h.len;
        law_header_round_trip(h, e.data + frames(others) + rest);
        assert(all =~= header_bytes(h) + (e.data + frames(others) + rest));
        assert(all.subrange(ENTRY_HEADER_SIZE as int, size) =~= e.data);
        assert(all.skip(size) =~= frames(others) + rest);
        assert forall|i: int| 0 <= i < others.len() implies (#[trigger] others[i]).data.len()
            <= limit by {
            assert(others[i] == entries[i + 1]);
        }
        law_appended_entries_are_read(others, rest, offset + size, limit);
        assert(entries + s.entries =~= seq![e] + (others + s.entries));
    }
}

/// What was appended is read back: the entries in order, up to a last one that was not
/// written to the end of its header.
pub proof fn law_wal_round_trip(entries: Seq<EntryView>, torn: Seq<u8>, offset: int, limit: u32)
    requires
        torn.len() < ENTRY_HEADER_SIZE,
        forall|i: int| 0 <= i < entries.len() ==> (#[trigger] entries[i]).data.len() <= limit,
    ensures
        scan(frames(entries) + torn, offset, limit) == (Scan { entries, end: ScanEnd::Stopped }),
{
    law_appended_entries_are_read(entries, torn, offset, limit);
    assert(entries + Seq::empty() =~= entries);
}

/// Where the entries from the `n`-th on begin.
pub open spec fn offset_of(entries: Seq<EntryView>, n: int) -> int {
    frames(entries.take(n)).len() as int
}

proof fn lemma_frames_split(a: Seq<EntryView>, b: Seq<EntryView>)
    ensures
        frames(a + b) == frames(a) + frames(b),
    decreases a.len(),
{
    if a.len() == 0 {
        assert(a + b =~= b);
        assert(frames(a) + frames(b) =~= frames(b));
    } else {
        lemma_frames_split(a.drop_first(), b);
        assert((a + b).drop_first() =~= a.drop_first() + b);
        assert(frames(a + b) =~= frames(a) + frames(b));
    }
}

/// Reading from the offset that an entry was appended at gives that entry and those
/// after it.
pub proof fn law_read_from_append_offset(entries: Seq<EntryView>, n: int, limit: u32)
    requires
        0 <= n <= entries.len(),
        forall|i: int| 0 <= i < entries.len() ==> (#[trigger] entries[i]).data.len() <= limit,
    ensures
        scan(frames(entries).skip(offset_of(entries, n)), offset_of(entries, n), limit) == (Scan {
            entries: entries.skip(n),
            end: ScanEnd::Stopped,
        }),
{
    let (a, b) = (entries.take(n), entries.skip(n));
    assert(entries =~= a + b);
    lemma_frames_split(a, b);
    assert(frames(entries).skip(offset_of(entries, n)) =~= frames(b) + Seq::empty());
    assert forall|i: int| 0 <= i < b.len() implies (#[trigger] b[i]).data.len() <= limit by {
        assert(b[i] == entries[i + n]);
    }
    law_wal_round_trip(b, Seq::empty(), offset_of(entries, n), limit);
}

/// The message for data that is too long for a header.
pub open spec fn too_long_to_append(len: nat) -> Seq<char> {
    "WAL append: data len "@ + text::decimal(len) + " exceeds u32::MAX"@
}

/// The values of entries.
pub open spec fn entry_views(entries: Seq<(HlcTimestamp, Vec<u8>)>) -> Seq<EntryView> {
    Seq::new(
        entries.len(),
        |i: int| EntryView { timestamp: entries[i].0, data: entries[i].1@ },
    )
}

/// Appends to a log: knows where the log ends.
#[derive(Debug)]
pub struct WalWriter {
    pub offset: u64,
    pub sync_on_write: bool,
}

/// An entry that is to be written: where it will stand, and its bytes.
#[derive(Debug)]
pub struct Appended {
    pub offset: u64,
    pub bytes: Vec<u8>,
}

impl WalWriter {
    /// A writer at the end of a log of `len` bytes.
    pub fn open(len: u64) -> (w: Self)
        ensures
            w.offset == len,
            !w.sync_on_write,
    {
        WalWriter::open_with_sync(len, false)
    }

    /// A writer at the end of a log of `len` bytes, that asks for events to be synced.
    pub fn open_with_sync(len: u64, sync_on_write: bool) -> (w: Self)
        ensures
            w.offset == len,
            w.sync_on_write == sync_on_write,
    {
        WalWriter { offset: len, sync_on_write }
    }

    /// Where the next entry will stand.
    pub fn current_offset(&self) -> (o: u64)
        ensures
            o == self.offset,
    {
        self.offset
    }

    /// Appends an entry.
    pub fn append(&mut self, timestamp: HlcTimestamp, data: &Vec<u8>) -> (r: Result<
        Appended,
        ActantError,
    >)
        requires
            old(self).offset + ENTRY_HEADER_SIZE + data@.len() <= u64::MAX,
        ensures
            final(self).sync_on_write == old(self).sync_on_write,
            match r {
                Ok(a) => {
                    &&& data@.len() <= u32::MAX
                    &&& a.offset == old(self).offset
                    &&& a.bytes@ == frame(EntryView { timestamp, data: data@ })
                    &&& final(self).offset == a.offset + a.bytes@.len()
                },
                Err(e) => {
                    &&& data@.len() > u32::MAX
                    &&& e matches ActantError::Serialization(m)
                    &&& m@ == too_long_to_append(data@.len())
                    &&& final(self).offset == old(self).offset
                },
            },
    {
        let len: usize = data.len();
        if len > u32::MAX as usize {
            let mut m = "WAL append: data len ".to_owned();
            push_decimal(&mut m, len as u64);
            m.append(" exceeds u32::MAX");
            return Err(ActantError::Serialization(m));
        }
        let h = EntryHeader { timestamp, len: len as u32, checksum: calculate_checksum(data) };
        let mut bytes = h.to_bytes();
        let mut copy = copy_bytes(data);
        bytes.append(&mut copy);
        assert(bytes@ =~= frame(EntryView { timestamp, data: data@ }));
        let offset: u64 = self.offset;
        self.offset = offset + ENTRY_HEADER_SIZE as u64 + len as u64;
        Ok(Appended { offset, bytes })
    }

    /// Cuts the log off at `offset`, unless it ends before. Returns whether it is to be
    /// cut.
    pub fn truncate_to(&mut self, offset: u64) -> (cut: bool)
        ensures
            cut == (offset <= old(self).offset),
            final(self).offset == (if cut {
                offset
            } else {
                old(self).offset
            }),
            final(self).sync_on_write == old(self).sync_on_write,
    {
        if offset > self.offset {
            return false;
        }
        self.offset = offset;
        true
    }
}

/// The message for an entry whose length is not believed.
pub open spec fn corrupt_length(offset: nat, len: nat, limit: nat) -> Seq<char> {
    "WAL corrupt at offset "@ + text::decimal(offset) + ": entry len "@ + text::decimal(len)
        + " exceeds limit "@ + text::decimal(limit)
}

/// The error that reading a log ends with, if it does.
pub open spec fn scan_error(end: ScanEnd, limit: u32, e: ActantError) -> bool {
    match end {
        ScanEnd::Stopped => false,
        ScanEnd::TooLong { offset, len } => e matches ActantError::Storage(m) && m@
            == corrupt_length(offset as nat, len as nat, limit as nat),
        ScanEnd::Cut => e matches ActantError::Storage(m) && m@
            == "failed to fill whole buffer"@,
    }
}

/// Reads entries from `offset` on, with lengths up to `limit`.
pub fn read_entries(bytes: &Vec<u8>, offset: u64, limit: u32) -> (r: Result<
    Vec<(HlcTimestamp, Vec<u8>)>,
    ActantError,
>)
    ensures
        ({
            let s = scan(
                if offset <= bytes@.len() {
                    bytes@.skip(offset as int)
                } else {
                    Seq::empty()
                },
                offset as int,
                limit,
            );
            match r {
                Ok(entries) => s.end == ScanEnd::Stopped && entry_views(entries@) == s.entries,
                Err(e) => scan_error(s.end, limit, e),
            }
        }),
{
    let mut entries: Vec<(HlcTimestamp, Vec<u8>)> = Vec::new();
    let n: usize = bytes.len();
    if offset > n as u64 {
        assert(entry_views(entries@) =~= Seq::empty());
        return Ok(entries);
    }
    let ghost whole = scan(bytes@.skip(offset as int), offset as int, limit);
    let mut pos: usize = offset as usize;
    proof {
        let s = scan(bytes@.skip(pos as int), pos as int, limit);
        assert(entry_views(entries@) + s.entries =~= s.entries);
    }
    loop
        invariant
            offset <= pos <= n,
            n == bytes@.len(),
            offset <= bytes@.len(),
            whole == scan(bytes@.skip(offset as int), offset as int, limit),
            whole == (Scan {
                entries: entry_views(entries@) + scan(
                    bytes@.skip(pos as int),
                    pos as int,
                    limit,
                ).entries,
                end: scan(bytes@.skip(pos as int), pos as int, limit).end,
            }),
        ensures
            whole == (Scan { entries: entry_views(entries@), end: ScanEnd::Stopped }),
        decreases n - pos,
    {
        let ghost tail = bytes@.skip(pos as int);
        if n - pos < ENTRY_HEADER_SIZE {
            assert(entry_views(entries@) + Seq::empty() =~= entry_views(entries@));
            break;
        }
        let h = EntryHeader::at(bytes, pos);
        if h.len > limit {
            let mut m = "WAL corrupt at offset ".to_owned();
            push_decimal(&mut m, pos as u64);
            m.append(": entry len ");
            push_decimal(&mut m, h.len as u64);
            m.append(" exceeds limit ");
            push_decimal(&mut m, limit as u64);
            return Err(ActantError::Storage(m));
        }
        let start: usize = pos + ENTRY_HEADER_SIZE;
        if ((n - start) as u64) < h.len as u64 {
            return Err(ActantError::Storage("failed to fill whole buffer".to_owned()));
        }
        let end: usize = start + h.len as usize;
        let part = slice_subrange(bytes.as_slice(), start, end);
        let data = slice_to_vec(part);
        proof {
            assert(data@ =~= tail.subrange(
                ENTRY_HEADER_SIZE as int,
                ENTRY_HEADER_SIZE + h.len,
            ));
            assert(tail.skip(ENTRY_HEADER_SIZE + h.len) =~= bytes@.skip(end as int));
        }
        if calculate_checksum(&data) != h.checksum {
            assert(entry_views(entries@) + Seq::empty() =~= entry_views(entries@));
            break;
        }
        let ghost before = entries@;
        entries.push((h.timestamp, data));
        proof {
            let rest = scan(bytes@.skip(end as int), end as int, limit);
            let e = EntryView { timestamp: h.timestamp, data: data@ };
            assert(entry_views(entries@) =~= entry_views(before).push(e));
            assert(entry_views(before) + (seq![e] + rest.entries) =~= entry_views(entries@)
                + rest.entries);
        }
        pos = end;
    }
    Ok(entries)
}

/// Every entry that is read is no longer than the limit.
pub proof fn lemma_scan_within_limit(bytes: Seq<u8>, offset: int, limit: u32)
    ensures
        forall|i: int|
            0 <= i < scan(bytes, offset, limit).entries.len() ==> (#[trigger] scan(
                bytes,
                offset,
                limit,
            ).entries[i]).data.len() <= limit,
    decreases bytes.len(),
{
    if bytes.len() >= ENTRY_HEADER_SIZE {
        let size = ENTRY_HEADER_SIZE + header_of(bytes).len;
        if bytes.len() >= size {
            lemma_scan_within_limit(bytes.skip(size), offset + size, limit);
        }
    }
}

/// What an actor logged: a message, numbered.
#[derive(Debug)]
pub struct WalEvent {
    pub actor_id: ActorId,
    pub sequence: u64,
    pub payload: Vec<u8>,
}

/// The mathematical value of a [`WalEvent`].
#[verifier::ext_equal]
pub struct WalEventView {
    pub actor_id: Seq<char>,
    pub sequence: u64,
    pub payload: Seq<u8>,
}

impl View for WalEvent {
    type V = WalEventView;

    open spec fn view(&self) -> WalEventView {
        WalEventView {
            actor_id: self.actor_id@,
            sequence: self.sequence,
            payload: self.payload@,
        }
    }
}

/// The bytes that `rkyv::to_bytes` gives for an actor, a number and a message.
pub uninterp spec fn rkyv_event_bytes(actor: Seq<char>, sequence: u64, payload: Seq<u8>) -> Option<
    Seq<u8>,
>;

/// The actor, the number and the message that `rkyv::from_bytes` reads from bytes.
pub uninterp spec fn rkyv_event_value(bytes: Seq<u8>) -> Option<(Seq<char>, u64, Seq<u8>)>;

/// `rkyv::to_bytes` on the actor, the number and the message, which together are short
/// enough for it not to panic. What it writes, `rkyv::from_bytes` reads back.
#[verifier::external_body]
fn rkyv_encode_event(actor: &String, sequence: u64, payload: &Vec<u8>) -> (r: Option<Vec<u8>>)
    requires
        encode_utf8(actor@).len() + payload@.len() <= ARCHIVE_LIMIT,
    ensures
        match r {
            Some(bytes) => rkyv_event_bytes(actor@, sequence, payload@) == Some(bytes@)
                && rkyv_event_value(bytes@) == Some((actor@, sequence, payload@)),
            None => rkyv_event_bytes(actor@, sequence, payload@) is None,
        },
{
    let value = (actor.clone(), sequence, payload.clone());
    rkyv::to_bytes::<rkyv::rancor::Error>(&value).ok().map(|b| b.to_vec())
}

/// `rkyv::from_bytes` on a copy of the bytes that is aligned as it demands.
#[verifier::external_body]
fn rkyv_decode_event(bytes: &Vec<u8>) -> (r: Option<(String, u64, Vec<u8>)>)
    ensures
        match r {
            Some(v) => rkyv_event_value(bytes@) == Some((v.0@, v.1, v.2@)),
            None => rkyv_event_value(bytes@) is None,
        },
{
    let mut aligned = rkyv::util::AlignedVec::<16>::new();
    aligned.extend_from_slice(bytes);
    rkyv::from_bytes::<(String, u64, Vec<u8>), rkyv::rancor::Error>(&aligned).ok()
}

/// An event is short enough for an archive.
pub open spec fn archivable(e: WalEventView) -> bool {
    encode_utf8(e.actor_id).len() + e.payload.len() <= ARCHIVE_LIMIT
}

/// The event that bytes hold.
pub open spec fn event_of(bytes: Seq<u8>) -> Option<WalEventView> {
    match rkyv_event_value(bytes) {
        Some(v) => Some(WalEventView { actor_id: v.0, sequence: v.1, payload: v.2 }),
        None => None,
    }
}

impl WalEvent {
    /// The event as archived bytes, where it is not too long for an archive. They hold the
    /// event.
    pub fn to_archived(&self) -> (r: Option<Vec<u8>>)
        ensures
            match r {
                Some(bytes) => {
                    &&& archivable(self@)
                    &&& rkyv_event_bytes(self.actor_id@, self.sequence, self.payload@) == Some(
                        bytes@,
                    )
                    &&& event_of(bytes@) == Some(self@)
                },
                None => archivable(self@) ==> rkyv_event_bytes(
                    self.actor_id@,
                    self.sequence,
                    self.payload@,
                ) is None,
            },
    {
        if !fits_archive(self.actor_id.0.as_str().as_bytes().len(), self.payload.len(), 0) {
            return None;
        }
        rkyv_encode_event(&self.actor_id.0, self.sequence, &self.payload)
    }

    /// The event that archived bytes hold.
    pub fn from_archived(bytes: &Vec<u8>) -> (r: Option<WalEvent>)
        ensures
            match r {
                Some(e) => event_of(bytes@) == Some(e@),
                None => event_of(bytes@) is None,
            },
    {
        match rkyv_decode_event(bytes) {
            Some((actor, sequence, payload)) => Some(
                WalEvent { actor_id: ActorId(actor), sequence, payload },
            ),
            None => None,
        }
    }
}

impl WalWriter {
    /// Appends what an actor logged. The entry is to be synced where `sync_on_write` says
    /// so.
    pub fn append_event(&mut self, timestamp: HlcTimestamp, event: &WalEvent) -> (r: Result<
        Appended,
        ActantError,
    >)
        ensures
            final(self).sync_on_write == old(self).sync_on_write,
            match r {
                Ok(a) => {
                    &&& a.offset == old(self).offset
                    &&& archivable(event@)
                    &&& rkyv_event_bytes(
                        event.actor_id@,
                        event.sequence,
                        event.payload@,
                    ) matches Some(data)
                    &&& event_of(data) == Some(event@)
                    &&& a.bytes@ == frame(EntryView { timestamp, data })
                    &&& final(self).offset == a.offset + a.bytes@.len()
                },
                Err(e) => {
                    &&& e is Serialization
                    &&& final(self).offset == old(self).offset
                    &&& archivable(event@) ==> (rkyv_event_bytes(
                        event.actor_id@,
                        event.sequence,
                        event.payload@,
                    ) matches Some(data) ==> data.len() > u32::MAX || old(self).offset
                        + ENTRY_HEADER_SIZE + data.len() > u64::MAX)
                },
            },
    {
        let data = match event.to_archived() {
            Some(data) => data,
            None => {
                return Err(
                    ActantError::Serialization("failed to serialize WAL event".to_owned()),
                );
            },
        };
        self.append_framed(timestamp, &data)
    }

    /// Appends an entry, or refuses one that the log has no room for.
    pub fn append_framed(&mut self, timestamp: HlcTimestamp, data: &Vec<u8>) -> (r: Result<
        Appended,
        ActantError,
    >)
        ensures
            final(self).sync_on_write == old(self).sync_on_write,
            r is Ok <==> data@.len() <= u32::MAX && old(self).offset + ENTRY_HEADER_SIZE
                + data@.len() <= u64::MAX,
            match r {
                Ok(a) => {
                    &&& a.offset == old(self).offset
                    &&& a.bytes@ == frame(EntryView { timestamp, data: data@ })
                    &&& final(self).offset == a.offset + a.bytes@.len()
                },
                Err(e) => {
                    &&& e is Serialization
                    &&& final(self).offset == old(self).offset
                },
            },
    {
        let room: u64 = u64::MAX - self.offset;
        let len: u64 = data.len() as u64;
        if room < ENTRY_HEADER_SIZE as u64 || room - (ENTRY_HEADER_SIZE as u64) < len {
            return Err(ActantError::Serialization("WAL append: log is full".to_owned()));
        }
        proof {
            law_header_round_trip(
                EntryHeader {
                    timestamp,
                    len: data@.len() as u32,
                    checksum: checksum(data@),
                },
                Seq::empty(),
            );
        }
        self.append(timestamp, data)
    }
}

/// Reads a log.
#[derive(Debug)]
pub struct WalReader {
    pub bytes: Vec<u8>,
}

/// The part of a log from `offset` on.
pub open spec fn from_offset(bytes: Seq<u8>, offset: u64) -> Seq<u8> {
    if offset <= bytes.len() {
        bytes.skip(offset as int)
    } else {
        Seq::empty()
    }
}

/// The values of events with their timestamps.
pub open spec fn event_views(events: Seq<(HlcTimestamp, WalEvent)>) -> Seq<
    (HlcTimestamp, WalEventView),
> {
    Seq::new(events.len(), |i: int| (events[i].0, events[i].1@))
}

impl WalReader {
    /// A reader of the given log.
    pub fn open(bytes: Vec<u8>) -> (r: Self)
        ensures
            r.bytes@ == bytes@,
    {
        WalReader { bytes }
    }

    /// The entries from `offset` on.
    pub fn read_from(&self, offset: u64) -> (r: Result<Vec<(HlcTimestamp, Vec<u8>)>, ActantError>)
        ensures
            ({
                let s = scan(
                    from_offset(self.bytes@, offset),
                    offset as int,
                    WAL_MAX_ENTRY_SIZE,
                );
                match r {
                    Ok(entries) => s.end == ScanEnd::Stopped && entry_views(entries@)
                        == s.entries,
                    Err(e) => scan_error(s.end, WAL_MAX_ENTRY_SIZE, e),
                }
            }),
    {
        read_entries(&self.bytes, offset, WAL_MAX_ENTRY_SIZE)
    }

    /// The events from `offset` on.
    pub fn recover_events(&self, offset: u64) -> (r: Result<
        Vec<(HlcTimestamp, WalEvent)>,
        ActantError,
    >)
        ensures
            ({
                let s = scan(
                    from_offset(self.bytes@, offset),
                    offset as int,
                    WAL_MAX_ENTRY_SIZE,
                );
                let all = forall|i: int|
                    0 <= i < s.entries.len() ==> event_of((#[trigger] s.entries[i]).data) is Some;
                match r {
                    Ok(events) => {
                        &&& s.end == ScanEnd::Stopped
                        &&& all
                        &&& event_views(events@) == decoded_views(s.entries)
                    },
                    Err(e) => scan_error(s.end, WAL_MAX_ENTRY_SIZE, e) || (s.end
                        == ScanEnd::Stopped && !all && e is Serialization),
                }
            }),
    {
        match self.read_from(offset) {
            Ok(entries) => {
                let mut decoded: Vec<(HlcTimestamp, Option<WalEvent>)> = Vec::new();
                let ghost views = entry_views(entries@);
                let mut i: usize = 0;
                while i < entries.len()
                    invariant
                        i <= entries@.len(),
                        views == entry_views(entries@),
                        decoded@.len() == i,
                        forall|j: int|
                            0 <= j < i ==> (#[trigger] decoded@[j]).0 == views[j].timestamp && (
                            match decoded@[j].1 {
                                Some(e) => event_of(views[j].data) == Some(e@),
                                None => event_of(views[j].data) is None,
                            }),
                    decreases entries@.len() - i,
                {
                    decoded.push((entries[i].0, WalEvent::from_archived(&entries[i].1)));
                    i += 1;
                }
                let r = collect_events(decoded);
                proof {
                    match &r {
                        Ok(events) => {
                            assert forall|j: int| 0 <= j < views.len() implies event_of(
                                (#[trigger] views[j]).data,
                            ) is Some by {
                                assert(decoded@[j].1 is Some);
                            }
                            assert(event_views(events@) =~= decoded_views(views)) by {
                                assert forall|j: int| 0 <= j < views.len() implies event_views(
                                    events@,
                                )[j] == #[trigger] decoded_views(views)[j] by {
                                    assert(decoded@[j].1 is Some);
                                }
                            }
                        },
                        Err(_) => {
                            let j = choose|j: int|
                                0 <= j < decoded@.len() && (#[trigger] decoded@[j]).1 is None;
                            assert(event_of(views[j].data) is None);
                        },
                    }
                }
                r
            },
            Err(e) => Err(e),
        }
    }
}

/// The events that entries hold.
pub open spec fn decoded_views(entries: Seq<EntryView>) -> Seq<(HlcTimestamp, WalEventView)> {
    Seq::new(entries.len(), |i: int| (entries[i].timestamp, event_of(entries[i].data)->0))
}

/// The decoded events, all of them or none.
pub fn collect_events(decoded: Vec<(HlcTimestamp, Option<WalEvent>)>) -> (r: Result<
    Vec<(HlcTimestamp, WalEvent)>,
    ActantError,
>)
    ensures
        match r {
            Ok(events) => {
                &&& events@.len() == decoded@.len()
                &&& forall|i: int|
                    0 <= i < decoded@.len() ==> (#[trigger] decoded@[i]).1 == Some(events@[i].1)
                        && decoded@[i].0 == events@[i].0
            },
            Err(e) => {
                &&& exists|i: int| 0 <= i < decoded@.len() && (#[trigger] decoded@[i]).1 is None
                &&& e is Serialization
            },
        },
{
    let ghost all = decoded@;
    let mut queue = common::reversed(decoded);
    let ghost mut done: int = 0;
    let mut events: Vec<(HlcTimestamp, WalEvent)> = Vec::new();
    assert(all.skip(0) =~= all);
    while queue.len() > 0
        invariant
            0 <= done <= all.len(),
            all == decoded@,
            queue@.reverse() == all.skip(done),
            events@.len() == done,
            forall|i: int|
                0 <= i < done ==> (#[trigger] all[i]).1 == Some(events@[i].1) && all[i].0
                    == events@[i].0,
        decreases queue@.len(),
    {
        let ghost q = queue@;
        if let Some((ts, e)) = queue.pop() {
            proof {
                common::lemma_next(all, done, q);
                assert(queue@ =~= q.drop_last());
                assert(all[done] == (ts, e));
            }
            match e {
                Some(event) => events.push((ts, event)),
                None => {
                    assert(all[done].1 is None);
                    return Err(
                        ActantError::Serialization("failed to decode WAL event".to_owned()),
                    );
                },
            }
            proof {
                done = done + 1;
            }
        }
    }
    Ok(events)
}

/// What an event was appended as, it is recovered as.
pub proof fn law_event_round_trip(
    timestamp: HlcTimestamp,
    event: WalEventView,
    data: Seq<u8>,
    offset: int,
)
    requires
        event_of(data) == Some(event),
        data.len() <= WAL_MAX_ENTRY_SIZE,
    ensures
        ({
            let s = scan(frame(EntryView { timestamp, data }), offset, WAL_MAX_ENTRY_SIZE);
            &&& s.end == ScanEnd::Stopped
            &&& decoded_views(s.entries) == seq![(timestamp, event)]
        }),
{
    let e = EntryView { timestamp, data };
    let one = seq![e];
    assert(one.drop_first() =~= Seq::empty());
    reveal_with_fuel(frames, 2);
    assert(frames(one) + Seq::empty() =~= frame(e));
    law_wal_round_trip(one, Seq::empty(), offset, WAL_MAX_ENTRY_SIZE);
    assert(decoded_views(one) =~= seq![(timestamp, event)]);
}

/// The offset up to which a log of `current` bytes can be cut off: the least of the
/// offsets that are still needed, where there is one and it gains something.
pub open spec fn cut_offset(offsets: Seq<u64>, current: u64) -> Option<u64> {
    let least = least_offset(offsets);
    if least == 0 || least >= current {
        None
    } else {
        Some(least)
    }
}

/// The least of the offsets; the greatest number where there is none.
pub open spec fn least_offset(offsets: Seq<u64>) -> u64
    decreases offsets.len(),
{
    if offsets.len() == 0 {
        u64::MAX
    } else {
        let rest = least_offset(offsets.drop_last());
        if offsets.last() < rest {
            offsets.last()
        } else {
            rest
        }
    }
}

/// The offset up to which a log can be cut off.
pub fn cut_point(offsets: &Vec<u64>, current: u64) -> (r: Option<u64>)
    ensures
        r == cut_offset(offsets@, current),
{
    let mut least: u64 = u64::MAX;
    let mut i: usize = 0;
    while i < offsets.len()
        invariant
            i <= offsets@.len(),
            least == least_offset(offsets@.take(i as int)),
        decreases offsets@.len() - i,
    {
        proof {
            assert(offsets@.take(i + 1).drop_last() =~= offsets@.take(i as int));
        }
        if offsets[i] < least {
            least = offsets[i];
        }
        i += 1;
    }
    assert(offsets@.take(i as int) =~= offsets@);
    if least == 0 || least >= current {
        None
    } else {
        Some(least)
    }
}

/// No offset that is still needed is cut off.
pub proof fn law_cut_keeps_needed(offsets: Seq<u64>, current: u64, i: int)
    requires
        0 <= i < offsets.len(),
    ensures
        cut_offset(offsets, current) matches Some(cut) ==> cut <= offsets[i],
    decreases offsets.len(),
{
    if i < offsets.len() - 1 {
        law_cut_keeps_needed(offsets.drop_last(), current, i);
        lemma_least(offsets.drop_last(), i);
    }
    lemma_least(offsets, i);
}

proof fn lemma_least(offsets: Seq<u64>, i: int)
    requires
        0 <= i < offsets.len(),
    ensures
        least_offset(offsets) <= offsets[i],
    decreases offsets.len(),
{
    if i < offsets.len() - 1 {
        lemma_least(offsets.drop_last(), i);
    }
}

/// The log from `cut` on, as a log of its own. Reading it gives what reading the old log
/// from `cut` on gave.
pub fn cut_log(bytes: &Vec<u8>, cut: u64, limit: u32) -> (r: Result<Vec<u8>, ActantError>)
    ensures
        ({
            let s = scan(from_offset(bytes@, cut), cut as int, limit);
            match r {
                Ok(log) => {
                    &&& s.end == ScanEnd::Stopped
                    &&& log@ == frames(s.entries)
                    &&& scan(log@, 0, limit) == s
                },
                Err(e) => scan_error(s.end, limit, e),
            }
        }),
{
    match read_entries(bytes, cut, limit) {
        Ok(entries) => {
            let ghost views = entry_views(entries@);
            let mut log: Vec<u8> = Vec::new();
            let mut i: usize = 0;
            proof {
                lemma_scan_within_limit(from_offset(bytes@, cut), cut as int, limit);
                assert(views.take(0) =~= Seq::empty());
                assert(log@ =~= frames(views.take(0)));
            }
            while i < entries.len()
                invariant
                    i <= entries@.len(),
                    views == entry_views(entries@),
                    forall|j: int| 0 <= j < views.len() ==> (#[trigger] views[j]).data.len()
                        <= limit,
                    log@ == frames(views.take(i as int)),
                decreases entries@.len() - i,
            {
                let data = &entries[i].1;
                let ghost e = views[i as int];
                assert(views[i as int].data.len() <= limit);
                let h = EntryHeader {
                    timestamp: entries[i].0,
                    len: data.len() as u32,
                    checksum: calculate_checksum(data),
                };
                let mut header = h.to_bytes();
                let mut copy = copy_bytes(data);
                let ghost before = log@;
                log.append(&mut header);
                log.append(&mut copy);
                proof {
                    assert(log@ =~= before + frame(e));
                    assert(views.take(i + 1) =~= views.take(i as int) + seq![e]);
                    lemma_frames_split(views.take(i as int), seq![e]);
                    assert(seq![e].drop_first() =~= Seq::empty());
                    reveal_with_fuel(frames, 2);
                    assert(frames(seq![e]) =~= frame(e));
                }
                i += 1;
            }
            proof {
                assert(views.take(i as int) =~= views);
                law_wal_round_trip(views, Seq::empty(), 0, limit);
                assert(frames(views) + Seq::empty() =~= frames(views));
            }
            Ok(log)
        },
        Err(e) => Err(e),
    }
}

} // verus!
