//! Checkpoints of actors: how they are stored, found and dropped, and how far they let
//! the write-ahead log be cut off.
use vstd::prelude::*;
use vstd::string::*;
use vstd::utf8::*;

use crate::common::{fits_archive, ActantError, ActorId, ARCHIVE_LIMIT};
use crate::keymap;
use crate::runtime::state::hlc::HlcTimestamp;
use crate::runtime::state::wal;
use crate::runtime::state::wal::{cut_log, cut_point};
use crate::text;
use crate::text::{push_fixed_width, without_prefix};

verus! {

/// What the keys of checkpoints start with.
pub const CHECKPOINT: &'static str = "ckpt:";

/// The state of an actor at one time.
#[derive(Debug)]
pub struct ActorSnapshot {
    pub actor_id: ActorId,
    pub actor_type: String,
    pub state: Vec<u8>,
    pub timestamp: HlcTimestamp,
    pub sequence: u64,
    /// The part of the log from here on is not in the state.
    pub wal_offset: u64,
}

/// The mathematical value of an [`ActorSnapshot`].
#[verifier::ext_equal]
pub struct SnapshotView {
    pub actor_id: Seq<char>,
    pub actor_type: Seq<char>,
    pub state: Seq<u8>,
    pub timestamp: HlcTimestamp,
    pub sequence: u64,
    pub wal_offset: u64,
}

impl View for ActorSnapshot {
    type V = SnapshotView;

    open spec fn view(&self) -> SnapshotView {
        SnapshotView {
            actor_id: self.actor_id@,
            actor_type: self.actor_type@,
            state: self.state@,
            timestamp: self.timestamp,
            sequence: self.sequence,
            wal_offset: self.wal_offset,
        }
    }
}

/// What the keys of an actor's checkpoints start with.
pub open spec fn prefix_text(actor: Seq<char>) -> Seq<char> {
    CHECKPOINT@ + actor + ":"@
}

/// The key of a checkpoint: the number has a fixed width.
pub open spec fn key_text(actor: Seq<char>, sequence: u64) -> Seq<char> {
    prefix_text(actor) + text::fixed_width(sequence as nat, 10, 20)
}

/// What the keys of an actor's checkpoints start with.
pub fn checkpoint_prefix(actor_id: &ActorId) -> (p: String)
    ensures
        p@ == prefix_text(actor_id@),
{
    let mut p = CHECKPOINT.to_owned();
    p.append(actor_id.0.as_str());
    p.append(":");
    p
}

/// The key of a checkpoint.
pub fn checkpoint_key(actor_id: &ActorId, sequence: u64) -> (k: String)
    ensures
        k@ == key_text(actor_id@, sequence),
{
    let mut k = checkpoint_prefix(actor_id);
    push_fixed_width(&mut k, sequence, 10, 20);
    k
}

/// The length of the number in the key of a checkpoint.
pub const SEQUENCE_LEN: usize = 20;

/// `key` is the key of a checkpoint of `actor`: after what such keys start with comes a
/// number and nothing else.
pub open spec fn is_key_of(key: Seq<char>, actor: Seq<char>) -> bool {
    &&& prefix_text(actor).is_prefix_of(key)
    &&& key.len() == prefix_text(actor).len() + SEQUENCE_LEN
}

/// Whether a key that starts as those of an actor do is the key of a checkpoint of it, and
/// not of an actor whose name goes on after a colon.
pub fn is_checkpoint_key(key: &String, actor_id: &ActorId) -> (b: bool)
    ensures
        b == is_key_of(key@, actor_id@),
{
    let prefix = checkpoint_prefix(actor_id);
    match without_prefix(key.as_str(), prefix.as_str()) {
        Some(rest) => {
            assert(prefix@.is_prefix_of(key@)) by {
                assert(key@.subrange(0, prefix@.len() as int) =~= prefix@);
            }
            rest.unicode_len() == SEQUENCE_LEN
        },
        None => false,
    }
}

/// A key belongs to the checkpoints of one actor at most.
pub proof fn law_keys_have_one_actor(key: Seq<char>, a: Seq<char>, b: Seq<char>)
    requires
        is_key_of(key, a),
        is_key_of(key, b),
    ensures
        a == b,
{
    reveal_strlit(":");
    assert(prefix_text(a) =~= prefix_text(b));
    assert forall|i: int| 0 <= i < a.len() implies a[i] == b[i] by {
        assert(prefix_text(a)[CHECKPOINT@.len() + i] == a[i]);
        assert(prefix_text(b)[CHECKPOINT@.len() + i] == b[i]);
    }
    assert(a =~= b);
}

/// The checkpoints of one actor are never found among those of another.
pub proof fn law_actors_isolated(a: Seq<char>, b: Seq<char>, sequence: u64)
    ensures
        is_key_of(key_text(b, sequence), a) <==> a == b,
{
    text::lemma_fixed_width_len(sequence as nat, 10, 20);
    let k = key_text(b, sequence);
    assert(prefix_text(b) =~= k.subrange(0, prefix_text(b).len() as int));
    if is_key_of(k, a) {
        law_keys_have_one_actor(k, a, b);
    }
}

/// The keys of an actor's checkpoints are in the order of their numbers, so that the last
/// key belongs to the latest checkpoint.
pub proof fn law_checkpoint_keys_ordered(actor: Seq<char>, m: u64, n: u64)
    requires
        m < n,
    ensures
        text::text_lt(key_text(actor, m), key_text(actor, n)),
{
    let p = prefix_text(actor);
    let x = text::fixed_width(m as nat, 10, 20);
    let y = text::fixed_width(n as nat, 10, 20);
    text::lemma_machine_widths(m, 0);
    text::lemma_machine_widths(n, 0);
    text::lemma_fixed_width_order(m as nat, n as nat, 10, 20, Seq::empty(), Seq::empty());
    assert(x + Seq::empty() =~= x);
    assert(y + Seq::empty() =~= y);
    text::lemma_text_prefix(p, x, y);
}

/// The bytes that `rkyv::to_bytes` gives for the parts of a checkpoint.
pub uninterp spec fn rkyv_snapshot_bytes(
    actor: Seq<char>,
    kind: Seq<char>,
    state: Seq<u8>,
    wall_time: u64,
    logical: u32,
    sequence: u64,
    wal_offset: u64,
) -> Option<Seq<u8>>;

/// The parts of a checkpoint that `rkyv::from_bytes` reads from bytes.
pub uninterp spec fn rkyv_snapshot_value(bytes: Seq<u8>) -> Option<
    (Seq<char>, Seq<char>, Seq<u8>, (u64, u32), u64, u64),
>;

/// `rkyv::to_bytes` on the parts of a checkpoint, which together are short enough for it not
/// to panic. What it writes, `rkyv::from_bytes` reads back.
#[verifier::external_body]
fn rkyv_encode_snapshot(
    actor: &String,
    kind: &String,
    state: &Vec<u8>,
    time: (u64, u32),
    sequence: u64,
    wal_offset: u64,
) -> (r: Option<Vec<u8>>)
    requires
        encode_utf8(actor@).len() + encode_utf8(kind@).len() + state@.len() <= ARCHIVE_LIMIT,
    ensures
        match r {
            Some(bytes) => rkyv_snapshot_bytes(
                actor@,
                kind@,
                state@,
                time.0,
                time.1,
                sequence,
                wal_offset,
            ) == Some(bytes@) && rkyv_snapshot_value(bytes@) == Some(
                (actor@, kind@, state@, time, sequence, wal_offset),
            ),
            None => rkyv_snapshot_bytes(
                actor@,
                kind@,
                state@,
                time.0,
                time.1,
                sequence,
                wal_offset,
            ) is None,
        },
{
    let value = (actor.clone(), kind.clone(), state.clone(), time, sequence, wal_offset);
    rkyv::to_bytes::<rkyv::rancor::Error>(&value).ok().map(|b| b.to_vec())
}

/// `rkyv::from_bytes` on a copy of the bytes that is aligned as it demands.
#[verifier::external_body]
fn rkyv_decode_snapshot(bytes: &Vec<u8>) -> (r: Option<
    (String, String, Vec<u8>, (u64, u32), u64, u64),
>)
    ensures
        match r {
            Some(v) => rkyv_snapshot_value(bytes@) == Some((v.0@, v.1@, v.2@, v.3, v.4, v.5)),
            None => rkyv_snapshot_value(bytes@) is None,
        },
{
    let mut aligned = rkyv::util::AlignedVec::<16>::new();
    aligned.extend_from_slice(bytes);
    rkyv::from_bytes::<(String, String, Vec<u8>, (u64, u32), u64, u64), rkyv::rancor::Error>(
        &aligned,
    ).ok()
}

/// A checkpoint is short enough for an archive.
pub open spec fn archivable(s: SnapshotView) -> bool {
    encode_utf8(s.actor_id).len() + encode_utf8(s.actor_type).len() + s.state.len()
        <= ARCHIVE_LIMIT
}

/// The bytes that a checkpoint is archived as.
pub open spec fn archived(s: SnapshotView) -> Option<Seq<u8>> {
    rkyv_snapshot_bytes(
        s.actor_id,
        s.actor_type,
        s.state,
        s.timestamp.wall_time,
        s.timestamp.logical,
        s.sequence,
        s.wal_offset,
    )
}

/// The checkpoint that bytes hold.
pub open spec fn snapshot_of(bytes: Seq<u8>) -> Option<SnapshotView> {
    match rkyv_snapshot_value(bytes) {
        Some(v) => Some(
            SnapshotView {
                actor_id: v.0,
                actor_type: v.1,
                state: v.2,
                timestamp: HlcTimestamp { wall_time: v.3.0, logical: v.3.1 },
                sequence: v.4,
                wal_offset: v.5,
            },
        ),
        None => None,
    }
}

impl ActorSnapshot {
    /// The checkpoint as archived bytes. They hold the checkpoint. One that is too long for an
    /// archive is refused.
    pub fn to_archived(&self) -> (r: Result<Vec<u8>, ActantError>)
        ensures
            match r {
                Ok(bytes) => {
                    &&& archivable(self@)
                    &&& snapshot_of(bytes@) == Some(self@)
                    &&& archived(self@) == Some(bytes@)
                },
                Err(e) => e is Serialization && (archivable(self@) ==> archived(self@) is None),
            },
    {
        if !fits_archive(
            self.actor_id.0.as_str().as_bytes().len(),
            self.actor_type.as_str().as_bytes().len(),
            self.state.len(),
        ) {
            return Err(ActantError::Serialization("checkpoint is too long".to_owned()));
        }
        match rkyv_encode_snapshot(
            &self.actor_id.0,
            &self.actor_type,
            &self.state,
            (self.timestamp.wall_time, self.timestamp.logical),
            self.sequence,
            self.wal_offset,
        ) {
            Some(bytes) => Ok(bytes),
            None => Err(ActantError::Serialization("failed to serialize checkpoint".to_owned())),
        }
    }

    /// The checkpoint that archived bytes hold.
    pub fn from_archived(bytes: &Vec<u8>) -> (r: Result<ActorSnapshot, ActantError>)
        ensures
            match r {
                Ok(s) => snapshot_of(bytes@) == Some(s@),
                Err(e) => e is Serialization && snapshot_of(bytes@) is None,
            },
    {
        match rkyv_decode_snapshot(bytes) {
            Some((actor, actor_type, state, time, sequence, wal_offset)) => Ok(
                ActorSnapshot {
                    actor_id: ActorId(actor),
                    actor_type,
                    state,
                    timestamp: HlcTimestamp { wall_time: time.0, logical: time.1 },
                    sequence,
                    wal_offset,
                },
            ),
            None => Err(ActantError::Serialization("failed to decode checkpoint".to_owned())),
        }
    }

    /// The key and the bytes to store the checkpoint with.
    pub fn save(&self) -> (r: Result<(String, Vec<u8>), ActantError>)
        ensures
            match r {
                Ok(p) => {
                    &&& p.0@ == key_text(self@.actor_id, self@.sequence)
                    &&& snapshot_of(p.1@) == Some(self@)
                    &&& archivable(self@)
                    &&& archived(self@) == Some(p.1@)
                },
                Err(e) => e is Serialization && (archivable(self@) ==> archived(self@) is None),
            },
    {
        match self.to_archived() {
            Ok(bytes) => Ok((checkpoint_key(&self.actor_id, self.sequence), bytes)),
            Err(e) => Err(e),
        }
    }

    /// The latest checkpoint of an actor, given what is stored in the order of the keys: the
    /// one under the last of its keys.
    pub fn load_latest(entries: &Vec<(String, Vec<u8>)>, actor_id: &ActorId) -> (r: Result<
        Option<ActorSnapshot>,
        ActantError,
    >)
        ensures
            match last_of(entries@, actor_id@) {
                None => r matches Ok(None),
                Some(bytes) => match r {
                    Ok(s) => s matches Some(x) && snapshot_of(bytes) == Some(x@),
                    Err(e) => e is Serialization && snapshot_of(bytes) is None,
                },
            },
    {
        match scan_last(entries, actor_id) {
            None => Ok(None),
            Some(bytes) => match ActorSnapshot::from_archived(bytes) {
                Ok(s) => Ok(Some(s)),
                Err(e) => Err(e),
            },
        }
    }
}

/// The value under the last of the actor's keys.
pub open spec fn last_of(entries: Seq<(String, Vec<u8>)>, actor: Seq<char>) -> Option<Seq<u8>>
    decreases entries.len(),
{
    if entries.len() == 0 {
        None
    } else if is_key_of(entries.last().0@, actor) {
        Some(entries.last().1@)
    } else {
        last_of(entries.drop_last(), actor)
    }
}

/// The value under the last of the actor's keys. The keys are in order.
pub fn scan_last<'a>(entries: &'a Vec<(String, Vec<u8>)>, actor_id: &ActorId) -> (r: Option<
    &'a Vec<u8>,
>)
    ensures
        match r {
            Some(b) => last_of(entries@, actor_id@) == Some(b@),
            None => last_of(entries@, actor_id@) is None,
        },
{
    let mut i: usize = entries.len();
    assert(entries@.take(i as int) =~= entries@);
    while i > 0
        invariant
            i <= entries@.len(),
            last_of(entries@, actor_id@) == last_of(entries@.take(i as int), actor_id@),
        decreases i,
    {
        i -= 1;
        assert(entries@.take(i + 1).drop_last() =~= entries@.take(i as int));
        if is_checkpoint_key(&entries[i].0, actor_id) {
            return Some(&entries[i].1);
        }
    }
    None
}

/// How many of `n` checkpoints are dropped when `keep` are kept.
pub open spec fn surplus(n: int, keep: int) -> int {
    if n <= keep {
        0
    } else {
        n - keep
    }
}

/// The keys of the actor's checkpoints, in the order in which they are stored.
pub open spec fn own_keys(entries: Seq<(String, Vec<u8>)>, actor: Seq<char>) -> Seq<Seq<char>>
    decreases entries.len(),
{
    if entries.len() == 0 {
        Seq::empty()
    } else {
        let init = own_keys(entries.drop_last(), actor);
        if is_key_of(entries.last().0@, actor) {
            init.push(entries.last().0@)
        } else {
            init
        }
    }
}

/// The keys of the actor's checkpoints but for the latest `keep`.
pub open spec fn old_keys(
    entries: Seq<(String, Vec<u8>)>,
    actor: Seq<char>,
    keep: int,
) -> Seq<Seq<char>> {
    let own = own_keys(entries, actor);
    own.take(surplus(own.len() as int, keep))
}

/// The old keys of each of `actors`, one actor after the other.
pub open spec fn all_old_keys(
    entries: Seq<(String, Vec<u8>)>,
    actors: Seq<Seq<char>>,
    keep: int,
) -> Seq<Seq<char>>
    decreases actors.len(),
{
    if actors.len() == 0 {
        Seq::empty()
    } else {
        all_old_keys(entries, actors.drop_last(), keep) + old_keys(entries, actors.last(), keep)
    }
}

/// The keys that are dropped when the latest `keep_latest` checkpoints of an actor are kept,
/// given what is stored in the order of the keys.
pub fn delete_old(
    entries: &Vec<(String, Vec<u8>)>,
    actor_id: &ActorId,
    keep_latest: usize,
) -> (old: Vec<String>)
    ensures
        keymap::texts(old@) == old_keys(entries@, actor_id@, keep_latest as int),
{
    let mut own: Vec<String> = Vec::new();
    let mut i: usize = 0;
    assert(keymap::texts(own@) =~= own_keys(entries@.take(0), actor_id@));
    while i < entries.len()
        invariant
            i <= entries@.len(),
            keymap::texts(own@) == own_keys(entries@.take(i as int), actor_id@),
        decreases entries@.len() - i,
    {
        assert(entries@.take(i + 1).drop_last() =~= entries@.take(i as int));
        if is_checkpoint_key(&entries[i].0, actor_id) {
            let ghost before = own@;
            own.push(entries[i].0.clone());
            assert(keymap::texts(own@) =~= keymap::texts(before).push(entries@[i as int].0@));
        }
        i += 1;
    }
    assert(entries@.take(i as int) =~= entries@);
    let n: usize = own.len();
    let count: usize = if n <= keep_latest {
        0
    } else {
        n - keep_latest
    };
    own.truncate(count);
    assert(keymap::texts(own@) =~= old_keys(entries@, actor_id@, keep_latest as int));
    own
}

/// The keys that are dropped when the latest `keep_latest` checkpoints of each of `actors`
/// are kept.
pub fn delete_all_old(
    entries: &Vec<(String, Vec<u8>)>,
    actors: &Vec<ActorId>,
    keep_latest: usize,
) -> (old: Vec<String>)
    ensures
        keymap::texts(old@) == all_old_keys(entries@, actor_texts(actors@), keep_latest as int),
{
    let ghost names = actor_texts(actors@);
    let mut old: Vec<String> = Vec::new();
    let mut i: usize = 0;
    assert(keymap::texts(old@) =~= all_old_keys(entries@, names.take(0), keep_latest as int));
    while i < actors.len()
        invariant
            i <= actors@.len(),
            names == actor_texts(actors@),
            keymap::texts(old@) == all_old_keys(entries@, names.take(i as int), keep_latest as int),
        decreases actors@.len() - i,
    {
        assert(names.take(i + 1).drop_last() =~= names.take(i as int));
        let mut more = delete_old(entries, &actors[i], keep_latest);
        let ghost before = old@;
        let ghost added = more@;
        old.append(&mut more);
        assert(keymap::texts(old@) =~= keymap::texts(before) + keymap::texts(added));
        i += 1;
    }
    assert(names.take(i as int) =~= names);
    old
}

/// No two entries have the same key.
pub open spec fn keys_differ(entries: Seq<(String, Vec<u8>)>) -> bool {
    forall|i: int, j: int|
        0 <= i < j < entries.len() ==> (#[trigger] entries[i]).0@ != (#[trigger] entries[j]).0@
}

proof fn lemma_own_keys(entries: Seq<(String, Vec<u8>)>, actor: Seq<char>)
    requires
        keys_differ(entries),
    ensures
        own_keys(entries, actor).no_duplicates(),
        forall|n: int|
            0 <= n < own_keys(entries, actor).len() ==> {
                &&& is_key_of(#[trigger] own_keys(entries, actor)[n], actor)
                &&& exists|i: int|
                    0 <= i < entries.len() && (#[trigger] entries[i]).0@ == own_keys(
                        entries,
                        actor,
                    )[n]
            },
    decreases entries.len(),
{
    if entries.len() > 0 {
        let head = entries.drop_last();
        lemma_own_keys(head, actor);
        let init = own_keys(head, actor);
        let own = own_keys(entries, actor);
        assert forall|n: int| 0 <= n < own.len() implies {
            &&& is_key_of(#[trigger] own[n], actor)
            &&& exists|i: int| 0 <= i < entries.len() && (#[trigger] entries[i]).0@ == own[n]
        } by {
            if n < init.len() {
                assert(own[n] == init[n]);
                let i = choose|i: int| 0 <= i < head.len() && (#[trigger] head[i]).0@ == init[n];
                assert(entries[i] == head[i]);
            } else {
                assert(entries[entries.len() - 1].0@ == own[n]);
            }
        }
        assert forall|m: int, n: int| 0 <= m < n < own.len() implies own[m] != own[n] by {
            if n == init.len() {
                let i = choose|i: int| 0 <= i < head.len() && (#[trigger] head[i]).0@ == init[m];
                assert(entries[i] == head[i]);
                assert(entries[i].0@ != entries[entries.len() - 1].0@);
            }
        }
    }
}

/// The latest checkpoint of an actor is never dropped, whatever is dropped of the others.
pub proof fn law_latest_checkpoint_stays(
    entries: Seq<(String, Vec<u8>)>,
    actors: Seq<Seq<char>>,
    keep: int,
    actor: Seq<char>,
)
    requires
        keys_differ(entries),
        keep >= 1,
        own_keys(entries, actor).len() > 0,
    ensures
        !all_old_keys(entries, actors, keep).contains(own_keys(entries, actor).last()),
    decreases actors.len(),
{
    if actors.len() > 0 {
        let init = all_old_keys(entries, actors.drop_last(), keep);
        let b = actors.last();
        let old = old_keys(entries, b, keep);
        let own = own_keys(entries, actor);
        let latest = own.last();
        law_latest_checkpoint_stays(entries, actors.drop_last(), keep, actor);
        lemma_own_keys(entries, actor);
        lemma_own_keys(entries, b);
        assert(own[own.len() - 1] == latest);
        if (init + old).contains(latest) {
            let n = (init + old).index_of(latest);
            if n < init.len() {
                assert(init[n] == latest);
            } else {
                let m = n - init.len();
                assert(old[m] == latest);
                assert(own_keys(entries, b)[m] == latest);
                law_keys_have_one_actor(latest, actor, b);
            }
        }
    }
}

/// The texts of actor identifiers.
pub open spec fn actor_texts(ids: Seq<ActorId>) -> Seq<Seq<char>> {
    Seq::new(ids.len(), |i: int| ids[i]@)
}

/// Whether a list holds an actor.
pub fn lists_actor(ids: &Vec<ActorId>, id: &ActorId) -> (b: bool)
    ensures
        b == actor_texts(ids@).contains(id@),
{
    let mut i: usize = 0;
    while i < ids.len()
        invariant
            i <= ids@.len(),
            forall|j: int| 0 <= j < i ==> actor_texts(ids@)[j] != id@,
        decreases ids@.len() - i,
    {
        if ids[i].0 == id.0 {
            assert(actor_texts(ids@)[i as int] == id@);
            return true;
        }
        i += 1;
    }
    false
}

/// The actors of the checkpoints that can be read, each once.
pub open spec fn stored_actors(entries: Seq<(String, Vec<u8>)>) -> Seq<Seq<char>>
    decreases entries.len(),
{
    if entries.len() == 0 {
        Seq::empty()
    } else {
        let init = stored_actors(entries.drop_last());
        match snapshot_of(entries.last().1@) {
            Some(s) => if init.contains(s.actor_id) {
                init
            } else {
                init.push(s.actor_id)
            },
            None => init,
        }
    }
}

/// The actors of the checkpoints that can be read, each once.
pub fn actors_stored(entries: &Vec<(String, Vec<u8>)>) -> (ids: Vec<ActorId>)
    ensures
        actor_texts(ids@) == stored_actors(entries@),
{
    let mut ids: Vec<ActorId> = Vec::new();
    let mut i: usize = 0;
    assert(actor_texts(ids@) =~= stored_actors(entries@.take(0)));
    while i < entries.len()
        invariant
            i <= entries@.len(),
            actor_texts(ids@) == stored_actors(entries@.take(i as int)),
        decreases entries@.len() - i,
    {
        assert(entries@.take(i + 1).drop_last() =~= entries@.take(i as int));
        if let Ok(s) = ActorSnapshot::from_archived(&entries[i].1) {
            let ghost before = ids@;
            let id = s.actor_id;
            if !lists_actor(&ids, &id) {
                let ghost text = id@;
                ids.push(id);
                assert(actor_texts(ids@) =~= actor_texts(before).push(text));
            }
        }
        i += 1;
    }
    assert(entries@.take(i as int) =~= entries@);
    ids
}

/// Every checkpoint that is stored can be read.
pub open spec fn all_readable(entries: Seq<(String, Vec<u8>)>) -> bool {
    forall|i: int| 0 <= i < entries.len() ==> snapshot_of((#[trigger] entries[i]).1@) is Some
}

/// Where the log is still needed, checkpoint by checkpoint.
pub open spec fn stored_offsets(entries: Seq<(String, Vec<u8>)>) -> Seq<u64> {
    Seq::new(entries.len(), |i: int| snapshot_of(entries[i].1@)->0.wal_offset)
}

/// Where the log is still needed, checkpoint by checkpoint.
pub fn needed_offsets(entries: &Vec<(String, Vec<u8>)>) -> (r: Result<Vec<u64>, ActantError>)
    ensures
        match r {
            Ok(offsets) => all_readable(entries@) && offsets@ == stored_offsets(entries@),
            Err(e) => e is Serialization && !all_readable(entries@),
        },
{
    let mut offsets: Vec<u64> = Vec::new();
    let mut i: usize = 0;
    while i < entries.len()
        invariant
            i <= entries@.len(),
            offsets@ == stored_offsets(entries@).take(i as int),
            forall|j: int| 0 <= j < i ==> snapshot_of((#[trigger] entries@[j]).1@) is Some,
        decreases entries@.len() - i,
    {
        match ActorSnapshot::from_archived(&entries[i].1) {
            Ok(s) => offsets.push(s.wal_offset),
            Err(e) => {
                assert(snapshot_of(entries@[i as int].1@) is None);
                return Err(e);
            },
        }
        i += 1;
        assert(offsets@ =~= stored_offsets(entries@).take(i as int));
    }
    assert(offsets@ =~= stored_offsets(entries@));
    Ok(offsets)
}

/// What compacting comes to: how much was cut off, and the log that takes the place of
/// the old one.
#[derive(Debug)]
pub struct Compaction {
    pub reclaimed: u64,
    pub log: Option<Vec<u8>>,
}

/// What compacting a log by the offsets that are still needed returns.
pub open spec fn compacted(
    log: Seq<u8>,
    offsets: Seq<u64>,
    current: u64,
    limit: u32,
    r: Result<Compaction, ActantError>,
) -> bool {
    match wal::cut_offset(offsets, current) {
        None => r matches Ok(c) && c.reclaimed == 0 && c.log is None,
        Some(cut) => {
            let s = wal::scan(wal::from_offset(log, cut), cut as int, limit);
            match r {
                Ok(c) => {
                    &&& s.end == wal::ScanEnd::Stopped
                    &&& c.reclaimed == cut
                    &&& c.log matches Some(kept)
                    &&& kept@ == wal::frames(s.entries)
                    &&& wal::scan(kept@, 0, limit) == s
                },
                Err(e) => wal::scan_error(s.end, limit, e),
            }
        },
    }
}

/// Cuts off the part of a log that no checkpoint needs.
#[derive(Debug)]
pub struct WalCompactor {
    pub current_offset: u64,
    /// How many checkpoints of each actor stay.
    pub keep_latest: usize,
}

impl WalCompactor {
    /// A compactor for a log of `current_offset` bytes. At least one checkpoint stays.
    pub fn new(current_offset: u64, keep_latest: usize) -> (c: Self)
        ensures
            c.current_offset == current_offset,
            c.keep_latest == (if keep_latest == 0 {
                1
            } else {
                keep_latest
            }),
    {
        WalCompactor {
            current_offset,
            keep_latest: if keep_latest == 0 {
                1
            } else {
                keep_latest
            },
        }
    }

    /// Cuts the log off before the least of `offsets`, with entries up to `limit` long.
    pub fn compact_to(&self, log: &Vec<u8>, offsets: &Vec<u64>, limit: u32) -> (r: Result<
        Compaction,
        ActantError,
    >)
        ensures
            compacted(log@, offsets@, self.current_offset, limit, r),
    {
        match cut_point(offsets, self.current_offset) {
            None => Ok(Compaction { reclaimed: 0, log: None }),
            Some(cut) => match cut_log(log, cut, limit) {
                Ok(kept) => Ok(Compaction { reclaimed: cut, log: Some(kept) }),
                Err(e) => Err(e),
            },
        }
    }

    /// Cuts the log off before what any checkpoint still needs, given the stored checkpoints
    /// in the order of their keys. Returns the keys of the checkpoints that go, which they do
    /// before the log is touched, and what compacting comes to. Where a checkpoint cannot be
    /// read, nothing goes.
    pub fn compact(&self, log: &Vec<u8>, entries: &Vec<(String, Vec<u8>)>) -> (r: (
        Vec<String>,
        Result<Compaction, ActantError>,
    ))
        ensures
            if all_readable(entries@) {
                &&& keymap::texts(r.0@) == all_old_keys(
                    entries@,
                    stored_actors(entries@),
                    self.keep_latest as int,
                )
                &&& compacted(
                    log@,
                    stored_offsets(entries@),
                    self.current_offset,
                    wal::WAL_MAX_ENTRY_SIZE,
                    r.1,
                )
            } else {
                &&& r.0@.len() == 0
                &&& r.1 matches Err(e)
                &&& e is Serialization
            },
    {
        match needed_offsets(entries) {
            Ok(offsets) => {
                let old = delete_all_old(entries, &actors_stored(entries), self.keep_latest);
                (old, self.compact_to(log, &offsets, wal::WAL_MAX_ENTRY_SIZE))
            },
            Err(e) => (Vec::new(), Err(e)),
        }
    }
}

} // verus!
