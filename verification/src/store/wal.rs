//! Compacting a log by the latest checkpoint of each actor.
use vstd::prelude::*;

use crate::common::ActantError;
use crate::keymap;
use crate::runtime::state::checkpoint;
use crate::runtime::state::checkpoint::{
    actors_stored, delete_all_old, ActorSnapshot, Compaction,
};

verus! {

/// Where the log is still needed: by the latest checkpoint of each of `actors`, as far as it
/// can be read.
pub open spec fn latest_offsets(
    entries: Seq<(String, Vec<u8>)>,
    actors: Seq<Seq<char>>,
) -> Seq<u64>
    decreases actors.len(),
{
    if actors.len() == 0 {
        Seq::empty()
    } else {
        let init = latest_offsets(entries, actors.drop_last());
        match checkpoint::last_of(entries, actors.last()) {
            Some(bytes) => match checkpoint::snapshot_of(bytes) {
                Some(s) => init.push(s.wal_offset),
                None => init,
            },
            None => init,
        }
    }
}

/// Cuts off the part of a log that the latest checkpoints do not need.
#[derive(Debug)]
pub struct WalCompactor {
    pub current_offset: u64,
    /// How many checkpoints of each actor stay.
    pub keep_latest: usize,
}

impl WalCompactor {
    /// A compactor for a log of `current_offset` bytes. At least one checkpoint stays.
    pub fn new(current_offset: u64, keep_latest: usize) -> (c: Self)
        ensures
            c.current_offset == current_offset,
            c.keep_latest == (if keep_latest == 0 {
                1
            } else {
                keep_latest
            }),
    {
        WalCompactor {
            current_offset,
            keep_latest: if keep_latest == 0 {
                1
            } else {
                keep_latest
            },
        }
    }

    /// Cuts the log off before what the latest checkpoint of any actor still needs, given
    /// the stored checkpoints in the order of their keys. Checkpoints that cannot be read do
    /// not count. Returns the keys of the checkpoints that go once the log has been replaced,
    /// and what compacting comes to. Where the log is not cut, nothing goes.
    pub fn compact(&self, log: &Vec<u8>, entries: &Vec<(String, Vec<u8>)>) -> (r: (
        Vec<String>,
        Result<Compaction, ActantError>,
    ))
        ensures
            checkpoint::compacted(
                log@,
                latest_offsets(entries@, checkpoint::stored_actors(entries@)),
                self.current_offset,
                u32::MAX,
                r.1,
            ),
            keymap::texts(r.0@) == if r.1 is Ok && r.1->Ok_0.log is Some {
                checkpoint::all_old_keys(
                    entries@,
                    checkpoint::stored_actors(entries@),
                    self.keep_latest as int,
                )
            } else {
                Seq::empty()
            },
    {
        let actors = actors_stored(entries);
        let ghost names = checkpoint::actor_texts(actors@);
        let mut offsets: Vec<u64> = Vec::new();
        let mut i: usize = 0;
        assert(offsets@ =~= latest_offsets(entries@, names.take(0)));
        while i < actors.len()
            invariant
                i <= actors@.len(),
                names == checkpoint::actor_texts(actors@),
                offsets@ == latest_offsets(entries@, names.take(i as int)),
            decreases actors@.len() - i,
        {
            assert(names.take(i + 1).drop_last() =~= names.take(i as int));
            if let Ok(Some(s)) = ActorSnapshot::load_latest(entries, &actors[i]) {
                offsets.push(s.wal_offset);
            }
            i += 1;
        }
        assert(names.take(i as int) =~= names);
        let compaction = checkpoint::WalCompactor::new(
            self.current_offset,
            self.keep_latest,
        ).compact_to(log, &offsets, u32::MAX);
        let old = match &compaction {
            Ok(c) => if c.log.is_some() {
                delete_all_old(entries, &actors, self.keep_latest)
            } else {
                Vec::new()
            },
            Err(_) => Vec::new(),
        };
        (old, compaction)
    }
}

} // verus!
