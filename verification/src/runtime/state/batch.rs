//! Writes that are gathered and committed together.
use vstd::prelude::*;

verus! {

/// So many gathered writes are committed without waiting for more.
pub const BATCH_FLUSH_THRESHOLD: usize = 256;

/// A write that waits to be committed.
#[derive(Debug)]
pub enum BatchEntry {
    Put { key: String, value: Vec<u8> },
    Delete { key: String },
}

/// What one write does to a store.
pub open spec fn entry_applied(
    store: Map<Seq<char>, Seq<u8>>,
    e: BatchEntry,
) -> Map<Seq<char>, Seq<u8>> {
    match e {
        BatchEntry::Put { key, value } => store.insert(key@, value@),
        BatchEntry::Delete { key } => store.remove(key@),
    }
}

/// What a batch of writes does to a store: the writes in order.
pub open spec fn batch_applied(
    store: Map<Seq<char>, Seq<u8>>,
    batch: Seq<BatchEntry>,
) -> Map<Seq<char>, Seq<u8>>
    decreases batch.len(),
{
    if batch.len() == 0 {
        store
    } else {
        entry_applied(batch_applied(store, batch.drop_last()), batch.last())
    }
}

/// Committing writes together comes to the same as committing them one after another, in
/// whatever batches.
pub proof fn law_batches_compose(
    store: Map<Seq<char>, Seq<u8>>,
    first: Seq<BatchEntry>,
    second: Seq<BatchEntry>,
)
    ensures
        batch_applied(store, first + second) == batch_applied(
            batch_applied(store, first),
            second,
        ),
    decreases second.len(),
{
    if second.len() == 0 {
        assert(first + second =~= first);
    } else {
        law_batches_compose(store, first, second.drop_last());
        assert((first + second).drop_last() =~= first + second.drop_last());
        assert((first + second).last() == second.last());
    }
}

/// What the committer hears of.
#[derive(Debug)]
pub enum FlushEvent {
    /// A write came in.
    Received(BatchEntry),
    /// No write came in for a while.
    Timeout,
    /// No more writes will come in.
    Closed,
}

/// What the committer has to do next.
#[derive(Debug, Clone, Copy, PartialEq, Eq, Structural)]
pub enum FlushAction {
    /// Wait for the next event.
    Wait,
    /// Take in the writes that are at hand, and commit.
    DrainAndFlush,
    /// Commit.
    Flush,
    /// Take in the writes that are at hand, commit, and stop.
    DrainFlushAndStop,
}

/// Writes that are gathered, and how many were committed so far.
#[derive(Debug)]
pub struct WriteBuffer {
    pub entries: Vec<BatchEntry>,
    pub committed: u64,
}

impl WriteBuffer {
    /// Nothing gathered, nothing committed.
    pub fn new() -> (b: Self)
        ensures
            b.entries@ == Seq::<BatchEntry>::empty(),
            b.committed == 0,
    {
        WriteBuffer { entries: Vec::new(), committed: 0 }
    }

    /// Gathers one write.
    pub fn push(&mut self, e: BatchEntry)
        ensures
            final(self).entries@ == old(self).entries@.push(e),
            final(self).committed == old(self).committed,
    {
        self.entries.push(e);
    }

    /// What an event leads to.
    pub fn on_event(&mut self, event: FlushEvent) -> (a: FlushAction)
        ensures
            final(self).committed == old(self).committed,
            match event {
                FlushEvent::Received(e) => {
                    &&& final(self).entries@ == old(self).entries@.push(e)
                    &&& a == if old(self).entries@.len() + 1 >= BATCH_FLUSH_THRESHOLD {
                        FlushAction::DrainAndFlush
                    } else {
                        FlushAction::Wait
                    }
                },
                FlushEvent::Timeout => a == FlushAction::Flush && final(self).entries@ == old(
                    self,
                ).entries@,
                FlushEvent::Closed => a == FlushAction::DrainFlushAndStop && final(self).entries@
                    == old(self).entries@,
            },
    {
        match event {
            FlushEvent::Received(e) => {
                self.entries.push(e);
                if self.entries.len() >= BATCH_FLUSH_THRESHOLD {
                    FlushAction::DrainAndFlush
                } else {
                    FlushAction::Wait
                }
            },
            FlushEvent::Timeout => FlushAction::Flush,
            FlushEvent::Closed => FlushAction::DrainFlushAndStop,
        }
    }

    /// The outcome of a commit: what was committed is counted and let go, what was not
    /// stays for the next one.
    pub fn flushed(&mut self, committed: bool)
        requires
            committed ==> old(self).committed + old(self).entries@.len() <= u64::MAX,
        ensures
            if committed {
                &&& final(self).entries@ == Seq::<BatchEntry>::empty()
                &&& final(self).committed == old(self).committed + old(self).entries@.len()
            } else {
                &&& final(self).entries@ == old(self).entries@
                &&& final(self).committed == old(self).committed
            },
    {
        if committed {
            self.committed = self.committed + self.entries.len() as u64;
            self.entries = Vec::new();
        }
    }
}

/// Whether everything that had been queued when `target` writes were is committed.
pub fn reached(committed: u64, target: u64) -> (b: bool)
    ensures
        b == (committed >= target),
{
    committed >= target
}

/// No write is lost: every write that came in is committed or still gathered, in order.
pub proof fn law_no_write_lost(
    store: Map<Seq<char>, Seq<u8>>,
    done: Seq<BatchEntry>,
    gathered: Seq<BatchEntry>,
    e: BatchEntry,
)
    ensures
        batch_applied(batch_applied(store, done), gathered.push(e)) == batch_applied(
            store,
            (done + gathered).push(e),
        ),
{
    law_batches_compose(store, done, gathered.push(e));
    assert(done + gathered.push(e) =~= (done + gathered).push(e));
}

/// How long the last commit of a store that closes is waited for: two intervals and a
/// second.
pub fn drain_timeout_ms(interval_ms: u64) -> (ms: u64)
    requires
        interval_ms * 2 + 1000 <= u64::MAX,
    ensures
        ms == interval_ms * 2 + 1000,
{
    interval_ms * 2 + 1000
}

/// The interval between commits: at least a millisecond.
pub fn commit_interval_ms(ms: u64) -> (interval: u64)
    ensures
        interval == (if ms == 0 {
            1
        } else {
            ms
        }),
{
    if ms == 0 {
        1
    } else {
        ms
    }
}

} // verus!
