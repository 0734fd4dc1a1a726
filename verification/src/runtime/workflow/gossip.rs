//! The exchange of task states between nodes.
use vstd::prelude::*;

use crate::common::{ActantError, NodeId, TaskId, WorkflowId};
use crate::runtime::state::hlc;
use crate::runtime::state::hlc::{HlcTimestamp, HybridLogicalClock};
use crate::runtime::workflow::actor::workflow_actor;
use crate::runtime::workflow::actor::workflow_actor::{
    ResultSource, TaskResultOutcome, WorkflowActor, WorkflowCommand, WorkflowReply,
};
use crate::runtime::workflow::orchestrator::events::Effect;
use crate::runtime::workflow::orchestrator::state;
use crate::runtime::workflow::orchestrator::state::StateView;
use crate::runtime::workflow::phase::Terminal;
use crate::runtime::workflow::wire;
use crate::runtime::workflow::wire::{
    HeadsExchange, TaskCompletion, WireDagStateUpdate, WireTaskState, WorkflowHead,
    WorkflowStateRequest, WorkflowStateResponse,
};
use crate::table::Table;
use crate::text;
use crate::text::{push_fixed_width, same_text};

verus! {

/// How a state ranks among states of the same timestamp: an end ranks above running.
pub open spec fn priority_of(s: WireTaskState) -> u8 {
    match s {
        WireTaskState::Completed { .. } => 5,
        WireTaskState::Failed { .. } => 4,
        WireTaskState::Cancelled => 3,
        WireTaskState::Skipped => 2,
        WireTaskState::Running => 1,
    }
}

/// How a state ranks among states of the same timestamp.
pub fn state_priority(state: &WireTaskState) -> (p: u8)
    ensures
        p == priority_of(*state),
{
    match state {
        WireTaskState::Completed { .. } => 5,
        WireTaskState::Failed { .. } => 4,
        WireTaskState::Cancelled => 3,
        WireTaskState::Skipped => 2,
        WireTaskState::Running => 1,
    }
}

/// The last news of a task that counted.
#[derive(Debug, Clone, Copy)]
pub struct SeenEntry {
    /// When it came, in nanoseconds of a clock that only moves forward.
    pub inserted_at: u64,
    pub hlc_timestamp: HlcTimestamp,
    pub state_priority: u8,
}

/// News with timestamp `ts` and rank `prio` counts where `e` is known already: it is later,
/// or as late and ranks no lower.
pub open spec fn supersedes(ts: HlcTimestamp, prio: u8, e: SeenEntry) -> bool {
    hlc::earlier(e.hlc_timestamp, ts) || (ts == e.hlc_timestamp && prio >= e.state_priority)
}

impl SeenEntry {
    /// Whether the incoming news takes the place of this one.
    pub fn is_superseded_by(&self, incoming_hlc: &HlcTimestamp, incoming_prio: u8) -> (b: bool)
        ensures
            b == supersedes(*incoming_hlc, incoming_prio, *self),
    {
        self.hlc_timestamp.is_before(incoming_hlc) || (incoming_hlc.wall_time
            == self.hlc_timestamp.wall_time && incoming_hlc.logical == self.hlc_timestamp.logical
            && incoming_prio >= self.state_priority)
    }
}

/// Of two pieces of news of a task one supersedes the other; both do only where they carry
/// the same timestamp and rank.
pub proof fn law_news_totally_ordered(a: SeenEntry, b: SeenEntry)
    ensures
        supersedes(a.hlc_timestamp, a.state_priority, b) || supersedes(
            b.hlc_timestamp,
            b.state_priority,
            a,
        ),
        supersedes(a.hlc_timestamp, a.state_priority, b) && supersedes(
            b.hlc_timestamp,
            b.state_priority,
            a,
        ) ==> a.hlc_timestamp == b.hlc_timestamp && a.state_priority == b.state_priority,
{
}

/// The key under which the news of a task is kept.
pub open spec fn seen_key(wf: Seq<char>, id: Seq<char>) -> Seq<char> {
    text::fixed_width(wf.len(), 10, 20) + wf + id
}

/// Tasks are kept apart, whatever their identifiers hold.
pub proof fn law_seen_keys_distinct(wf: Seq<char>, id: Seq<char>, wf2: Seq<char>, id2: Seq<char>)
    requires
        wf.len() <= u64::MAX,
        wf2.len() <= u64::MAX,
        seen_key(wf, id) == seen_key(wf2, id2),
    ensures
        wf == wf2,
        id == id2,
{
    lemma_width(wf.len(), 10, 20);
    lemma_width(wf2.len(), 10, 20);
    text::lemma_machine_widths(wf.len() as u64, 0);
    text::lemma_machine_widths(wf2.len() as u64, 0);
    let k = seen_key(wf, id);
    assert(k =~= text::fixed_width(wf.len(), 10, 20) + (wf + id));
    assert(k =~= text::fixed_width(wf2.len(), 10, 20) + (wf2 + id2));
    if wf.len() < wf2.len() {
        text::lemma_fixed_width_order(wf.len(), wf2.len(), 10, 20, wf + id, wf2 + id2);
        text::lemma_text_irreflexive(k);
    } else if wf2.len() < wf.len() {
        text::lemma_fixed_width_order(wf2.len(), wf.len(), 10, 20, wf2 + id2, wf + id);
        text::lemma_text_irreflexive(k);
    }
    let n = wf.len() as int;
    assert(wf =~= k.subrange(20, 20 + n));
    assert(wf2 =~= k.subrange(20, 20 + n));
    assert(id =~= k.skip(20 + n));
    assert(id2 =~= k.skip(20 + n));
}

proof fn lemma_width(n: nat, base: nat, width: nat)
    requires
        base > 0,
    ensures
        text::fixed_width(n, base, width).len() == width,
    decreases width,
{
    if width > 0 {
        lemma_width(n / base, base, (width - 1) as nat);
    }
}

fn seen_text(workflow_id: &WorkflowId, task_id: &TaskId) -> (k: String)
    ensures
        k@ == seen_key(workflow_id@, task_id@),
{
    let mut k = String::new();
    let n: usize = workflow_id.0.as_str().unicode_len();
    push_fixed_width(&mut k, n as u64, 10, 20);
    k.append(workflow_id.0.as_str());
    k.append(task_id.0.as_str());
    assert(k@ =~= seen_key(workflow_id@, task_id@));
    k
}

/// Settings of the exchange.
#[derive(Debug, Clone, Copy)]
pub struct GossipConfig {
    pub dedup_window_size: usize,
    pub dedup_ttl_secs: u64,
    pub retry_attempts: usize,
    pub retry_base_delay_ms: u64,
    pub heads_broadcast_interval_ms: u64,
}

/// A node's part in the exchange of task states.
pub struct DagGossip {
    pub node_id: NodeId,
    pub seen: Table<SeenEntry>,
    pub clock: HybridLogicalClock,
    pub config: GossipConfig,
}

/// Whole seconds from `since` to `now`, none where `now` is before `since`.
pub open spec fn age_secs(since: u64, now: u64) -> int {
    if now >= since {
        (now - since) / 1_000_000_000
    } else {
        0
    }
}

/// The entries that are younger than `ttl` seconds.
pub open spec fn fresh(seen: Map<Seq<char>, SeenEntry>, ttl: u64, now: u64) -> Map<
    Seq<char>,
    SeenEntry,
> {
    Map::new(
        |k: Seq<char>| seen.contains_key(k) && age_secs(seen[k].inserted_at, now) < ttl,
        |k: Seq<char>| seen[k],
    )
}

/// `after` holds what came last of `before`, at most `window` entries.
pub open spec fn latest_of(
    before: Map<Seq<char>, SeenEntry>,
    after: Map<Seq<char>, SeenEntry>,
    window: nat,
) -> bool {
    &&& after.submap_of(before)
    &&& after.len() == if before.len() <= window {
        before.len()
    } else {
        window
    }
    &&& forall|k: Seq<char>, q: Seq<char>|
        #![trigger after.contains_key(k), before.contains_key(q)]
        after.contains_key(k) && before.contains_key(q) && !after.contains_key(q)
            ==> before[q].inserted_at <= before[k].inserted_at
}

/// `after` is `before` without `k`, and nothing in `before` came before `k`.
pub open spec fn first_gone(
    before: Map<Seq<char>, SeenEntry>,
    after: Map<Seq<char>, SeenEntry>,
    k: Seq<char>,
) -> bool {
    &&& before.contains_key(k)
    &&& after == before.remove(k)
    &&& forall|q: Seq<char>| #[trigger]
        before.contains_key(q) ==> before[k].inserted_at <= before[q].inserted_at
}

/// What eviction leaves: nothing goes before twice the window is exceeded; after that old
/// entries go, and of the rest those that came last stay.
pub open spec fn evicted(
    before: Map<Seq<char>, SeenEntry>,
    after: Map<Seq<char>, SeenEntry>,
    config: GossipConfig,
    now: u64,
) -> bool {
    if before.len() <= config.dedup_window_size * 2 {
        after == before
    } else {
        latest_of(
            fresh(before, config.dedup_ttl_secs, now),
            after,
            config.dedup_window_size as nat,
        )
    }
}

/// An entry of the news `u` that comes at `now`.
pub open spec fn entry_of(ts: HlcTimestamp, s: WireTaskState, now: u64) -> SeenEntry {
    SeenEntry { inserted_at: now, hlc_timestamp: ts, state_priority: priority_of(s) }
}

/// The entries after news that is kept where it counts.
pub open spec fn noted(
    before: Map<Seq<char>, SeenEntry>,
    key: Seq<char>,
    e: SeenEntry,
) -> Map<Seq<char>, SeenEntry> {
    if before.contains_key(key) && !supersedes(e.hlc_timestamp, e.state_priority, before[key]) {
        before
    } else {
        before.insert(key, e)
    }
}

/// The news is behind what is known already.
pub open spec fn stale(seen: Map<Seq<char>, SeenEntry>, u: WireDagStateUpdate) -> bool {
    let key = seen_key(u.workflow_id@, u.task_id@);
    seen.contains_key(key) && !supersedes(u.hlc_timestamp, priority_of(u.task_state), seen[key])
}

/// What the actor is asked to do on news.
pub open spec fn command_for(u: WireDagStateUpdate, c: WorkflowCommand) -> bool {
    match u.task_state {
        WireTaskState::Running => c == (WorkflowCommand::MarkTaskRunning {
            workflow_id: u.workflow_id,
            task_id: u.task_id,
        }),
        WireTaskState::Skipped => c == (WorkflowCommand::SkipConditionalBranch {
            workflow_id: u.workflow_id,
            task_id: u.task_id,
        }),
        _ => c == (WorkflowCommand::OnTaskResult {
            workflow_id: u.workflow_id,
            task_id: u.task_id,
            outcome: match u.task_state {
                WireTaskState::Completed { result } => TaskResultOutcome::Completed(result),
                WireTaskState::Failed { error } => TaskResultOutcome::Failed(error),
                _ => TaskResultOutcome::Cancelled,
            },
            attempt: None,
            source: ResultSource::Gossip,
        }),
    }
}

/// What the answer of the actor comes to: that the workflow is not known here is no error.
pub open spec fn settled(reply: Result<WorkflowReply, ActantError>, r: Result<(), ActantError>) -> bool {
    match reply {
        Ok(_) => r is Ok,
        Err(ActantError::NotFound(_)) => r is Ok,
        Err(e) => r == Err::<(), ActantError>(e),
    }
}

/// What the answer of the actor comes to.
pub fn settle(reply: Result<WorkflowReply, ActantError>) -> (r: Result<(), ActantError>)
    ensures
        settled(reply, r),
{
    match reply {
        Ok(_) => Ok(()),
        Err(ActantError::NotFound(_)) => Ok(()),
        Err(e) => Err(e),
    }
}

impl DagGossip {
    /// The table of news is in order.
    pub open spec fn wf(&self) -> bool {
        self.seen.wf()
    }

    /// A node's part in the exchange, with nothing heard yet.
    pub fn new(node_id: NodeId, config: GossipConfig) -> (g: Self)
        ensures
            g.wf(),
            g.node_id == node_id,
            g.config == config,
            g.seen@ == Map::<Seq<char>, SeenEntry>::empty(),
            g.clock.last == (HlcTimestamp { wall_time: 0, logical: 0 }),
            g.clock.max_drift_nanos == 500_000_000,
    {
        DagGossip { node_id, seen: Table::new(), clock: HybridLogicalClock::new(), config }
    }

    /// How often the heads are told, in milliseconds.
    pub fn heads_broadcast_interval(&self) -> (ms: u64)
        ensures
            ms == self.config.heads_broadcast_interval_ms,
    {
        self.config.heads_broadcast_interval_ms
    }

    /// The node.
    pub fn node_id(&self) -> (n: &NodeId)
        ensures
            *n == self.node_id,
    {
        &self.node_id
    }

    /// The clock of the exchange.
    pub fn clock(&mut self) -> (c: &mut HybridLogicalClock)
        ensures
            *c == old(self).clock,
            *final(self) == (DagGossip { clock: *final(c), ..*old(self) }),
    {
        &mut self.clock
    }

    /// The number of tasks that there is news of.
    pub fn seen_count(&self) -> (n: usize)
        requires
            self.wf(),
        ensures
            n == self.seen@.len(),
    {
        self.seen.len()
    }

    /// The number of tasks that there is news of, the window, the age in seconds at which
    /// news goes, and the number of attempts at a broadcast.
    pub fn dedup_stats(&self) -> (r: (usize, usize, u64, u64))
        requires
            self.wf(),
        ensures
            r.0 == self.seen@.len(),
            r.1 == self.config.dedup_window_size,
            r.2 == self.config.dedup_ttl_secs,
            r.3 == self.config.retry_attempts,
    {
        (
            self.seen.len(),
            self.config.dedup_window_size,
            self.config.dedup_ttl_secs,
            self.config.retry_attempts as u64,
        )
    }

    /// Keeps news where it counts.
    fn note(&mut self, key: String, e: SeenEntry)
        requires
            old(self).wf(),
        ensures
            final(self).wf(),
            final(self).seen@ == noted(old(self).seen@, key@, e),
            final(self).clock == old(self).clock,
            final(self).node_id == old(self).node_id,
            final(self).config == old(self).config,
    {
        let counts = match self.seen.get(&key) {
            Some(x) => x.is_superseded_by(&e.hlc_timestamp, e.state_priority),
            None => true,
        };
        if counts {
            self.seen.insert(key, e);
        }
    }

    /// Drops the entries that are `ttl` seconds old or older.
    fn drop_aged(&mut self, now: u64)
        requires
            old(self).wf(),
        ensures
            final(self).wf(),
            final(self).seen@ == fresh(old(self).seen@, old(self).config.dedup_ttl_secs, now),
            final(self).clock == old(self).clock,
            final(self).node_id == old(self).node_id,
            final(self).config == old(self).config,
    {
        let mut aged: Vec<String> = Vec::new();
        let n: usize = self.seen.len();
        let ghost before = self.seen@;
        let ttl: u64 = self.config.dedup_ttl_secs;
        let mut i: usize = 0;
        while i < n
            invariant
                i <= n,
                n == self.seen.order().len(),
                self.wf(),
                self.seen.listed(),
                self.seen@ == before,
                ttl == self.config.dedup_ttl_secs,
                self.clock == old(self).clock,
                self.node_id == old(self).node_id,
                self.config == old(self).config,
                forall|j: int|
                    0 <= j < aged@.len() ==> before.contains_key(#[trigger] aged@[j]@) && age_secs(
                        before[aged@[j]@].inserted_at,
                        now,
                    ) >= ttl,
                forall|j: int|
                    #![trigger self.seen.order()[j]]
                    0 <= j < i && age_secs(before[self.seen.order()[j]].inserted_at, now) >= ttl
                        ==> exists|q: int|
                        0 <= q < aged@.len() && (#[trigger] aged@[q])@ == self.seen.order()[j],
            decreases n - i,
        {
            let since: u64 = self.seen.value_at(i).inserted_at;
            let age: u64 = if now >= since {
                (now - since) / 1_000_000_000
            } else {
                0
            };
            let ghost earlier_aged = aged@;
            if age >= ttl {
                let key = self.seen.key_at(i).clone();
                aged.push(key);
                assert(aged@[earlier_aged.len() as int]@ == self.seen.order()[i as int]);
            }
            assert forall|j: int|
                #![trigger self.seen.order()[j]]
                0 <= j < i + 1 && age_secs(before[self.seen.order()[j]].inserted_at, now)
                    >= ttl implies exists|q: int|
                0 <= q < aged@.len() && (#[trigger] aged@[q])@ == self.seen.order()[j] by {
                if j < i {
                    let q = choose|q: int|
                        0 <= q < earlier_aged.len() && (#[trigger] earlier_aged[q])@
                            == self.seen.order()[j];
                    assert(aged@[q]@ == self.seen.order()[j]);
                }
            }
            i += 1;
        }
        proof {
            assert forall|k: Seq<char>|
                before.contains_key(k) && age_secs(before[k].inserted_at, now)
                    >= ttl implies exists|q: int|
                0 <= q < aged@.len() && (#[trigger] aged@[q])@ == k by {
                assert(self.seen.order().contains(k));
                let j = choose|j: int| 0 <= j < n && self.seen.order()[j] == k;
                assert(self.seen.order()[j] == k);
            }
        }
        let ghost all = aged@;
        let mut k: usize = 0;
        while k < aged.len()
            invariant
                k <= aged@.len(),
                aged@ == all,
                self.wf(),
                self.clock == old(self).clock,
                self.node_id == old(self).node_id,
                self.config == old(self).config,
                forall|x: Seq<char>| #[trigger]
                    self.seen@.contains_key(x) <==> before.contains_key(x) && !exists|q: int|
                        0 <= q < k && (#[trigger] all[q])@ == x,
                forall|x: Seq<char>| #[trigger]
                    self.seen@.contains_key(x) ==> self.seen@[x] == before[x],
            decreases aged@.len() - k,
        {
            let ghost prev = self.seen@;
            self.seen.remove(&aged[k]);
            assert forall|x: Seq<char>| #[trigger]
                self.seen@.contains_key(x) <==> before.contains_key(x) && !exists|q: int|
                    0 <= q < k + 1 && (#[trigger] all[q])@ == x by {
                assert(self.seen@.contains_key(x) <==> prev.contains_key(x) && x != all[k as int]@);
                if exists|q: int| 0 <= q < k + 1 && (#[trigger] all[q])@ == x {
                    let q = choose|q: int| 0 <= q < k + 1 && (#[trigger] all[q])@ == x;
                    if q < k {
                        assert(exists|p: int| 0 <= p < k && (#[trigger] all[p])@ == x);
                    }
                }
                if exists|q: int| 0 <= q < k && (#[trigger] all[q])@ == x {
                    let q = choose|q: int| 0 <= q < k && (#[trigger] all[q])@ == x;
                    assert(0 <= q < k + 1 && all[q]@ == x);
                }
            }
            k += 1;
        }
        assert(self.seen@ =~= fresh(before, ttl, now));
    }

    /// Drops the entry that came first.
    fn drop_oldest(&mut self)
        requires
            old(self).wf(),
            old(self).seen@.len() > 0,
        ensures
            final(self).wf(),
            final(self).clock == old(self).clock,
            final(self).node_id == old(self).node_id,
            final(self).config == old(self).config,
            exists|k: Seq<char>| #[trigger]
                first_gone(old(self).seen@, final(self).seen@, k),
            final(self).seen@.len() == old(self).seen@.len() - 1,
    {
        let n: usize = self.seen.len();
        let ghost before = self.seen@;
        let mut oldest: usize = 0;
        let mut i: usize = 1;
        while i < n
            invariant
                1 <= i <= n,
                oldest < i,
                n == self.seen.order().len(),
                self.wf(),
                self.seen.listed(),
                self.seen@ == before,
                forall|j: int|
                    0 <= j < i ==> before[self.seen.order()[oldest as int]].inserted_at
                        <= before[#[trigger] self.seen.order()[j]].inserted_at,
            decreases n - i,
        {
            if self.seen.value_at(i).inserted_at < self.seen.value_at(oldest).inserted_at {
                oldest = i;
            }
            i += 1;
        }
        let key = self.seen.key_at(oldest).clone();
        proof {
            assert forall|q: Seq<char>| #[trigger] before.contains_key(q) implies before[key@].inserted_at
                <= before[q].inserted_at by {
                assert(self.seen.order().contains(q));
                let j = choose|j: int| 0 <= j < n && self.seen.order()[j] == q;
                assert(self.seen.order()[j] == q);
            }
        }
        self.seen.remove(&key);
        assert(first_gone(before, self.seen@, key@));
    }

    /// Bounds the news that is kept, at time `now`.
    pub fn evict_seen(&mut self, now: u64)
        requires
            old(self).wf(),
        ensures
            final(self).wf(),
            evicted(old(self).seen@, final(self).seen@, old(self).config, now),
            final(self).clock == old(self).clock,
            final(self).node_id == old(self).node_id,
            final(self).config == old(self).config,
    {
        let window: usize = self.config.dedup_window_size;
        let n: usize = self.seen.len();
        if n <= window || n - window <= window {
            return;
        }
        self.drop_aged(now);
        let ghost base = self.seen@;
        let mut left: usize = self.seen.len();
        while left > window
            invariant
                self.wf(),
                left == self.seen@.len(),
                self.clock == old(self).clock,
                self.node_id == old(self).node_id,
                self.config == old(self).config,
                window == self.config.dedup_window_size,
                base.dom().finite(),
                self.seen@.submap_of(base),
                self.seen@.len() == base.len() || self.seen@.len() >= window,
                self.seen@.len() <= base.len(),
                forall|k: Seq<char>, q: Seq<char>|
                    #![trigger self.seen@.contains_key(k), base.contains_key(q)]
                    self.seen@.contains_key(k) && base.contains_key(q) && !self.seen@.contains_key(q)
                        ==> base[q].inserted_at <= base[k].inserted_at,
            decreases left,
        {
            let ghost prev = self.seen@;
            self.drop_oldest();
            proof {
                let gone = choose|k: Seq<char>| #[trigger] first_gone(prev, self.seen@, k);
                assert forall|k: Seq<char>, q: Seq<char>|
                    #![trigger self.seen@.contains_key(k), base.contains_key(q)]
                    self.seen@.contains_key(k) && base.contains_key(q) && !self.seen@.contains_key(
                        q,
                    ) implies base[q].inserted_at <= base[k].inserted_at by {
                    assert(prev.contains_key(k));
                    assert(prev.dom().contains(k) && base.dom().contains(k));
                    if q == gone {
                        assert(prev.dom().contains(gone) && base.dom().contains(gone));
                        assert(prev[gone].inserted_at <= prev[k].inserted_at);
                    } else {
                        assert(!prev.contains_key(q));
                    }
                }
            }
            left -= 1;
        }
        assert(latest_of(base, self.seen@, window as nat));
    }

    /// The news that a task has ended, as [`DagGossip::broadcast_update`] has it.
    pub fn broadcast_state_update(
        &mut self,
        completion: &TaskCompletion,
        physical: u64,
        now: u64,
    ) -> (r: (WireDagStateUpdate, bool))
        requires
            old(self).wf(),
            physical > old(self).clock.last.wall_time || old(self).clock.last.logical < u32::MAX,
        ensures
            final(self).wf(),
            final(self).node_id == old(self).node_id,
            final(self).config == old(self).config,
            r.0.workflow_id@ == completion.task.workflow_id@,
            r.0.task_id@ == completion.task.task_id@,
            wire::tells(completion.outcome@, r.0.task_state),
            r.0.hlc_timestamp == hlc::ticked(old(self).clock.last, physical),
            r.0.origin_node == old(self).node_id,
            r.1,
            final(self).clock.last == r.0.hlc_timestamp,
            evicted(
                noted(
                    old(self).seen@,
                    seen_key(completion.task.workflow_id@, completion.task.task_id@),
                    entry_of(r.0.hlc_timestamp, r.0.task_state, now),
                ),
                final(self).seen@,
                old(self).config,
                now,
            ),
    {
        let task_state = completion.wire_state();
        self.broadcast_update(
            &completion.task.workflow_id,
            &completion.task.task_id,
            task_state,
            physical,
            now,
        )
    }

    /// The news that a task runs, as [`DagGossip::broadcast_update`] has it.
    pub fn broadcast_task_running(
        &mut self,
        workflow_id: &WorkflowId,
        task_id: &TaskId,
        physical: u64,
        now: u64,
    ) -> (r: (WireDagStateUpdate, bool))
        requires
            old(self).wf(),
            physical > old(self).clock.last.wall_time || old(self).clock.last.logical < u32::MAX,
        ensures
            final(self).wf(),
            final(self).node_id == old(self).node_id,
            final(self).config == old(self).config,
            r.0.workflow_id@ == workflow_id@,
            r.0.task_id@ == task_id@,
            r.0.task_state is Running,
            r.0.hlc_timestamp == hlc::ticked(old(self).clock.last, physical),
            r.0.origin_node == old(self).node_id,
            !r.1,
            final(self).clock.last == r.0.hlc_timestamp,
            evicted(
                noted(
                    old(self).seen@,
                    seen_key(workflow_id@, task_id@),
                    entry_of(r.0.hlc_timestamp, WireTaskState::Running, now),
                ),
                final(self).seen@,
                old(self).config,
                now,
            ),
    {
        self.broadcast_update(workflow_id, task_id, WireTaskState::Running, physical, now)
    }

    /// The news that a task has come to a state, at physical time `physical` and time `now`,
    /// and whether it is to be sent again where sending fails.
    pub fn broadcast_update(
        &mut self,
        workflow_id: &WorkflowId,
        task_id: &TaskId,
        task_state: WireTaskState,
        physical: u64,
        now: u64,
    ) -> (r: (WireDagStateUpdate, bool))
        requires
            old(self).wf(),
            physical > old(self).clock.last.wall_time || old(self).clock.last.logical < u32::MAX,
        ensures
            final(self).wf(),
            final(self).node_id == old(self).node_id,
            final(self).config == old(self).config,
            r.0.workflow_id@ == workflow_id@,
            r.0.task_id@ == task_id@,
            r.0.task_state == task_state,
            r.0.hlc_timestamp == hlc::ticked(old(self).clock.last, physical),
            r.0.origin_node == old(self).node_id,
            r.1 == task_state.ends(),
            final(self).clock.last == r.0.hlc_timestamp,
            final(self).clock.max_drift_nanos == old(self).clock.max_drift_nanos,
            evicted(
                noted(
                    old(self).seen@,
                    seen_key(workflow_id@, task_id@),
                    entry_of(r.0.hlc_timestamp, task_state, now),
                ),
                final(self).seen@,
                old(self).config,
                now,
            ),
    {
        let is_terminal = task_state.is_terminal();
        let hlc_timestamp = self.clock.tick_at(physical);
        let key = seen_text(workflow_id, task_id);
        let prio: u8 = state_priority(&task_state);
        self.note(key, SeenEntry { inserted_at: now, hlc_timestamp, state_priority: prio });
        self.evict_seen(now);
        (
            WireDagStateUpdate {
                workflow_id: workflow_id.clone(),
                task_id: task_id.clone(),
                task_state,
                hlc_timestamp,
                origin_node: self.node_id.clone(),
            },
            is_terminal,
        )
    }

    /// Takes news in at physical time `physical` and time `now`. Returns what the actor is to
    /// be asked to do, or nothing where the news is behind what is known.
    pub fn receive(&mut self, update: WireDagStateUpdate, physical: u64, now: u64) -> (r: Option<
        WorkflowCommand,
    >)
        requires
            old(self).wf(),
        ensures
            final(self).wf(),
            final(self).node_id == old(self).node_id,
            final(self).config == old(self).config,
            final(self).clock.max_drift_nanos == old(self).clock.max_drift_nanos,
            news_received(
                old(self).seen@,
                final(self).seen@,
                old(self).clock,
                final(self).clock,
                old(self).config,
                update,
                physical,
                now,
                r,
            ),
    {
        let key = seen_text(&update.workflow_id, &update.task_id);
        let prio: u8 = state_priority(&update.task_state);
        if let Some(existing) = self.seen.get(&key) {
            if !existing.is_superseded_by(&update.hlc_timestamp, prio) {
                return None;
            }
        }
        self.clock.merge_at(&update.hlc_timestamp, physical);
        self.note(
            key,
            SeenEntry {
                inserted_at: now,
                hlc_timestamp: update.hlc_timestamp,
                state_priority: prio,
            },
        );
        self.evict_seen(now);
        let workflow_id = update.workflow_id;
        let task_id = update.task_id;
        let outcome = match update.task_state {
            WireTaskState::Running => {
                return Some(WorkflowCommand::MarkTaskRunning { workflow_id, task_id });
            },
            WireTaskState::Skipped => {
                return Some(WorkflowCommand::SkipConditionalBranch { workflow_id, task_id });
            },
            WireTaskState::Completed { result } => TaskResultOutcome::Completed(result),
            WireTaskState::Failed { error } => TaskResultOutcome::Failed(error),
            WireTaskState::Cancelled => TaskResultOutcome::Cancelled,
        };
        Some(
            WorkflowCommand::OnTaskResult {
                workflow_id,
                task_id,
                outcome,
                attempt: None,
                source: ResultSource::Gossip,
            },
        )
    }

    /// Takes news in and has the actor act on it. News behind what is known changes nothing.
    /// News of a workflow that is not known here is no error.
    pub fn apply_remote_update(
        &mut self,
        actor: &mut WorkflowActor,
        update: WireDagStateUpdate,
        physical: u64,
        now: u64,
        wall_ms: u64,
    ) -> (r: (Result<(), ActantError>, Vec<Effect>))
        requires
            old(self).wf(),
            old(actor).orchestrator.wf(),
        ensures
            final(self).wf(),
            final(actor).orchestrator.wf(),
            final(actor).orchestrator.same_settings(&old(actor).orchestrator),
            final(self).node_id == old(self).node_id,
            final(self).config == old(self).config,
            if stale(old(self).seen@, update) {
                &&& r.0 is Ok
                &&& r.1@.len() == 0
                &&& final(self).seen@ == old(self).seen@
                &&& final(self).clock == old(self).clock
                &&& *final(actor) == *old(actor)
            } else {
                &&& final(self).clock.last == hlc::merged(
                    old(self).clock.last,
                    update.hlc_timestamp,
                    physical,
                    old(self).clock.max_drift_nanos,
                )
                &&& evicted(
                    old(self).seen@.insert(
                        seen_key(update.workflow_id@, update.task_id@),
                        entry_of(update.hlc_timestamp, update.task_state, now),
                    ),
                    final(self).seen@,
                    old(self).config,
                    now,
                )
                &&& acted_on(
                    old(actor).orchestrator.state@,
                    final(actor).orchestrator.state@,
                    old(actor).orchestrator.origin(),
                    old(actor).orchestrator.completed_retention_count,
                    update,
                    wall_ms,
                    r.0,
                    r.1@,
                )
            },
    {
        match self.receive(update, physical, now) {
            None => (Ok(()), Vec::new()),
            Some(command) => {
                let ghost c = command;
                let (reply, effects) = actor.handle_message(command, wall_ms);
                let ghost told = reply;
                let r = settle(reply);
                assert(command_for(update, c) && settled(told, r));
                (r, effects)
            },
        }
    }
}

/// What taking news in leaves and returns: nothing new where it is behind what is known.
pub open spec fn news_received(
    before: Map<Seq<char>, SeenEntry>,
    after: Map<Seq<char>, SeenEntry>,
    clock: HybridLogicalClock,
    moved: HybridLogicalClock,
    config: GossipConfig,
    u: WireDagStateUpdate,
    physical: u64,
    now: u64,
    r: Option<WorkflowCommand>,
) -> bool {
    match r {
        None => stale(before, u) && after == before && moved == clock,
        Some(c) => {
            &&& !stale(before, u)
            &&& command_for(u, c)
            &&& moved.last == hlc::merged(
                clock.last,
                u.hlc_timestamp,
                physical,
                clock.max_drift_nanos,
            )
            &&& evicted(
                before.insert(
                    seen_key(u.workflow_id@, u.task_id@),
                    entry_of(u.hlc_timestamp, u.task_state, now),
                ),
                after,
                config,
                now,
            )
        },
    }
}

/// The actor has acted on news.
pub open spec fn acted_on(
    before: StateView,
    after: StateView,
    origin: Option<Seq<char>>,
    retention: usize,
    u: WireDagStateUpdate,
    now: u64,
    r: Result<(), ActantError>,
    effects: Seq<Effect>,
) -> bool {
    exists|c: WorkflowCommand, reply: Result<WorkflowReply, ActantError>|
        {
            &&& #[trigger] command_for(u, c)
            &&& #[trigger] settled(reply, r)
            &&& workflow_actor::command_outcome(
                before,
                after,
                origin,
                retention,
                c,
                now,
                reply,
                effects,
            )
        }
}

/// What to do after an attempt at a broadcast.
#[derive(Debug)]
pub enum RetryStep {
    /// Nothing more.
    Stop(Result<(), ActantError>),
    /// Wait for so many milliseconds, then try again.
    WaitThenTry(u128),
}

/// A broadcast that is tried a limited number of times.
#[derive(Debug)]
pub struct BroadcastRetry {
    pub attempts: usize,
    pub base_delay_ms: u64,
    /// The attempts made.
    pub made: usize,
}

impl BroadcastRetry {
    /// A broadcast that was not tried yet.
    pub fn new(config: &GossipConfig) -> (b: Self)
        ensures
            b.attempts == config.retry_attempts,
            b.base_delay_ms == config.retry_base_delay_ms,
            b.made == 0,
    {
        BroadcastRetry {
            attempts: config.retry_attempts,
            base_delay_ms: config.retry_base_delay_ms,
            made: 0,
        }
    }

    /// Whether to try at all. With no attempt allowed the broadcast fails at once.
    pub fn begin(&self) -> (r: Result<(), ActantError>)
        ensures
            match r {
                Ok(()) => self.attempts > 0,
                Err(e) => self.attempts == 0 && (e matches ActantError::Internal(m) && m@
                    == "broadcast_with_retry: no attempts made (retry_attempts=0)"@),
            },
    {
        if self.attempts == 0 {
            Err(
                ActantError::Internal(
                    "broadcast_with_retry: no attempts made (retry_attempts=0)".to_owned(),
                ),
            )
        } else {
            Ok(())
        }
    }

    /// What to do after an attempt. The wait grows with the number of attempts made; the
    /// last failure is the failure of the broadcast.
    pub fn on_result(&mut self, result: Result<(), ActantError>) -> (s: RetryStep)
        requires
            old(self).made < old(self).attempts,
        ensures
            final(self).attempts == old(self).attempts,
            final(self).base_delay_ms == old(self).base_delay_ms,
            final(self).made == old(self).made + 1,
            match s {
                RetryStep::Stop(r) => {
                    &&& r == result
                    &&& result is Ok || final(self).made == final(self).attempts
                },
                RetryStep::WaitThenTry(ms) => {
                    &&& result is Err
                    &&& final(self).made < final(self).attempts
                    &&& ms == old(self).base_delay_ms * final(self).made
                },
            },
    {
        self.made += 1;
        if result.is_ok() || self.made >= self.attempts {
            return RetryStep::Stop(result);
        }
        let base: u64 = self.base_delay_ms;
        let made: u64 = self.made as u64;
        assert(base * made <= u64::MAX * u64::MAX) by (nonlinear_arith)
            requires
                0 <= base <= u64::MAX,
                0 <= made <= u64::MAX,
        ;
        RetryStep::WaitThenTry(base as u128 * made as u128)
    }
}

/// What to do about a head that another node told of.
#[derive(Debug, Clone, Copy, PartialEq, Eq, Structural)]
pub enum HeadAction {
    /// Nothing: this node has come as far.
    Ignore,
    /// Ask the node for all that it knows.
    Request,
    /// Take the workflow up from what is stored here, and ask the node for all that it
    /// knows.
    AdoptAndRequest,
}

/// What is to be done about a head, given what is known here.
pub open spec fn reviewed(v: StateView, h: WorkflowHead) -> HeadAction {
    if !v.slots.contains_key(h.workflow_id@) {
        HeadAction::AdoptAndRequest
    } else if h.succeeded_count > v.slots[h.workflow_id@].execution.succeeded {
        HeadAction::Request
    } else {
        HeadAction::Ignore
    }
}

/// Goes through what another node tells of its workflows, one head after another.
#[derive(Debug)]
pub struct HeadsReview {
    pub exchange: HeadsExchange,
    /// The head to look at next.
    pub next: usize,
}

impl HeadsReview {
    /// What to do about the next head, given what is known here by now: what was done about
    /// one head may bear on the next.
    pub fn step(&mut self, actor: &WorkflowActor) -> (r: Option<(WorkflowId, HeadAction)>)
        requires
            actor.orchestrator.wf(),
        ensures
            final(self).exchange == old(self).exchange,
            match r {
                None => old(self).next >= old(self).exchange.heads@.len() && final(self).next
                    == old(self).next,
                Some(p) => {
                    let h = old(self).exchange.heads@[old(self).next as int];
                    &&& old(self).next < old(self).exchange.heads@.len()
                    &&& final(self).next == old(self).next + 1
                    &&& p.0@ == h.workflow_id@
                    &&& p.1 == reviewed(actor.orchestrator.state@, h)
                },
            },
    {
        if self.next >= self.exchange.heads.len() {
            return None;
        }
        let head = &self.exchange.heads[self.next];
        let action = match actor.orchestrator.get_state(&head.workflow_id) {
            None => HeadAction::AdoptAndRequest,
            Some(x) => {
                if head.succeeded_count > x.succeeded_count() {
                    HeadAction::Request
                } else {
                    HeadAction::Ignore
                }
            },
        };
        let workflow_id = head.workflow_id.clone();
        self.next = self.next + 1;
        Some((workflow_id, action))
    }
}

/// The clock after `n` ticks at one physical time.
pub open spec fn ticks(last: HlcTimestamp, physical: u64, n: nat) -> HlcTimestamp
    decreases n,
{
    if n == 0 {
        last
    } else {
        hlc::ticked(ticks(last, physical, (n - 1) as nat), physical)
    }
}

/// A head tells how far the workflow has come.
pub open spec fn head_told(v: StateView, h: WorkflowHead) -> bool {
    let x = v.slots[h.workflow_id@].execution;
    &&& h.succeeded_count == x.succeeded
    &&& h.total_count == x.total
}

/// The workflows of heads.
pub open spec fn head_texts(heads: Seq<WorkflowHead>) -> Seq<Seq<char>> {
    heads.map_values(|h: WorkflowHead| h.workflow_id@)
}

proof fn lemma_ids_bounded(ids: Seq<Seq<char>>, v: StateView)
    requires
        ids.no_duplicates(),
        v.slots.dom().finite(),
        forall|k: Seq<char>| #[trigger] ids.contains(k) ==> v.slots.contains_key(k),
    ensures
        ids.len() <= v.slots.len(),
{
    ids.unique_seq_to_set();
    assert(ids.to_set().subset_of(v.slots.dom()));
    vstd::set_lib::lemma_len_subset(ids.to_set(), v.slots.dom());
}

impl DagGossip {
    /// What this node tells of its workflows that have not ended, at physical time
    /// `physical`.
    pub fn broadcast_heads(&mut self, actor: &WorkflowActor, physical: u64) -> (x: HeadsExchange)
        requires
            old(self).wf(),
            actor.orchestrator.wf(),
            old(self).clock.last.logical + actor.orchestrator.state@.slots.len() < u32::MAX,
        ensures
            final(self).wf(),
            final(self).seen == old(self).seen,
            final(self).node_id == old(self).node_id,
            final(self).config == old(self).config,
            x.node_id == old(self).node_id,
            head_texts(x.heads@).no_duplicates(),
            forall|k: Seq<char>| #[trigger]
                head_texts(x.heads@).contains(k)
                    <==> actor.orchestrator.state@.slots.contains_key(k)
                    && !actor.orchestrator.state@.slots[k].execution.state.ended(),
            forall|i: int|
                0 <= i < x.heads@.len() ==> head_told(
                    actor.orchestrator.state@,
                    #[trigger] x.heads@[i],
                ) && x.heads@[i].hlc_timestamp == ticks(
                    old(self).clock.last,
                    physical,
                    (i + 1) as nat,
                ),
            final(self).clock.last == ticks(old(self).clock.last, physical, x.heads@.len()),
            final(self).clock.max_drift_nanos == old(self).clock.max_drift_nanos,
    {
        let ids = actor.orchestrator.active_workflow_ids();
        let ghost v = actor.orchestrator.state@;
        let ghost texts = state::workflow_texts(ids@);
        let ghost start = self.clock.last;
        proof {
            actor.orchestrator.state.slots.lemma_listed();
            assert(v.slots.dom() =~= actor.orchestrator.state.slots@.dom());
            lemma_ids_bounded(texts, v);
        }
        let mut heads: Vec<WorkflowHead> = Vec::new();
        let mut i: usize = 0;
        while i < ids.len()
            invariant
                i <= ids@.len(),
                ids@.len() == texts.len(),
                texts == state::workflow_texts(ids@),
                v == actor.orchestrator.state@,
                actor.orchestrator.wf(),
                forall|k: Seq<char>| #[trigger] texts.contains(k) ==> v.slots.contains_key(k),
                start.logical + texts.len() < u32::MAX,
                self.wf(),
                self.seen == old(self).seen,
                self.node_id == old(self).node_id,
                self.config == old(self).config,
                self.clock.max_drift_nanos == old(self).clock.max_drift_nanos,
                self.clock.last == ticks(start, physical, i as nat),
                self.clock.last.logical <= start.logical + i,
                heads@.len() == i,
                forall|j: int|
                    0 <= j < i ==> head_told(v, #[trigger] heads@[j]) && heads@[j].workflow_id@
                        == texts[j] && heads@[j].hlc_timestamp == ticks(
                        start,
                        physical,
                        (j + 1) as nat,
                    ),
            decreases ids@.len() - i,
        {
            let id = ids[i].clone();
            assert(texts[i as int] == id@);
            assert(texts.contains(id@));
            match actor.orchestrator.get_state(&id) {
                Some(x) => {
                    let succeeded_count: usize = x.succeeded_count();
                    let total_count: usize = x.total_count();
                    let hlc_timestamp = self.clock.tick_at(physical);
                    heads.push(
                        WorkflowHead {
                            workflow_id: id,
                            succeeded_count,
                            total_count,
                            hlc_timestamp,
                        },
                    );
                },
                None => {
                    assert(false);
                },
            }
            i += 1;
        }
        assert(head_texts(heads@) =~= texts);
        HeadsExchange { node_id: self.node_id.clone(), heads }
    }

    /// The review of what another node tells of its workflows. A node does not act on what it
    /// has told itself.
    pub fn handle_heads_exchange(&self, exchange: HeadsExchange) -> (r: HeadsReview)
        ensures
            r.exchange == exchange,
            r.next == (if exchange.node_id@ == self.node_id@ {
                exchange.heads@.len()
            } else {
                0
            }),
    {
        let own = same_text(exchange.node_id.0.as_str(), self.node_id.0.as_str());
        let next: usize = if own {
            exchange.heads.len()
        } else {
            0
        };
        HeadsReview { exchange, next }
    }

    /// A request for all that is known of a workflow.
    pub fn request_workflow_state(&self, workflow_id: &WorkflowId) -> (r: WorkflowStateRequest)
        ensures
            r.workflow_id@ == workflow_id@,
            r.requesting_node == self.node_id,
    {
        WorkflowStateRequest {
            workflow_id: workflow_id.clone(),
            requesting_node: self.node_id.clone(),
        }
    }

    /// The answer to a request, given the encoded parts of the workflow. Where neither graph
    /// nor execution is known there is none.
    pub fn handle_workflow_state_request(
        &self,
        request: &WorkflowStateRequest,
        parts: Option<(Vec<u8>, Vec<u8>, Vec<u8>)>,
    ) -> (r: Option<WorkflowStateResponse>)
        ensures
            match parts {
                None => r is None,
                Some(p) => {
                    &&& r is None <==> p.0@.len() == 0 && p.1@.len() == 0
                    &&& r matches Some(x) ==> x.workflow_id@ == request.workflow_id@ && x.dag
                        == some_bytes(p.0) && x.execution == some_bytes(p.1) && x.pending
                        == some_bytes(p.2)
                },
            },
    {
        match parts {
            None => None,
            Some((dag, execution, pending)) => {
                if dag.len() == 0 && execution.len() == 0 {
                    None
                } else {
                    Some(
                        WorkflowStateResponse {
                            workflow_id: request.workflow_id.clone(),
                            dag: non_empty(dag),
                            execution: non_empty(execution),
                            pending: non_empty(pending),
                        },
                    )
                }
            },
        }
    }

    /// Whether an answer holds anything to restore the workflow from.
    pub fn handle_workflow_state_response(&self, response: &WorkflowStateResponse) -> (b: bool)
        ensures
            b == (response.dag is Some || response.execution is Some),
    {
        response.dag.is_some() || response.execution.is_some()
    }
}

/// Bytes, where there are any.
pub open spec fn some_bytes(b: Vec<u8>) -> Option<Vec<u8>> {
    if b@.len() == 0 {
        None
    } else {
        Some(b)
    }
}

fn non_empty(b: Vec<u8>) -> (r: Option<Vec<u8>>)
    ensures
        r == some_bytes(b),
{
    if b.len() == 0 {
        None
    } else {
        Some(b)
    }
}

/// Taking the same news in again changes neither the news kept of the task nor, where
/// nothing is evicted, anything else of it.
pub proof fn law_news_idempotent(seen: Map<Seq<char>, SeenEntry>, u: WireDagStateUpdate, now: u64)
    requires
        !stale(seen, u),
    ensures
        ({
            let key = seen_key(u.workflow_id@, u.task_id@);
            let e = entry_of(u.hlc_timestamp, u.task_state, now);
            noted(noted(seen, key, e), key, e) == noted(seen, key, e)
        }),
{
    let key = seen_key(u.workflow_id@, u.task_id@);
    let e = entry_of(u.hlc_timestamp, u.task_state, now);
    assert(noted(noted(seen, key, e), key, e) =~= noted(seen, key, e));
}

/// Once the end of a task is known, news of it running that is not later is stale.
pub proof fn law_end_outlasts_running(
    seen: Map<Seq<char>, SeenEntry>,
    end: WireDagStateUpdate,
    running: WireDagStateUpdate,
    now: u64,
)
    requires
        end.task_state.ends(),
        running.task_state is Running,
        running.workflow_id@ == end.workflow_id@,
        running.task_id@ == end.task_id@,
        !hlc::earlier(end.hlc_timestamp, running.hlc_timestamp),
        !stale(seen, end),
    ensures
        stale(
            seen.insert(
                seen_key(end.workflow_id@, end.task_id@),
                entry_of(end.hlc_timestamp, end.task_state, now),
            ),
            running,
        ),
{
}

/// The order in which two pieces of news of a task come does not matter to the timestamp
/// and rank that are kept of it.
pub proof fn law_news_commute(
    seen: Map<Seq<char>, SeenEntry>,
    key: Seq<char>,
    a: SeenEntry,
    b: SeenEntry,
)
    ensures
        noted(noted(seen, key, a), key, b).dom() == noted(noted(seen, key, b), key, a).dom(),
        noted(noted(seen, key, a), key, b)[key].hlc_timestamp == noted(
            noted(seen, key, b),
            key,
            a,
        )[key].hlc_timestamp,
        noted(noted(seen, key, a), key, b)[key].state_priority == noted(
            noted(seen, key, b),
            key,
            a,
        )[key].state_priority,
{
    assert(noted(noted(seen, key, a), key, b).dom() =~= noted(noted(seen, key, b), key, a).dom());
}

} // verus!
