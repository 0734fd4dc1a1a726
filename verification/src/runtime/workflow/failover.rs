//! Taking workflows over from nodes that have failed, by heartbeats and leases.
//!
//! The settings are meant to grow: a node sends heartbeats more often than its failure is
//! concluded from their absence, and a lease lasts longer than that.
use vstd::prelude::*;
use vstd::string::*;
use vstd::utf8::*;

use crate::common::{fits_archive, ActantError, NodeId, WorkflowId, ARCHIVE_LIMIT};
use crate::keymap;
use crate::runtime::state::hlc::{HlcTimestamp, HybridLogicalClock};
use crate::runtime::workflow::actor::workflow_actor::WorkflowActor;
use crate::runtime::workflow::gossip;
use crate::runtime::workflow::graph;
use crate::runtime::workflow::orchestrator::lifecycle;
use crate::runtime::workflow::orchestrator::state;
use crate::runtime::workflow::orchestrator::timeouts;
use crate::runtime::workflow::phase::Terminal;
use crate::runtime::workflow::task;
use crate::runtime::workflow::task::TaskDefinition;
use crate::runtime::workflow::wire::{
    NodeHeartbeat, OrchestratorClaim, WireDagStateUpdate, WireTaskState,
};
use crate::table::Table;
use crate::text::{same_text, without_prefix};

verus! {

/// The start of the keys under which leases are stored.
pub const STORE_KEY_LEASE: &'static str = "lease:";

/// Where the lease of a workflow is stored.
pub fn lease_key(workflow_id: &WorkflowId) -> (key: String)
    ensures
        key@ == STORE_KEY_LEASE@ + workflow_id@,
{
    let mut key = STORE_KEY_LEASE.to_owned();
    key.append(workflow_id.0.as_str());
    key
}

/// The right of a node to a workflow, for a time.
#[derive(Debug)]
pub struct LeaseEntry {
    pub node_id: NodeId,
    pub claimed_at_ms: u64,
    pub expires_at_ms: u64,
    /// When the lease ends, in milliseconds of a clock that only moves forward. A lease that
    /// was read from the store has none.
    pub deadline: Option<u64>,
}

/// The mathematical value of a [`LeaseEntry`].
#[verifier::ext_equal]
pub struct LeaseView {
    pub node_id: Seq<char>,
    pub claimed_at_ms: u64,
    pub expires_at_ms: u64,
    pub deadline: Option<u64>,
}

impl View for LeaseEntry {
    type V = LeaseView;

    open spec fn view(&self) -> LeaseView {
        LeaseView {
            node_id: self.node_id@,
            claimed_at_ms: self.claimed_at_ms,
            expires_at_ms: self.expires_at_ms,
            deadline: self.deadline,
        }
    }
}

impl Clone for LeaseEntry {
    fn clone(&self) -> (r: Self)
        ensures
            r == *self,
    {
        LeaseEntry {
            node_id: self.node_id.clone(),
            claimed_at_ms: self.claimed_at_ms,
            expires_at_ms: self.expires_at_ms,
            deadline: self.deadline,
        }
    }
}

/// The lease has not ended. The clock that only moves forward decides where it can; the
/// wall clock does otherwise.
pub open spec fn lease_holds(l: LeaseView, now_ms: u64, now_monotonic: u64) -> bool {
    match l.deadline {
        Some(d) => now_monotonic < d,
        None => now_ms < l.expires_at_ms,
    }
}

/// The end of a lease of `duration` from `start` on, where there is such a time.
pub open spec fn deadline_of(start: u64, duration: u64) -> Option<u64> {
    if start + duration <= u64::MAX {
        Some((start + duration) as u64)
    } else {
        None
    }
}

/// A lease that is given out now.
pub open spec fn lease_given(
    node: Seq<char>,
    claimed_at_ms: u64,
    duration: u64,
    now_monotonic: u64,
) -> LeaseView {
    LeaseView {
        node_id: node,
        claimed_at_ms,
        expires_at_ms: (claimed_at_ms + duration) as u64,
        deadline: deadline_of(now_monotonic, duration),
    }
}

impl LeaseEntry {
    /// Whether the lease has not ended.
    pub fn is_valid(&self, now_ms: u64, now_monotonic: u64) -> (b: bool)
        ensures
            b == lease_holds(self@, now_ms, now_monotonic),
    {
        match self.deadline {
            Some(deadline) => now_monotonic < deadline,
            None => now_ms < self.expires_at_ms,
        }
    }

    /// A lease that is given out at `now_monotonic`.
    pub fn new_with_monotonic(
        node_id: NodeId,
        claimed_at_ms: u64,
        expires_at_ms: u64,
        lease_duration_ms: u64,
        now_monotonic: u64,
    ) -> (l: Self)
        ensures
            l@ == (LeaseView {
                node_id: node_id@,
                claimed_at_ms,
                expires_at_ms,
                deadline: deadline_of(now_monotonic, lease_duration_ms),
            }),
    {
        LeaseEntry {
            node_id,
            claimed_at_ms,
            expires_at_ms,
            deadline: now_monotonic.checked_add(lease_duration_ms),
        }
    }

    /// A lease that was read from the store.
    pub fn restored(node_id: NodeId, claimed_at_ms: u64, expires_at_ms: u64) -> (l: Self)
        ensures
            l@ == (LeaseView {
                node_id: node_id@,
                claimed_at_ms,
                expires_at_ms,
                deadline: None,
            }),
    {
        LeaseEntry { node_id, claimed_at_ms, expires_at_ms, deadline: None }
    }
}

/// The bytes that `rkyv::to_bytes` gives for a node and two numbers.
pub uninterp spec fn rkyv_lease_bytes(node: Seq<char>, claimed: u64, expires: u64) -> Option<
    Seq<u8>,
>;

/// The node and the two numbers that `rkyv::from_bytes` reads from bytes.
pub uninterp spec fn rkyv_lease_value(bytes: Seq<u8>) -> Option<(Seq<char>, u64, u64)>;

/// `rkyv::to_bytes` on a node and two numbers, of which the node is short enough for its
/// length to be kept. What it writes, `rkyv::from_bytes` reads back.
#[verifier::external_body]
fn rkyv_encode_lease(node: &String, claimed: u64, expires: u64) -> (r: Option<Vec<u8>>)
    requires
        encode_utf8(node@).len() <= ARCHIVE_LIMIT,
    ensures
        match r {
            Some(bytes) => rkyv_lease_bytes(node@, claimed, expires) == Some(bytes@)
                && rkyv_lease_value(bytes@) == Some((node@, claimed, expires)),
            None => rkyv_lease_bytes(node@, claimed, expires) is None,
        },
{
    let value = (node.clone(), claimed, expires);
    rkyv::to_bytes::<rkyv::rancor::Error>(&value).ok().map(|b| b.to_vec())
}

/// `rkyv::from_bytes` on a copy of the bytes that is aligned as it demands.
#[verifier::external_body]
fn rkyv_decode_lease(bytes: &Vec<u8>) -> (r: Option<(String, u64, u64)>)
    ensures
        match r {
            Some(v) => rkyv_lease_value(bytes@) == Some((v.0@, v.1, v.2)),
            None => rkyv_lease_value(bytes@) is None,
        },
{
    let mut aligned = rkyv::util::AlignedVec::<16>::new();
    aligned.extend_from_slice(bytes);
    rkyv::from_bytes::<(String, u64, u64), rkyv::rancor::Error>(&aligned).ok()
}

/// What is known of another node.
#[derive(Debug)]
pub struct PeerInfo {
    /// When its last heartbeat came, by this node's clock. Zero where none came.
    pub last_heartbeat_ms: u64,
    /// Its workflows, each once.
    pub active_workflows: Vec<WorkflowId>,
    pub available_slots: u32,
    pub max_slots: u32,
    pub endpoint_addr: Option<String>,
}

/// The mathematical value of a [`PeerInfo`].
#[verifier::ext_equal]
pub struct PeerView {
    pub last_heartbeat_ms: u64,
    pub active: Seq<Seq<char>>,
    pub available_slots: u32,
    pub max_slots: u32,
    pub endpoint_addr: Option<Seq<char>>,
}

impl View for PeerInfo {
    type V = PeerView;

    open spec fn view(&self) -> PeerView {
        PeerView {
            last_heartbeat_ms: self.last_heartbeat_ms,
            active: state::workflow_texts(self.active_workflows@),
            available_slots: self.available_slots,
            max_slots: self.max_slots,
            endpoint_addr: task::text_of(self.endpoint_addr),
        }
    }
}

fn copy_workflows(ids: &Vec<WorkflowId>) -> (r: Vec<WorkflowId>)
    ensures
        state::workflow_texts(r@) == state::workflow_texts(ids@),
{
    let mut r: Vec<WorkflowId> = Vec::new();
    let mut i: usize = 0;
    while i < ids.len()
        invariant
            i <= ids@.len(),
            r@.len() == i,
            forall|j: int| 0 <= j < i ==> (#[trigger] r@[j])@ == ids@[j]@,
        decreases ids@.len() - i,
    {
        r.push(ids[i].clone());
        i += 1;
    }
    assert(state::workflow_texts(r@) =~= state::workflow_texts(ids@));
    r
}

impl Clone for PeerInfo {
    fn clone(&self) -> (r: Self)
        ensures
            r@ == self@,
    {
        PeerInfo {
            last_heartbeat_ms: self.last_heartbeat_ms,
            active_workflows: copy_workflows(&self.active_workflows),
            available_slots: self.available_slots,
            max_slots: self.max_slots,
            endpoint_addr: match &self.endpoint_addr {
                Some(a) => Some(a.clone()),
                None => None,
            },
        }
    }
}

/// The node was heard of and has been silent for longer than `timeout`.
pub open spec fn silent(p: PeerView, now_ms: u64, timeout: u64) -> bool {
    p.last_heartbeat_ms > 0 && now_ms - p.last_heartbeat_ms > timeout
}

impl PeerInfo {
    /// Whether the node was heard of and has been silent for longer than `timeout_ms`.
    pub fn is_silent(&self, now_ms: u64, timeout_ms: u64) -> (b: bool)
        ensures
            b == silent(self@, now_ms, timeout_ms),
    {
        self.last_heartbeat_ms > 0 && now_ms > self.last_heartbeat_ms && now_ms
            - self.last_heartbeat_ms > timeout_ms
    }
}

/// Settings of failover.
#[derive(Debug, Clone, Copy)]
pub struct FailoverConfig {
    pub heartbeat_interval_ms: u64,
    pub failure_timeout_ms: u64,
    pub lease_duration_ms: u64,
    pub lease_expiry_check_interval_secs: u64,
}

impl FailoverConfig {
    /// The settings grow as they are meant to.
    pub open spec fn in_order(self) -> bool {
        self.heartbeat_interval_ms < self.failure_timeout_ms < self.lease_duration_ms
    }
}

/// Watches over other nodes and keeps the leases of workflows.
pub struct FailoverManager {
    pub node_id: NodeId,
    pub peers: Table<PeerInfo>,
    pub leases: Table<LeaseEntry>,
    pub config: FailoverConfig,
    pub clock: HybridLogicalClock,
    pub local_available_capacity: u32,
    pub local_max_capacity: u32,
    /// Whether leases are stored.
    pub has_store: bool,
}

/// The values of peers.
pub open spec fn peer_views(m: Map<Seq<char>, PeerInfo>) -> Map<Seq<char>, PeerView> {
    m.map_values(|p: PeerInfo| p@)
}

/// The values of leases.
pub open spec fn lease_views(m: Map<Seq<char>, LeaseEntry>) -> Map<Seq<char>, LeaseView> {
    m.map_values(|l: LeaseEntry| l@)
}

/// The name of a node is short enough for an archive.
pub open spec fn archivable(node: Seq<char>) -> bool {
    encode_utf8(node).len() <= ARCHIVE_LIMIT
}

/// A lease cannot be archived.
pub open spec fn lease_refused(node: Seq<char>, claimed: u64, expires: u64) -> bool {
    archivable(node) ==> rkyv_lease_bytes(node, claimed, expires) is None
}

/// What is written to the store for a lease.
pub open spec fn lease_stored(
    wf: Seq<char>,
    l: LeaseView,
    w: Option<(String, Vec<u8>)>,
    has_store: bool,
) -> bool {
    match w {
        Some(p) => has_store && archivable(l.node_id) && p.0@ == STORE_KEY_LEASE@ + wf && rkyv_lease_bytes(
            l.node_id,
            l.claimed_at_ms,
            l.expires_at_ms,
        ) == Some(p.1@) && rkyv_lease_value(p.1@) == Some(
            (l.node_id, l.claimed_at_ms, l.expires_at_ms),
        ),
        None => !has_store,
    }
}

/// The names of nodes.
pub open spec fn named(list: Seq<(NodeId, PeerInfo)>) -> Seq<Seq<char>> {
    Seq::new(list.len(), |i: int| list[i].0@)
}

impl FailoverManager {
    /// The tables are in order.
    pub open spec fn wf(&self) -> bool {
        &&& self.peers.wf()
        &&& self.leases.wf()
        &&& forall|k: Seq<char>| #[trigger]
            self.peers@.contains_key(k) ==> self.peers@[k]@.active.no_duplicates()
    }

    /// What is known of other nodes.
    pub open spec fn peer_map(&self) -> Map<Seq<char>, PeerView> {
        peer_views(self.peers@)
    }

    /// The leases.
    pub open spec fn lease_map(&self) -> Map<Seq<char>, LeaseView> {
        lease_views(self.leases@)
    }

    /// What does not change but by being set.
    pub open spec fn same_settings(&self, other: &Self) -> bool {
        &&& self.node_id == other.node_id
        &&& self.config == other.config
        &&& self.has_store == other.has_store
        &&& self.local_available_capacity == other.local_available_capacity
        &&& self.local_max_capacity == other.local_max_capacity
    }

    /// A manager with nothing known yet.
    pub fn with_config(node_id: NodeId, config: FailoverConfig, has_store: bool) -> (m: Self)
        ensures
            m.wf(),
            m.node_id == node_id,
            m.config == config,
            m.has_store == has_store,
            m.peer_map() == Map::<Seq<char>, PeerView>::empty(),
            m.lease_map() == Map::<Seq<char>, LeaseView>::empty(),
            m.local_available_capacity == 0,
            m.local_max_capacity == 0,
            m.clock.last == (HlcTimestamp { wall_time: 0, logical: 0 }),
    {
        let m = FailoverManager {
            node_id,
            peers: Table::new(),
            leases: Table::new(),
            config,
            clock: HybridLogicalClock::new(),
            local_available_capacity: 0,
            local_max_capacity: 0,
            has_store,
        };
        assert(m.peer_map() =~= Map::<Seq<char>, PeerView>::empty());
        assert(m.lease_map() =~= Map::<Seq<char>, LeaseView>::empty());
        m
    }

    /// The manager with another heartbeat interval.
    pub fn with_heartbeat_interval(self, ms: u64) -> (m: Self)
        ensures
            m == (FailoverManager {
                config: FailoverConfig { heartbeat_interval_ms: ms, ..self.config },
                ..self
            }),
    {
        let mut m = self;
        m.config.heartbeat_interval_ms = ms;
        m
    }

    /// The manager of a node with this capacity.
    pub fn with_capacity(self, available: u32, max: u32) -> (m: Self)
        ensures
            m == (FailoverManager {
                local_available_capacity: available,
                local_max_capacity: max,
                ..self
            }),
    {
        let mut m = self;
        m.local_available_capacity = available;
        m.local_max_capacity = max;
        m
    }

    /// How often heartbeats are sent.
    pub fn heartbeat_interval_ms(&self) -> (ms: u64)
        ensures
            ms == self.config.heartbeat_interval_ms,
    {
        self.config.heartbeat_interval_ms
    }

    /// How long a node may be silent.
    pub fn failure_timeout_ms(&self) -> (ms: u64)
        ensures
            ms == self.config.failure_timeout_ms,
    {
        self.config.failure_timeout_ms
    }

    /// The node.
    pub fn node_id(&self) -> (n: &NodeId)
        ensures
            *n == self.node_id,
    {
        &self.node_id
    }

    /// Takes in the capacity of this node.
    pub fn update_local_capacity(&mut self, available: u32, max: u32)
        ensures
            *final(self) == (FailoverManager {
                local_available_capacity: available,
                local_max_capacity: max,
                ..*old(self)
            }),
    {
        self.local_available_capacity = available;
        self.local_max_capacity = max;
    }

    /// Takes in the capacity of another node, where it is known.
    pub fn update_peer_capacity(&mut self, node_id: &NodeId, available: u32, max: u32)
        requires
            old(self).wf(),
        ensures
            final(self).wf(),
            final(self).same_settings(old(self)),
            final(self).clock == old(self).clock,
            final(self).leases == old(self).leases,
            final(self).peer_map() == (if old(self).peer_map().contains_key(node_id@) {
                old(self).peer_map().insert(
                    node_id@,
                    PeerView {
                        available_slots: available,
                        max_slots: max,
                        ..old(self).peer_map()[node_id@]
                    },
                )
            } else {
                old(self).peer_map()
            }),
    {
        let ghost before = self.peer_map();
        let ghost raw = self.peers@;
        if let Some(peer) = self.peers.get_mut(&node_id.0) {
            peer.available_slots = available;
            peer.max_slots = max;
        }
        proof {
            if raw.contains_key(node_id@) {
                let v = PeerView {
                    available_slots: available,
                    max_slots: max,
                    ..before[node_id@]
                };
                assert(self.peers@[node_id@]@ =~= v);
                assert(self.peer_map() =~= before.insert(node_id@, v));
            }
            assert forall|k: Seq<char>| #[trigger]
                self.peers@.contains_key(k) implies self.peers@[k]@.active.no_duplicates() by {
                assert(raw.contains_key(k));
                assert(raw[k]@.active.no_duplicates());
                if k == node_id@ {
                    assert(self.peers@[k]@.active == raw[k]@.active);
                }
            }
        }
    }

    /// Forgets another node.
    pub fn remove_peer(&mut self, node_id: &NodeId)
        requires
            old(self).wf(),
        ensures
            final(self).wf(),
            final(self).same_settings(old(self)),
            final(self).clock == old(self).clock,
            final(self).leases == old(self).leases,
            final(self).peer_map() == old(self).peer_map().remove(node_id@),
    {
        let ghost before = self.peer_map();
        self.peers.remove(&node_id.0);
        assert(self.peer_map() =~= before.remove(node_id@));
    }

    /// What is known of other nodes, each once.
    pub fn get_peer_infos(&self) -> (list: Vec<(NodeId, PeerInfo)>)
        requires
            self.wf(),
        ensures
            named(list@).no_duplicates(),
            forall|k: Seq<char>| #[trigger]
                named(list@).contains(k) <==> self.peer_map().contains_key(k),
            forall|i: int|
                0 <= i < list@.len() ==> (#[trigger] list@[i]).1@ == self.peer_map()[list@[i].0@],
    {
        let mut list: Vec<(NodeId, PeerInfo)> = Vec::new();
        let n: usize = self.peers.len();
        let ghost order = self.peers.order();
        let mut i: usize = 0;
        while i < n
            invariant
                i <= n,
                n == order.len(),
                self.wf(),
                self.peers.listed(),
                order == self.peers.order(),
                named(list@) == order.take(i as int),
                forall|j: int|
                    0 <= j < list@.len() ==> (#[trigger] list@[j]).1@
                        == self.peer_map()[list@[j].0@],
            decreases n - i,
        {
            let key = self.peers.key_at(i).clone();
            let info = self.peers.value_at(i).clone();
            let ghost before = list@;
            list.push((NodeId(key), info));
            assert(named(list@) =~= named(before).push(key@));
            assert(order.take(i + 1) =~= order.take(i as int).push(key@));
            i += 1;
        }
        assert(order.take(i as int) =~= order);
        list
    }

    /// The capacities and addresses of other nodes, each once: the free slots, all slots,
    /// and where the node is reached.
    pub fn get_peer_capacities(&self) -> (list: Vec<(NodeId, (u32, u32, Option<String>))>)
        requires
            self.wf(),
        ensures
            list@.len() == self.peer_map().len(),
            forall|i: int, j: int|
                0 <= i < j < list@.len() ==> (#[trigger] list@[i]).0@ != (#[trigger] list@[j]).0@,
            forall|i: int|
                #![trigger list@[i]]
                0 <= i < list@.len() ==> self.peer_map().contains_key(list@[i].0@)
                    && capacity_of(self.peer_map()[list@[i].0@], list@[i].1),
    {
        let infos = self.get_peer_infos();
        let ghost names = named(infos@);
        proof {
            names.unique_seq_to_set();
            assert(names.to_set() =~= self.peer_map().dom());
        }
        let mut list: Vec<(NodeId, (u32, u32, Option<String>))> = Vec::new();
        let mut i: usize = 0;
        while i < infos.len()
            invariant
                i <= infos@.len(),
                names == named(infos@),
                list@.len() == i,
                forall|j: int|
                    0 <= j < infos@.len() ==> (#[trigger] infos@[j]).1@
                        == self.peer_map()[infos@[j].0@],
                forall|j: int|
                    #![trigger list@[j]]
                    0 <= j < i ==> list@[j].0@ == names[j] && capacity_of(
                        self.peer_map()[names[j]],
                        list@[j].1,
                    ),
            decreases infos@.len() - i,
        {
            let info = &infos[i].1;
            let addr = match &info.endpoint_addr {
                Some(a) => Some(a.clone()),
                None => None,
            };
            assert(infos@[i as int].0@ == names[i as int]);
            list.push((infos[i].0.clone(), (info.available_slots, info.max_slots, addr)));
            i += 1;
        }
        assert forall|j: int|
            #![trigger list@[j]]
            0 <= j < list@.len() implies self.peer_map().contains_key(list@[j].0@) by {
            assert(names.contains(names[j]));
        }
        list
    }

    /// Forgets the nodes that have been silent for too long, and returns what was known of
    /// them.
    pub fn expire_stale_peers(&mut self, now_ms: u64) -> (removed: Vec<(NodeId, PeerInfo)>)
        requires
            old(self).wf(),
        ensures
            final(self).wf(),
            final(self).same_settings(old(self)),
            final(self).clock == old(self).clock,
            final(self).leases == old(self).leases,
            stale_removed(
                old(self).peer_map(),
                final(self).peer_map(),
                now_ms,
                old(self).config.failure_timeout_ms,
                removed@,
            ),
    {
        let ghost before = self.peer_map();
        let ghost raw = self.peers@;
        let timeout: u64 = self.config.failure_timeout_ms;
        let mut removed: Vec<(NodeId, PeerInfo)> = Vec::new();
        let keys = self.peers.keys();
        let ghost order = keymap::texts(keys@);
        let mut i: usize = 0;
        while i < keys.len()
            invariant
                i <= keys@.len(),
                order == keymap::texts(keys@),
                order.no_duplicates(),
                before == peer_views(raw),
                forall|k: Seq<char>| #[trigger] order.contains(k) <==> raw.contains_key(k),
                forall|k: Seq<char>| #[trigger]
                    raw.contains_key(k) ==> raw[k]@.active.no_duplicates(),
                timeout == self.config.failure_timeout_ms,
                self.wf(),
                self.same_settings(old(self)),
                self.clock == old(self).clock,
                self.leases == old(self).leases,
                forall|k: Seq<char>| #[trigger]
                    self.peers@.contains_key(k) <==> raw.contains_key(k) && !(order.take(
                        i as int,
                    ).contains(k) && silent(before[k], now_ms, timeout)),
                forall|k: Seq<char>| #[trigger]
                    self.peers@.contains_key(k) ==> self.peers@[k] == raw[k],
                named(removed@).no_duplicates(),
                forall|k: Seq<char>| #[trigger]
                    named(removed@).contains(k) <==> order.take(i as int).contains(k) && silent(
                        before[k],
                        now_ms,
                        timeout,
                    ),
                forall|j: int|
                    0 <= j < removed@.len() ==> (#[trigger] removed@[j]).1@
                        == before[removed@[j].0@],
            decreases keys@.len() - i,
        {
            let ghost listed = removed@;
            let ghost held = self.peers@;
            assert(order[i as int] == keys@[i as int]@);
            assert(order.contains(order[i as int]));
            assert(!order.take(i as int).contains(order[i as int])) by {
                if order.take(i as int).contains(order[i as int]) {
                    let q = order.take(i as int).index_of(order[i as int]);
                    assert(order[q] == order[i as int]);
                }
            }
            let stale = match self.peers.get(&keys[i]) {
                Some(p) => p.is_silent(now_ms, timeout),
                None => false,
            };
            if stale {
                if let Some(info) = self.peers.remove(&keys[i]) {
                    removed.push((NodeId(keys[i].clone()), info));
                    assert(named(removed@) =~= named(listed).push(order[i as int]));
                }
            }
            proof {
                state::lemma_filter_step(
                    order,
                    i as int,
                    named(listed),
                    named(removed@),
                    stale,
                );
            }
            i += 1;
        }
        proof {
            assert(order.take(i as int) =~= order);
            assert(self.peer_map() =~= alive(before, now_ms, timeout));
        }
        removed
    }

    /// Finds the nodes that have failed by `now_check` and still had workflows, having first
    /// forgotten those that have been silent for too long at `now_expire`. Also returns the
    /// nodes among which the workflows are to be divided: those that are alive, and this one.
    pub fn detect_failed_nodes(&mut self, now_expire: u64, now_check: u64) -> (r: (
        Vec<(NodeId, PeerInfo)>,
        Vec<String>,
    ))
        requires
            old(self).wf(),
        ensures
            final(self).wf(),
            final(self).same_settings(old(self)),
            final(self).clock == old(self).clock,
            final(self).leases == old(self).leases,
            failures_detected(
                old(self).peer_map(),
                final(self).peer_map(),
                old(self).node_id@,
                now_expire,
                now_check,
                old(self).config.failure_timeout_ms,
                r.0@,
                keymap::texts(r.1@),
            ),
    {
        let ghost before = self.peer_map();
        let timeout: u64 = self.config.failure_timeout_ms;
        let infos = self.get_peer_infos();
        let ghost names = named(infos@);
        let mut failed: Vec<(NodeId, PeerInfo)> = Vec::new();
        let mut i: usize = 0;
        while i < infos.len()
            invariant
                i <= infos@.len(),
                names == named(infos@),
                names.no_duplicates(),
                forall|k: Seq<char>| #[trigger] names.contains(k) <==> before.contains_key(k),
                forall|j: int|
                    0 <= j < infos@.len() ==> (#[trigger] infos@[j]).1@ == before[infos@[j].0@],
                named(failed@).no_duplicates(),
                forall|k: Seq<char>| #[trigger]
                    named(failed@).contains(k) <==> names.take(i as int).contains(k) && orphaned(
                        before,
                        k,
                        now_check,
                        timeout,
                    ),
                forall|j: int|
                    0 <= j < failed@.len() ==> (#[trigger] failed@[j]).1@ == before[failed@[j].0@],
            decreases infos@.len() - i,
        {
            let ghost listed = failed@;
            let info = &infos[i].1;
            assert(infos@[i as int].0@ == names[i as int]);
            assert(names.contains(names[i as int]));
            let take = info.is_silent(now_check, timeout) && info.active_workflows.len() > 0;
            if take {
                failed.push((infos[i].0.clone(), info.clone()));
                assert(named(failed@) =~= named(listed).push(names[i as int]));
            }
            proof {
                state::lemma_filter_step(names, i as int, named(listed), named(failed@), take);
            }
            i += 1;
        }
        assert(names.take(i as int) =~= names);
        let _gone = self.expire_stale_peers(now_expire);
        let mut candidates = self.peers.keys();
        let ghost others = keymap::texts(candidates@);
        candidates.push(self.node_id.0.clone());
        proof {
            assert(keymap::texts(candidates@) =~= others.push(self.node_id@));
            graph::lemma_to_set_push(others, self.node_id@);
            assert forall|k: Seq<char>| #[trigger]
                keymap::texts(candidates@).contains(k) <==> self.peer_map().contains_key(k) || k
                    == self.node_id@ by {
                assert(others.push(self.node_id@).to_set().contains(k) <==> others.to_set().insert(
                    self.node_id@,
                ).contains(k));
            }
        }
        (failed, candidates)
    }

    /// Takes in a heartbeat that came at `received_at_ms` by this node's clock. Returns
    /// whether the node was not known. A node's own heartbeat changes nothing.
    pub fn handle_heartbeat(&mut self, hb: &NodeHeartbeat, received_at_ms: u64) -> (is_new: bool)
        requires
            old(self).wf(),
        ensures
            final(self).wf(),
            final(self).same_settings(old(self)),
            final(self).clock == old(self).clock,
            final(self).leases == old(self).leases,
            heartbeat_taken(
                old(self).peer_map(),
                final(self).peer_map(),
                old(self).node_id@,
                hb,
                received_at_ms,
                is_new,
            ),
    {
        if same_text(hb.node_id.0.as_str(), self.node_id.0.as_str()) {
            return false;
        }
        let ghost before = self.peer_map();
        let ghost raw = self.peers@;
        let is_new = !self.peers.contains_key(&hb.node_id.0);
        let info = PeerInfo {
            last_heartbeat_ms: received_at_ms,
            active_workflows: distinct_workflows(&hb.active_workflows),
            available_slots: hb.available_slots,
            max_slots: hb.max_slots,
            endpoint_addr: match &hb.endpoint_addr {
                Some(a) => Some(a.clone()),
                None => None,
            },
        };
        let ghost v = info@;
        self.peers.insert(hb.node_id.0.clone(), info);
        assert(self.peer_map() =~= before.insert(hb.node_id@, v));
        is_new
    }

    /// This node's sign of life at `now_ms`.
    pub fn send_heartbeat(
        &self,
        actor: &WorkflowActor,
        now_ms: u64,
        endpoint_addr: Option<String>,
    ) -> (hb: NodeHeartbeat)
        requires
            actor.orchestrator.wf(),
        ensures
            hb.node_id == self.node_id,
            hb.timestamp_ms == now_ms,
            hb.available_slots == self.local_available_capacity,
            hb.max_slots == self.local_max_capacity,
            hb.endpoint_addr == endpoint_addr,
            active_told(actor.orchestrator.state@, state::workflow_texts(hb.active_workflows@)),
    {
        NodeHeartbeat {
            node_id: self.node_id.clone(),
            active_workflows: actor.orchestrator.active_workflow_ids(),
            timestamp_ms: now_ms,
            available_slots: self.local_available_capacity,
            max_slots: self.local_max_capacity,
            endpoint_addr,
        }
    }
}

/// The node that a workflow is claimed by where it may not be claimed: the lease of another
/// claim, or of this node's own, still holds.
pub open spec fn claim_refused(
    leases: Map<Seq<char>, LeaseView>,
    wf: Seq<char>,
    now_ms: u64,
    now_monotonic: u64,
) -> bool {
    leases.contains_key(wf) && lease_holds(leases[wf], now_ms, now_monotonic)
}

impl FailoverManager {
    /// What to store for a lease: the key and the bytes, or nothing where leases are not
    /// stored.
    pub fn persist_lease(&self, workflow_id: &WorkflowId, lease: &LeaseEntry) -> (r: Result<
        Option<(String, Vec<u8>)>,
        ActantError,
    >)
        ensures
            match r {
                Ok(w) => lease_stored(workflow_id@, lease@, w, self.has_store),
                Err(e) => e is Serialization && self.has_store && lease_refused(
                    lease.node_id@,
                    lease.claimed_at_ms,
                    lease.expires_at_ms,
                ),
            },
    {
        if !self.has_store {
            return Ok(None);
        }
        if !fits_archive(lease.node_id.0.as_str().as_bytes().len(), 0, 0) {
            return Err(ActantError::Serialization("lease could not be archived".to_owned()));
        }
        match rkyv_encode_lease(&lease.node_id.0, lease.claimed_at_ms, lease.expires_at_ms) {
            Some(bytes) => Ok(Some((lease_key(workflow_id), bytes))),
            None => Err(ActantError::Serialization("lease could not be archived".to_owned())),
        }
    }

    /// The lease with which this node would take a workflow over, or nothing where a lease
    /// of it still holds, whoever has it. Which node is to take a workflow over is decided
    /// beforehand; a holding lease is never contested.
    pub fn begin_claim(&self, workflow_id: &WorkflowId, now_ms: u64, now_monotonic: u64) -> (r:
        Option<LeaseEntry>)
        requires
            self.wf(),
            now_ms + self.config.lease_duration_ms <= u64::MAX,
        ensures
            claim_begun(
                self.lease_map(),
                self.node_id@,
                self.config.lease_duration_ms,
                workflow_id@,
                now_ms,
                now_monotonic,
                r,
            ),
    {
        if let Some(existing) = self.leases.get(&workflow_id.0) {
            if existing.is_valid(now_ms, now_monotonic) {
                return None;
            }
        }
        Some(
            LeaseEntry::new_with_monotonic(
                self.node_id.clone(),
                now_ms,
                now_ms + self.config.lease_duration_ms,
                self.config.lease_duration_ms,
                now_monotonic,
            ),
        )
    }

    /// Keeps the lease of a workflow that was taken up and whose lease was stored. Returns
    /// what to tell the other nodes.
    pub fn finish_claim(&mut self, workflow_id: &WorkflowId, lease: LeaseEntry) -> (c:
        OrchestratorClaim)
        requires
            old(self).wf(),
        ensures
            final(self).wf(),
            final(self).same_settings(old(self)),
            final(self).clock == old(self).clock,
            final(self).peers == old(self).peers,
            claim_told(
                old(self).lease_map(),
                final(self).lease_map(),
                old(self).node_id@,
                workflow_id@,
                lease@,
                c,
            ),
            c.node_id == old(self).node_id,
    {
        let timestamp_ms: u64 = lease.claimed_at_ms;
        self.keep_lease(workflow_id, lease);
        OrchestratorClaim {
            node_id: self.node_id.clone(),
            workflow_id: workflow_id.clone(),
            timestamp_ms,
        }
    }

    /// Keeps the lease of a workflow.
    pub fn keep_lease(&mut self, workflow_id: &WorkflowId, lease: LeaseEntry)
        requires
            old(self).wf(),
        ensures
            final(self).wf(),
            final(self).same_settings(old(self)),
            final(self).clock == old(self).clock,
            final(self).peers == old(self).peers,
            final(self).lease_map() == old(self).lease_map().insert(workflow_id@, lease@),
    {
        let ghost before = self.lease_map();
        let ghost v = lease@;
        self.leases.insert(workflow_id.0.clone(), lease);
        assert(self.lease_map() =~= before.insert(workflow_id@, v));
    }

    /// Takes in that a node has claimed a workflow. The lease runs from the time that the
    /// claim tells of. Where another node has claimed it, this node forgets the workflow, so
    /// that no two nodes drive it. Returns what to store.
    pub fn handle_claim(
        &mut self,
        actor: &mut WorkflowActor,
        claim: &OrchestratorClaim,
        now_monotonic: u64,
    ) -> (r: Result<Option<(String, Vec<u8>)>, ActantError>)
        requires
            old(self).wf(),
            old(actor).orchestrator.wf(),
            claim.timestamp_ms + old(self).config.lease_duration_ms <= u64::MAX,
        ensures
            final(self).wf(),
            final(self).same_settings(old(self)),
            final(self).clock == old(self).clock,
            final(self).peers == old(self).peers,
            claim_taken(
                old(self).lease_map(),
                final(self).lease_map(),
                old(actor).orchestrator.state@,
                final(actor).orchestrator.state@,
                old(self).node_id@,
                old(self).config.lease_duration_ms,
                *claim,
                now_monotonic,
            ),
            match r {
                Ok(w) => lease_stored(
                    claim.workflow_id@,
                    lease_given(
                        claim.node_id@,
                        claim.timestamp_ms,
                        old(self).config.lease_duration_ms,
                        now_monotonic,
                    ),
                    w,
                    old(self).has_store,
                ),
                Err(e) => e is Serialization && old(self).has_store && lease_refused(
                    claim.node_id@,
                    claim.timestamp_ms,
                    (claim.timestamp_ms + old(self).config.lease_duration_ms) as u64,
                ),
            },
            final(actor).orchestrator.wf(),
            final(actor).orchestrator.same_settings(&old(actor).orchestrator),
    {
        let lease = LeaseEntry::new_with_monotonic(
            claim.node_id.clone(),
            claim.timestamp_ms,
            claim.timestamp_ms + self.config.lease_duration_ms,
            self.config.lease_duration_ms,
            now_monotonic,
        );
        let r = self.persist_lease(&claim.workflow_id, &lease);
        self.keep_lease(&claim.workflow_id, lease);
        if !same_text(claim.node_id.0.as_str(), self.node_id.0.as_str()) {
            actor.orchestrator.remove_active_workflow(&claim.workflow_id);
        }
        r
    }

    /// Forgets the lease of a workflow. Returns the key to delete, where leases are stored.
    pub fn remove_lease(&mut self, workflow_id: &WorkflowId) -> (key: Option<String>)
        requires
            old(self).wf(),
        ensures
            final(self).wf(),
            final(self).same_settings(old(self)),
            final(self).clock == old(self).clock,
            final(self).peers == old(self).peers,
            final(self).leases@ == old(self).leases@.remove(workflow_id@),
            final(self).lease_map() == old(self).lease_map().remove(workflow_id@),
            match key {
                Some(k) => old(self).has_store && k@ == STORE_KEY_LEASE@ + workflow_id@,
                None => !old(self).has_store,
            },
    {
        let ghost before = self.lease_map();
        self.leases.remove(&workflow_id.0);
        assert(self.lease_map() =~= before.remove(workflow_id@));
        if self.has_store {
            Some(lease_key(workflow_id))
        } else {
            None
        }
    }

    /// The leases, each once: the workflow, the node, when it was claimed and when the lease
    /// ends.
    pub fn active_leases(&self) -> (list: Vec<(String, String, u64, u64)>)
        requires
            self.wf(),
        ensures
            list@.len() == self.lease_map().len(),
            forall|i: int, j: int|
                0 <= i < j < list@.len() ==> (#[trigger] list@[i]).0@ != (#[trigger] list@[j]).0@,
            forall|i: int|
                #![trigger list@[i]]
                0 <= i < list@.len() ==> {
                    let l = self.lease_map()[list@[i].0@];
                    &&& self.lease_map().contains_key(list@[i].0@)
                    &&& list@[i].1@ == l.node_id
                    &&& list@[i].2 == l.claimed_at_ms
                    &&& list@[i].3 == l.expires_at_ms
                },
    {
        let mut list: Vec<(String, String, u64, u64)> = Vec::new();
        let n: usize = self.leases.len();
        let ghost order = self.leases.order();
        assert(self.lease_map().dom() =~= self.leases@.dom());
        let mut i: usize = 0;
        while i < n
            invariant
                i <= n,
                n == order.len(),
                self.wf(),
                self.leases.listed(),
                order == self.leases.order(),
                list@.len() == i,
                forall|j: int|
                    #![trigger list@[j]]
                    0 <= j < i ==> {
                        let l = self.lease_map()[list@[j].0@];
                        &&& list@[j].0@ == order[j]
                        &&& self.lease_map().contains_key(list@[j].0@)
                        &&& list@[j].1@ == l.node_id
                        &&& list@[j].2 == l.claimed_at_ms
                        &&& list@[j].3 == l.expires_at_ms
                    },
            decreases n - i,
        {
            let key = self.leases.key_at(i).clone();
            let l = self.leases.value_at(i);
            list.push((key, l.node_id.0.clone(), l.claimed_at_ms, l.expires_at_ms));
            i += 1;
        }
        list
    }
}

/// What is to be done about leases that have ended.
#[derive(Debug)]
pub struct LeaseSweep {
    /// The keys to delete from the store.
    pub deleted: Vec<String>,
    /// Leases to store and, once stored, to keep.
    pub renewed: Vec<(WorkflowId, LeaseEntry)>,
}

/// The workflows of renewals.
pub open spec fn renewed_texts(list: Seq<(WorkflowId, LeaseEntry)>) -> Seq<Seq<char>> {
    Seq::new(list.len(), |i: int| list[i].0@)
}

/// The lease has ended, but its node is this one and still drives the workflow.
pub open spec fn lapsed_own(
    leases: Map<Seq<char>, LeaseView>,
    node: Seq<char>,
    active: Seq<Seq<char>>,
    k: Seq<char>,
    now_ms: u64,
    now_monotonic: u64,
) -> bool {
    &&& leases.contains_key(k)
    &&& !lease_holds(leases[k], now_ms, now_monotonic)
    &&& leases[k].node_id == node
    &&& active.contains(k)
}

/// The leases that hold, and those that this node is to renew.
pub open spec fn swept(
    leases: Map<Seq<char>, LeaseView>,
    node: Seq<char>,
    active: Seq<Seq<char>>,
    now_ms: u64,
    now_monotonic: u64,
) -> Map<Seq<char>, LeaseView> {
    Map::new(
        |k: Seq<char>|
            leases.contains_key(k) && (lease_holds(leases[k], now_ms, now_monotonic) || lapsed_own(
                leases,
                node,
                active,
                k,
                now_ms,
                now_monotonic,
            )),
        |k: Seq<char>| leases[k],
    )
}

impl FailoverManager {
    /// Goes through the leases that have ended. This node's lease of a workflow that it still
    /// drives is renewed; every other one is forgotten.
    pub fn expire_leases(&mut self, active: &Vec<WorkflowId>, now_ms: u64, now_monotonic: u64) -> (
        s: LeaseSweep)
        requires
            old(self).wf(),
            now_ms + old(self).config.lease_duration_ms <= u64::MAX,
        ensures
            final(self).wf(),
            final(self).same_settings(old(self)),
            final(self).clock == old(self).clock,
            final(self).peers == old(self).peers,
            leases_swept(
                old(self).lease_map(),
                final(self).lease_map(),
                old(self).node_id@,
                old(self).config.lease_duration_ms,
                old(self).has_store,
                state::workflow_texts(active@),
                now_ms,
                now_monotonic,
                s,
            ),
    {
        let ghost before = self.lease_map();
        let ghost raw = self.leases@;
        let ghost texts = state::workflow_texts(active@);
        let keys = self.leases.keys();
        let ghost order = keymap::texts(keys@);
        let mut deleted: Vec<String> = Vec::new();
        let mut renewed: Vec<(WorkflowId, LeaseEntry)> = Vec::new();
        let mut i: usize = 0;
        while i < keys.len()
            invariant
                i <= keys@.len(),
                order == keymap::texts(keys@),
                order.no_duplicates(),
                before == lease_views(raw),
                forall|k: Seq<char>| #[trigger] order.contains(k) <==> raw.contains_key(k),
                texts == state::workflow_texts(active@),
                now_ms + self.config.lease_duration_ms <= u64::MAX,
                self.wf(),
                self.same_settings(old(self)),
                self.clock == old(self).clock,
                self.peers == old(self).peers,
                forall|k: Seq<char>| #[trigger]
                    self.leases@.contains_key(k) <==> raw.contains_key(k) && !(order.take(
                        i as int,
                    ).contains(k) && dropped(
                        before,
                        self.node_id@,
                        texts,
                        k,
                        now_ms,
                        now_monotonic,
                    )),
                forall|k: Seq<char>| #[trigger]
                    self.leases@.contains_key(k) ==> self.leases@[k] == raw[k],
                renewed_texts(renewed@).no_duplicates(),
                forall|k: Seq<char>| #[trigger]
                    renewed_texts(renewed@).contains(k) <==> order.take(i as int).contains(k)
                        && lapsed_own(before, self.node_id@, texts, k, now_ms, now_monotonic),
                forall|j: int|
                    0 <= j < renewed@.len() ==> (#[trigger] renewed@[j]).1@ == lease_given(
                        self.node_id@,
                        now_ms,
                        self.config.lease_duration_ms,
                        now_monotonic,
                    ),
                forall|x: Seq<char>| #[trigger]
                    keymap::texts(deleted@).contains(x) <==> self.has_store && exists|k: Seq<char>|
                        {
                            &&& #[trigger] order.take(i as int).contains(k)
                            &&& dropped(before, self.node_id@, texts, k, now_ms, now_monotonic)
                            &&& x == STORE_KEY_LEASE@ + k
                        },
            decreases keys@.len() - i,
        {
            let ghost k = order[i as int];
            let ghost listed = renewed_texts(renewed@);
            let ghost gone = keymap::texts(deleted@);
            assert(k == keys@[i as int]@);
            assert(order.contains(k));
            let id = WorkflowId(keys[i].clone());
            let mut drop_it = false;
            let mut renew_it = false;
            if let Some(l) = self.leases.get(&keys[i]) {
                if !l.is_valid(now_ms, now_monotonic) {
                    if same_text(l.node_id.0.as_str(), self.node_id.0.as_str())
                        && contains_workflow(active, &id) {
                        renew_it = true;
                    } else {
                        drop_it = true;
                    }
                }
            }
            assert(!order.take(i as int).contains(k)) by {
                if order.take(i as int).contains(k) {
                    let q = order.take(i as int).index_of(k);
                    assert(order[q] == order[i as int]);
                }
            }
            assert(drop_it == dropped(before, self.node_id@, texts, k, now_ms, now_monotonic));
            assert(renew_it == lapsed_own(before, self.node_id@, texts, k, now_ms, now_monotonic));
            if drop_it {
                if let Some(key) = self.remove_lease(&id) {
                    deleted.push(key);
                    assert(keymap::texts(deleted@) =~= gone.push(STORE_KEY_LEASE@ + k));
                }
            }
            if renew_it {
                renewed.push(
                    (
                        id,
                        LeaseEntry::new_with_monotonic(
                            self.node_id.clone(),
                            now_ms,
                            now_ms + self.config.lease_duration_ms,
                            self.config.lease_duration_ms,
                            now_monotonic,
                        ),
                    ),
                );
                assert(renewed_texts(renewed@) =~= listed.push(k));
            }
            proof {
                state::lemma_filter_step(order, i as int, listed, renewed_texts(renewed@), renew_it);
                graph::lemma_to_set_push(gone, STORE_KEY_LEASE@ + k);
                assert forall|x: Seq<char>| #[trigger]
                    keymap::texts(deleted@).contains(x) <==> self.has_store && exists|q: Seq<char>|
                        {
                            &&& #[trigger] order.take(i + 1).contains(q)
                            &&& dropped(before, self.node_id@, texts, q, now_ms, now_monotonic)
                            &&& x == STORE_KEY_LEASE@ + q
                        } by {
                    assert(gone.push(STORE_KEY_LEASE@ + k).to_set().contains(x)
                        <==> gone.to_set().insert(STORE_KEY_LEASE@ + k).contains(x));
                    if gone.contains(x) {
                        let q = choose|q: Seq<char>|
                            {
                                &&& #[trigger] order.take(i as int).contains(q)
                                &&& dropped(before, self.node_id@, texts, q, now_ms, now_monotonic)
                                &&& x == STORE_KEY_LEASE@ + q
                            };
                        assert(order.take(i + 1).contains(q));
                    }
                    if drop_it && x == STORE_KEY_LEASE@ + k {
                        assert(order.take(i + 1).contains(k));
                    }
                    if self.has_store && exists|q: Seq<char>|
                        {
                            &&& #[trigger] order.take(i + 1).contains(q)
                            &&& dropped(before, self.node_id@, texts, q, now_ms, now_monotonic)
                            &&& x == STORE_KEY_LEASE@ + q
                        } {
                        let q = choose|q: Seq<char>|
                            {
                                &&& #[trigger] order.take(i + 1).contains(q)
                                &&& dropped(before, self.node_id@, texts, q, now_ms, now_monotonic)
                                &&& x == STORE_KEY_LEASE@ + q
                            };
                        assert(q == k || order.take(i as int).contains(q));
                    }
                }
            }
            i += 1;
        }
        proof {
            assert(order.take(i as int) =~= order);
            assert(self.lease_map() =~= swept(before, self.node_id@, texts, now_ms, now_monotonic));
            assert forall|x: Seq<char>| #[trigger]
                keymap::texts(deleted@).contains(x) <==> self.has_store && exists|k: Seq<char>|
                    {
                        &&& before.contains_key(k)
                        &&& !(#[trigger] self.lease_map().contains_key(k))
                        &&& x == STORE_KEY_LEASE@ + k
                    } by {
                if keymap::texts(deleted@).contains(x) {
                    let k = choose|k: Seq<char>|
                        {
                            &&& #[trigger] order.contains(k)
                            &&& dropped(before, self.node_id@, texts, k, now_ms, now_monotonic)
                            &&& x == STORE_KEY_LEASE@ + k
                        };
                    assert(before.contains_key(k) && !self.lease_map().contains_key(k));
                }
                if self.has_store && exists|k: Seq<char>|
                    {
                        &&& before.contains_key(k)
                        &&& !(#[trigger] self.lease_map().contains_key(k))
                        &&& x == STORE_KEY_LEASE@ + k
                    } {
                    let k = choose|k: Seq<char>|
                        {
                            &&& before.contains_key(k)
                            &&& !(#[trigger] self.lease_map().contains_key(k))
                            &&& x == STORE_KEY_LEASE@ + k
                        };
                    assert(order.contains(k));
                }
            }
        }
        LeaseSweep { deleted, renewed }
    }
}

/// The lease has ended and is not to be renewed.
pub open spec fn dropped(
    leases: Map<Seq<char>, LeaseView>,
    node: Seq<char>,
    active: Seq<Seq<char>>,
    k: Seq<char>,
    now_ms: u64,
    now_monotonic: u64,
) -> bool {
    &&& leases.contains_key(k)
    &&& !lease_holds(leases[k], now_ms, now_monotonic)
    &&& !lapsed_own(leases, node, active, k, now_ms, now_monotonic)
}

/// The free slots, all slots and the address of a node.
pub open spec fn capacity_of(p: PeerView, c: (u32, u32, Option<String>)) -> bool {
    c.0 == p.available_slots && c.1 == p.max_slots && task::text_of(c.2) == p.endpoint_addr
}

/// The nodes that have not been silent for too long.
pub open spec fn alive(peers: Map<Seq<char>, PeerView>, now_ms: u64, timeout: u64) -> Map<
    Seq<char>,
    PeerView,
> {
    Map::new(
        |k: Seq<char>| peers.contains_key(k) && !silent(peers[k], now_ms, timeout),
        |k: Seq<char>| peers[k],
    )
}

/// The node has failed and still had workflows.
pub open spec fn orphaned(
    peers: Map<Seq<char>, PeerView>,
    k: Seq<char>,
    now_ms: u64,
    timeout: u64,
) -> bool {
    peers.contains_key(k) && silent(peers[k], now_ms, timeout) && peers[k].active.len() > 0
}

/// What is known of a node after its heartbeat.
pub open spec fn heard(hb: &NodeHeartbeat, received_at_ms: u64, p: PeerView) -> bool {
    &&& p.last_heartbeat_ms == received_at_ms
    &&& p.available_slots == hb.available_slots
    &&& p.max_slots == hb.max_slots
    &&& p.endpoint_addr == task::text_of(hb.endpoint_addr)
    &&& p.active.no_duplicates()
    &&& forall|k: Seq<char>| #[trigger]
        p.active.contains(k) <==> state::workflow_texts(hb.active_workflows@).contains(k)
}

/// The workflows of a list, each once.
pub fn distinct_workflows(ids: &Vec<WorkflowId>) -> (r: Vec<WorkflowId>)
    ensures
        state::workflow_texts(r@).no_duplicates(),
        forall|k: Seq<char>| #[trigger]
            state::workflow_texts(r@).contains(k) <==> state::workflow_texts(ids@).contains(k),
{
    let ghost all = state::workflow_texts(ids@);
    let mut r: Vec<WorkflowId> = Vec::new();
    let mut i: usize = 0;
    while i < ids.len()
        invariant
            i <= ids@.len(),
            all == state::workflow_texts(ids@),
            state::workflow_texts(r@).no_duplicates(),
            forall|k: Seq<char>| #[trigger]
                state::workflow_texts(r@).contains(k) <==> all.take(i as int).contains(k),
        decreases ids@.len() - i,
    {
        let ghost before = state::workflow_texts(r@);
        let ghost k = all[i as int];
        if !contains_workflow(&r, &ids[i]) {
            r.push(ids[i].clone());
            proof {
                assert(state::workflow_texts(r@) =~= before.push(k));
                graph::lemma_queue_push(before, before.push(k), k, true);
            }
        }
        proof {
            assert(all.take(i + 1) =~= all.take(i as int).push(k));
            graph::lemma_to_set_push(all.take(i as int), k);
            graph::lemma_to_set_push(before, k);
            assert forall|x: Seq<char>| #[trigger]
                state::workflow_texts(r@).contains(x) <==> all.take(i + 1).contains(x) by {
                assert(all.take(i as int).push(k).to_set().contains(x) <==> all.take(
                    i as int,
                ).to_set().insert(k).contains(x));
                assert(before.push(k).to_set().contains(x) <==> before.to_set().insert(k).contains(
                    x,
                ));
            }
        }
        i += 1;
    }
    assert(all.take(i as int) =~= all);
    r
}

/// Whether a list holds a workflow.
pub fn contains_workflow(ids: &Vec<WorkflowId>, id: &WorkflowId) -> (b: bool)
    ensures
        b == state::workflow_texts(ids@).contains(id@),
{
    let ghost all = state::workflow_texts(ids@);
    let mut i: usize = 0;
    while i < ids.len()
        invariant
            i <= ids@.len(),
            all == state::workflow_texts(ids@),
            forall|j: int| 0 <= j < i ==> #[trigger] all[j] != id@,
        decreases ids@.len() - i,
    {
        if same_text(ids[i].0.as_str(), id.0.as_str()) {
            assert(all[i as int] == id@);
            return true;
        }
        i += 1;
    }
    false
}

/// The lease that stored bytes hold, where it has not ended by the wall clock.
pub open spec fn stored_lease(bytes: Seq<u8>, now_ms: u64) -> Option<LeaseView> {
    match rkyv_lease_value(bytes) {
        Some(v) => if now_ms < v.2 {
            Some(
                LeaseView {
                    node_id: v.0,
                    claimed_at_ms: v.1,
                    expires_at_ms: v.2,
                    deadline: None,
                },
            )
        } else {
            None
        },
        None => None,
    }
}

/// The workflow that a lease is stored for.
pub open spec fn leased_workflow(key: Seq<char>) -> Seq<char> {
    if STORE_KEY_LEASE@.is_prefix_of(key) {
        key.skip(STORE_KEY_LEASE@.len() as int)
    } else {
        key
    }
}

/// The leases after those that are stored have been read.
pub open spec fn recovered(
    leases: Map<Seq<char>, LeaseView>,
    entries: Seq<(String, Vec<u8>)>,
    now_ms: u64,
) -> Map<Seq<char>, LeaseView>
    decreases entries.len(),
{
    if entries.len() == 0 {
        leases
    } else {
        let rest = recovered(leases, entries.drop_last(), now_ms);
        match stored_lease(entries.last().1@, now_ms) {
            Some(l) => rest.insert(leased_workflow(entries.last().0@), l),
            None => rest,
        }
    }
}

/// The keys of the stored leases that have ended or cannot be read.
pub open spec fn unusable(entries: Seq<(String, Vec<u8>)>, now_ms: u64) -> Seq<Seq<char>>
    decreases entries.len(),
{
    if entries.len() == 0 {
        Seq::empty()
    } else {
        let rest = unusable(entries.drop_last(), now_ms);
        match stored_lease(entries.last().1@, now_ms) {
            Some(_) => rest,
            None => rest.push(entries.last().0@),
        }
    }
}

/// What a node that takes a workflow over tells of a task that it dispatches anew.
pub open spec fn reschedule_notice(
    u: WireDagStateUpdate,
    wf: Seq<char>,
    id: Seq<char>,
    node: NodeId,
    ts: HlcTimestamp,
) -> bool {
    &&& u.workflow_id@ == wf
    &&& u.task_id@ == id
    &&& u.task_state matches WireTaskState::Failed { error }
    &&& error@ == "original orchestrator failed, rescheduling"@
    &&& u.hlc_timestamp == ts
    &&& u.origin_node == node
}

impl FailoverManager {
    /// Reads the stored leases. One that has ended, or cannot be read, is not kept; the keys
    /// of those are returned, to be deleted.
    pub fn recover_leases_from_store(&mut self, entries: &Vec<(String, Vec<u8>)>, now_ms: u64) -> (
        deleted: Vec<String>)
        requires
            old(self).wf(),
        ensures
            final(self).wf(),
            final(self).same_settings(old(self)),
            final(self).clock == old(self).clock,
            final(self).peers == old(self).peers,
            final(self).lease_map() == recovered(old(self).lease_map(), entries@, now_ms),
            keymap::texts(deleted@) == unusable(entries@, now_ms),
    {
        let mut deleted: Vec<String> = Vec::new();
        let ghost before = self.lease_map();
        assert(entries@.take(0) =~= Seq::empty());
        assert(keymap::texts(deleted@) =~= unusable(entries@.take(0), now_ms));
        let mut i: usize = 0;
        while i < entries.len()
            invariant
                i <= entries@.len(),
                before == old(self).lease_map(),
                self.wf(),
                self.same_settings(old(self)),
                self.clock == old(self).clock,
                self.peers == old(self).peers,
                self.lease_map() == recovered(before, entries@.take(i as int), now_ms),
                keymap::texts(deleted@) == unusable(entries@.take(i as int), now_ms),
            decreases entries@.len() - i,
        {
            let key = &entries[i].0;
            let ghost gone = keymap::texts(deleted@);
            assert(entries@.take(i + 1).drop_last() =~= entries@.take(i as int));
            let workflow_id = WorkflowId(
                match without_prefix(key.as_str(), STORE_KEY_LEASE) {
                    Some(rest) => rest.to_owned(),
                    None => key.clone(),
                },
            );
            assert(workflow_id@ == leased_workflow(key@));
            let mut keep = false;
            if let Some((node, claimed, expires)) = rkyv_decode_lease(&entries[i].1) {
                if now_ms < expires {
                    keep = true;
                    self.keep_lease(
                        &workflow_id,
                        LeaseEntry::restored(NodeId(node), claimed, expires),
                    );
                }
            }
            if !keep {
                deleted.push(key.clone());
                assert(keymap::texts(deleted@) =~= gone.push(key@));
            }
            i += 1;
        }
        assert(entries@.take(i as int) =~= entries@);
        deleted
    }

    /// What to tell other nodes of tasks that are dispatched anew, at physical time
    /// `physical`.
    pub fn reschedule_notices(
        &mut self,
        workflow_id: &WorkflowId,
        tasks: &Vec<TaskDefinition>,
        physical: u64,
    ) -> (notices: Vec<WireDagStateUpdate>)
        requires
            old(self).clock.last.logical + tasks@.len() < u32::MAX,
        ensures
            final(self).same_settings(old(self)),
            final(self).peers == old(self).peers,
            final(self).leases == old(self).leases,
            final(self).clock.last == gossip::ticks(
                old(self).clock.last,
                physical,
                tasks@.len(),
            ),
            notices@.len() == tasks@.len(),
            forall|i: int|
                #![trigger notices@[i]]
                0 <= i < notices@.len() ==> reschedule_notice(
                    notices@[i],
                    workflow_id@,
                    tasks@[i].id@,
                    old(self).node_id,
                    gossip::ticks(old(self).clock.last, physical, (i + 1) as nat),
                ),
    {
        let ghost start = self.clock.last;
        let mut notices: Vec<WireDagStateUpdate> = Vec::new();
        let mut i: usize = 0;
        while i < tasks.len()
            invariant
                i <= tasks@.len(),
                start == old(self).clock.last,
                start.logical + tasks@.len() < u32::MAX,
                self.same_settings(old(self)),
                self.peers == old(self).peers,
                self.leases == old(self).leases,
                self.clock.last == gossip::ticks(start, physical, i as nat),
                self.clock.last.logical <= start.logical + i,
                notices@.len() == i,
                forall|j: int|
                    #![trigger notices@[j]]
                    0 <= j < i ==> reschedule_notice(
                        notices@[j],
                        workflow_id@,
                        tasks@[j].id@,
                        self.node_id,
                        gossip::ticks(start, physical, (j + 1) as nat),
                    ),
            decreases tasks@.len() - i,
        {
            let hlc_timestamp = self.clock.tick_at(physical);
            notices.push(
                WireDagStateUpdate {
                    workflow_id: workflow_id.clone(),
                    task_id: tasks[i].id.clone(),
                    task_state: WireTaskState::Failed {
                        error: "original orchestrator failed, rescheduling".to_owned(),
                    },
                    hlc_timestamp,
                    origin_node: self.node_id.clone(),
                },
            );
            i += 1;
        }
        notices
    }

    /// Dispatches the running tasks of a workflow anew. Returns the tasks to queue and what to
    /// tell other nodes of them, in the same order.
    pub fn reschedule_workflow_tasks(
        &mut self,
        actor: &mut WorkflowActor,
        workflow_id: &WorkflowId,
        physical: u64,
    ) -> (r: Result<(Vec<TaskDefinition>, Vec<WireDagStateUpdate>), ActantError>)
        requires
            old(actor).orchestrator.wf(),
            old(actor).orchestrator.state@.slots.contains_key(workflow_id@)
                ==> lifecycle::running_attempts_left(
                old(actor).orchestrator.state@.slots[workflow_id@].execution,
            ),
            old(self).clock.last.logical + redispatched_count(
                old(actor).orchestrator.state@,
                workflow_id@,
            ) < u32::MAX,
        ensures
            final(self).same_settings(old(self)),
            final(self).peers == old(self).peers,
            final(self).leases == old(self).leases,
            final(actor).orchestrator.wf(),
            final(actor).orchestrator.same_settings(&old(actor).orchestrator),
            r matches Ok(p) && {
                &&& timeouts::reschedule_outcome(
                    old(actor).orchestrator.state@,
                    final(actor).orchestrator.state@,
                    workflow_id@,
                    old(actor).orchestrator.origin(),
                    Ok(p.0),
                )
                &&& p.1@.len() == p.0@.len()
                &&& forall|i: int|
                    #![trigger p.1@[i]]
                    0 <= i < p.1@.len() ==> reschedule_notice(
                        p.1@[i],
                        workflow_id@,
                        p.0@[i].id@,
                        old(self).node_id,
                        gossip::ticks(old(self).clock.last, physical, (i + 1) as nat),
                    )
                &&& final(self).clock.last == gossip::ticks(
                    old(self).clock.last,
                    physical,
                    p.0@.len(),
                )
            },
    {
        match actor.orchestrator.reschedule_running_tasks(workflow_id) {
            Ok(tasks) => {
                assert(task::task_views(tasks@).len() == tasks@.len());
                let notices = self.reschedule_notices(workflow_id, &tasks, physical);
                Ok((tasks, notices))
            },
            Err(e) => Err(e),
        }
    }
}

/// What forgetting the nodes that have been silent for too long leaves and returns.
pub open spec fn stale_removed(
    before: Map<Seq<char>, PeerView>,
    after: Map<Seq<char>, PeerView>,
    now_ms: u64,
    timeout: u64,
    removed: Seq<(NodeId, PeerInfo)>,
) -> bool {
    &&& after == alive(before, now_ms, timeout)
    &&& named(removed).no_duplicates()
    &&& forall|k: Seq<char>| #[trigger]
        named(removed).contains(k) <==> before.contains_key(k) && silent(
            before[k],
            now_ms,
            timeout,
        )
    &&& forall|i: int|
        0 <= i < removed.len() ==> (#[trigger] removed[i]).1@ == before[removed[i].0@]
}

/// What looking for failed nodes leaves and returns: the failed nodes that still had
/// workflows, and the nodes among which these are to be divided.
pub open spec fn failures_detected(
    before: Map<Seq<char>, PeerView>,
    after: Map<Seq<char>, PeerView>,
    me: Seq<char>,
    now_expire: u64,
    now_check: u64,
    timeout: u64,
    failed: Seq<(NodeId, PeerInfo)>,
    candidates: Seq<Seq<char>>,
) -> bool {
    &&& after == alive(before, now_expire, timeout)
    &&& named(failed).no_duplicates()
    &&& forall|k: Seq<char>| #[trigger]
        named(failed).contains(k) <==> orphaned(before, k, now_check, timeout)
    &&& forall|i: int|
        0 <= i < failed.len() ==> (#[trigger] failed[i]).1@ == before[failed[i].0@]
    &&& forall|k: Seq<char>| #[trigger]
        candidates.contains(k) <==> after.contains_key(k) || k == me
}

/// What taking in a heartbeat leaves and returns.
pub open spec fn heartbeat_taken(
    before: Map<Seq<char>, PeerView>,
    after: Map<Seq<char>, PeerView>,
    me: Seq<char>,
    hb: &NodeHeartbeat,
    received_at_ms: u64,
    is_new: bool,
) -> bool {
    if hb.node_id@ == me {
        !is_new && after == before
    } else {
        &&& is_new == !before.contains_key(hb.node_id@)
        &&& after == before.insert(hb.node_id@, after[hb.node_id@])
        &&& heard(hb, received_at_ms, after[hb.node_id@])
    }
}

/// What the beginning of a claim returns.
pub open spec fn claim_begun(
    leases: Map<Seq<char>, LeaseView>,
    me: Seq<char>,
    duration: u64,
    wf: Seq<char>,
    now_ms: u64,
    now_monotonic: u64,
    r: Option<LeaseEntry>,
) -> bool {
    match r {
        None => claim_refused(leases, wf, now_ms, now_monotonic),
        Some(l) => {
            &&& !claim_refused(leases, wf, now_ms, now_monotonic)
            &&& l@ == lease_given(me, now_ms, duration, now_monotonic)
        },
    }
}

/// What going through the leases leaves and returns.
pub open spec fn leases_swept(
    before: Map<Seq<char>, LeaseView>,
    after: Map<Seq<char>, LeaseView>,
    me: Seq<char>,
    duration: u64,
    has_store: bool,
    active: Seq<Seq<char>>,
    now_ms: u64,
    now_monotonic: u64,
    s: LeaseSweep,
) -> bool {
    &&& after == swept(before, me, active, now_ms, now_monotonic)
    &&& renewed_texts(s.renewed@).no_duplicates()
    &&& forall|k: Seq<char>| #[trigger]
        renewed_texts(s.renewed@).contains(k) <==> lapsed_own(
            before,
            me,
            active,
            k,
            now_ms,
            now_monotonic,
        )
    &&& forall|i: int|
        0 <= i < s.renewed@.len() ==> (#[trigger] s.renewed@[i]).1@ == lease_given(
            me,
            now_ms,
            duration,
            now_monotonic,
        )
    &&& forall|x: Seq<char>| #[trigger]
        keymap::texts(s.deleted@).contains(x) <==> has_store && exists|k: Seq<char>|
            {
                &&& before.contains_key(k)
                &&& !(#[trigger] after.contains_key(k))
                &&& x == STORE_KEY_LEASE@ + k
            }
}

/// `active` lists the workflows of `v` that have not ended, each once.
pub open spec fn active_told(v: state::StateView, active: Seq<Seq<char>>) -> bool {
    &&& active.no_duplicates()
    &&& forall|k: Seq<char>| #[trigger]
        active.contains(k) <==> v.slots.contains_key(k) && !v.slots[k].execution.state.ended()
}

/// What keeping the lease of a workflow that was claimed leaves and tells.
pub open spec fn claim_told(
    before: Map<Seq<char>, LeaseView>,
    after: Map<Seq<char>, LeaseView>,
    me: Seq<char>,
    wf: Seq<char>,
    lease: LeaseView,
    c: OrchestratorClaim,
) -> bool {
    &&& after == before.insert(wf, lease)
    &&& c.node_id@ == me
    &&& c.workflow_id@ == wf
    &&& c.timestamp_ms == lease.claimed_at_ms
}

/// What taking in that a node has claimed a workflow leaves.
pub open spec fn claim_taken(
    before: Map<Seq<char>, LeaseView>,
    after: Map<Seq<char>, LeaseView>,
    v: state::StateView,
    w: state::StateView,
    me: Seq<char>,
    duration: u64,
    c: OrchestratorClaim,
    now_monotonic: u64,
) -> bool {
    &&& after == before.insert(
        c.workflow_id@,
        lease_given(c.node_id@, c.timestamp_ms, duration, now_monotonic),
    )
    &&& w == if c.node_id@ != me {
        state::without(v, c.workflow_id@)
    } else {
        v
    }
}

/// The number of tasks of a workflow that are dispatched anew.
pub open spec fn redispatched_count(v: state::StateView, wf: Seq<char>) -> nat {
    if v.slots.contains_key(wf) {
        timeouts::known_ids(v.slots[wf], lifecycle::running_ids(v.slots[wf].execution)).len()
    } else {
        0
    }
}

/// A lease outlasts the time in which a failure is concluded: a node that is given a lease
/// still has it when others could first conclude that it has failed.
pub proof fn law_lease_outlasts_detection(
    config: FailoverConfig,
    node: Seq<char>,
    claimed_at_ms: u64,
    given_at: u64,
    now_ms: u64,
    now_monotonic: u64,
)
    requires
        config.in_order(),
        given_at + config.lease_duration_ms <= u64::MAX,
        now_monotonic <= given_at + config.failure_timeout_ms,
    ensures
        lease_holds(
            lease_given(node, claimed_at_ms, config.lease_duration_ms, given_at),
            now_ms,
            now_monotonic,
        ),
{
}

/// A node whose heartbeats come as often as they are meant to is never taken for failed.
pub proof fn law_steady_heartbeat_is_not_silent(config: FailoverConfig, p: PeerView, now_ms: u64)
    requires
        config.in_order(),
        now_ms <= p.last_heartbeat_ms + config.heartbeat_interval_ms,
    ensures
        !silent(p, now_ms, config.failure_timeout_ms),
{
}

/// The wall clock has no say over a lease that was given out by this process.
pub proof fn law_wall_clock_jumps_are_harmless(
    node: Seq<char>,
    claimed_at_ms: u64,
    duration: u64,
    given_at: u64,
    now_monotonic: u64,
    wall: u64,
    other_wall: u64,
)
    requires
        given_at + duration <= u64::MAX,
    ensures
        lease_holds(lease_given(node, claimed_at_ms, duration, given_at), wall, now_monotonic)
            == lease_holds(
            lease_given(node, claimed_at_ms, duration, given_at),
            other_wall,
            now_monotonic,
        ),
{
}

/// A node that has failed is no candidate for the workflows that it leaves behind, unless it
/// is this node itself.
pub proof fn law_failed_nodes_are_no_candidates(
    peers: Map<Seq<char>, PeerView>,
    k: Seq<char>,
    now_ms: u64,
    timeout: u64,
)
    requires
        orphaned(peers, k, now_ms, timeout),
    ensures
        !alive(peers, now_ms, timeout).contains_key(k),
{
}

/// A workflow that this node drives keeps its lease: once renewed it holds.
pub proof fn law_driven_workflow_keeps_lease(
    leases: Map<Seq<char>, LeaseView>,
    node: Seq<char>,
    active: Seq<Seq<char>>,
    k: Seq<char>,
    duration: u64,
    now_ms: u64,
    now_monotonic: u64,
)
    requires
        leases.contains_key(k),
        leases[k].node_id == node,
        active.contains(k),
        0 < duration,
        now_monotonic + duration <= u64::MAX,
    ensures
        swept(leases, node, active, now_ms, now_monotonic).contains_key(k),
        lapsed_own(leases, node, active, k, now_ms, now_monotonic) ==> lease_holds(
            lease_given(node, now_ms, duration, now_monotonic),
            now_ms,
            now_monotonic,
        ),
{
}

/// Once another node's claim has been taken in, this node neither drives the workflow nor
/// renews its lease, and does not claim it while the claim's lease holds.
pub proof fn law_claim_yields(
    v: state::StateView,
    leases: Map<Seq<char>, LeaseView>,
    me: Seq<char>,
    other: Seq<char>,
    wf: Seq<char>,
    claimed_at_ms: u64,
    duration: u64,
    taken_in_at: u64,
    active: Seq<Seq<char>>,
    now_ms: u64,
    now_monotonic: u64,
)
    requires
        me != other,
        taken_in_at + duration <= u64::MAX,
    ensures
        ({
            let l = leases.insert(
                wf,
                lease_given(other, claimed_at_ms, duration, taken_in_at),
            );
            &&& !state::without(v, wf).slots.contains_key(wf)
            &&& !lapsed_own(l, me, active, wf, now_ms, now_monotonic)
            &&& now_monotonic < taken_in_at + duration ==> claim_refused(
                l,
                wf,
                now_ms,
                now_monotonic,
            )
        }),
{
}

/// A stored lease that has not ended is read back as it was stored; it then ends by the wall
/// clock.
pub proof fn law_stored_lease_round_trip(
    wf: Seq<char>,
    l: LeaseView,
    key: String,
    bytes: Vec<u8>,
    now_ms: u64,
)
    requires
        lease_stored(wf, l, Some((key, bytes)), true),
        now_ms < l.expires_at_ms,
    ensures
        leased_workflow(key@) == wf,
        stored_lease(bytes@, now_ms) == Some(LeaseView { deadline: None, ..l }),
{
    assert(STORE_KEY_LEASE@.is_prefix_of(key@));
    assert(key@.skip(STORE_KEY_LEASE@.len() as int) =~= wf);
}

} // verus!
