//! The task graph of a workflow.
use vstd::prelude::*;
use vstd::string::*;

use crate::common;
use crate::common::{copy_tasks, ActantError, RetryPolicy, TaskId};
use crate::keymap::KeyMap;
use crate::runtime::workflow::graph;
use crate::runtime::workflow::phase::FailureStrategy;

verus! {

/// One task of the graph.
#[derive(Debug)]
pub struct DagNode {
    pub task_id: TaskId,
    pub name: String,
    pub payload: Vec<u8>,
    pub retry_policy: Option<RetryPolicy>,
    pub timeout_ms: Option<u64>,
    /// Higher is more urgent.
    pub priority: i32,
    /// Opaque labels, carried with the task.
    pub metadata: KeyMap<String>,
}

/// The mathematical value of a [`DagNode`].
#[verifier::ext_equal]
pub struct NodeView {
    pub task_id: Seq<char>,
    pub name: Seq<char>,
    pub payload: Seq<u8>,
    pub retry_policy: Option<RetryPolicy>,
    pub timeout_ms: Option<u64>,
    pub priority: i32,
    pub metadata: Map<Seq<char>, Seq<char>>,
}

/// The texts of labels.
pub open spec fn label_texts(m: Map<Seq<char>, String>) -> Map<Seq<char>, Seq<char>> {
    m.map_values(|v: String| v@)
}

impl View for DagNode {
    type V = NodeView;

    open spec fn view(&self) -> NodeView {
        NodeView {
            task_id: self.task_id@,
            name: self.name@,
            payload: self.payload@,
            retry_policy: self.retry_policy,
            timeout_ms: self.timeout_ms,
            priority: self.priority,
            metadata: label_texts(self.metadata@),
        }
    }
}

impl DagNode {
    /// A copy of the task.
    pub fn copy(&self) -> (r: DagNode)
        ensures
            r@ == self@,
            r.task_id == self.task_id,
    {
        let mut metadata: KeyMap<String> = KeyMap::new();
        let n: usize = self.metadata.len();
        let mut i: usize = 0;
        while i < n
            invariant
                i <= n,
                n == self.metadata.order().len(),
                self.metadata.listed(),
                forall|k: Seq<char>| #[trigger]
                    metadata@.contains_key(k) <==> self.metadata.order().take(i as int).contains(k),
                forall|k: Seq<char>| #[trigger]
                    metadata@.contains_key(k) ==> metadata@[k]@ == self.metadata@[k]@,
            decreases n - i,
        {
            let k = self.metadata.key_at(i);
            let v = self.metadata.value_at(i);
            proof {
                let order = self.metadata.order();
                assert(order.take(i + 1) =~= order.take(i as int).push(k@));
                graph::lemma_to_set_push(order.take(i as int), k@);
                assert forall|x: Seq<char>| #[trigger] order.take(i + 1).contains(x) <==> order.take(
                    i as int,
                ).contains(x) || x == k@ by {
                    assert(order.take(i + 1).to_set().contains(x) <==> order.take(
                        i as int,
                    ).to_set().insert(k@).contains(x));
                }
            }
            metadata.insert(k.clone(), v.clone());
            i += 1;
        }
        proof {
            let order = self.metadata.order();
            assert(order.take(i as int) =~= order);
            assert(label_texts(metadata@) =~= label_texts(self.metadata@));
        }
        DagNode {
            task_id: self.task_id.clone(),
            name: self.name.clone(),
            payload: common::copy_bytes(&self.payload),
            retry_policy: self.retry_policy,
            timeout_ms: self.timeout_ms,
            priority: self.priority,
            metadata,
        }
    }
}

/// A dependency: `to` waits for `from`. A condition, where there is one, decides at run
/// time whether the edge is taken.
#[derive(Debug)]
pub struct DagEdge {
    pub from: TaskId,
    pub to: TaskId,
    pub condition: Option<String>,
}

/// The graph: tasks, dependencies and settings shared by all tasks.
#[derive(Debug)]
pub struct Dag {
    pub nodes: KeyMap<DagNode>,
    pub edges: Vec<DagEdge>,
    pub predecessors: KeyMap<Vec<TaskId>>,
    pub successors: KeyMap<Vec<TaskId>>,
    /// Applies to tasks without a retry policy of their own.
    pub default_retry_policy: Option<RetryPolicy>,
    /// What a task failure does to the workflow.
    pub failure_strategy: FailureStrategy,
}

/// The mathematical value of a [`Dag`].
#[verifier::ext_equal]
pub struct DagView {
    pub nodes: Map<Seq<char>, DagNode>,
    pub order: Seq<Seq<char>>,
    pub edges: Seq<DagEdge>,
    pub default_retry_policy: Option<RetryPolicy>,
    pub failure_strategy: FailureStrategy,
}

/// The graph without a node.
pub open spec fn no_nodes() -> DagView {
    DagView {
        nodes: Map::empty(),
        order: Seq::empty(),
        edges: Seq::empty(),
        default_retry_policy: None,
        failure_strategy: FailureStrategy::FailFast,
    }
}

impl View for Dag {
    type V = DagView;

    open spec fn view(&self) -> DagView {
        DagView {
            nodes: self.nodes@,
            order: self.nodes.order(),
            edges: self.edges@,
            default_retry_policy: self.default_retry_policy,
            failure_strategy: self.failure_strategy,
        }
    }
}

/// The retry policy of a task: its own, or else the one shared by all tasks.
pub open spec fn policy_of(d: DagView, k: Seq<char>) -> Option<RetryPolicy> {
    if !d.nodes.contains_key(k) {
        None
    } else if d.nodes[k].retry_policy is Some {
        d.nodes[k].retry_policy
    } else {
        d.default_retry_policy
    }
}

/// An edge by its endpoints.
pub open spec fn endpoints(e: DagEdge) -> (Seq<char>, Seq<char>) {
    (e.from@, e.to@)
}

/// The endpoints of each edge.
pub open spec fn edge_pairs(edges: Seq<DagEdge>) -> Seq<(Seq<char>, Seq<char>)> {
    Seq::new(edges.len(), |i: int| endpoints(edges[i]))
}

/// The message for a task that is not in the graph.
pub open spec fn node_not_found(id: Seq<char>) -> Seq<char> {
    "node "@ + id + " not found"@
}

fn node_not_found_message(id: &TaskId) -> (m: String)
    ensures
        m@ == node_not_found(id@),
{
    let mut m = "node ".to_owned();
    m.append(id.0.as_str());
    m.append(" not found");
    m
}

impl Dag {
    /// The tasks by identifier.
    pub open spec fn node_map(&self) -> Map<Seq<char>, DagNode> {
        self.nodes@
    }

    /// The order in which the tasks were added.
    pub open spec fn node_order(&self) -> Seq<Seq<char>> {
        self.nodes.order()
    }

    /// The edges in the order in which they were added.
    pub open spec fn edge_seq(&self) -> Seq<DagEdge> {
        self.edges@
    }

    /// The edges by their endpoints.
    pub open spec fn pairs(&self) -> Seq<(Seq<char>, Seq<char>)> {
        edge_pairs(self.edge_seq())
    }

    /// Edges join tasks of the graph, and no task depends on itself.
    pub open spec fn wf(&self) -> bool {
        &&& self.shaped()
        &&& graph::acyclic(self.pairs())
    }

    /// Edges join tasks of the graph, and the neighbour lists agree with the edges.
    pub open spec fn shaped(&self) -> bool {
        &&& self.nodes.listed()
        &&& self.predecessors@.dom() == self.nodes@.dom()
        &&& self.successors@.dom() == self.nodes@.dom()
        &&& forall|k: Seq<char>| #[trigger]
            self.nodes@.contains_key(k) ==> {
                &&& self.nodes@[k].task_id@ == k
                &&& common::task_texts(self.successors@[k]@) == graph::targets(self.pairs(), k)
                &&& common::task_texts(self.predecessors@[k]@) == graph::sources(self.pairs(), k)
            }
        &&& forall|i: int|
            0 <= i < self.edges@.len() ==> self.nodes@.contains_key(
                (#[trigger] self.edges@[i]).from@,
            ) && self.nodes@.contains_key(self.edges@[i].to@)
    }

    /// The empty graph.
    pub fn new() -> (d: Self)
        ensures
            d.wf(),
            d.node_map() == Map::<Seq<char>, DagNode>::empty(),
            d.node_order() == Seq::<Seq<char>>::empty(),
            d.edge_seq() == Seq::<DagEdge>::empty(),
            d.default_retry_policy is None,
            d.failure_strategy == FailureStrategy::FailFast,
    {
        let d = Dag {
            nodes: KeyMap::new(),
            edges: Vec::new(),
            predecessors: KeyMap::new(),
            successors: KeyMap::new(),
            default_retry_policy: None,
            failure_strategy: FailureStrategy::FailFast,
        };
        proof {
            graph::lemma_empty_acyclic(d.pairs());
        }
        d
    }

    /// Adds a task, or replaces the one with the same identifier. Edges stay.
    pub fn add_node(&mut self, node: DagNode) -> (r: Result<(), ActantError>)
        requires
            old(self).wf(),
        ensures
            r is Ok,
            final(self).wf(),
            final(self).node_map() == old(self).node_map().insert(node.task_id@, node),
            final(self).node_order() == (if old(self).node_map().contains_key(node.task_id@) {
                old(self).node_order()
            } else {
                old(self).node_order().push(node.task_id@)
            }),
            final(self).edge_seq() == old(self).edge_seq(),
            final(self).default_retry_policy == old(self).default_retry_policy,
            final(self).failure_strategy == old(self).failure_strategy,
    {
        let id = node.task_id.clone();
        let ghost k = id@;
        let ghost pairs = self.pairs();
        let fresh = !self.nodes.contains_key(&id.0);
        self.nodes.insert(id.0.clone(), node);
        if fresh {
            proof {
                assert forall|i: int| 0 <= i < pairs.len() implies (#[trigger] pairs[i]).0 != k
                    && pairs[i].1 != k by {
                    assert(old(self).nodes@.contains_key(old(self).edges@[i].from@));
                }
                graph::lemma_no_edges_at(pairs, k);
            }
            self.predecessors.insert(id.0.clone(), Vec::new());
            self.successors.insert(id.0, Vec::new());
            assert(common::task_texts(self.successors@[k]@) =~= graph::targets(pairs, k));
            assert(common::task_texts(self.predecessors@[k]@) =~= graph::sources(pairs, k));
        }
        assert(self.predecessors@.dom() =~= self.nodes@.dom());
        assert(self.successors@.dom() =~= self.nodes@.dom());
        let _n: usize = self.nodes.len();
        Ok(())
    }

    fn push_edge(&mut self, from: TaskId, to: TaskId, condition: Option<String>)
        requires
            old(self).wf(),
            old(self).node_map().contains_key(from@),
            old(self).node_map().contains_key(to@),
            !graph::reach(old(self).pairs(), to@, from@),
        ensures
            final(self).wf(),
            final(self).node_map() == old(self).node_map(),
            final(self).node_order() == old(self).node_order(),
            final(self).edge_seq() == old(self).edge_seq().push(DagEdge { from, to, condition }),
            final(self).default_retry_policy == old(self).default_retry_policy,
            final(self).failure_strategy == old(self).failure_strategy,
    {
        let ghost pairs = self.pairs();
        proof {
            graph::lemma_acyclic_extend(pairs, from@, to@);
        }
        self.edges.push(DagEdge { from: from.clone(), to: to.clone(), condition });
        assert(self.pairs() =~= pairs.push((from@, to@)));
        assert(self.pairs().drop_last() =~= pairs);
        if let Some(list) = self.successors.get_mut(&from.0) {
            list.push(to.clone());
        }
        if let Some(list) = self.predecessors.get_mut(&to.0) {
            list.push(from.clone());
        }
        proof {
            assert(self.predecessors@.dom() =~= self.nodes@.dom());
            assert(self.successors@.dom() =~= self.nodes@.dom());
            assert forall|k: Seq<char>| #[trigger] self.nodes@.contains_key(k) implies {
                &&& self.nodes@[k].task_id@ == k
                &&& common::task_texts(self.successors@[k]@) == graph::targets(self.pairs(), k)
                &&& common::task_texts(self.predecessors@[k]@) == graph::sources(self.pairs(), k)
            } by {
                assert(common::task_texts(self.successors@[k]@) =~= graph::targets(self.pairs(), k));
                assert(common::task_texts(self.predecessors@[k]@) =~= graph::sources(self.pairs(), k));
            }
        }
    }

    /// Whether `source` leads to `target`, by breadth-first search.
    fn path_exists(&self, source: &TaskId, target: &TaskId) -> (found: bool)
        requires
            self.wf(),
            self.node_map().contains_key(source@),
        ensures
            found == graph::reach(self.pairs(), source@, target@),
    {
        let ghost pairs = self.pairs();
        let mut visited: KeyMap<()> = KeyMap::new();
        let mut queue: Vec<TaskId> = Vec::new();
        let mut head: usize = 0;
        queue.push(source.clone());
        proof {
            graph::lemma_reach_step(pairs);
        }
        while head < queue.len()
            invariant
                self.wf(),
                pairs == self.pairs(),
                head <= queue@.len(),
                visited.listed(),
                visited@.dom().subset_of(self.nodes@.dom()),
                !visited@.contains_key(target@),
                forall|k: Seq<char>| #[trigger]
                    visited@.contains_key(k) ==> graph::reach(pairs, source@, k),
                forall|i: int|
                    0 <= i < queue@.len() ==> self.nodes@.contains_key(
                        (#[trigger] queue@[i])@,
                    ) && graph::reach(pairs, source@, queue@[i]@),
                graph::frontier(pairs, visited@.dom(), common::task_texts(queue@), head as int),
                queue@[0]@ == source@,
                queue@.len() > 0,
                forall|i: int|
                    0 <= i < head ==> visited@.contains_key((#[trigger] queue@[i])@),
            decreases self.nodes@.len() - visited@.len(), queue@.len() - head,
        {
            let current = queue[head].clone();
            let ghost k = current@;
            if current.0 == target.0 {
                return true;
            }
            if visited.contains_key(&current.0) {
                proof {
                    graph::lemma_frontier_skip(
                        pairs,
                        visited@.dom(),
                        common::task_texts(queue@),
                        head as int,
                    );
                }
                head += 1;
                continue;
            }
            proof {
                vstd::set_lib::lemma_len_subset(visited@.dom().insert(k), self.nodes@.dom());
            }
            let ghost before = queue@;
            let ghost seen = visited@.dom();
            visited.insert(current.0.clone(), ());
            head += 1;
            if let Some(succs) = self.successors.get(&current.0) {
                let mut j: usize = 0;
                while j < succs.len()
                    invariant
                        self.wf(),
                        pairs == self.pairs(),
                        j <= succs@.len(),
                        succs == self.successors@[k],
                        self.nodes@.contains_key(k),
                        graph::reach(pairs, source@, k),
                        before.len() <= queue@.len(),
                        queue@.take(before.len() as int) == before,
                        visited@.dom() == seen.insert(k),
                        forall|i: int|
                            0 <= i < queue@.len() ==> self.nodes@.contains_key(
                                (#[trigger] queue@[i])@,
                            ) && graph::reach(pairs, source@, queue@[i]@),
                        forall|i: int|
                            0 <= i < j ==> visited@.contains_key(#[trigger] succs@[i]@)
                                || common::task_texts(queue@.skip(before.len() as int)).contains(
                                succs@[i]@,
                            ),
                    decreases succs@.len() - j,
                {
                    let ghost inner = queue@;
                    proof {
                        assert(common::task_texts(succs@)[j as int] == succs@[j as int]@);
                        graph::lemma_targets(pairs, k, j as int);
                        let e = graph::edge_to(pairs, k, j as int);
                        graph::lemma_reach_edge(pairs, source@, e);
                        assert(self.edges@[e].to@ == succs@[j as int]@);
                    }
                    if !visited.contains_key(&succs[j].0) {
                        queue.push(succs[j].clone());
                    }
                    proof {
                        let t0 = common::task_texts(inner.skip(before.len() as int));
                        let t1 = common::task_texts(queue@.skip(before.len() as int));
                        assert(queue@.take(before.len() as int) =~= before);
                        assert forall|i: int| 0 <= i < j + 1 implies visited@.contains_key(
                            #[trigger] succs@[i]@,
                        ) || t1.contains(succs@[i]@) by {
                            if i < j && t0.contains(succs@[i]@) {
                                let p = t0.index_of(succs@[i]@);
                                assert(t1[p] == t0[p]);
                            }
                            if i == j && !visited@.contains_key(succs@[i]@) {
                                assert(t1[t0.len() as int] == succs@[i]@);
                            }
                        }
                    }
                    j += 1;
                }
            }
            proof {
                let n = before.len() as int;
                assert forall|i: int| 0 <= i < n implies #[trigger] queue@[i] == before[i] by {
                    assert(queue@.take(n)[i] == before[i]);
                }
                assert(common::task_texts(queue@).take(n) =~= common::task_texts(before));
                assert(common::task_texts(queue@).skip(n) =~= common::task_texts(queue@.skip(n)));
                let succs = self.successors@[k]@;
                assert forall|j: int| 0 <= j < graph::targets(pairs, k).len() implies seen.insert(
                    k,
                ).contains(#[trigger] graph::targets(pairs, k)[j]) || common::task_texts(
                    queue@,
                ).skip(n).contains(graph::targets(pairs, k)[j]) by {
                    assert(common::task_texts(succs)[j] == succs[j]@);
                    assert(visited@.contains_key(succs[j]@) || common::task_texts(
                        queue@.skip(n),
                    ).contains(succs[j]@));
                }
                graph::lemma_frontier_step(
                    pairs,
                    seen,
                    common::task_texts(before),
                    common::task_texts(queue@),
                    head - 1,
                );
            }
        }
        proof {
            assert(visited@.contains_key(source@));
            graph::lemma_frontier_closed(
                pairs,
                visited@.dom(),
                common::task_texts(queue@),
                source@,
                target@,
            );
        }
        false
    }

    /// Makes `to` wait for `from`.
    pub fn add_edge(&mut self, from: TaskId, to: TaskId) -> (r: Result<(), ActantError>)
        requires
            old(self).wf(),
        ensures
            final(self).wf(),
            final(self).node_map() == old(self).node_map(),
            final(self).node_order() == old(self).node_order(),
            final(self).default_retry_policy == old(self).default_retry_policy,
            final(self).failure_strategy == old(self).failure_strategy,
            edge_outcome(*old(self), from@, to@, "adding edge would create a cycle"@, r),
            final(self).edge_seq() == (if r is Ok {
                old(self).edge_seq().push(DagEdge { from, to, condition: None })
            } else {
                old(self).edge_seq()
            }),
    {
        if !self.nodes.contains_key(&from.0) {
            return Err(ActantError::Workflow(node_not_found_message(&from)));
        }
        if !self.nodes.contains_key(&to.0) {
            return Err(ActantError::Workflow(node_not_found_message(&to)));
        }
        if from.0 == to.0 || self.path_exists(&to, &from) {
            proof {
                graph::lemma_reach_step(self.pairs());
            }
            return Err(ActantError::Workflow("adding edge would create a cycle".to_owned()));
        }
        self.push_edge(from, to, None);
        Ok(())
    }

    /// Makes `to` wait for `from` where `condition` holds at run time.
    pub fn add_conditional_edge(
        &mut self,
        from: TaskId,
        to: TaskId,
        condition: String,
    ) -> (r: Result<(), ActantError>)
        requires
            old(self).wf(),
        ensures
            final(self).wf(),
            final(self).node_map() == old(self).node_map(),
            final(self).node_order() == old(self).node_order(),
            final(self).default_retry_policy == old(self).default_retry_policy,
            final(self).failure_strategy == old(self).failure_strategy,
            edge_outcome(*old(self), from@, to@, "adding conditional edge would create a cycle"@, r),
            final(self).edge_seq() == (if r is Ok {
                old(self).edge_seq().push(DagEdge { from, to, condition: Some(condition) })
            } else {
                old(self).edge_seq()
            }),
    {
        if !self.nodes.contains_key(&from.0) {
            return Err(ActantError::Workflow(node_not_found_message(&from)));
        }
        if !self.nodes.contains_key(&to.0) {
            return Err(ActantError::Workflow(node_not_found_message(&to)));
        }
        if from.0 == to.0 || self.path_exists(&to, &from) {
            proof {
                graph::lemma_reach_step(self.pairs());
            }
            return Err(
                ActantError::Workflow("adding conditional edge would create a cycle".to_owned()),
            );
        }
        self.push_edge(from, to, Some(condition));
        Ok(())
    }

    /// The number of tasks.
    pub fn node_count(&self) -> (n: usize)
        ensures
            n == self.node_map().len(),
    {
        self.nodes.len()
    }

    /// The number of edges.
    pub fn edge_count(&self) -> (n: usize)
        ensures
            n == self.edge_seq().len(),
    {
        self.edges.len()
    }

    /// The task with the given identifier.
    pub fn get_node(&self, id: &TaskId) -> (r: Option<&DagNode>)
        ensures
            match r {
                Some(n) => self.node_map().contains_key(id@) && *n == self.node_map()[id@],
                None => !self.node_map().contains_key(id@),
            },
    {
        self.nodes.get(&id.0)
    }

    /// The tasks that `ids` names, in order.
    fn nodes_named(&self, ids: &Vec<TaskId>) -> (r: Vec<&DagNode>)
        requires
            forall|i: int| 0 <= i < ids@.len() ==> self.nodes@.contains_key((#[trigger] ids@[i])@),
        ensures
            r@.len() == ids@.len(),
            forall|i: int| 0 <= i < ids@.len() ==> *r@[i] == self.nodes@[(#[trigger] ids@[i])@],
    {
        let mut r: Vec<&DagNode> = Vec::new();
        let mut i: usize = 0;
        while i < ids.len()
            invariant
                i <= ids@.len(),
                r@.len() == i,
                forall|j: int|
                    0 <= j < ids@.len() ==> self.nodes@.contains_key((#[trigger] ids@[j])@),
                forall|j: int| 0 <= j < i ==> *r@[j] == self.nodes@[(#[trigger] ids@[j])@],
            decreases ids@.len() - i,
        {
            if let Some(n) = self.nodes.get(&ids[i].0) {
                r.push(n);
            }
            i += 1;
        }
        r
    }

    /// The tasks that `id` waits for, one for each edge into it.
    pub fn predecessors_of(&self, id: &TaskId) -> (r: Vec<&DagNode>)
        requires
            self.shaped(),
        ensures
            self.node_map().contains_key(id@) ==> names_nodes(
                r@,
                self.node_map(),
                graph::sources(self.pairs(), id@),
            ),
            !self.node_map().contains_key(id@) ==> r@.len() == 0,
    {
        match self.predecessors.get(&id.0) {
            Some(ids) => {
                proof {
                    assert forall|i: int| 0 <= i < ids@.len() implies self.nodes@.contains_key(
                        (#[trigger] ids@[i])@,
                    ) by {
                        assert(common::task_texts(ids@)[i] == ids@[i]@);
                        graph::lemma_sources(self.pairs(), id@, i);
                        assert(self.nodes@.contains_key(
                            self.edges@[graph::edge_from(self.pairs(), id@, i)].from@,
                        ));
                    }
                }
                let r = self.nodes_named(ids);
                let ghost names = graph::sources(self.pairs(), id@);
                assert forall|i: int| 0 <= i < names.len() implies self.node_map().contains_key(
                    #[trigger] names[i],
                ) && *r@[i] == self.node_map()[names[i]] by {
                    assert(common::task_texts(ids@)[i] == ids@[i]@);
                }
                r
            },
            None => Vec::new(),
        }
    }

    /// The tasks that wait for `id`, one for each edge out of it.
    pub fn successors_of(&self, id: &TaskId) -> (r: Vec<&DagNode>)
        requires
            self.shaped(),
        ensures
            self.node_map().contains_key(id@) ==> names_nodes(
                r@,
                self.node_map(),
                graph::targets(self.pairs(), id@),
            ),
            !self.node_map().contains_key(id@) ==> r@.len() == 0,
    {
        match self.successors.get(&id.0) {
            Some(ids) => {
                proof {
                    assert forall|i: int| 0 <= i < ids@.len() implies self.nodes@.contains_key(
                        (#[trigger] ids@[i])@,
                    ) by {
                        assert(common::task_texts(ids@)[i] == ids@[i]@);
                        graph::lemma_targets(self.pairs(), id@, i);
                        assert(self.nodes@.contains_key(
                            self.edges@[graph::edge_to(self.pairs(), id@, i)].to@,
                        ));
                    }
                }
                let r = self.nodes_named(ids);
                let ghost names = graph::targets(self.pairs(), id@);
                assert forall|i: int| 0 <= i < names.len() implies self.node_map().contains_key(
                    #[trigger] names[i],
                ) && *r@[i] == self.node_map()[names[i]] by {
                    assert(common::task_texts(ids@)[i] == ids@[i]@);
                }
                r
            },
            None => Vec::new(),
        }
    }

    /// How many edges enter `id`.
    pub fn predecessor_count(&self, id: &TaskId) -> (n: usize)
        requires
            self.shaped(),
        ensures
            n == graph::sources(self.pairs(), id@).len(),
    {
        match self.predecessors.get(&id.0) {
            Some(ids) => {
                assert(common::task_texts(ids@).len() == ids@.len());
                ids.len()
            },
            None => {
                proof {
                    self.lemma_absent(id@);
                }
                0
            },
        }
    }

    /// No edge touches a task that is not in the graph.
    pub proof fn lemma_absent(&self, k: Seq<char>)
        requires
            self.shaped(),
            !self.node_map().contains_key(k),
        ensures
            graph::targets(self.pairs(), k).len() == 0,
            graph::sources(self.pairs(), k).len() == 0,
    {
        let pairs = self.pairs();
        assert forall|i: int| 0 <= i < pairs.len() implies (#[trigger] pairs[i]).0 != k
            && pairs[i].1 != k by {
            assert(self.nodes@.contains_key(self.edges@[i].from@));
        }
        graph::lemma_no_edges_at(pairs, k);
    }

    /// The identifiers of the tasks that wait for `id`, one for each edge out of it.
    pub fn successor_ids(&self, id: &TaskId) -> (r: Vec<TaskId>)
        requires
            self.shaped(),
        ensures
            common::task_texts(r@) == graph::targets(self.pairs(), id@),
    {
        match self.successors.get(&id.0) {
            Some(ids) => copy_tasks(ids),
            None => {
                let r: Vec<TaskId> = Vec::new();
                proof {
                    self.lemma_absent(id@);
                    assert(common::task_texts(r@) =~= graph::targets(self.pairs(), id@));
                }
                r
            },
        }
    }

    /// The conditional edges out of `id`: target and condition of each, in order.
    pub fn conditional_edges_from(&self, id: &TaskId) -> (r: Vec<(TaskId, String)>)
        ensures
            r@ == conditional_from(self.edge_seq(), id@),
    {
        let mut r: Vec<(TaskId, String)> = Vec::new();
        let mut i: usize = 0;
        assert(r@ =~= conditional_from(self.edges@.take(0), id@));
        while i < self.edges.len()
            invariant
                i <= self.edges@.len(),
                r@ == conditional_from(self.edges@.take(i as int), id@),
            decreases self.edges@.len() - i,
        {
            let e = &self.edges[i];
            assert(self.edges@.take(i + 1).drop_last() =~= self.edges@.take(i as int));
            if e.from.0 == id.0 {
                if let Some(c) = &e.condition {
                    r.push((e.to.clone(), c.clone()));
                }
            }
            i += 1;
        }
        assert(self.edges@.take(i as int) =~= self.edges@);
        r
    }

    /// The tasks that wait for nothing.
    pub fn roots(&self) -> (r: Vec<&DagNode>)
        requires
            self.shaped(),
        ensures
            names_nodes(
                r@,
                self.node_map(),
                self.node_order().filter(|k: Seq<char>| graph::sources(self.pairs(), k).len() == 0),
            ),
    {
        let ghost f = |k: Seq<char>| graph::sources(self.pairs(), k).len() == 0;
        let mut r: Vec<&DagNode> = Vec::new();
        let n: usize = self.nodes.len();
        let mut i: usize = 0;
        assert(self.node_order().take(0).filter(f) =~= Seq::empty()) by {
            reveal(Seq::filter);
        }
        while i < n
            invariant
                i <= n,
                n == self.node_order().len(),
                self.shaped(),
                f == (|k: Seq<char>| graph::sources(self.pairs(), k).len() == 0),
                names_nodes(r@, self.node_map(), self.node_order().take(i as int).filter(f)),
            decreases n - i,
        {
            let id = self.nodes.key_at(i);
            let node = self.nodes.value_at(i);
            proof {
                let k = id@;
                assert(self.node_order().take(i + 1).drop_last() =~= self.node_order().take(
                    i as int,
                ));
                assert(self.node_order().take(i + 1).last() == k);
                reveal(Seq::filter);
            }
            let waits = match self.predecessors.get(id) {
                Some(ids) => {
                    assert(common::task_texts(ids@).len() == ids@.len());
                    ids.len() > 0
                },
                None => false,
            };
            proof {
                lemma_names_push(
                    r@,
                    self.node_map(),
                    self.node_order().take(i as int).filter(f),
                    node,
                    id@,
                );
            }
            if !waits {
                r.push(node);
            }
            i += 1;
        }
        assert(self.node_order().take(i as int) =~= self.node_order());
        r
    }

    /// The tasks that nothing waits for.
    pub fn sinks(&self) -> (r: Vec<&DagNode>)
        requires
            self.shaped(),
        ensures
            names_nodes(
                r@,
                self.node_map(),
                self.node_order().filter(|k: Seq<char>| graph::targets(self.pairs(), k).len() == 0),
            ),
    {
        let ghost f = |k: Seq<char>| graph::targets(self.pairs(), k).len() == 0;
        let mut r: Vec<&DagNode> = Vec::new();
        let n: usize = self.nodes.len();
        let mut i: usize = 0;
        assert(self.node_order().take(0).filter(f) =~= Seq::empty()) by {
            reveal(Seq::filter);
        }
        while i < n
            invariant
                i <= n,
                n == self.node_order().len(),
                self.shaped(),
                f == (|k: Seq<char>| graph::targets(self.pairs(), k).len() == 0),
                names_nodes(r@, self.node_map(), self.node_order().take(i as int).filter(f)),
            decreases n - i,
        {
            let id = self.nodes.key_at(i);
            let node = self.nodes.value_at(i);
            proof {
                let k = id@;
                assert(self.node_order().take(i + 1).drop_last() =~= self.node_order().take(
                    i as int,
                ));
                assert(self.node_order().take(i + 1).last() == k);
                reveal(Seq::filter);
            }
            let leads = match self.successors.get(id) {
                Some(ids) => {
                    assert(common::task_texts(ids@).len() == ids@.len());
                    ids.len() > 0
                },
                None => false,
            };
            proof {
                lemma_names_push(
                    r@,
                    self.node_map(),
                    self.node_order().take(i as int).filter(f),
                    node,
                    id@,
                );
            }
            if !leads {
                r.push(node);
            }
            i += 1;
        }
        assert(self.node_order().take(i as int) =~= self.node_order());
        r
    }

    /// All tasks, in the order in which they were added.
    pub fn nodes(&self) -> (r: Vec<&DagNode>)
        ensures
            names_nodes(r@, self.node_map(), self.node_order()),
    {
        let mut r: Vec<&DagNode> = Vec::new();
        let n: usize = self.nodes.len();
        let mut i: usize = 0;
        while i < n
            invariant
                i <= n,
                n == self.node_order().len(),
                names_nodes(r@, self.node_map(), self.node_order().take(i as int)),
            decreases n - i,
        {
            let node = self.nodes.value_at(i);
            proof {
                let order = self.node_order();
                assert(order.take(i + 1) =~= order.take(i as int).push(order[i as int]));
                lemma_names_push(r@, self.node_map(), order.take(i as int), node, order[i as int]);
            }
            r.push(node);
            i += 1;
        }
        assert(self.node_order().take(i as int) =~= self.node_order());
        r
    }

    /// The retry policy of a task: its own, or else the one shared by all tasks.
    pub fn effective_retry_policy(&self, task_id: &TaskId) -> (r: Option<RetryPolicy>)
        ensures
            r == policy_of(self@, task_id@),
    {
        match self.nodes.get(&task_id.0) {
            Some(node) => match node.retry_policy {
                Some(p) => Some(p),
                None => self.default_retry_policy,
            },
            None => None,
        }
    }

    /// Lists the tasks so that each comes after everything it waits for.
    pub fn topological_sort(&self) -> (r: Result<Vec<&DagNode>, ActantError>)
        requires
            self.shaped(),
        ensures
            r is Ok <==> graph::acyclic(self.pairs()),
            match r {
                Ok(sorted) => exists|order: Seq<Seq<char>>|
                    {
                        &&& #[trigger] graph::topological(self.pairs(), order)
                        &&& order.no_duplicates()
                        &&& order.to_set() == self.node_map().dom()
                        &&& names_nodes(sorted@, self.node_map(), order)
                    },
                Err(e) => e matches ActantError::Workflow(m) && m@ == "graph has a cycle"@,
            },
    {
        let ghost pairs = self.pairs();
        let n: usize = self.nodes.len();
        let mut degree: KeyMap<usize> = KeyMap::new();
        let mut queue: Vec<TaskId> = Vec::new();
        let mut i: usize = 0;
        while i < n
            invariant
                i <= n,
                n == self.node_order().len(),
                self.shaped(),
                pairs == self.pairs(),
                degree@.dom() == self.node_order().take(i as int).to_set(),
                forall|k: Seq<char>| #[trigger]
                    degree@.contains_key(k) ==> degree@[k] == graph::open_degree(
                        pairs,
                        k,
                        Set::empty(),
                    ),
                common::task_texts(queue@).no_duplicates(),
                forall|k: Seq<char>| #[trigger]
                    common::task_texts(queue@).contains(k) <==> degree@.contains_key(k)
                        && degree@[k] == 0,
            decreases n - i,
        {
            let id = self.nodes.key_at(i);
            let ghost k = id@;
            let ghost before = queue@;
            let ghost degree_before = degree@;
            proof {
                let order = self.node_order();
                assert(order.take(i + 1) =~= order.take(i as int).push(k));
                graph::lemma_to_set_push(order.take(i as int), k);
                assert(!order.take(i as int).contains(k));
                graph::lemma_open_degree_start(pairs, k);
            }
            let d: usize = match self.predecessors.get(id) {
                Some(ids) => {
                    assert(common::task_texts(ids@).len() == ids@.len());
                    ids.len()
                },
                None => 0,
            };
            degree.insert(id.clone(), d);
            if d == 0 {
                queue.push(TaskId(id.clone()));
                assert(common::task_texts(queue@) =~= common::task_texts(before).push(k));
            }
            proof {
                graph::lemma_queue_push(
                    common::task_texts(before),
                    common::task_texts(queue@),
                    k,
                    d == 0,
                );
            }
            i += 1;
        }
        proof {
            assert(self.node_order().take(n as int) =~= self.node_order());
        }
        let mut sorted: Vec<&DagNode> = Vec::new();
        let mut head: usize = 0;
        let ghost mut done: Set<Seq<char>> = Set::empty();
        proof {
            assert(common::task_texts(queue@).take(0).to_set() =~= done);
            assert forall|e: int, j: int|
                0 <= e < pairs.len() && 0 <= j < queue@.len() && (#[trigger] pairs[e]).1
                    == (#[trigger] queue@[j])@ implies false by {
                assert(common::task_texts(queue@)[j] == queue@[j]@);
                assert(common::task_texts(queue@).contains(queue@[j]@));
                graph::lemma_open_degree_zero(pairs, queue@[j]@, Set::empty());
            }
        }
        while head < queue.len()
            invariant
                n == self.node_order().len(),
                self.shaped(),
                pairs == self.pairs(),
                head <= queue@.len(),
                degree@.dom() == self.nodes@.dom(),
                done == common::task_texts(queue@).take(head as int).to_set(),
                forall|k: Seq<char>| #[trigger]
                    degree@.contains_key(k) ==> degree@[k] == graph::open_degree(pairs, k, done),
                common::task_texts(queue@).no_duplicates(),
                forall|k: Seq<char>| #[trigger]
                    common::task_texts(queue@).contains(k) <==> degree@.contains_key(k)
                        && degree@[k] == 0,
                graph::backed(pairs, common::task_texts(queue@)),
                names_nodes(
                    sorted@,
                    self.node_map(),
                    common::task_texts(queue@).take(head as int),
                ),
            decreases n - head,
        {
            let id = queue[head].clone();
            let ghost k = id@;
            let ghost texts = common::task_texts(queue@);
            proof {
                assert(texts[head as int] == k);
                assert(texts.contains(k));
                assert(!texts.take(head as int).contains(k));
                assert(texts.take(head + 1) =~= texts.take(head as int).push(k));
                self.nodes_bound(texts);
            }
            if let Some(node) = self.nodes.get(&id.0) {
                proof {
                    lemma_names_push(
                        sorted@,
                        self.node_map(),
                        texts.take(head as int),
                        node,
                        k,
                    );
                }
                sorted.push(node);
            }
            if let Some(succs) = self.successors.get(&id.0) {
                let ghost ts = graph::targets(pairs, k);
                let mut j: usize = 0;
                assert(ts.take(0) =~= Seq::empty());
                while j < succs.len()
                    invariant
                        self.shaped(),
                        pairs == self.pairs(),
                        j <= succs@.len(),
                        common::task_texts(succs@) == ts,
                        ts == graph::targets(pairs, k),
                        !done.contains(k),
                        done == texts.take(head as int).to_set(),
                        head < texts.len(),
                        texts[head as int] == k,
                        texts.len() <= queue@.len(),
                        common::task_texts(queue@).take(texts.len() as int) == texts,
                        degree@.dom() == self.nodes@.dom(),
                        forall|x: Seq<char>| #[trigger]
                            degree@.contains_key(x) ==> degree@[x] + graph::occurrences(
                                ts.take(j as int),
                                x,
                            ) == graph::open_degree(pairs, x, done),
                        common::task_texts(queue@).no_duplicates(),
                        forall|x: Seq<char>| #[trigger]
                            common::task_texts(queue@).contains(x) <==> degree@.contains_key(x)
                                && degree@[x] == 0,
                        graph::backed(pairs, common::task_texts(queue@)),
                    decreases succs@.len() - j,
                {
                    let succ = &succs[j];
                    let ghost s = succ@;
                    let ghost before = common::task_texts(queue@);
                    let ghost degree_before = degree@;
                    proof {
                        assert(common::task_texts(succs@)[j as int] == s);
                        graph::lemma_targets(pairs, k, j as int);
                        assert(self.nodes@.contains_key(
                            self.edges@[graph::edge_to(pairs, k, j as int)].to@,
                        ));
                        assert(ts.take(j + 1).drop_last() =~= ts.take(j as int));
                        assert(ts.take(j + 1).last() == s);
                        graph::lemma_occurrences_take(ts, s, j + 1);
                        graph::lemma_open_degree_step(pairs, s, done, k);
                    }
                    let mut cleared = false;
                    if let Some(d) = degree.get_mut(&succ.0) {
                        *d = *d - 1;
                        cleared = *d == 0;
                    }
                    assert(degree@ == degree_before.insert(s, (degree_before[s] - 1) as usize));
                    if cleared {
                        queue.push(succ.clone());
                        assert(common::task_texts(queue@) =~= before.push(s));
                        proof {
                            graph::lemma_open_degree_zero(pairs, s, done.insert(k));
                            assert(before.take(head + 1) =~= texts.take(head + 1)) by {
                                assert forall|q: int| 0 <= q < head + 1 implies before[q]
                                    == texts[q] by {
                                    assert(before.take(texts.len() as int)[q] == texts[q]);
                                }
                            }
                            graph::lemma_to_set_push(texts.take(head as int), k);
                            assert(texts.take(head + 1) =~= texts.take(head as int).push(k));
                            assert forall|e: int|
                                0 <= e < pairs.len() && (#[trigger] pairs[e]).1 == s implies
                                texts.take(head + 1).contains(pairs[e].0) by {
                                assert(texts.take(head + 1).to_set().contains(pairs[e].0));
                            }
                            graph::lemma_backed_push(pairs, before, s, texts.take(head + 1));
                        }
                    }
                    proof {
                        assert(!before.contains(s));
                        graph::lemma_queue_push(before, common::task_texts(queue@), s, cleared);
                        assert(common::task_texts(queue@).take(texts.len() as int) =~= texts) by {
                            assert(before.take(texts.len() as int) == texts);
                            assert forall|q: int| 0 <= q < texts.len() implies common::task_texts(
                                queue@,
                            )[q] == texts[q] by {
                                assert(before.take(texts.len() as int)[q] == texts[q]);
                            }
                        }
                    }
                    j += 1;
                }
                assert(ts.take(j as int) =~= ts);
            }
            proof {
                let now = common::task_texts(queue@);
                assert(now.take(head + 1) =~= texts.take(head + 1)) by {
                    assert forall|q: int| 0 <= q < head + 1 implies now[q] == texts[q] by {
                        assert(now.take(texts.len() as int)[q] == texts[q]);
                    }
                }
                assert forall|x: Seq<char>| #[trigger] degree@.contains_key(x) implies degree@[x]
                    == graph::open_degree(pairs, x, done.insert(k)) by {
                    graph::lemma_open_degree_step(pairs, x, done, k);
                }
                graph::lemma_to_set_push(texts.take(head as int), k);
                done = done.insert(k);
            }
            head += 1;
        }
        proof {
            let texts = common::task_texts(queue@);
            assert(texts.take(head as int) =~= texts);
            texts.unique_seq_to_set();
            assert(texts.to_set().subset_of(self.nodes@.dom()));
            vstd::set_lib::lemma_len_subset(texts.to_set(), self.nodes@.dom());
            if sorted@.len() == n {
                vstd::set_lib::lemma_subset_equality(texts.to_set(), self.nodes@.dom());
                graph::lemma_backed_topological(pairs, texts);
                assert forall|e: int| 0 <= e < pairs.len() implies texts.contains(
                    (#[trigger] pairs[e]).0,
                ) && texts.contains(pairs[e].1) by {
                    assert(self.nodes@.contains_key(self.edges@[e].from@));
                    assert(texts.to_set().contains(pairs[e].0));
                    assert(texts.to_set().contains(pairs[e].1));
                }
                graph::lemma_topological_acyclic(pairs, texts);
                assert(names_nodes(sorted@, self.node_map(), texts));
            } else {
                let rest = self.nodes@.dom().difference(texts.to_set());
                vstd::set_lib::lemma_set_difference_len(self.nodes@.dom(), texts.to_set());
                if graph::acyclic(pairs) {
                    if rest.len() == 0 {
                        assert forall|k: Seq<char>| self.nodes@.contains_key(k) implies
                            texts.to_set().contains(k) by {
                            if !texts.to_set().contains(k) {
                                assert(rest.contains(k));
                            }
                        }
                        assert(texts.to_set() =~= self.nodes@.dom());
                    }
                    let s = graph::lemma_source_in(pairs, rest);
                    assert(degree@.contains_key(s));
                    assert(!texts.contains(s));
                    graph::lemma_open_degree_zero(pairs, s, done);
                    let e = choose|e: int|
                        0 <= e < pairs.len() && (#[trigger] pairs[e]).1 == s && !done.contains(
                            pairs[e].0,
                        );
                    assert(self.nodes@.contains_key(self.edges@[e].from@));
                    assert(rest.contains(pairs[e].0));
                }
            }
        }
        if sorted.len() != n {
            return Err(ActantError::Workflow("graph has a cycle".to_owned()));
        }
        Ok(sorted)
    }

    proof fn nodes_bound(&self, texts: Seq<Seq<char>>)
        requires
            self.shaped(),
            texts.no_duplicates(),
            forall|k: Seq<char>| #[trigger] texts.contains(k) ==> self.nodes@.contains_key(k),
        ensures
            texts.len() <= self.node_order().len(),
    {
        texts.unique_seq_to_set();
        assert(texts.to_set().subset_of(self.nodes@.dom()));
        vstd::set_lib::lemma_len_subset(texts.to_set(), self.nodes@.dom());
    }
}

impl Default for Dag {
    fn default() -> (d: Self)
        ensures
            d.wf(),
            d.node_map() == Map::<Seq<char>, DagNode>::empty(),
            d.node_order() == Seq::<Seq<char>>::empty(),
            d.edge_seq() == Seq::<DagEdge>::empty(),
            d.default_retry_policy is None,
            d.failure_strategy == FailureStrategy::FailFast,
    {
        Dag::new()
    }
}

/// `nodes` are the tasks that `ids` names, in order.
pub open spec fn names_nodes(
    nodes: Seq<&DagNode>,
    map: Map<Seq<char>, DagNode>,
    ids: Seq<Seq<char>>,
) -> bool {
    &&& nodes.len() == ids.len()
    &&& forall|i: int|
        0 <= i < ids.len() ==> map.contains_key(#[trigger] ids[i]) && *nodes[i] == map[ids[i]]
}

proof fn lemma_names_push(
    nodes: Seq<&DagNode>,
    map: Map<Seq<char>, DagNode>,
    ids: Seq<Seq<char>>,
    node: &DagNode,
    k: Seq<char>,
)
    requires
        names_nodes(nodes, map, ids),
        map.contains_key(k),
        *node == map[k],
    ensures
        names_nodes(nodes.push(node), map, ids.push(k)),
{
    let nodes_after = nodes.push(node);
    let ids_after = ids.push(k);
    assert forall|i: int| 0 <= i < ids_after.len() implies map.contains_key(
        #[trigger] ids_after[i],
    ) && *nodes_after[i] == map[ids_after[i]] by {
        if i < ids.len() {
            assert(ids_after[i] == ids[i]);
        }
    }
}

/// The conditional edges out of `k`: target and condition of each, in order.
pub open spec fn conditional_from(edges: Seq<DagEdge>, k: Seq<char>) -> Seq<(TaskId, String)>
    decreases edges.len(),
{
    if edges.len() == 0 {
        Seq::empty()
    } else {
        let init = conditional_from(edges.drop_last(), k);
        let e = edges.last();
        if e.from@ == k && e.condition is Some {
            init.push((e.to, e.condition->0))
        } else {
            init
        }
    }
}

/// What adding the edge `from -> to` to `dag` returns: success where both tasks exist and
/// `from` does not already depend on `to`.
pub open spec fn edge_outcome(
    dag: Dag,
    from: Seq<char>,
    to: Seq<char>,
    cycle: Seq<char>,
    r: Result<(), ActantError>,
) -> bool {
    if !dag.node_map().contains_key(from) {
        r matches Err(ActantError::Workflow(m)) && m@ == node_not_found(from)
    } else if !dag.node_map().contains_key(to) {
        r matches Err(ActantError::Workflow(m)) && m@ == node_not_found(to)
    } else if graph::reach(dag.pairs(), to, from) {
        r matches Err(ActantError::Workflow(m)) && m@ == cycle
    } else {
        r is Ok
    }
}

} // verus!
