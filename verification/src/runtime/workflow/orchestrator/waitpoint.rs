//! Wait points of workflows: registering, signalling, timing out and resuming.
use vstd::prelude::*;
use vstd::string::*;

use crate::common::{ActantError, WorkflowId};
use crate::runtime::workflow::graph;
use crate::runtime::workflow::orchestrator::engine::Orchestrator;
use crate::runtime::workflow::orchestrator::events;
use crate::runtime::workflow::orchestrator::events::{
    push_effect, Effect, EffectView, EventKind, WorkflowEventPayload,
};
use crate::runtime::workflow::orchestrator::slot::SlotState;
use crate::runtime::workflow::orchestrator::state;
use crate::runtime::workflow::orchestrator::state::{not_found_error, OrchestratorState, StateView};
use crate::runtime::workflow::orchestrator::submit;
use crate::runtime::workflow::orchestrator::submit::workflow_message;
use crate::runtime::workflow::wait;
use crate::runtime::workflow::wait::{WaitCondition, WaitPoint, WaitView};
use crate::table::Table;

verus! {

/// The wait points of a workflow; none where it has no table.
pub open spec fn waits_of(v: StateView, wf: Seq<char>) -> Map<Seq<char>, WaitView> {
    if v.waits.contains_key(wf) {
        v.waits[wf]
    } else {
        Map::empty()
    }
}

/// The buffered signals of a workflow; none where it has no table.
pub open spec fn signals_of(v: StateView, wf: Seq<char>) -> Map<Seq<char>, Seq<u8>> {
    if v.signals.contains_key(wf) {
        v.signals[wf]
    } else {
        Map::empty()
    }
}

/// `v` with one wait point of `wf` stored.
pub open spec fn with_wait(v: StateView, wf: Seq<char>, key: Seq<char>, w: WaitView) -> StateView {
    StateView { waits: v.waits.insert(wf, waits_of(v, wf).insert(key, w)), ..v }
}

/// `v` with a signal of `wf` buffered.
pub open spec fn with_signal(
    v: StateView,
    wf: Seq<char>,
    key: Seq<char>,
    payload: Seq<u8>,
) -> StateView {
    StateView { signals: v.signals.insert(wf, signals_of(v, wf).insert(key, payload)), ..v }
}

/// `v` with the buffered signal `key` of `wf` taken out, where the workflow has a buffer.
pub open spec fn without_signal(v: StateView, wf: Seq<char>, key: Seq<char>) -> StateView {
    if v.signals.contains_key(wf) {
        StateView { signals: v.signals.insert(wf, v.signals[wf].remove(key)), ..v }
    } else {
        v
    }
}

/// The signal buffered for `key`, as far as `condition` takes one.
pub open spec fn buffered_for(
    v: StateView,
    wf: Seq<char>,
    key: Seq<char>,
    condition: WaitCondition,
) -> Option<Seq<u8>> {
    if condition is Signal && signals_of(v, wf).contains_key(key) {
        Some(signals_of(v, wf)[key])
    } else {
        None
    }
}

/// `v` once a wait point has been registered: a signal that came early wakes it at once.
/// A wait point that exists stays as it is.
pub open spec fn wait_registered(
    v: StateView,
    wf: Seq<char>,
    key: Seq<char>,
    condition: WaitCondition,
) -> StateView {
    let consumed = if condition is Signal {
        without_signal(v, wf, key)
    } else {
        v
    };
    if waits_of(v, wf).contains_key(key) {
        consumed
    } else {
        with_wait(
            consumed,
            wf,
            key,
            WaitView { condition, woken: buffered_for(v, wf, key, condition) },
        )
    }
}

impl OrchestratorState {
    /// Stores a wait point.
    pub fn store_wait(&mut self, wf: &WorkflowId, key: &String, w: WaitPoint)
        requires
            old(self).wf(),
        ensures
            final(self).wf(),
            final(self)@ == with_wait(old(self)@, wf@, key@, w@),
    {
        let ghost before = self@;
        if !self.waitpoints.contains_key(&wf.0) {
            self.waitpoints.insert(wf.0.clone(), Table::new());
        }
        let ghost table = waits_of(before, wf@);
        assert(state::wait_views(self.waitpoints@[wf@]@) =~= table);
        if let Some(t) = self.waitpoints.get_mut(&wf.0) {
            t.insert(key.clone(), w);
        }
        assert(state::wait_views(self.waitpoints@[wf@]@) =~= table.insert(key@, w@));
        assert(self@.waits =~= before.waits.insert(wf@, table.insert(key@, w@)));
    }

    /// Buffers a signal.
    pub fn buffer(&mut self, wf: &WorkflowId, key: &String, payload: Vec<u8>)
        requires
            old(self).wf(),
        ensures
            final(self).wf(),
            final(self)@ == with_signal(old(self)@, wf@, key@, payload@),
    {
        let ghost before = self@;
        if !self.pending_signals.contains_key(&wf.0) {
            self.pending_signals.insert(wf.0.clone(), Table::new());
        }
        let ghost table = signals_of(before, wf@);
        assert(state::signal_views(self.pending_signals@[wf@]@) =~= table);
        if let Some(t) = self.pending_signals.get_mut(&wf.0) {
            t.insert(key.clone(), payload);
        }
        assert(state::signal_views(self.pending_signals@[wf@]@) =~= table.insert(key@, payload@));
        assert(self@.signals =~= before.signals.insert(wf@, table.insert(key@, payload@)));
    }

    /// Takes a signal out of the buffer.
    pub fn take_signal(&mut self, wf: &WorkflowId, key: &String) -> (p: Option<Vec<u8>>)
        requires
            old(self).wf(),
        ensures
            final(self).wf(),
            final(self)@ == without_signal(old(self)@, wf@, key@),
            match p {
                Some(bytes) => signals_of(old(self)@, wf@).contains_key(key@) && bytes@
                    == signals_of(old(self)@, wf@)[key@],
                None => !signals_of(old(self)@, wf@).contains_key(key@),
            },
    {
        let ghost before = self@;
        match self.pending_signals.get_mut(&wf.0) {
            Some(t) => {
                let p = t.remove(key);
                assert(state::signal_views(t@) =~= before.signals[wf@].remove(key@));
                proof {
                    let raw = *t;
                    assert(state::all_signal_views(
                        old(self).pending_signals@.insert(wf@, raw),
                    ) =~= before.signals.insert(wf@, before.signals[wf@].remove(key@)));
                }
                p
            },
            None => None,
        }
    }

    /// Whether a signal is buffered.
    pub fn has_signal(&self, wf: &WorkflowId, key: &String) -> (b: bool)
        requires
            self.wf(),
        ensures
            b == signals_of(self@, wf@).contains_key(key@),
    {
        match self.pending_signals.get(&wf.0) {
            Some(t) => t.contains_key(key),
            None => false,
        }
    }

    /// A wait point.
    pub fn wait_point(&self, wf: &WorkflowId, key: &String) -> (w: Option<&WaitPoint>)
        requires
            self.wf(),
        ensures
            match w {
                Some(x) => waits_of(self@, wf@).contains_key(key@) && x@ == waits_of(
                    self@,
                    wf@,
                )[key@],
                None => !waits_of(self@, wf@).contains_key(key@),
            },
    {
        match self.waitpoints.get(&wf.0) {
            Some(t) => t.get(key),
            None => None,
        }
    }

    /// Wakes a wait point that exists and still waits.
    pub fn wake_wait(&mut self, wf: &WorkflowId, key: &String, payload: Vec<u8>) -> (woken: bool)
        requires
            old(self).wf(),
        ensures
            final(self).wf(),
            woken == (waits_of(old(self)@, wf@).contains_key(key@) && waits_of(
                old(self)@,
                wf@,
            )[key@].woken is None),
            final(self)@ == (if woken {
                with_wait(
                    old(self)@,
                    wf@,
                    key@,
                    WaitView { woken: Some(payload@), ..waits_of(old(self)@, wf@)[key@] },
                )
            } else {
                old(self)@
            }),
    {
        let ghost before = self@;
        let waiting = match self.wait_point(wf, key) {
            Some(w) => w.is_waiting(),
            None => false,
        };
        if !waiting {
            return false;
        }
        let ghost w = waits_of(before, wf@)[key@];
        let condition = match self.wait_point(wf, key) {
            Some(w) => w.condition.clone(),
            None => WaitCondition::Suspend,
        };
        self.store_wait(wf, key, WaitPoint::woken(condition, payload));
        true
    }

    /// Registers a wait point.
    pub fn register_wait(&mut self, wf: &WorkflowId, key: &String, condition: WaitCondition) -> (
        fresh: bool)
        requires
            old(self).wf(),
        ensures
            final(self).wf(),
            final(self)@ == wait_registered(old(self)@, wf@, key@, condition),
            fresh == !waits_of(old(self)@, wf@).contains_key(key@),
    {
        let is_signal = match &condition {
            WaitCondition::Signal { .. } => true,
            _ => false,
        };
        let buffered = if is_signal {
            self.take_signal(wf, key)
        } else {
            None
        };
        if self.wait_point(wf, key).is_some() {
            return false;
        }
        let w = match buffered {
            Some(payload) => WaitPoint::woken(condition, payload),
            None => WaitPoint::waiting(condition),
        };
        self.store_wait(wf, key, w);
        true
    }
}

/// Which wait points a sweep wakes.
#[derive(Debug, Clone, Copy)]
pub enum WakeRule {
    /// Timers that are due at the given time.
    Due(u64),
    /// Suspensions.
    Suspended,
}

/// The rule applies to a wait point.
pub open spec fn applies(rule: WakeRule, w: WaitView) -> bool {
    match rule {
        WakeRule::Due(now) => wait::due(w, now),
        WakeRule::Suspended => wait::suspended(w),
    }
}

/// The wait point after a sweep.
pub open spec fn swept(rule: WakeRule, w: WaitView) -> WaitView {
    if applies(rule, w) {
        WaitView { woken: Some(Seq::empty()), ..w }
    } else {
        w
    }
}

/// The wait points of a workflow after a sweep.
pub open spec fn table_swept(
    rule: WakeRule,
    table: Map<Seq<char>, WaitView>,
) -> Map<Seq<char>, WaitView> {
    table.map_values(|w: WaitView| swept(rule, w))
}

/// The texts of strings.
pub open spec fn texts(keys: Seq<String>) -> Seq<Seq<char>> {
    Seq::new(keys.len(), |i: int| keys[i]@)
}

/// `woken` lists each wait point that the rule applies to, once.
pub open spec fn lists_woken(
    rule: WakeRule,
    table: Map<Seq<char>, WaitView>,
    woken: Seq<Seq<char>>,
) -> bool {
    &&& woken.no_duplicates()
    &&& forall|k: Seq<char>| #[trigger]
        woken.contains(k) <==> table.contains_key(k) && applies(rule, table[k])
}

/// Wakes the wait points that the rule applies to. Returns their keys.
pub fn sweep(table: &mut Table<WaitPoint>, rule: WakeRule) -> (keys: Vec<String>)
    requires
        old(table).wf(),
    ensures
        final(table).wf(),
        state::wait_views(final(table)@) == table_swept(rule, state::wait_views(old(table)@)),
        lists_woken(rule, state::wait_views(old(table)@), texts(keys@)),
{
    let ghost before = state::wait_views(table@);
    let ghost order = table.order();
    let mut keys: Vec<String> = Vec::new();
    let n: usize = table.len();
    let mut i: usize = 0;
    while i < n
        invariant
            i <= n,
            n == order.len(),
            table.wf(),
            order == table.order(),
            order.no_duplicates(),
            forall|k: Seq<char>| #[trigger] order.contains(k) <==> before.contains_key(k),
            state::wait_views(table@).dom() == before.dom(),
            forall|j: int|
                0 <= j < i ==> state::wait_views(table@)[#[trigger] order[j]] == swept(
                    rule,
                    before[order[j]],
                ),
            forall|j: int|
                i <= j < n ==> state::wait_views(table@)[#[trigger] order[j]] == before[order[j]],
            texts(keys@).no_duplicates(),
            forall|k: Seq<char>| #[trigger]
                texts(keys@).contains(k) <==> order.take(i as int).contains(k) && applies(
                    rule,
                    before[k],
                ),
        decreases n - i,
    {
        let key = table.key_at(i).clone();
        let ghost k = order[i as int];
        let ghost keys_before = keys@;
        let ghost views = state::wait_views(table@);
        assert(order.contains(k));
        let hit = {
            let w = table.value_at(i);
            match rule {
                WakeRule::Due(now) => w.is_due(now),
                WakeRule::Suspended => w.is_suspended(),
            }
        };
        if hit {
            let w = table.value_at_mut(i);
            let empty: Vec<u8> = Vec::new();
            assert(empty@ =~= Seq::empty());
            w.wake(empty);
            keys.push(key);
            assert(texts(keys@) =~= texts(keys_before).push(k));
        }
        proof {
            assert(state::wait_views(table@) =~= views.insert(k, swept(rule, before[k])));
            assert(state::wait_views(table@).dom() =~= before.dom());
            state::lemma_filter_step(order, i as int, texts(keys_before), texts(keys@), hit);
        }
        i += 1;
    }
    proof {
        assert(order.take(i as int) =~= order);
        assert forall|k: Seq<char>| before.contains_key(k) implies #[trigger] state::wait_views(
            table@,
        )[k] == table_swept(rule, before)[k] by {
            assert(order.contains(k));
            assert(order[order.index_of(k)] == k);
        }
        assert(state::wait_views(table@) =~= table_swept(rule, before));
    }
    keys
}

/// The names of wait points: the workflow and the key.
pub open spec fn names(points: Seq<(WorkflowId, String)>) -> Seq<(Seq<char>, Seq<char>)> {
    Seq::new(points.len(), |i: int| (points[i].0@, points[i].1@))
}

/// What has to be done for each wait point that was woken.
pub open spec fn wake_effects(rule: WakeRule, woken: Seq<(Seq<char>, Seq<char>)>) -> Seq<EffectView>
    decreases woken.len(),
{
    if woken.len() == 0 {
        Seq::empty()
    } else {
        let (wf, k) = woken.last();
        wake_effects(rule, woken.drop_last()).push(
            events::appended(
                wf,
                match rule {
                    WakeRule::Due(_) => EventKind::TimerFired { wait_key: k },
                    WakeRule::Suspended => EventKind::SignalReceived {
                        wait_key: k,
                        payload: Seq::empty(),
                    },
                },
            ),
        ).push(EffectView::Wake(wf, k, Seq::empty()))
    }
}

/// What has to be done for each wait point that was woken.
fn wakes(rule: WakeRule, woken: &Vec<(WorkflowId, String)>) -> (effects: Vec<Effect>)
    ensures
        events::effect_views(effects@) == wake_effects(rule, names(woken@)),
{
    let mut effects: Vec<Effect> = Vec::new();
    let ghost all = names(woken@);
    let mut i: usize = 0;
    assert(events::effect_views(effects@) =~= wake_effects(rule, all.take(0)));
    while i < woken.len()
        invariant
            i <= woken@.len(),
            all == names(woken@),
            events::effect_views(effects@) == wake_effects(rule, all.take(i as int)),
        decreases woken@.len() - i,
    {
        let wf = &woken[i].0;
        let key = &woken[i].1;
        let empty: Vec<u8> = Vec::new();
        let also: Vec<u8> = Vec::new();
        proof {
            assert(empty@ =~= Seq::<u8>::empty());
            assert(also@ =~= Seq::<u8>::empty());
            assert(all.take(i + 1).drop_last() =~= all.take(i as int));
            assert(all.take(i + 1).last() == (wf@, key@));
        }
        let e = match rule {
            WakeRule::Due(_) => WorkflowEventPayload::TimerFired {
                workflow_id: wf.clone(),
                wait_key: key.clone(),
            },
            WakeRule::Suspended => WorkflowEventPayload::SignalReceived {
                workflow_id: wf.clone(),
                wait_key: key.clone(),
                payload: empty,
            },
        };
        push_effect(&mut effects, Effect::Append(e));
        push_effect(&mut effects, Effect::Wake(wf.clone(), key.clone(), also));
        assert(events::effect_views(effects@) =~= wake_effects(rule, all.take(i + 1)));
        i += 1;
    }
    assert(all.take(i as int) =~= all);
    effects
}

/// Adds the keys of one workflow to a listing of wait points.
fn add_points(points: &mut Vec<(WorkflowId, String)>, wf: &WorkflowId, keys: &Vec<String>)
    ensures
        names(final(points)@) == names(old(points)@) + points_of(wf@, texts(keys@)),
{
    let ghost base = names(points@);
    let mut i: usize = 0;
    assert(base =~= base + points_of(wf@, texts(keys@)).take(0));
    while i < keys.len()
        invariant
            i <= keys@.len(),
            names(points@) == base + points_of(wf@, texts(keys@)).take(i as int),
        decreases keys@.len() - i,
    {
        let ghost before = points@;
        points.push((wf.clone(), keys[i].clone()));
        assert(names(points@) =~= names(before).push((wf@, keys@[i as int]@)));
        assert(names(points@) =~= base + points_of(wf@, texts(keys@)).take(i + 1));
        i += 1;
    }
    assert(points_of(wf@, texts(keys@)).take(i as int) =~= points_of(wf@, texts(keys@)));
}

/// The wait points of one workflow with the given keys.
pub open spec fn points_of(wf: Seq<char>, keys: Seq<Seq<char>>) -> Seq<(Seq<char>, Seq<char>)> {
    Seq::new(keys.len(), |i: int| (wf, keys[i]))
}

/// `fired` lists each wait point of the workflows in `ids` that the rule applies to, once.
pub open spec fn lists_fired(
    rule: WakeRule,
    waits: Map<Seq<char>, Map<Seq<char>, WaitView>>,
    ids: Set<Seq<char>>,
    fired: Seq<(Seq<char>, Seq<char>)>,
) -> bool {
    &&& fired.no_duplicates()
    &&& forall|wf: Seq<char>, k: Seq<char>| #[trigger]
        fired.contains((wf, k)) <==> ids.contains(wf) && waits[wf].contains_key(k) && applies(
            rule,
            waits[wf][k],
        )
}

/// `v` with the wait points of the workflows in `ids` swept. Those with a wait point that
/// was woken are to be stored.
pub open spec fn swept_over(v: StateView, rule: WakeRule, ids: Set<Seq<char>>) -> StateView {
    StateView {
        waits: Map::new(
            |wf: Seq<char>| v.waits.contains_key(wf),
            |wf: Seq<char>|
                if ids.contains(wf) {
                    table_swept(rule, v.waits[wf])
                } else {
                    v.waits[wf]
                },
        ),
        dirty: Set::new(
            |wf: Seq<char>|
                v.dirty.contains(wf) || (ids.contains(wf) && any_applies(rule, v.waits[wf])),
        ),
        ..v
    }
}

/// The rule applies to some wait point of the table.
pub open spec fn any_applies(rule: WakeRule, table: Map<Seq<char>, WaitView>) -> bool {
    exists|k: Seq<char>| #[trigger] table.contains_key(k) && applies(rule, table[k])
}

/// The error for an empty key.
pub open spec fn empty_key(e: ActantError) -> bool {
    e matches ActantError::Config(m) && m@ == "wait_key must not be empty"@
}

impl Orchestrator {
    /// Registers a wait point. Registering it again changes nothing.
    pub fn register_wait_point(
        &mut self,
        workflow_id: &WorkflowId,
        wait_key: &String,
        condition: WaitCondition,
    ) -> (r: (Result<(), ActantError>, Vec<Effect>))
        requires
            old(self).wf(),
        ensures
            final(self).wf(),
            final(self).same_settings(old(self)),
            register_outcome(
                old(self).state@,
                final(self).state@,
                workflow_id@,
                wait_key@,
                condition,
                r.0,
                r.1@,
            ),
    {
        let mut effects: Vec<Effect> = Vec::new();
        assert(events::effect_views(effects@) =~= Seq::empty());
        if wait_key.as_str().is_empty() {
            return (Err(ActantError::Config("wait_key must not be empty".to_owned())), effects);
        }
        let loading = match self.state.slot(workflow_id) {
            Some(slot) => slot.state == SlotState::Loading,
            None => {
                return (Err(not_found_error(workflow_id)), effects);
            },
        };
        if loading {
            return (
                Err(
                    ActantError::InvalidState(
                        workflow_message(
                            workflow_id,
                            " is still loading (placeholder), cannot register wait point",
                        ),
                    ),
                ),
                effects,
            );
        }
        let recorded = condition.clone();
        if self.state.register_wait(workflow_id, wait_key, condition) {
            push_effect(
                &mut effects,
                Effect::Append(
                    WorkflowEventPayload::WaitPointRegistered {
                        workflow_id: workflow_id.clone(),
                        wait_key: wait_key.clone(),
                        condition: recorded,
                    },
                ),
            );
            self.state.mark_dirty(workflow_id);
            assert(events::effect_views(effects@) =~= seq![
                events::appended(
                    workflow_id@,
                    EventKind::WaitPointRegistered { wait_key: wait_key@, condition },
                ),
            ]);
        }
        (Ok(()), effects)
    }

    /// Signals a wait point that waits for a signal. A signal without such a wait point is
    /// kept until there is one; until then, repeating it changes nothing. A wait point that
    /// waits for a time or for an operator is not met by a signal. Every signal that is taken
    /// is put on record, once. A record does not tell a signal from an operator's order to go
    /// on: where one is waited for, replaying the history takes it for the order.
    pub fn signal_wait_point(&mut self, workflow_id: &WorkflowId, wait_key: &String) -> (r: (
        Result<Option<Vec<u8>>, ActantError>,
        Vec<Effect>,
    ))
        requires
            old(self).wf(),
        ensures
            final(self).wf(),
            final(self).same_settings(old(self)),
            final(self).state@ == (if wait_key@.len() > 0 && old(self).state@.slots.contains_key(
                workflow_id@,
            ) {
                signalled(old(self).state@, workflow_id@, wait_key@)
            } else {
                old(self).state@
            }),
            signal_outcome(
                old(self).state@,
                final(self).state@,
                workflow_id@,
                wait_key@,
                r.0,
                r.1@,
            ),
    {
        let mut effects: Vec<Effect> = Vec::new();
        if wait_key.as_str().is_empty() {
            return (Err(ActantError::Config("wait_key must not be empty".to_owned())), effects);
        }
        if !self.state.contains_workflow(workflow_id) {
            return (Err(not_found_error(workflow_id)), effects);
        }
        if self.state.has_signal(workflow_id, wait_key) {
            return (Ok(None), effects);
        }
        let met = match self.state.wait_point(workflow_id, wait_key) {
            Some(w) => match w.payload() {
                Some(p) => {
                    return (Ok(Some(p)), effects);
                },
                None => match w.condition {
                    WaitCondition::Signal { .. } => true,
                    WaitCondition::Timer { .. } => false,
                    WaitCondition::Suspend => false,
                },
            },
            None => false,
        };
        let empty: Vec<u8> = Vec::new();
        let first: Vec<u8> = Vec::new();
        let second: Vec<u8> = Vec::new();
        proof {
            assert(empty@ =~= Seq::empty());
            assert(first@ =~= Seq::empty());
            assert(second@ =~= Seq::empty());
        }
        assert(events::effect_views(effects@) =~= Seq::empty());
        push_effect(
            &mut effects,
            Effect::Append(
                WorkflowEventPayload::SignalReceived {
                    workflow_id: workflow_id.clone(),
                    wait_key: wait_key.clone(),
                    payload: first,
                },
            ),
        );
        let ghost received = events::appended(
            workflow_id@,
            EventKind::SignalReceived { wait_key: wait_key@, payload: Seq::empty() },
        );
        assert(events::effect_views(effects@) =~= seq![received]);
        if met {
            self.state.wake_wait(workflow_id, wait_key, empty);
            self.state.mark_dirty(workflow_id);
            push_effect(
                &mut effects,
                Effect::Wake(workflow_id.clone(), wait_key.clone(), second),
            );
            assert(events::effect_views(effects@) =~= seq![
                received,
                EffectView::Wake(workflow_id@, wait_key@, Seq::empty()),
            ]);
            (Ok(Some(Vec::new())), effects)
        } else {
            self.state.buffer(workflow_id, wait_key, empty);
            self.state.mark_dirty(workflow_id);
            (Ok(None), effects)
        }
    }

    /// What a wait point was woken with.
    pub fn wait_payload(&self, workflow_id: &WorkflowId, wait_key: &String) -> (p: Option<Vec<u8>>)
        requires
            self.wf(),
        ensures
            match p {
                Some(bytes) => waits_of(self.state@, workflow_id@).contains_key(wait_key@)
                    && waits_of(self.state@, workflow_id@)[wait_key@].woken == Some(bytes@),
                None => waits_of(self.state@, workflow_id@).contains_key(wait_key@) ==> waits_of(
                    self.state@,
                    workflow_id@,
                )[wait_key@].woken is None,
            },
    {
        match self.state.wait_point(workflow_id, wait_key) {
            Some(w) => w.payload(),
            None => None,
        }
    }

    /// Sweeps the wait points of one workflow. Returns the keys of those that were woken.
    fn sweep_workflow(&mut self, workflow_id: &WorkflowId, rule: WakeRule) -> (keys: Vec<String>)
        requires
            old(self).wf(),
        ensures
            final(self).wf(),
            final(self).same_settings(old(self)),
            workflow_swept(
                old(self).state@,
                final(self).state@,
                workflow_id@,
                rule,
                texts(keys@),
            ),
    {
        let ghost before = self.state@;
        let ghost wf = workflow_id@;
        let mut keys: Vec<String> = Vec::new();
        assert(texts(keys@) =~= Seq::empty());
        if let Some(table) = self.state.waitpoints.get_mut(&workflow_id.0) {
            keys = sweep(table, rule);
            proof {
                let raw = *table;
                assert(state::all_wait_views(
                    old(self).state.waitpoints@.insert(wf, raw),
                ) =~= before.waits.insert(wf, table_swept(rule, before.waits[wf])));
            }
        }
        if keys.len() > 0 {
            self.state.mark_dirty(workflow_id);
        }
        assert(self.state@ =~= StateView {
            waits: self.state@.waits,
            dirty: self.state@.dirty,
            ..before
        });
        keys
    }

    /// Lets a suspended workflow go on. Returns how many suspensions ended.
    pub fn resume_suspended(&mut self, workflow_id: &WorkflowId) -> (r: (usize, Vec<Effect>))
        requires
            old(self).wf(),
        ensures
            final(self).wf(),
            final(self).same_settings(old(self)),
            resume_outcome(
                old(self).state@,
                final(self).state@,
                workflow_id@,
                r.0,
                events::effect_views(r.1@),
            ),
    {
        let keys = self.sweep_workflow(workflow_id, WakeRule::Suspended);
        let mut points: Vec<(WorkflowId, String)> = Vec::new();
        add_points(&mut points, workflow_id, &keys);
        assert(names(points@) =~= points_of(workflow_id@, texts(keys@)));
        (keys.len(), wakes(WakeRule::Suspended, &points))
    }

    /// The workflows that have a table of wait points.
    fn waiting_workflows(&self) -> (ids: Vec<WorkflowId>)
        requires
            self.wf(),
        ensures
            state::workflow_texts(ids@).no_duplicates(),
            state::workflow_texts(ids@).to_set() == self.state@.waits.dom(),
    {
        let mut ids: Vec<WorkflowId> = Vec::new();
        let n: usize = self.state.waitpoints.len();
        let ghost order = self.state.waitpoints.order();
        let mut i: usize = 0;
        while i < n
            invariant
                i <= n,
                n == order.len(),
                self.wf(),
                order == self.state.waitpoints.order(),
                state::workflow_texts(ids@) == order.take(i as int),
            decreases n - i,
        {
            let k = self.state.waitpoints.key_at(i);
            let ghost before = ids@;
            ids.push(WorkflowId(k.clone()));
            assert(state::workflow_texts(ids@) =~= state::workflow_texts(before).push(k@));
            assert(order.take(i + 1) =~= order.take(i as int).push(k@));
            i += 1;
        }
        assert(order.take(i as int) =~= order);
        assert(state::workflow_texts(ids@).to_set() =~= self.state@.waits.dom());
        ids
    }

    /// Wakes every timer that is due at `now`. Returns the wait points that were woken.
    pub fn poll_expired_timers(&mut self, now: u64) -> (r: (Vec<(WorkflowId, String)>, Vec<Effect>))
        requires
            old(self).wf(),
        ensures
            final(self).wf(),
            final(self).same_settings(old(self)),
            timers_outcome(
                old(self).state@,
                final(self).state@,
                now,
                names(r.0@),
                events::effect_views(r.1@),
            ),
    {
        let rule = WakeRule::Due(now);
        let ghost before = self.state@;
        let ids = self.waiting_workflows();
        let ghost order = state::workflow_texts(ids@);
        let mut fired: Vec<(WorkflowId, String)> = Vec::new();
        let mut i: usize = 0;
        proof {
            assert(order.take(0).to_set() =~= Set::empty());
            assert(self.state@ =~= swept_over(before, rule, order.take(0).to_set()));
        }
        while i < ids.len()
            invariant
                i <= ids@.len(),
                self.wf(),
                self.same_settings(old(self)),
                order == state::workflow_texts(ids@),
                order.no_duplicates(),
                order.to_set() == before.waits.dom(),
                self.state@ == swept_over(before, rule, order.take(i as int).to_set()),
                lists_fired(rule, before.waits, order.take(i as int).to_set(), names(fired@)),
            decreases ids@.len() - i,
        {
            let ghost done = order.take(i as int).to_set();
            let ghost wf = order[i as int];
            let ghost at = self.state@;
            let ghost fired_before = names(fired@);
            let keys = self.sweep_workflow(&ids[i], rule);
            add_points(&mut fired, &ids[i], &keys);
            proof {
                assert(order.contains(wf));
                assert(before.waits.dom().contains(wf));
                assert(order.take(i + 1).to_set() =~= done.insert(wf)) by {
                    assert(order.take(i + 1) =~= order.take(i as int).push(wf));
                    graph::lemma_to_set_push(order.take(i as int), wf);
                }
                assert(!done.contains(wf));
                lemma_fired(rule, before.waits, done, wf, fired_before, texts(keys@));
                assert(texts(keys@).len() > 0 <==> any_applies(rule, before.waits[wf])) by {
                    if texts(keys@).len() > 0 {
                        assert(texts(keys@).contains(texts(keys@)[0]));
                    }
                    if any_applies(rule, before.waits[wf]) {
                        let k = choose|k: Seq<char>| #[trigger]
                            before.waits[wf].contains_key(k) && applies(rule, before.waits[wf][k]);
                        assert(texts(keys@).contains(k));
                    }
                }
                assert(self.state@ =~= swept_over(before, rule, done.insert(wf)));
            }
            i += 1;
        }
        proof {
            assert(order.take(i as int) =~= order);
        }
        let effects = wakes(rule, &fired);
        (fired, effects)
    }
}

/// Listing the wait points of one more workflow.
proof fn lemma_fired(
    rule: WakeRule,
    waits: Map<Seq<char>, Map<Seq<char>, WaitView>>,
    ids: Set<Seq<char>>,
    wf: Seq<char>,
    fired: Seq<(Seq<char>, Seq<char>)>,
    keys: Seq<Seq<char>>,
)
    requires
        lists_fired(rule, waits, ids, fired),
        !ids.contains(wf),
        lists_woken(rule, waits[wf], keys),
    ensures
        lists_fired(rule, waits, ids.insert(wf), fired + points_of(wf, keys)),
{
    let more = points_of(wf, keys);
    let all = fired + more;
    assert forall|i: int, j: int| 0 <= i < all.len() && 0 <= j < all.len() && i != j implies all[i]
        != all[j] by {
        if i < fired.len() {
            assert(fired.contains((fired[i].0, fired[i].1)));
        }
        if j < fired.len() {
            assert(fired.contains((fired[j].0, fired[j].1)));
        }
    }
    assert forall|w: Seq<char>, k: Seq<char>| #[trigger] all.contains((w, k)) <==> ids.insert(
        wf,
    ).contains(w) && waits[w].contains_key(k) && applies(rule, waits[w][k]) by {
        if fired.contains((w, k)) {
            let i = fired.index_of((w, k));
            assert(all[i] == (w, k));
        }
        if w == wf && keys.contains(k) {
            let i = keys.index_of(k);
            assert(all[fired.len() + i] == (w, k));
        }
        if all.contains((w, k)) {
            let i = all.index_of((w, k));
            if i >= fired.len() {
                assert(keys[i - fired.len()] == k);
                assert(keys.contains(k));
            }
        }
    }
}

/// `after` is `before` with the wait points of `wf` swept; `woken` lists those that were
/// woken, and the workflow is to be stored where there are any.
pub open spec fn workflow_swept(
    before: StateView,
    after: StateView,
    wf: Seq<char>,
    rule: WakeRule,
    woken: Seq<Seq<char>>,
) -> bool {
    &&& lists_woken(rule, waits_of(before, wf), woken)
    &&& after == StateView {
        waits: if before.waits.contains_key(wf) {
            before.waits.insert(wf, table_swept(rule, before.waits[wf]))
        } else {
            before.waits
        },
        dirty: if woken.len() > 0 {
            before.dirty.insert(wf)
        } else {
            before.dirty
        },
        ..before
    }
}

/// `v` once `key` of the known workflow `wf` has been signalled: a wait point that waits for a
/// signal is woken; a signal that meets none is kept, once.
pub open spec fn signalled(v: StateView, wf: Seq<char>, key: Seq<char>) -> StateView {
    let waits = waits_of(v, wf);
    if signals_of(v, wf).contains_key(key) || (waits.contains_key(key) && waits[key].woken is Some) {
        v
    } else if waits.contains_key(key) && waits[key].condition is Signal {
        state::with_dirty(
            with_wait(v, wf, key, WaitView { woken: Some(Seq::empty()), ..waits[key] }),
            wf,
        )
    } else {
        state::with_dirty(with_signal(v, wf, key, Seq::empty()), wf)
    }
}

/// What registering a wait point returns, leaves behind and has done.
pub open spec fn register_outcome(
    before: StateView,
    after: StateView,
    wf: Seq<char>,
    key: Seq<char>,
    condition: WaitCondition,
    r: Result<(), ActantError>,
    effects: Seq<Effect>,
) -> bool {
    if key.len() == 0 {
        &&& r matches Err(e)
        &&& empty_key(e)
        &&& after == before
        &&& effects.len() == 0
    } else if !before.slots.contains_key(wf) {
        &&& r matches Err(e)
        &&& state::not_found(wf, e)
        &&& after == before
        &&& effects.len() == 0
    } else if before.slots[wf].state == SlotState::Loading {
        &&& r matches Err(ActantError::InvalidState(m))
        &&& m@ == submit::about_workflow(
            wf,
            " is still loading (placeholder), cannot register wait point"@,
        )
        &&& after == before
        &&& effects.len() == 0
    } else {
        let fresh = !waits_of(before, wf).contains_key(key);
        let registered = wait_registered(before, wf, key, condition);
        &&& r is Ok
        &&& after == if fresh {
            state::with_dirty(registered, wf)
        } else {
            registered
        }
        &&& events::effect_views(effects) == if fresh {
            seq![
                events::appended(
                    wf,
                    EventKind::WaitPointRegistered { wait_key: key, condition },
                ),
            ]
        } else {
            Seq::empty()
        }
    }
}

/// What signalling a wait point returns, leaves behind and has done.
pub open spec fn signal_outcome(
    before: StateView,
    after: StateView,
    wf: Seq<char>,
    key: Seq<char>,
    r: Result<Option<Vec<u8>>, ActantError>,
    effects: Seq<Effect>,
) -> bool {
    let received = events::appended(
        wf,
        EventKind::SignalReceived { wait_key: key, payload: Seq::empty() },
    );
    if key.len() == 0 {
        &&& r matches Err(e)
        &&& empty_key(e)
        &&& after == before
        &&& effects.len() == 0
    } else if !before.slots.contains_key(wf) {
        &&& r matches Err(e)
        &&& state::not_found(wf, e)
        &&& after == before
        &&& effects.len() == 0
    } else if signals_of(before, wf).contains_key(key) {
        r matches Ok(None) && after == before && effects.len() == 0
    } else if waits_of(before, wf).contains_key(key) && waits_of(
        before,
        wf,
    )[key].woken is Some {
        &&& r matches Ok(Some(p))
        &&& p@ == waits_of(before, wf)[key].woken->0
        &&& after == before
        &&& effects.len() == 0
    } else if !(waits_of(before, wf).contains_key(key) && waits_of(
        before,
        wf,
    )[key].condition is Signal) {
        &&& r matches Ok(None)
        &&& after == state::with_dirty(
            with_signal(before, wf, key, Seq::empty()),
            wf,
        )
        &&& events::effect_views(effects) == seq![received]
    } else {
        &&& r matches Ok(Some(p))
        &&& p@.len() == 0
        &&& after == state::with_dirty(
            with_wait(
                before,
                wf,
                key,
                WaitView { woken: Some(Seq::empty()), ..waits_of(before, wf)[key] },
            ),
            wf,
        )
        &&& events::effect_views(effects) == seq![
            received,
            EffectView::Wake(wf, key, Seq::empty()),
        ]
    }
}

/// What letting a suspended workflow go on returns, leaves behind and has done.
pub open spec fn resume_outcome(
    before: StateView,
    after: StateView,
    wf: Seq<char>,
    count: usize,
    effects: Seq<EffectView>,
) -> bool {
    exists|keys: Seq<Seq<char>>|
        {
            &&& count == keys.len()
            &&& #[trigger] workflow_swept(before, after, wf, WakeRule::Suspended, keys)
            &&& effects == wake_effects(WakeRule::Suspended, points_of(wf, keys))
        }
}

/// What waking the timers that are due at `now` returns, leaves behind and has done.
pub open spec fn timers_outcome(
    before: StateView,
    after: StateView,
    now: u64,
    fired: Seq<(Seq<char>, Seq<char>)>,
    effects: Seq<EffectView>,
) -> bool {
    &&& after == swept_over(before, WakeRule::Due(now), before.waits.dom())
    &&& lists_fired(WakeRule::Due(now), before.waits, before.waits.dom(), fired)
    &&& effects == wake_effects(WakeRule::Due(now), fired)
}

/// A signal wakes no wait point but the one it names, and that only where it waits for a
/// signal: one that waits for a time or for an operator goes on waiting.
pub proof fn law_signal_meets_signals_only(
    v: StateView,
    wf: Seq<char>,
    key: Seq<char>,
    k: Seq<char>,
)
    requires
        waits_of(v, wf).contains_key(k),
    ensures
        waits_of(signalled(v, wf, key), wf).contains_key(k),
        k != key || !(waits_of(v, wf)[k].condition is Signal) ==> waits_of(
            signalled(v, wf, key),
            wf,
        )[k] == waits_of(v, wf)[k],
{
}

/// After a sweep nothing is left to wake: sweeping again finds nothing.
pub proof fn law_sweep_idempotent(rule: WakeRule, table: Map<Seq<char>, WaitView>)
    ensures
        table_swept(rule, table_swept(rule, table)) == table_swept(rule, table),
        lists_woken(rule, table_swept(rule, table), Seq::empty()),
{
    assert(table_swept(rule, table_swept(rule, table)) =~= table_swept(rule, table));
}

/// A signal that comes before its wait point is registered wakes it all the same: both
/// orders leave the wait point woken, and no signal in the buffer.
pub proof fn law_early_signal_not_lost(
    v: StateView,
    wf: Seq<char>,
    key: Seq<char>,
    condition: WaitCondition,
)
    requires
        condition is Signal,
        !waits_of(v, wf).contains_key(key),
    ensures
        ({
            let early = wait_registered(
                with_signal(v, wf, key, Seq::empty()),
                wf,
                key,
                condition,
            );
            &&& waits_of(early, wf).contains_key(key)
            &&& waits_of(early, wf)[key].woken == Some(Seq::<u8>::empty())
            &&& !signals_of(early, wf).contains_key(key)
        }),
{
}

/// Registering a wait point again changes nothing.
pub proof fn law_registration_idempotent(
    v: StateView,
    wf: Seq<char>,
    key: Seq<char>,
    condition: WaitCondition,
)
    ensures
        ({
            let once = wait_registered(v, wf, key, condition);
            wait_registered(once, wf, key, condition) == once
        }),
{
    let once = wait_registered(v, wf, key, condition);
    let twice = wait_registered(once, wf, key, condition);
    assert(waits_of(once, wf).contains_key(key));
    if condition is Signal && v.signals.contains_key(wf) {
        assert(v.signals[wf].remove(key).remove(key) =~= v.signals[wf].remove(key));
        assert(twice.signals =~= once.signals);
    }
}

} // verus!
