//! What holds of wait points, over what each operation returns, leaves behind and has done.
use vstd::prelude::*;

use crate::common::ActantError;
use crate::runtime::workflow::orchestrator::events;
use crate::runtime::workflow::orchestrator::events::{Effect, EffectView, EventKind};
use crate::runtime::workflow::orchestrator::slot::SlotState;
use crate::runtime::workflow::orchestrator::state::StateView;
use crate::runtime::workflow::orchestrator::waitpoint;
use crate::runtime::workflow::orchestrator::waitpoint::WakeRule;
use crate::runtime::workflow::wait::{WaitCondition, WaitView};

verus! {

/// The workflow has a wait point under `key`.
pub open spec fn has_wait(v: StateView, wf: Seq<char>, key: Seq<char>) -> bool {
    v.waits.contains_key(wf) && v.waits[wf].contains_key(key)
}

/// A signal for the workflow is kept under `key`.
pub open spec fn has_signal(v: StateView, wf: Seq<char>, key: Seq<char>) -> bool {
    v.signals.contains_key(wf) && v.signals[wf].contains_key(key)
}

/// `k` of workflow `w` is, as a wait point and as a signal, in `after` what it was in `before`.
pub open spec fn untouched(before: StateView, after: StateView, w: Seq<char>, k: Seq<char>) -> bool {
    &&& has_wait(after, w, k) == has_wait(before, w, k)
    &&& has_wait(after, w, k) ==> after.waits[w][k] == before.waits[w][k]
    &&& has_signal(after, w, k) == has_signal(before, w, k)
    &&& has_signal(after, w, k) ==> after.signals[w][k] == before.signals[w][k]
}

/// A wait point that is registered in a workflow whose data is here waits under its condition;
/// where a signal was kept for it and it waits for one, it is woken with that signal at once,
/// and the signal is used up. What is registered already goes on as it was. The empty key, and
/// a workflow that is unknown or still loading, are refused.
pub proof fn law_registered_wait_point(
    before: StateView,
    after: StateView,
    wf: Seq<char>,
    key: Seq<char>,
    condition: WaitCondition,
    r: Result<(), ActantError>,
    effects: Seq<Effect>,
    w: Seq<char>,
    k: Seq<char>,
)
    requires
        waitpoint::register_outcome(before, after, wf, key, condition, r, effects),
    ensures
        ({
            let here = before.slots.contains_key(wf) && before.slots[wf].state == SlotState::Ready
                && key.len() > 0;
            &&& r is Ok <==> here
            &&& !here ==> after == before && effects.len() == 0
            &&& here && has_wait(before, wf, key) ==> {
                &&& has_wait(after, wf, key)
                &&& after.waits[wf][key] == before.waits[wf][key]
                &&& effects.len() == 0
            }
            &&& here && !has_wait(before, wf, key) ==> {
                &&& has_wait(after, wf, key)
                &&& after.waits[wf][key].condition == condition
                &&& condition is Signal && has_signal(before, wf, key)
                    ==> after.waits[wf][key].woken == Some(before.signals[wf][key])
                &&& !(condition is Signal && has_signal(before, wf, key))
                    ==> after.waits[wf][key].woken is None
                &&& after.dirty.contains(wf)
                &&& effects.len() == 1
                &&& events::effect_views(effects)[0] == events::appended(
                    wf,
                    EventKind::WaitPointRegistered { wait_key: key, condition },
                )
            }
            &&& here && condition is Signal ==> !has_signal(after, wf, key)
            &&& !(condition is Signal) ==> has_signal(after, wf, key) == has_signal(
                before,
                wf,
                key,
            )
            &&& w != wf || k != key ==> untouched(before, after, w, k)
            &&& after.slots == before.slots
            &&& after.seqs == before.seqs
        }),
{
    assert(events::effect_views(effects).len() == effects.len());
}

/// A signal wakes the wait point that waits for it, once; a signal that no wait point waits for
/// is kept for the one to come. A wait point that waits for a time or for an operator stays
/// asleep, and nothing else changes. A signal is answered with what the wait point was woken
/// with.
pub proof fn law_signal(
    before: StateView,
    after: StateView,
    wf: Seq<char>,
    key: Seq<char>,
    r: Result<Option<Vec<u8>>, ActantError>,
    effects: Seq<Effect>,
    w: Seq<char>,
    k: Seq<char>,
)
    requires
        waitpoint::signal_outcome(before, after, wf, key, r, effects),
    ensures
        ({
            let here = before.slots.contains_key(wf) && key.len() > 0;
            let kept = has_signal(before, wf, key);
            let asleep = has_wait(before, wf, key) && before.waits[wf][key].woken is None;
            let awake = has_wait(before, wf, key) && before.waits[wf][key].woken is Some;
            let meets = asleep && before.waits[wf][key].condition is Signal;
            &&& r is Ok <==> here
            &&& !here || kept || awake ==> after == before && effects.len() == 0
            &&& here && !kept && awake ==> (r matches Ok(Some(p)) && Some(p@)
                == before.waits[wf][key].woken)
            &&& here && !kept && meets ==> {
                &&& has_wait(after, wf, key)
                &&& after.waits[wf][key] == (WaitView {
                    woken: Some(Seq::empty()),
                    ..before.waits[wf][key]
                })
                &&& !has_signal(after, wf, key)
                &&& r matches Ok(Some(p))
                &&& effects.len() == 2
                &&& events::effect_views(effects)[1] == EffectView::Wake(wf, key, Seq::empty())
            }
            &&& here && !kept && !awake && !meets ==> {
                &&& r matches Ok(None)
                &&& has_signal(after, wf, key)
                &&& has_wait(after, wf, key) == has_wait(before, wf, key)
                &&& asleep ==> after.waits[wf][key] == before.waits[wf][key]
                &&& effects.len() == 1
            }
            &&& here && !kept && !awake ==> {
                &&& after.dirty.contains(wf)
                &&& effects.len() > 0
                &&& events::effect_views(effects)[0] == events::appended(
                    wf,
                    EventKind::SignalReceived { wait_key: key, payload: Seq::empty() },
                )
            }
            &&& w != wf || k != key ==> untouched(before, after, w, k)
            &&& after.slots == before.slots
            &&& after.seqs == before.seqs
        }),
{
    assert(events::effect_views(effects).len() == effects.len());
}

proof fn lemma_wakes(rule: WakeRule, woken: Seq<(Seq<char>, Seq<char>)>, i: int)
    requires
        0 <= i < woken.len(),
    ensures
        waitpoint::wake_effects(rule, woken).len() == 2 * woken.len(),
        waitpoint::wake_effects(rule, woken)[2 * i + 1] == EffectView::Wake(
            woken[i].0,
            woken[i].1,
            Seq::empty(),
        ),
        rule is Due ==> waitpoint::wake_effects(rule, woken)[2 * i] == events::appended(
            woken[i].0,
            EventKind::TimerFired { wait_key: woken[i].1 },
        ),
        rule is Suspended ==> waitpoint::wake_effects(rule, woken)[2 * i] == events::appended(
            woken[i].0,
            EventKind::SignalReceived { wait_key: woken[i].1, payload: Seq::empty() },
        ),
    decreases woken.len(),
{
    let init = woken.drop_last();
    if i < init.len() {
        assert(init[i] == woken[i]);
        lemma_wakes(rule, init, i);
    } else if init.len() > 0 {
        lemma_wakes(rule, init, 0);
    }
}

/// A timer wakes when its time has come and not before: at `now`, each one that sleeps and whose
/// deadline is not after `now` is woken, put on record and reported, once; every other wait
/// point, of whatever kind, stays as it is.
pub proof fn law_timers_wake_in_time(
    before: StateView,
    after: StateView,
    now: u64,
    fired: Seq<(Seq<char>, Seq<char>)>,
    effects: Seq<EffectView>,
    wf: Seq<char>,
    k: Seq<char>,
)
    requires
        waitpoint::timers_outcome(before, after, now, fired, effects),
    ensures
        ({
            let ripe = has_wait(before, wf, k) && before.waits[wf][k].woken is None && (
            before.waits[wf][k].condition matches WaitCondition::Timer { deadline_ms }
                && deadline_ms <= now);
            &&& fired.contains((wf, k)) <==> ripe
            &&& has_wait(after, wf, k) == has_wait(before, wf, k)
            &&& ripe ==> {
                &&& after.waits[wf][k] == (WaitView {
                    woken: Some(Seq::empty()),
                    ..before.waits[wf][k]
                })
                &&& after.dirty.contains(wf)
                &&& effects.contains(EffectView::Wake(wf, k, Seq::empty()))
                &&& effects.contains(
                    events::appended(wf, EventKind::TimerFired { wait_key: k }),
                )
            }
            &&& !ripe && has_wait(before, wf, k) ==> after.waits[wf][k] == before.waits[wf][k]
            &&& fired.no_duplicates()
            &&& effects.len() == 2 * fired.len()
            &&& after.slots == before.slots
            &&& after.signals == before.signals
        }),
{
    if fired.contains((wf, k)) {
        let i = fired.index_of((wf, k));
        lemma_wakes(WakeRule::Due(now), fired, i);
        assert(effects[2 * i + 1] == EffectView::Wake(wf, k, Seq::empty()));
        assert(effects[2 * i] == events::appended(wf, EventKind::TimerFired { wait_key: k }));
    }
    if fired.len() > 0 {
        lemma_wakes(WakeRule::Due(now), fired, 0);
    }
}

/// An operator who lets a workflow go on wakes each suspension of it that sleeps, and no other
/// wait point, of this workflow or another; as many are reported as were woken.
pub proof fn law_resuming_wakes_suspensions(
    before: StateView,
    after: StateView,
    wf: Seq<char>,
    count: usize,
    effects: Seq<EffectView>,
    w: Seq<char>,
    k: Seq<char>,
)
    requires
        waitpoint::resume_outcome(before, after, wf, count, effects),
    ensures
        ({
            let held = w == wf && has_wait(before, wf, k) && before.waits[wf][k].woken is None
                && before.waits[wf][k].condition is Suspend;
            &&& has_wait(after, w, k) == has_wait(before, w, k)
            &&& held ==> {
                &&& after.waits[wf][k] == (WaitView {
                    woken: Some(Seq::empty()),
                    ..before.waits[wf][k]
                })
                &&& count > 0
                &&& after.dirty.contains(wf)
                &&& effects.contains(EffectView::Wake(wf, k, Seq::empty()))
            }
            &&& !held && has_wait(before, w, k) ==> after.waits[w][k] == before.waits[w][k]
            &&& effects.len() == 2 * count
            &&& after.slots == before.slots
            &&& after.signals == before.signals
        }),
{
    let keys = choose|keys: Seq<Seq<char>>|
        {
            &&& count == keys.len()
            &&& #[trigger] waitpoint::workflow_swept(before, after, wf, WakeRule::Suspended, keys)
            &&& effects == waitpoint::wake_effects(
                WakeRule::Suspended,
                waitpoint::points_of(wf, keys),
            )
        };
    let points = waitpoint::points_of(wf, keys);
    if points.len() > 0 {
        lemma_wakes(WakeRule::Suspended, points, 0);
    }
    if w == wf && has_wait(before, wf, k) && before.waits[wf][k].woken is None
        && before.waits[wf][k].condition is Suspend {
        assert(keys.contains(k));
        let i = keys.index_of(k);
        lemma_wakes(WakeRule::Suspended, points, i);
        assert(effects[2 * i + 1] == EffectView::Wake(wf, k, Seq::empty()));
    }
}

} // verus!
