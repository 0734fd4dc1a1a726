//! The clock of the key-value store.
use vstd::prelude::*;

use crate::runtime::state::hlc;
use crate::runtime::state::hlc::physical_now;

pub use crate::runtime::state::hlc::HlcTimestamp;

verus! {

/// Issues timestamps, and follows those of other nodes.
#[derive(Debug)]
pub struct HybridLogicalClock {
    /// The timestamp issued last.
    pub last: HlcTimestamp,
    /// How far beyond the local physical time a remote timestamp is followed.
    pub max_drift_nanos: u64,
}

/// The greatest of the local physical time, the last wall time and the remote wall time as
/// far as it is followed.
pub open spec fn leading(last: u64, physical: u64, cap: u64) -> u64 {
    hlc::greater(hlc::greater(physical as int, last as int), cap as int) as u64
}

/// The counter that goes with the leading wall time: above the remote counter where the remote
/// time leads, and above the last counter otherwise or where the remote time leads together
/// with a local one.
pub open spec fn next_logical(
    last: HlcTimestamp,
    remote: HlcTimestamp,
    physical: u64,
    drift: u64,
) -> int {
    let cap = hlc::capped(remote.wall_time, physical, drift);
    let wall = leading(last.wall_time, physical, cap);
    if wall == cap && (wall == physical || wall == last.wall_time) {
        hlc::greater(last.logical as int, remote.logical as int) + 1
    } else if wall == cap {
        remote.logical + 1
    } else {
        last.logical + 1
    }
}

/// The timestamp after `last` when `remote` is heard of at physical time `physical`.
pub open spec fn merged(
    last: HlcTimestamp,
    remote: HlcTimestamp,
    physical: u64,
    drift: u64,
) -> HlcTimestamp {
    HlcTimestamp {
        wall_time: leading(
            last.wall_time,
            physical,
            hlc::capped(remote.wall_time, physical, drift),
        ),
        logical: next_logical(last, remote, physical, drift) as u32,
    }
}

impl HybridLogicalClock {
    /// A clock that follows remote timestamps up to half a second ahead.
    pub fn new() -> (c: Self)
        ensures
            c.last == (HlcTimestamp { wall_time: 0, logical: 0 }),
            c.max_drift_nanos == 500_000_000,
    {
        HybridLogicalClock::with_max_drift_ms(500)
    }

    /// A clock that follows remote timestamps up to `max_drift_ms` ahead.
    pub fn with_max_drift_ms(max_drift_ms: u64) -> (c: Self)
        ensures
            c.last == (HlcTimestamp { wall_time: 0, logical: 0 }),
            c.max_drift_nanos == hlc::nanos(max_drift_ms),
    {
        let max_drift_nanos: u64 = match max_drift_ms.checked_mul(1_000_000) {
            Some(n) => n,
            None => u64::MAX,
        };
        HybridLogicalClock { last: HlcTimestamp::zero(), max_drift_nanos }
    }

    /// Issues a timestamp at physical time `physical`.
    pub fn tick_at(&mut self, physical: u64) -> (t: HlcTimestamp)
        requires
            physical > old(self).last.wall_time || old(self).last.logical < u32::MAX,
        ensures
            t == hlc::ticked(old(self).last, physical),
            final(self).last == t,
            final(self).max_drift_nanos == old(self).max_drift_nanos,
            hlc::earlier(old(self).last, t),
    {
        if physical > self.last.wall_time {
            self.last = HlcTimestamp { wall_time: physical, logical: 0 };
        } else {
            self.last.logical += 1;
        }
        self.last
    }

    /// Issues a timestamp.
    pub fn tick(&mut self) -> (t: HlcTimestamp)
        requires
            old(self).last.logical < u32::MAX,
        ensures
            exists|physical: u64| t == #[trigger] hlc::ticked(old(self).last, physical),
            final(self).last == t,
            final(self).max_drift_nanos == old(self).max_drift_nanos,
            hlc::earlier(old(self).last, t),
    {
        let physical: u64 = physical_now();
        self.tick_at(physical)
    }

    /// Issues a timestamp at physical time `physical`, having heard of `remote`.
    pub fn merge_at(&mut self, remote: &HlcTimestamp, physical: u64) -> (t: HlcTimestamp)
        requires
            next_logical(old(self).last, *remote, physical, old(self).max_drift_nanos)
                <= u32::MAX,
        ensures
            t == merged(old(self).last, *remote, physical, old(self).max_drift_nanos),
            final(self).last == t,
            final(self).max_drift_nanos == old(self).max_drift_nanos,
            hlc::earlier(old(self).last, t),
    {
        let cap: u64 = physical.saturating_add(self.max_drift_nanos);
        let capped_wall: u64 = if remote.wall_time > cap {
            cap
        } else {
            remote.wall_time
        };
        let mut wall: u64 = physical;
        if self.last.wall_time > wall {
            wall = self.last.wall_time;
        }
        if capped_wall > wall {
            wall = capped_wall;
        }
        let logical: u32 = if wall == capped_wall && (wall == physical || wall
            == self.last.wall_time) {
            let top: u32 = if self.last.logical >= remote.logical {
                self.last.logical
            } else {
                remote.logical
            };
            top + 1
        } else if wall == capped_wall {
            remote.logical + 1
        } else {
            self.last.logical + 1
        };
        self.last = HlcTimestamp { wall_time: wall, logical };
        self.last
    }

    /// Issues a timestamp, having heard of `remote`.
    pub fn merge(&mut self, remote: &HlcTimestamp) -> (t: HlcTimestamp)
        requires
            old(self).last.logical < u32::MAX,
            remote.logical < u32::MAX,
        ensures
            exists|physical: u64|
                t == #[trigger] merged(
                    old(self).last,
                    *remote,
                    physical,
                    old(self).max_drift_nanos,
                ),
            final(self).last == t,
            final(self).max_drift_nanos == old(self).max_drift_nanos,
            hlc::earlier(old(self).last, t),
    {
        let physical: u64 = physical_now();
        self.merge_at(remote, physical)
    }
}

impl Default for HybridLogicalClock {
    fn default() -> (c: Self)
        ensures
            c.last == (HlcTimestamp { wall_time: 0, logical: 0 }),
            c.max_drift_nanos == 500_000_000,
    {
        HybridLogicalClock::new()
    }
}

/// The wall time never goes back, and a remote timestamp moves it at most `drift` beyond
/// the local physical time.
pub proof fn law_merge_wall_time(
    last: HlcTimestamp,
    remote: HlcTimestamp,
    physical: u64,
    drift: u64,
)
    ensures
        merged(last, remote, physical, drift).wall_time >= last.wall_time,
        merged(last, remote, physical, drift).wall_time >= physical,
        merged(last, remote, physical, drift).wall_time <= hlc::greater(
            last.wall_time as int,
            physical + drift,
        ),
{
}

/// A timestamp issued on hearing of a remote one is strictly later than the one issued
/// before it.
pub proof fn law_merge_is_monotonic(
    last: HlcTimestamp,
    remote: HlcTimestamp,
    physical: u64,
    drift: u64,
)
    requires
        next_logical(last, remote, physical, drift) <= u32::MAX,
    ensures
        hlc::earlier(last, merged(last, remote, physical, drift)),
{
}

} // verus!
