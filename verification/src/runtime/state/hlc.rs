//! Hybrid logical clocks.
use std::cmp::Ordering;
use vstd::prelude::*;

verus! {

/// A point in hybrid time: physical nanoseconds, and a counter that orders events within
/// one nanosecond.
#[derive(Debug, Clone, Copy, PartialEq, Eq, Ord, Structural)]
pub struct HlcTimestamp {
    pub wall_time: u64,
    pub logical: u32,
}

/// `a` is strictly earlier than `b`: wall time decides, the counter breaks ties.
pub open spec fn earlier(a: HlcTimestamp, b: HlcTimestamp) -> bool {
    a.wall_time < b.wall_time || (a.wall_time == b.wall_time && a.logical < b.logical)
}

impl HlcTimestamp {
    /// The least timestamp.
    pub fn zero() -> (t: Self)
        ensures
            t == (HlcTimestamp { wall_time: 0, logical: 0 }),
    {
        HlcTimestamp { wall_time: 0, logical: 0 }
    }

    /// The physical part, in nanoseconds.
    pub fn wall_time(&self) -> (w: u64)
        ensures
            w == self.wall_time,
    {
        self.wall_time
    }

    /// The counter.
    pub fn logical(&self) -> (l: u32)
        ensures
            l == self.logical,
    {
        self.logical
    }

    /// The timestamp with the given parts.
    pub fn from_parts(wall_time: u64, logical: u32) -> (t: Self)
        ensures
            t == (HlcTimestamp { wall_time, logical }),
    {
        HlcTimestamp { wall_time, logical }
    }

    /// Whether `self` is strictly earlier than `other`.
    pub fn is_before(&self, other: &HlcTimestamp) -> (b: bool)
        ensures
            b == earlier(*self, *other),
    {
        self.wall_time < other.wall_time || (self.wall_time == other.wall_time && self.logical
            < other.logical)
    }
}

impl PartialOrd for HlcTimestamp {
    fn partial_cmp(&self, other: &Self) -> (r: Option<Ordering>) {
        if self.wall_time < other.wall_time {
            Some(Ordering::Less)
        } else if self.wall_time > other.wall_time {
            Some(Ordering::Greater)
        } else if self.logical < other.logical {
            Some(Ordering::Less)
        } else if self.logical > other.logical {
            Some(Ordering::Greater)
        } else {
            Some(Ordering::Equal)
        }
    }
}

impl vstd::std_specs::cmp::PartialOrdSpecImpl for HlcTimestamp {
    open spec fn obeys_partial_cmp_spec() -> bool {
        true
    }

    open spec fn partial_cmp_spec(&self, other: &Self) -> Option<Ordering> {
        if earlier(*self, *other) {
            Some(Ordering::Less)
        } else if earlier(*other, *self) {
            Some(Ordering::Greater)
        } else {
            Some(Ordering::Equal)
        }
    }
}

/// Timestamps are totally ordered: of two different ones exactly one is earlier, and
/// "earlier" is transitive.
pub proof fn law_timestamps_totally_ordered(a: HlcTimestamp, b: HlcTimestamp, c: HlcTimestamp)
    ensures
        !earlier(a, a),
        earlier(a, b) ==> !earlier(b, a),
        a == b || earlier(a, b) || earlier(b, a),
        earlier(a, b) && earlier(b, c) ==> earlier(a, c),
{
}

/// No timestamp is earlier than zero.
pub proof fn law_zero_is_least(a: HlcTimestamp)
    ensures
        !earlier(a, HlcTimestamp { wall_time: 0, logical: 0 }),
{
}

/// The bytes that `rkyv::to_bytes` gives for a pair of a wall time and a counter.
pub uninterp spec fn rkyv_pair_bytes(wall_time: u64, logical: u32) -> Option<Seq<u8>>;

/// The pair that `rkyv::from_bytes` reads from bytes.
pub uninterp spec fn rkyv_pair_value(bytes: Seq<u8>) -> Option<(u64, u32)>;

/// `rkyv::to_bytes` on the pair. What it writes, `rkyv::from_bytes` reads back.
#[verifier::external_body]
fn rkyv_encode_pair(wall_time: u64, logical: u32) -> (r: Option<Vec<u8>>)
    ensures
        match r {
            Some(bytes) => rkyv_pair_bytes(wall_time, logical) == Some(bytes@) && rkyv_pair_value(
                bytes@,
            ) == Some((wall_time, logical)),
            None => rkyv_pair_bytes(wall_time, logical) is None,
        },
{
    rkyv::to_bytes::<rkyv::rancor::Error>(&(wall_time, logical)).ok().map(|b| b.to_vec())
}

/// `rkyv::from_bytes` on a copy of the bytes that is aligned as it demands.
#[verifier::external_body]
fn rkyv_decode_pair(bytes: &Vec<u8>) -> (r: Option<(u64, u32)>)
    ensures
        r == rkyv_pair_value(bytes@),
{
    let mut aligned = rkyv::util::AlignedVec::<16>::new();
    aligned.extend_from_slice(bytes);
    rkyv::from_bytes::<(u64, u32), rkyv::rancor::Error>(&aligned).ok()
}

impl HlcTimestamp {
    /// The timestamp as archived bytes.
    pub fn to_archived(&self) -> (r: Option<Vec<u8>>)
        ensures
            match r {
                Some(bytes) => rkyv_pair_bytes(self.wall_time, self.logical) == Some(bytes@)
                    && rkyv_pair_value(bytes@) == Some((self.wall_time, self.logical)),
                None => rkyv_pair_bytes(self.wall_time, self.logical) is None,
            },
    {
        rkyv_encode_pair(self.wall_time, self.logical)
    }

    /// The timestamp held by archived bytes.
    pub fn from_archived(bytes: &Vec<u8>) -> (r: Option<HlcTimestamp>)
        ensures
            match rkyv_pair_value(bytes@) {
                Some(p) => r == Some(HlcTimestamp { wall_time: p.0, logical: p.1 }),
                None => r is None,
            },
    {
        match rkyv_decode_pair(bytes) {
            Some((wall_time, logical)) => Some(HlcTimestamp { wall_time, logical }),
            None => None,
        }
    }
}

/// Nanoseconds since the Unix epoch, from `std::time::SystemTime::now`. The reading
/// depends on the machine's clock, so nothing is claimed of it.
#[verifier::external_body]
pub(crate) fn physical_now() -> (now: u64) {
    std::time::SystemTime::now().duration_since(std::time::UNIX_EPOCH).map_or(
        0,
        |d| d.as_nanos() as u64,
    )
}

/// Issues timestamps that never go back, and moves on with those of other nodes.
#[derive(Debug)]
pub struct HybridLogicalClock {
    /// The timestamp issued last.
    pub last: HlcTimestamp,
    /// How far beyond the local physical time a remote timestamp is followed.
    pub max_drift_nanos: u64,
}

/// Milliseconds in nanoseconds, at most the greatest number that fits.
pub open spec fn nanos(ms: u64) -> u64 {
    if ms * 1_000_000 <= u64::MAX {
        (ms * 1_000_000) as u64
    } else {
        u64::MAX
    }
}

/// `a + b`, at most the greatest number that fits.
pub open spec fn saturating(a: int, b: int, max: int) -> int {
    if a + b <= max {
        a + b
    } else {
        max
    }
}

/// The greater of two numbers.
pub open spec fn greater(a: int, b: int) -> int {
    if a >= b {
        a
    } else {
        b
    }
}

/// The timestamp after `last` at physical time `physical`.
pub open spec fn ticked(last: HlcTimestamp, physical: u64) -> HlcTimestamp {
    if physical > last.wall_time {
        HlcTimestamp { wall_time: physical, logical: 0 }
    } else {
        HlcTimestamp { wall_time: last.wall_time, logical: (last.logical + 1) as u32 }
    }
}

/// The remote wall time as far as it is followed.
pub open spec fn capped(remote: u64, physical: u64, drift: u64) -> u64 {
    let cap = saturating(physical as int, drift as int, u64::MAX as int);
    if remote > cap {
        cap as u64
    } else {
        remote
    }
}

/// The timestamp after `last` when `remote` is heard of at physical time `physical`: the
/// greatest of the three wall times, with a counter above those of the parties that hold
/// that wall time.
pub open spec fn merged(
    last: HlcTimestamp,
    remote: HlcTimestamp,
    physical: u64,
    drift: u64,
) -> HlcTimestamp {
    let cap = capped(remote.wall_time, physical, drift);
    let wall = greater(greater(physical as int, last.wall_time as int), cap as int) as u64;
    let local_leads = wall == last.wall_time;
    let remote_leads = wall == cap;
    let logical = if local_leads && remote_leads {
        saturating(greater(last.logical as int, remote.logical as int), 1, u32::MAX as int)
    } else if local_leads {
        saturating(last.logical as int, 1, u32::MAX as int)
    } else if remote_leads {
        saturating(remote.logical as int, 1, u32::MAX as int)
    } else {
        0
    };
    HlcTimestamp { wall_time: wall, logical: logical as u32 }
}

impl HybridLogicalClock {
    /// A clock that follows remote timestamps up to half a second ahead.
    pub fn new() -> (c: Self)
        ensures
            c.last == (HlcTimestamp { wall_time: 0, logical: 0 }),
            c.max_drift_nanos == 500_000_000,
    {
        HybridLogicalClock::with_max_drift_ms(500)
    }

    /// A clock that follows remote timestamps up to `max_drift_ms` ahead.
    pub fn with_max_drift_ms(max_drift_ms: u64) -> (c: Self)
        ensures
            c.last == (HlcTimestamp { wall_time: 0, logical: 0 }),
            c.max_drift_nanos == nanos(max_drift_ms),
    {
        let max_drift_nanos: u64 = match max_drift_ms.checked_mul(1_000_000) {
            Some(n) => n,
            None => u64::MAX,
        };
        HybridLogicalClock { last: HlcTimestamp::zero(), max_drift_nanos }
    }

    /// Issues a timestamp at physical time `physical`.
    pub fn tick_at(&mut self, physical: u64) -> (t: HlcTimestamp)
        requires
            physical > old(self).last.wall_time || old(self).last.logical < u32::MAX,
        ensures
            t == ticked(old(self).last, physical),
            final(self).last == t,
            final(self).max_drift_nanos == old(self).max_drift_nanos,
            earlier(old(self).last, t),
    {
        if physical > self.last.wall_time {
            self.last = HlcTimestamp { wall_time: physical, logical: 0 };
        } else {
            self.last.logical += 1;
        }
        self.last
    }

    /// Issues a timestamp.
    pub fn tick(&mut self) -> (t: HlcTimestamp)
        requires
            old(self).last.logical < u32::MAX,
        ensures
            exists|physical: u64| t == #[trigger] ticked(old(self).last, physical),
            final(self).last == t,
            final(self).max_drift_nanos == old(self).max_drift_nanos,
            earlier(old(self).last, t),
    {
        let physical: u64 = physical_now();
        self.tick_at(physical)
    }

    /// Issues a timestamp at physical time `physical`, having heard of `remote`.
    pub fn merge_at(&mut self, remote: &HlcTimestamp, physical: u64) -> (t: HlcTimestamp)
        ensures
            t == merged(old(self).last, *remote, physical, old(self).max_drift_nanos),
            final(self).last == t,
            final(self).max_drift_nanos == old(self).max_drift_nanos,
    {
        let cap: u64 = physical.saturating_add(self.max_drift_nanos);
        let capped_wall: u64 = if remote.wall_time > cap {
            cap
        } else {
            remote.wall_time
        };
        let local_wall: u64 = self.last.wall_time;
        let local_logical: u32 = self.last.logical;
        let mut wall: u64 = physical;
        if local_wall > wall {
            wall = local_wall;
        }
        if capped_wall > wall {
            wall = capped_wall;
        }
        let local_leads = wall == local_wall;
        let remote_leads = wall == capped_wall;
        let logical: u32 = if local_leads && remote_leads {
            let top: u32 = if local_logical >= remote.logical {
                local_logical
            } else {
                remote.logical
            };
            top.saturating_add(1)
        } else if local_leads {
            local_logical.saturating_add(1)
        } else if remote_leads {
            remote.logical.saturating_add(1)
        } else {
            0
        };
        self.last = HlcTimestamp { wall_time: wall, logical };
        self.last
    }

    /// Issues a timestamp, having heard of `remote`.
    pub fn merge(&mut self, remote: &HlcTimestamp) -> (t: HlcTimestamp)
        ensures
            exists|physical: u64|
                t == #[trigger] merged(
                    old(self).last,
                    *remote,
                    physical,
                    old(self).max_drift_nanos,
                ),
            final(self).last == t,
            final(self).max_drift_nanos == old(self).max_drift_nanos,
    {
        let physical: u64 = physical_now();
        self.merge_at(remote, physical)
    }
}

impl Default for HybridLogicalClock {
    fn default() -> (c: Self)
        ensures
            c.last == (HlcTimestamp { wall_time: 0, logical: 0 }),
            c.max_drift_nanos == 500_000_000,
    {
        HybridLogicalClock::new()
    }
}

/// Every timestamp issued on hearing of a remote one is strictly later than the one
/// issued before it, as long as the counters in play are not exhausted.
pub proof fn law_merge_is_monotonic(
    last: HlcTimestamp,
    remote: HlcTimestamp,
    physical: u64,
    drift: u64,
)
    requires
        last.logical < u32::MAX,
    ensures
        earlier(last, merged(last, remote, physical, drift)),
{
}

/// A remote timestamp that is followed in full is strictly earlier than the one issued
/// on hearing of it, as long as its counter is not exhausted.
pub proof fn law_merge_passes_remote(
    last: HlcTimestamp,
    remote: HlcTimestamp,
    physical: u64,
    drift: u64,
)
    requires
        remote.logical < u32::MAX,
        capped(remote.wall_time, physical, drift) == remote.wall_time,
    ensures
        earlier(remote, merged(last, remote, physical, drift)),
{
}

/// A remote timestamp moves the clock at most `drift` beyond the local physical time, or
/// leaves its wall time where it was.
pub proof fn law_merge_drift_bounded(
    last: HlcTimestamp,
    remote: HlcTimestamp,
    physical: u64,
    drift: u64,
)
    ensures
        merged(last, remote, physical, drift).wall_time <= greater(
            last.wall_time as int,
            physical + drift,
        ),
        merged(last, remote, physical, drift).wall_time >= last.wall_time,
        merged(last, remote, physical, drift).wall_time >= physical,
{
}

/// A tick after a merge is strictly later than the merged timestamp.
pub proof fn law_tick_after_merge(
    last: HlcTimestamp,
    remote: HlcTimestamp,
    physical: u64,
    drift: u64,
    later: u64,
)
    requires
        merged(last, remote, physical, drift).logical < u32::MAX,
    ensures
        earlier(
            merged(last, remote, physical, drift),
            ticked(merged(last, remote, physical, drift), later),
        ),
{
}

} // verus!
