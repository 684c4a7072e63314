//! Coalescing of tunnel traffic events.
//!
//! An active tunnel moves data in 8–16 KiB chunks; one event per chunk would
//! flood the UI. An event is emitted once at least [`TRAFFIC_MIN_INTERVAL_NANOS`]
//! passed since the last one **or** at least [`TRAFFIC_MIN_BYTES`] piled up.
//! The caller emits a final event when pumping ends.
use vstd::prelude::*;

verus! {

/// Smallest interval between coalesced events (~4 per second), 250 ms in
/// nanoseconds.
pub const TRAFFIC_MIN_INTERVAL_NANOS: u128 = 250000000;

/// Bytes that force an event even before the interval.
pub const TRAFFIC_MIN_BYTES: u64 = 524288;

pub open spec fn should_emit_spec(elapsed_nanos: u128, bytes_since_last: u64) -> bool {
    elapsed_nanos >= TRAFFIC_MIN_INTERVAL_NANOS || bytes_since_last >= TRAFFIC_MIN_BYTES
}

/// Whether a tunnel traffic event is due, given the time since the last one
/// (in nanoseconds, as `Duration::as_nanos` gives it) and the bytes moved
/// since then.
pub fn should_emit_traffic(elapsed_nanos: u128, bytes_since_last: u64) -> (r: bool)
    ensures
        r == should_emit_spec(elapsed_nanos, bytes_since_last),
{
    elapsed_nanos >= TRAFFIC_MIN_INTERVAL_NANOS || bytes_since_last >= TRAFFIC_MIN_BYTES
}


pub open spec fn sat_add(a: u64, b: u64) -> u64 {
    if a + b > u64::MAX {
        u64::MAX
    } else {
        (a + b) as u64
    }
}

pub open spec fn sat_sub(a: u64, b: u64) -> u64 {
    if a < b {
        0
    } else {
        (a - b) as u64
    }
}

/// The byte counters of a tunnel and the total at its last event.
#[derive(Debug, Clone, Copy, PartialEq, Eq, Structural)]
pub struct TrafficMeter {
    bytes_up: u64,
    bytes_down: u64,
    last_emit_total: u64,
}

impl TrafficMeter {
    pub closed spec fn up(&self) -> u64 {
        self.bytes_up
    }

    pub closed spec fn down(&self) -> u64 {
        self.bytes_down
    }

    pub closed spec fn last_total(&self) -> u64 {
        self.last_emit_total
    }

    /// Nothing moved yet.
    pub fn new() -> (r: Self)
        ensures
            r.up() == 0 && r.down() == 0 && r.last_total() == 0,
    {
        TrafficMeter { bytes_up: 0, bytes_down: 0, last_emit_total: 0 }
    }

    /// Bytes sent and received so far.
    pub fn totals(&self) -> (r: (u64, u64))
        ensures
            r == (self.up(), self.down()),
    {
        (self.bytes_up, self.bytes_down)
    }

    fn due(&mut self, elapsed_nanos: u128) -> (emit: bool)
        ensures
            final(self).up() == old(self).up() && final(self).down() == old(self).down(),
            emit == should_emit_spec(elapsed_nanos, sat_sub(sat_add(old(self).up(), old(self).down()), old(self).last_total())),
            final(self).last_total() == (if emit {
                sat_add(old(self).up(), old(self).down())
            } else {
                old(self).last_total()
            }),
    {
        let total = self.bytes_up.saturating_add(self.bytes_down);
        let emit = should_emit_traffic(elapsed_nanos, total.saturating_sub(self.last_emit_total));
        if emit {
            self.last_emit_total = total;
        }
        emit
    }

    /// Counts `n` bytes sent through the tunnel (saturating); `true` when an
    /// event is due, `elapsed_nanos` after the last one (which it then is).
    pub fn add_up(&mut self, n: u64, elapsed_nanos: u128) -> (emit: bool)
        ensures
            final(self).up() == sat_add(old(self).up(), n),
            final(self).down() == old(self).down(),
            emit == should_emit_spec(elapsed_nanos, sat_sub(sat_add(final(self).up(), final(self).down()), old(self).last_total())),
            final(self).last_total() == (if emit {
                sat_add(final(self).up(), final(self).down())
            } else {
                old(self).last_total()
            }),
    {
        self.bytes_up = self.bytes_up.saturating_add(n);
        self.due(elapsed_nanos)
    }

    /// Counts `n` bytes received through the tunnel; as [`Self::add_up`].
    pub fn add_down(&mut self, n: u64, elapsed_nanos: u128) -> (emit: bool)
        ensures
            final(self).down() == sat_add(old(self).down(), n),
            final(self).up() == old(self).up(),
            emit == should_emit_spec(elapsed_nanos, sat_sub(sat_add(final(self).up(), final(self).down()), old(self).last_total())),
            final(self).last_total() == (if emit {
                sat_add(final(self).up(), final(self).down())
            } else {
                old(self).last_total()
            }),
    {
        self.bytes_down = self.bytes_down.saturating_add(n);
        self.due(elapsed_nanos)
    }
}

} // verus!
