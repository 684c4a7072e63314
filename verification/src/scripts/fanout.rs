//! Decisions of a fan-out over hosts: which host starts next, with at most
//! `concurrency` in flight, the canary first and alone in canary mode, and
//! when the run stops (an error with `stop_on_error`, a failed canary, a
//! cancel). The caller runs the hosts and reports each end.
use vstd::prelude::*;

verus! {

/// The scheduling state of a fan-out over `total` hosts, started in order.
pub struct Fanout {
    total: usize,
    concurrency: usize,
    stop_on_error: bool,
    canary: bool,
    next: usize,
    in_flight: usize,
    ok: u32,
    err: u32,
    stopped: bool,
}

pub struct FanoutV {
    pub total: nat,
    pub concurrency: nat,
    pub stop_on_error: bool,
    /// The canary is still to be started.
    pub canary: bool,
    /// Hosts taken from the queue so far (started or skipped).
    pub next: nat,
    pub in_flight: nat,
    pub ok: nat,
    pub err: nat,
    pub stopped: bool,
}

impl View for Fanout {
    type V = FanoutV;

    closed spec fn view(&self) -> FanoutV {
        FanoutV {
            total: self.total as nat,
            concurrency: self.concurrency as nat,
            stop_on_error: self.stop_on_error,
            canary: self.canary,
            next: self.next as nat,
            in_flight: self.in_flight as nat,
            ok: self.ok as nat,
            err: self.err as nat,
            stopped: self.stopped,
        }
    }
}

/// What holds at every step: hosts are taken in order at most once, at most
/// `concurrency` run at once, and every host that ended was counted once.
pub open spec fn fanout_wf(f: FanoutV) -> bool {
    &&& f.concurrency >= 1
    &&& f.total <= u32::MAX
    &&& f.next <= f.total
    &&& f.in_flight <= f.concurrency
    &&& f.ok + f.err + f.in_flight <= f.next
    &&& (f.canary ==> f.next == 0 && f.in_flight == 0)
}

impl Fanout {
    /// A fan-out over `total` hosts with `concurrency` (at least 1) in flight;
    /// `canary` runs the first host alone first.
    pub fn new(total: usize, concurrency: u32, canary: bool, stop_on_error: bool) -> (r: Self)
        requires
            total <= u32::MAX,
        ensures
            fanout_wf(r@),
            r@ == (FanoutV {
                total: total as nat,
                concurrency: if concurrency < 1 {
                    1
                } else {
                    concurrency as nat
                },
                stop_on_error,
                canary,
                next: 0,
                in_flight: 0,
                ok: 0,
                err: 0,
                stopped: false,
            }),
    {
        let c: usize = if concurrency < 1 {
            1
        } else {
            concurrency as usize
        };
        Fanout {
            total,
            concurrency: c,
            stop_on_error,
            canary,
            next: 0,
            in_flight: 0,
            ok: 0,
            err: 0,
            stopped: false,
        }
    }

    /// In canary mode, takes the first host: `Some(0)` to run it alone, or
    /// `None` when the run was already canceled (the host is skipped and the
    /// run stops). Outside canary mode, or without hosts, nothing happens.
    pub fn start_canary(&mut self, canceled: bool) -> (r: Option<usize>)
        requires
            fanout_wf(old(self)@),
        ensures
            fanout_wf(final(self)@),
            if old(self)@.canary && old(self)@.total > 0 {
                &&& final(self)@ == (FanoutV {
                    canary: false,
                    next: 1,
                    in_flight: if canceled {
                        0
                    } else {
                        1
                    },
                    stopped: old(self)@.stopped || canceled,
                    ..old(self)@
                })
                &&& r == (if canceled {
                    None
                } else {
                    Some(0usize)
                })
            } else {
                r is None && final(self)@ == (FanoutV { canary: false, ..old(self)@ })
            },
    {
        if self.canary && self.total > 0 {
            self.canary = false;
            self.next = 1;
            if canceled {
                self.stopped = true;
                None
            } else {
                self.in_flight = 1;
                Some(0)
            }
        } else {
            self.canary = false;
            None
        }
    }

    /// The next host to start, if one may start now: fewer than
    /// `concurrency` in flight, not stopped, not canceled, hosts left.
    pub fn launch_next(&mut self, canceled: bool) -> (r: Option<usize>)
        requires
            fanout_wf(old(self)@),
            !old(self)@.canary,
        ensures
            fanout_wf(final(self)@),
            if old(self)@.in_flight < old(self)@.concurrency && !old(self)@.stopped && !canceled && old(self)@.next
                < old(self)@.total {
                r == Some(old(self)@.next as usize) && final(self)@ == (FanoutV {
                    next: old(self)@.next + 1,
                    in_flight: old(self)@.in_flight + 1,
                    ..old(self)@
                })
            } else {
                r is None && final(self)@ == old(self)@
            },
    {
        if self.in_flight < self.concurrency && !self.stopped && !canceled && self.next < self.total {
            let i = self.next;
            self.next = self.next + 1;
            self.in_flight = self.in_flight + 1;
            Some(i)
        } else {
            None
        }
    }

    /// A host ended, well (`ok`) or not. An error stops the run when
    /// `stop_on_error`, or always for the canary; a cancel seen now stops it
    /// too.
    pub fn host_finished(&mut self, ok: bool, canceled: bool, was_canary: bool)
        requires
            fanout_wf(old(self)@),
            old(self)@.in_flight > 0,
        ensures
            fanout_wf(final(self)@),
            final(self)@ == (FanoutV {
                in_flight: (old(self)@.in_flight - 1) as nat,
                ok: if ok {
                    old(self)@.ok + 1
                } else {
                    old(self)@.ok
                },
                err: if ok {
                    old(self)@.err
                } else {
                    old(self)@.err + 1
                },
                stopped: old(self)@.stopped || canceled || (!ok && (old(self)@.stop_on_error || was_canary)),
                ..old(self)@
            }),
    {
        self.in_flight = self.in_flight - 1;
        if ok {
            self.ok = self.ok + 1;
        } else {
            self.err = self.err + 1;
            if self.stop_on_error || was_canary {
                self.stopped = true;
            }
        }
        if canceled {
            self.stopped = true;
        }
    }

    /// Hosts running now.
    pub fn in_flight(&self) -> (r: usize)
        ensures
            r == self@.in_flight,
    {
        self.in_flight
    }

    /// Hosts that ended well, hosts that failed, and all the hosts.
    pub fn summary(&self) -> (r: (u32, u32, u32))
        requires
            fanout_wf(self@),
        ensures
            r.0 == self@.ok,
            r.1 == self@.err,
            r.2 == self@.total,
    {
        (self.ok, self.err, self.total as u32)
    }
}

// ─── Laws ────────────────────────────────────────────────────────────────────

/// At every step the hosts that ended and those running never outnumber
/// the hosts: the final summary counts each host at most once.
pub proof fn lemma_counts_within_total(f: FanoutV)
    requires
        fanout_wf(f),
    ensures
        f.ok + f.err + f.in_flight <= f.total,
{
}

} // verus!
