//! The scheduler's clock: packet `k` is due `k` packet periods after the
//! start, and a late tick sends the packets it missed one by one, so that
//! the stream keeps its rate.

use vstd::prelude::*;

verus! {

/// Microseconds between two packets: 1024 bytes at 16384 bytes a second.
pub const PACKET_PERIOD_US: u64 = 62500;

/// The latest clock reading the pacer takes, in microseconds.
pub const MAX_CLOCK_US: u64 = 0x7fff_ffff_ffff_ffff;

pub struct Pacer {
    start: u64,
    deadline: u64,
    sent: u64,
    last: u64,
}

impl Pacer {
    /// The clock reading at which pacing began.
    pub closed spec fn start(&self) -> nat {
        self.start as nat
    }

    /// The packets sent so far.
    pub closed spec fn sent(&self) -> nat {
        self.sent as nat
    }

    /// The latest clock reading seen.
    pub closed spec fn last(&self) -> nat {
        self.last as nat
    }

    /// When the next packet is due.
    pub open spec fn due_at(&self) -> nat {
        self.start() + self.sent() * (PACKET_PERIOD_US as nat)
    }

    pub closed spec fn wf(&self) -> bool {
        &&& self.deadline as int == self.start + self.sent * PACKET_PERIOD_US
        &&& self.start <= self.last <= MAX_CLOCK_US
        &&& self.sent > 0 ==> self.start + (self.sent - 1) * PACKET_PERIOD_US <= self.last
        &&& self.sent == 0 ==> self.deadline == self.start
    }

    /// A pacer whose first packet is due at `start_us`.
    pub fn new(start_us: u64) -> (r: Pacer)
        requires
            start_us <= MAX_CLOCK_US,
        ensures
            r.wf(),
            r.start() == start_us,
            r.sent() == 0,
            r.last() == start_us,
    {
        Pacer { start: start_us, deadline: start_us, sent: 0, last: start_us }
    }

    /// Reads the clock: when a packet is due at `now_us`, counts it as sent
    /// and says so.
    pub fn poll(&mut self, now_us: u64) -> (r: bool)
        requires
            old(self).wf(),
            old(self).last() <= now_us <= MAX_CLOCK_US,
        ensures
            final(self).wf(),
            final(self).start() == old(self).start(),
            final(self).last() == now_us,
            r == (old(self).due_at() <= now_us),
            final(self).sent() == old(self).sent() + if r {
                1nat
            } else {
                0nat
            },
    {
        self.last = now_us;
        if self.deadline <= now_us {
            proof {
                assert(self.sent * PACKET_PERIOD_US <= MAX_CLOCK_US) by (nonlinear_arith)
                    requires
                        self.start + self.sent * PACKET_PERIOD_US <= now_us,
                        now_us <= MAX_CLOCK_US,
                ;
                assert(self.sent < MAX_CLOCK_US) by (nonlinear_arith)
                    requires
                        self.sent * PACKET_PERIOD_US <= MAX_CLOCK_US,
                ;
            }
            let ghost d0 = self.deadline as int;
            let ghost s0 = self.sent as int;
            self.deadline = self.deadline + PACKET_PERIOD_US;
            self.sent = self.sent + 1;
            proof {
                assert(self.deadline as int == self.start + self.sent * PACKET_PERIOD_US) by (nonlinear_arith)
                    requires
                        self.deadline == d0 + PACKET_PERIOD_US,
                        d0 == self.start + s0 * PACKET_PERIOD_US,
                        self.sent == s0 + 1,
                ;
                assert(self.start + (self.sent - 1) * PACKET_PERIOD_US <= self.last) by (nonlinear_arith)
                    requires
                        self.sent == s0 + 1,
                        d0 == self.start + s0 * PACKET_PERIOD_US,
                        d0 <= self.last,
                ;
            }
            true
        } else {
            false
        }
    }

    /// When the next packet is due.
    pub fn next_deadline(&self) -> (r: u64)
        requires
            self.wf(),
        ensures
            r == self.due_at(),
    {
        self.deadline
    }

    /// The packets sent so far.
    pub fn packets_sent(&self) -> (r: u64)
        ensures
            r == self.sent(),
    {
        self.sent
    }
}

/// Once the pacer has caught up with the clock, the packets sent cover the
/// time since the start to within one packet: over `T` microseconds each
/// listener has had `16384 * T / 1000000` bytes, plus at most one packet.
pub proof fn lemma_rate(p: Pacer, now: nat)
    requires
        p.wf(),
        p.last() <= now,
        now < p.due_at(),
    ensures
        now - p.start() < p.sent() * PACKET_PERIOD_US <= now - p.start() + PACKET_PERIOD_US,
        16384 * (now - p.start()) < 1024 * p.sent() * 1000000 <= 16384 * (now - p.start()) + 1024
            * 1000000,
{
    let t = now - p.start();
    let n = p.sent();
    assert(n > 0) by (nonlinear_arith)
        requires
            p.start() + n * PACKET_PERIOD_US > now,
            now >= p.start(),
    ;
    assert(n * PACKET_PERIOD_US <= t + PACKET_PERIOD_US) by (nonlinear_arith)
        requires
            p.start() + (n - 1) * PACKET_PERIOD_US <= now,
            t == now - p.start(),
    ;
    assert(1024 * n * 1000000 == 16384 * (n * PACKET_PERIOD_US)) by (nonlinear_arith);
}

} // verus!
