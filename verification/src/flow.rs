//! Flow control of one stream: the credit to send, and the credit to grant.
//!
//! Credit counts DATA payload bytes. The receiver grants consumed bytes back
//! with a WINDOW_UPDATE once they reach a threshold. There is no window for the
//! connection: the ring itself pushes back.

use bytes::Bytes;
use vstd::prelude::*;

use crate::config::Config;
use crate::control::encode_window_update;

verus! {

use crate::config::{law_threshold_reachable, threshold};
use crate::control::window_update_bytes;
use crate::outside::bytes_view;

/// `x`, brought into the range of an `i64` modulo 2^64. It lies no further off than
/// the sum of two such numbers.
pub open spec fn wrapping(x: int) -> int {
    if x > i64::MAX {
        x - 0x1_0000_0000_0000_0000
    } else if x < i64::MIN {
        x + 0x1_0000_0000_0000_0000
    } else {
        x
    }
}

/// The credit that the peer has granted to a sender.
#[derive(Debug, Clone, Copy, PartialEq, Eq, Structural)]
pub struct SendWindow {
    pub avail: i64,
}

impl SendWindow {
    /// A window with the credit that a stream starts with.
    pub fn new(initial: u32) -> (r: Self)
        ensures
            r.avail == initial,
    {
        SendWindow { avail: initial as i64 }
    }

    /// Adds the credit of a WINDOW_UPDATE.
    pub fn add(&mut self, n: u32)
        ensures
            final(self).avail == wrapping(old(self).avail + n),
    {
        self.avail = self.avail.wrapping_add(n as i64);
    }

    /// How much of `want` bytes may be sent now; `None` while there is no
    /// credit.
    pub open spec fn grant(self, want: nat) -> Option<nat> {
        if self.avail <= 0 {
            None
        } else if self.avail <= want {
            Some(self.avail as nat)
        } else {
            Some(want)
        }
    }

    /// Takes credit for as much of `want` bytes as there is. Without any credit
    /// it takes nothing, and the sender waits for a WINDOW_UPDATE.
    pub fn acquire(&mut self, want: usize) -> (r: Option<usize>)
        ensures
            match r {
                Some(n) => {
                    &&& old(self).grant(want as nat) == Some(n as nat)
                    &&& final(self).avail == old(self).avail - n
                    &&& n <= want
                    &&& want > 0 ==> n > 0
                },
                None => old(self).grant(want as nat) is None && *final(self) == *old(self),
            },
    {
        if self.avail <= 0 {
            return None;
        }
        let cur: u64 = self.avail as u64;
        let take: u64 = if cur <= want as u64 {
            cur
        } else {
            want as u64
        };
        self.avail = self.avail - take as i64;
        Some(take as usize)
    }
}

/// The ledger of the receiving side of one stream.
#[derive(Debug, Clone, Copy, PartialEq, Eq, Structural)]
pub struct RecvCredit {
    pub stream_id: u32,
    /// The window that the peer was granted.
    pub window: u32,
    /// The consumed bytes at which they are granted back.
    pub threshold: u32,
    /// Bytes delivered to the stream but not yet consumed.
    pub outstanding: i64,
    /// Bytes consumed but not yet granted back.
    pub pending_grant: i64,
}

/// A WINDOW_UPDATE to send.
#[derive(Debug)]
pub struct Grant {
    pub stream_id: u32,
    pub payload: Bytes,
}

impl RecvCredit {
    /// The threshold belongs to the window, and less than it is pending.
    pub open spec fn wf(self) -> bool {
        &&& self.threshold == threshold(self.window as int)
        &&& 0 <= self.pending_grant
        &&& self.pending_grant < self.threshold
    }

    /// The ledger of a fresh stream.
    pub open spec fn fresh(stream_id: u32, window: u32) -> RecvCredit {
        RecvCredit {
            stream_id,
            window,
            threshold: threshold(window as int) as u32,
            outstanding: 0,
            pending_grant: 0,
        }
    }

    /// The ledger of a fresh stream.
    pub fn new(stream_id: u32, window: u32) -> (r: Self)
        ensures
            r.wf(),
            r == Self::fresh(stream_id, window),
    {
        RecvCredit {
            stream_id,
            window,
            threshold: Config::wu_threshold(window),
            outstanding: 0,
            pending_grant: 0,
        }
    }

    /// How many bytes may be outstanding: the window that was granted.
    pub open spec fn limit(self) -> int {
        self.window as int
    }

    /// Records `n` inbound bytes; `false` where the peer has overrun its window.
    pub fn on_data(&mut self, n: usize) -> (r: bool)
        requires
            n <= i64::MAX,
            old(self).outstanding + n <= i64::MAX,
        ensures
            *final(self) == (RecvCredit {
                outstanding: (old(self).outstanding + n) as i64,
                ..*old(self)
            }),
            r == (old(self).outstanding + n <= old(self).limit()),
    {
        self.outstanding = self.outstanding + n as i64;
        self.outstanding <= self.window as i64
    }

    /// Whether consuming `n` more bytes makes a grant due.
    pub open spec fn due(self, n: nat) -> bool {
        self.pending_grant + n >= self.threshold
    }

    /// The credit that is then granted: all that is pending, as far as a
    /// WINDOW_UPDATE can say it.
    pub open spec fn granted(self, n: nat) -> u32 {
        let all = self.pending_grant + n;
        if all > u32::MAX {
            u32::MAX
        } else {
            all as u32
        }
    }

    /// The ledger after `n` bytes were consumed.
    pub open spec fn consumed(self, n: nat) -> RecvCredit {
        RecvCredit {
            outstanding: (self.outstanding - n) as i64,
            pending_grant: if self.due(n) { 0 } else { (self.pending_grant + n) as i64 },
            ..self
        }
    }

    /// Records that the application consumed `n` bytes, and grants them back
    /// once enough are pending.
    pub fn on_consumed(&mut self, n: usize) -> (r: Option<Grant>)
        requires
            old(self).wf(),
            n <= i64::MAX,
            old(self).outstanding - n >= i64::MIN,
            old(self).pending_grant + n <= i64::MAX,
        ensures
            final(self).wf(),
            *final(self) == old(self).consumed(n as nat),
            match r {
                Some(g) => {
                    &&& old(self).due(n as nat)
                    &&& g.stream_id == old(self).stream_id
                    &&& old(self).granted(n as nat) > 0
                    &&& bytes_view(g.payload) == window_update_bytes(old(self).granted(n as nat))
                },
                None => !old(self).due(n as nat),
            },
    {
        self.outstanding = self.outstanding - n as i64;
        let pending: i64 = self.pending_grant + n as i64;
        if pending >= self.threshold as i64 {
            self.pending_grant = 0;
            let grant: u32 = if pending > u32::MAX as i64 {
                u32::MAX
            } else {
                pending as u32
            };
            Some(Grant { stream_id: self.stream_id, payload: encode_window_update(grant) })
        } else {
            self.pending_grant = pending;
            None
        }
    }
}

// ---------------------------------------------------------------------
// credit goes round
// ---------------------------------------------------------------------

/// The credit of one stream in one direction, wherever it is: with the sender,
/// in delivered bytes, consumed and pending, or on its way back.
pub struct Circulation {
    pub sender: SendWindow,
    pub receiver: RecvCredit,
    /// Bytes sent and not yet delivered.
    pub in_flight: nat,
    /// Credit granted and not yet with the sender.
    pub returning: nat,
}

impl Circulation {
    /// Together the parts make up the window.
    pub open spec fn balanced(self) -> bool {
        &&& self.receiver.wf()
        &&& self.receiver.window > 0
        &&& self.sender.avail >= 0
        &&& self.receiver.outstanding >= 0
        &&& self.sender.avail + self.in_flight + self.receiver.outstanding
            + self.receiver.pending_grant + self.returning == self.receiver.window
    }

    /// The sender takes credit for `want` bytes and sends them.
    pub open spec fn send(self, want: nat) -> Circulation {
        match self.sender.grant(want) {
            Some(n) => Circulation {
                sender: SendWindow { avail: (self.sender.avail - n) as i64 },
                in_flight: self.in_flight + n,
                ..self
            },
            None => self,
        }
    }

    /// `n` bytes arrive.
    pub open spec fn deliver(self, n: nat) -> Circulation {
        Circulation {
            in_flight: (self.in_flight - n) as nat,
            receiver: RecvCredit {
                outstanding: (self.receiver.outstanding + n) as i64,
                ..self.receiver
            },
            ..self
        }
    }

    /// The application consumes `n` bytes.
    pub open spec fn consume(self, n: nat) -> Circulation {
        Circulation {
            receiver: self.receiver.consumed(n),
            returning: if self.receiver.due(n) {
                self.returning + self.receiver.granted(n) as nat
            } else {
                self.returning
            },
            ..self
        }
    }

    /// A WINDOW_UPDATE over `n` bytes arrives.
    pub open spec fn update(self, n: u32) -> Circulation {
        Circulation {
            sender: SendWindow { avail: wrapping(self.sender.avail + n) as i64 },
            returning: (self.returning - n) as nat,
            ..self
        }
    }
}

/// No credit is lost or made: every step keeps the parts together at the window.
pub proof fn law_credit_is_conserved(c: Circulation, n: nat, m: u32)
    requires
        c.balanced(),
    ensures
        c.send(n).balanced(),
        n <= c.in_flight ==> c.deliver(n).balanced(),
        n <= c.receiver.outstanding ==> c.consume(n).balanced(),
        m <= c.returning ==> c.update(m).balanced(),
{
}

/// A sender that keeps to its credit never overruns the receiver.
pub proof fn law_honest_sender_never_overruns(c: Circulation, n: nat)
    requires
        c.balanced(),
        n <= c.in_flight,
    ensures
        c.receiver.outstanding + n <= c.receiver.limit(),
{
}

/// A sender is never left without credit for ever: once everything sent has been
/// delivered and consumed and no grant is on its way, there is credit to send,
/// however small the window.
pub proof fn law_sender_never_starves(c: Circulation)
    requires
        c.balanced(),
        c.in_flight == 0,
        c.receiver.outstanding == 0,
        c.returning == 0,
    ensures
        c.sender.avail > 0,
        forall|want: nat| want > 0 ==> #[trigger] c.sender.grant(want) is Some,
{
    law_threshold_reachable(c.receiver.window);
}

/// A fresh stream is balanced.
pub proof fn law_fresh_stream_is_balanced(c: Circulation)
    requires
        c.receiver.window > 0,
        c.sender.avail == c.receiver.window,
        c.receiver.wf(),
        c.receiver.outstanding == 0,
        c.receiver.pending_grant == 0,
        c.in_flight == 0,
        c.returning == 0,
    ensures
        c.balanced(),
{
}

/// A sender without credit waits. One with credit sends all that it wants to where the
/// credit covers it, and else as much as the credit allows.
pub proof fn law_credit_is_used_in_full(w: SendWindow, want: nat)
    ensures
        w.grant(want) is None <==> w.avail <= 0,
        w.avail > 0 && want <= w.avail ==> w.grant(want) == Some(want),
        w.avail > 0 && want > w.avail ==> w.grant(want) == Some(w.avail as nat),
{
}

/// Sums stay as they are within the range of the window, and are taken modulo 2^64 beyond.
pub proof fn law_credit_wraps_only_at_the_edge(x: int)
    ensures
        i64::MIN <= x <= i64::MAX ==> wrapping(x) == x,
        i64::MAX < x <= i64::MAX + i64::MAX ==> wrapping(x) == x - 18446744073709551616,
        i64::MIN + i64::MIN <= x < i64::MIN ==> wrapping(x) == x + 18446744073709551616,
{
}

/// Consumed bytes are no longer outstanding. They are granted back together as soon as they
/// come to a quarter of the window (at least 1024 bytes, at most half the window, never
/// none); until then they are kept, and none is lost.
pub proof fn law_consumed_bytes_are_granted(c: RecvCredit, n: nat, bound: int)
    requires
        c.wf(),
        0 <= c.outstanding,
        n <= c.outstanding,
        c.window >= 4096 ==> bound == c.window / 4,
        2048 <= c.window < 4096 ==> bound == 1024,
        2 <= c.window < 2048 ==> bound == c.window / 2,
        c.window < 2 ==> bound == 1,
    ensures
        c.due(n) <==> c.pending_grant + n >= bound,
        c.consumed(n).outstanding == c.outstanding - n,
        c.consumed(n).pending_grant == if c.pending_grant + n >= bound {
            0
        } else {
            c.pending_grant + n
        },
        c.consumed(n).window == c.window,
        c.consumed(n).stream_id == c.stream_id,
        c.consumed(n).threshold == c.threshold,
        c.pending_grant + n <= u32::MAX ==> c.granted(n) == c.pending_grant + n,
        c.pending_grant + n > u32::MAX ==> c.granted(n) == u32::MAX,
{
}

/// The ledger of a fresh stream owes nothing, and admits exactly its window.
pub proof fn law_fresh_ledger(stream_id: u32, window: u32)
    ensures
        RecvCredit::fresh(stream_id, window).outstanding == 0,
        RecvCredit::fresh(stream_id, window).pending_grant == 0,
        RecvCredit::fresh(stream_id, window).window == window,
        RecvCredit::fresh(stream_id, window).stream_id == stream_id,
        RecvCredit::fresh(stream_id, window).limit() == window,
        window >= 4096 ==> RecvCredit::fresh(stream_id, window).threshold == window / 4,
{
}

} // verus!
