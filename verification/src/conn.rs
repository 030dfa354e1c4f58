//! What both ends of a connection share: the close state, the doorbell, and
//! waiting on a ring.

use vstd::prelude::*;
use vstd::string::StringExecFns;

verus! {

/// Why a connection ended.
#[derive(Debug)]
pub enum CloseReason {
    /// This side closed it.
    Local,
    /// The rendezvous channel ended: the peer went away.
    PeerGone,
    /// The peer violated the protocol.
    Protocol(String),
    /// The channel or the segment failed.
    Io(String),
}

/// What a close reason says.
pub enum CloseView {
    Local,
    PeerGone,
    Protocol(Seq<char>),
    Io(Seq<char>),
}

impl View for CloseReason {
    type V = CloseView;

    open spec fn view(&self) -> CloseView {
        match self {
            CloseReason::Local => CloseView::Local,
            CloseReason::PeerGone => CloseView::PeerGone,
            CloseReason::Protocol(m) => CloseView::Protocol(m@),
            CloseReason::Io(m) => CloseView::Io(m@),
        }
    }
}

impl CloseView {
    /// The reason as it is shown.
    pub open spec fn text(self) -> Seq<char> {
        match self {
            CloseView::Local => "connection closed"@,
            CloseView::PeerGone => "peer closed the connection"@,
            CloseView::Protocol(m) => "protocol error: "@ + m,
            CloseView::Io(m) => "i/o error: "@ + m,
        }
    }
}

impl Clone for CloseReason {
    fn clone(&self) -> (r: Self)
        ensures
            r@ == self@,
    {
        match self {
            CloseReason::Local => CloseReason::Local,
            CloseReason::PeerGone => CloseReason::PeerGone,
            CloseReason::Protocol(m) => CloseReason::Protocol(m.clone()),
            CloseReason::Io(m) => CloseReason::Io(m.clone()),
        }
    }
}

impl CloseReason {
    /// The reason as it is shown.
    pub fn display(&self) -> (r: String)
        ensures
            r@ == self@.text(),
    {
        match self {
            CloseReason::Local => "connection closed".to_owned(),
            CloseReason::PeerGone => "peer closed the connection".to_owned(),
            CloseReason::Protocol(m) => {
                let mut s = "protocol error: ".to_owned();
                s.append(m.as_str());
                s
            },
            CloseReason::Io(m) => {
                let mut s = "i/o error: ".to_owned();
                s.append(m.as_str());
                s
            },
        }
    }
}

/// How many PING acknowledgements may wait for the writer at once. A peer that
/// keeps sending PINGs without reading the answers is failed at this point.
pub const MAX_PENDING_PING_ACKS: u32 = 1024;

/// The close state of a connection.
#[derive(Debug)]
pub struct ConnIo {
    /// Why the connection is closed, once it is.
    pub reason: Option<CloseReason>,
    /// Whether everything queued is to be flushed before the close.
    pub graceful: bool,
    /// PING acknowledgements that are queued and not yet written.
    pub ping_acks: u32,
}

/// What a close state says.
pub struct IoView {
    pub reason: Option<CloseView>,
    pub graceful: bool,
    pub ping_acks: u32,
}

impl View for ConnIo {
    type V = IoView;

    open spec fn view(&self) -> IoView {
        IoView {
            reason: match self.reason {
                Some(r) => Some(r@),
                None => None,
            },
            graceful: self.graceful,
            ping_acks: self.ping_acks,
        }
    }
}

impl IoView {
    /// Whether the connection is closed.
    pub open spec fn closed(self) -> bool {
        self.reason is Some
    }

    /// Why it is closed; while it is open this reads as closed from this side.
    pub open spec fn close_reason(self) -> CloseView {
        match self.reason {
            Some(r) => r,
            None => CloseView::Local,
        }
    }

    /// The state after a close: the first reason stays.
    pub open spec fn close(self, reason: CloseView) -> IoView {
        if self.closed() {
            self
        } else {
            IoView { reason: Some(reason), ..self }
        }
    }
}

impl IoView {
    /// The state after one more PING acknowledgement was queued, where one more may be.
    pub open spec fn ack_queued(self) -> IoView {
        IoView {
            ping_acks: if self.ping_acks < MAX_PENDING_PING_ACKS {
                (self.ping_acks + 1) as u32
            } else {
                self.ping_acks
            },
            ..self
        }
    }

    /// The state after a PING acknowledgement was written.
    pub open spec fn ack_written(self) -> IoView {
        IoView {
            ping_acks: if self.ping_acks > 0 {
                (self.ping_acks - 1) as u32
            } else {
                0
            },
            ..self
        }
    }
}

impl ConnIo {
    /// An open connection.
    pub fn new() -> (r: Self)
        ensures
            r@ == (IoView { reason: None, graceful: false, ping_acks: 0 }),
    {
        ConnIo { reason: None, graceful: false, ping_acks: 0 }
    }

    /// Whether the connection is closed.
    pub fn is_closed(&self) -> (r: bool)
        ensures
            r == self@.closed(),
    {
        self.reason.is_some()
    }

    /// Why the connection is closed.
    pub fn close_reason(&self) -> (r: CloseReason)
        ensures
            r@ == self@.close_reason(),
    {
        match &self.reason {
            Some(r) => r.clone(),
            None => CloseReason::Local,
        }
    }

    /// Closes the connection; later calls keep the first reason. `true` the first
    /// time: every waiting task is then to be woken and the channel shut down.
    pub fn close(&mut self, reason: CloseReason) -> (r: bool)
        ensures
            final(self)@ == old(self)@.close(reason@),
            r == !old(self)@.closed(),
    {
        if self.reason.is_some() {
            return false;
        }
        self.reason = Some(reason);
        true
    }

    /// Whether a graceful flush was asked for.
    pub fn is_graceful(&self) -> (r: bool)
        ensures
            r == self@.graceful,
    {
        self.graceful
    }

    /// Asks for a graceful flush: the writer pushes what is queued and waits for
    /// the peer to take it.
    pub fn request_flush(&mut self)
        ensures
            final(self)@ == (IoView { graceful: true, ..old(self)@ }),
    {
        self.graceful = true;
    }

    /// Counts a PING acknowledgement that is to be queued; `false` where too many
    /// wait already.
    pub fn queue_ping_ack(&mut self) -> (r: bool)
        ensures
            r == (old(self)@.ping_acks < MAX_PENDING_PING_ACKS),
            final(self)@ == old(self)@.ack_queued(),
            final(self)@ == (IoView {
                ping_acks: if r { (old(self)@.ping_acks + 1) as u32 } else { old(self)@.ping_acks },
                ..old(self)@
            }),
    {
        if self.ping_acks < MAX_PENDING_PING_ACKS {
            self.ping_acks = self.ping_acks + 1;
            true
        } else {
            false
        }
    }

    /// Counts a PING acknowledgement that the writer has written.
    pub fn ping_ack_written(&mut self)
        ensures
            final(self)@ == old(self)@.ack_written(),
            final(self)@ == (IoView {
                ping_acks: if old(self)@.ping_acks > 0 {
                    (old(self)@.ping_acks - 1) as u32
                } else {
                    0
                },
                ..old(self)@
            }),
    {
        if self.ping_acks > 0 {
            self.ping_acks = self.ping_acks - 1;
        }
    }
}

/// A connection that is closed stays closed, for the reason that came first.
pub proof fn law_first_close_reason_stays(io: IoView, first: CloseView, later: CloseView)
    requires
        !io.closed(),
    ensures
        io.close(first).close_reason() == first,
        io.close(first).close(later) == io.close(first),
{
}

// ---------------------------------------------------------------------
// doorbell
// ---------------------------------------------------------------------

/// What came of reading the doorbell channel.
#[derive(Debug)]
pub enum BellRead {
    /// The channel ended.
    End,
    /// Some bytes were read; each only says to look at the rings again.
    Bytes,
    /// Nothing more is there for now.
    Empty,
    /// The channel failed.
    Failed(String),
}

/// What the doorbell task does next.
#[derive(Debug, Clone, Copy, PartialEq, Eq, Structural)]
pub enum BellStep {
    /// Read on.
    ReadOn,
    /// Wake the waiting tasks, and wait until the channel is readable.
    Wake,
    /// Stop: the connection is closed.
    Stop,
}

/// What comes of a read of the doorbell channel: the close state, and the next step.
pub open spec fn rung(io: IoView, read: BellRead) -> (IoView, BellStep) {
    match read {
        BellRead::End => (io.close(CloseView::PeerGone), BellStep::Stop),
        BellRead::Bytes => (io, BellStep::ReadOn),
        BellRead::Empty => (io, BellStep::Wake),
        BellRead::Failed(m) => (io.close(CloseView::Io(m@)), BellStep::Stop),
    }
}

/// Handles what was read from the doorbell channel. The end of the channel and
/// an error close the connection, so that a dead peer strands no one.
pub fn doorbell(io: &mut ConnIo, read: BellRead) -> (r: BellStep)
    ensures
        match read {
            BellRead::End => r == BellStep::Stop && final(io)@ == old(io)@.close(
                CloseView::PeerGone,
            ),
            BellRead::Bytes => r == BellStep::ReadOn && *final(io) == *old(io),
            BellRead::Empty => r == BellStep::Wake && *final(io) == *old(io),
            BellRead::Failed(m) => r == BellStep::Stop && final(io)@ == old(io)@.close(
                CloseView::Io(m@),
            ),
        },
        (final(io)@, r) == rung(old(io)@, read),
{
    match read {
        BellRead::End => {
            io.close(CloseReason::PeerGone);
            BellStep::Stop
        },
        BellRead::Bytes => BellStep::ReadOn,
        BellRead::Empty => BellStep::Wake,
        BellRead::Failed(m) => {
            io.close(CloseReason::Io(m));
            BellStep::Stop
        },
    }
}

// ---------------------------------------------------------------------
// waiting on a ring
// ---------------------------------------------------------------------

/// Adaptive spinning before a park. A spin that hits keeps it armed; a wait that
/// had to park disarms it; a park that ended within the budget arms it again.
#[derive(Debug, Clone, Copy, PartialEq, Eq, Structural)]
pub struct SpinBudget {
    /// Microseconds to spin.
    pub us: u32,
    pub armed: bool,
}

impl SpinBudget {
    /// A budget of `us` microseconds, armed unless it is zero.
    pub fn new(us: u32) -> (r: Self)
        ensures
            r.us == us,
            r.armed == (us > 0),
    {
        SpinBudget { us, armed: us > 0 }
    }
}

/// The budget after a park of the given length.
pub open spec fn rearmed(spin: SpinBudget, elapsed_us: u64) -> SpinBudget {
    if spin.us > 0 && elapsed_us < spin.us {
        SpinBudget { armed: true, ..spin }
    } else {
        spin
    }
}

/// Arms the spin again if the park ended faster than the budget: then a spin
/// would have caught it.
pub fn rearm_after_park(spin: &mut SpinBudget, elapsed_us: u64)
    ensures
        *final(spin) == rearmed(*old(spin), elapsed_us),
{
    if spin.us > 0 && elapsed_us < spin.us as u64 {
        spin.armed = true;
    }
}

/// Where a task that waits on a ring stands.
#[derive(Debug, Clone, Copy, PartialEq, Eq, Structural)]
pub enum WaitState {
    /// Spinning on the ring.
    Spinning,
    /// About to ask whether the connection is closed.
    Asking,
    /// About to note the doorbell edge, set the parking flag and look once more.
    Parking,
    /// The flag is set and nothing was seen; about to ask once more whether the
    /// connection is closed.
    Parked,
    /// Asleep until the doorbell rings.
    Asleep,
    /// Done: the ring is ready.
    Ready,
    /// Done: the connection is closed.
    Closed,
}

/// What came of the step that the state asked for.
#[derive(Debug, Clone, Copy, PartialEq, Eq, Structural)]
pub enum WaitEvent {
    /// Whether the spin found the ring ready.
    Spun(bool),
    /// Whether the connection is closed.
    IsClosed(bool),
    /// Whether the ring was ready when looked at after setting the flag, and how
    /// long ago the park began.
    Looked(bool, u64),
    /// The doorbell rang, the flag was cleared; whether the ring is ready, and how
    /// long ago the park began.
    Woke(bool, u64),
}

/// A wait: its state and the spin budget.
#[derive(Debug, Clone, Copy, PartialEq, Eq, Structural)]
pub struct Wait {
    pub state: WaitState,
    pub spin: SpinBudget,
}

impl Wait {
    /// Begins to wait: by spinning if that is armed.
    pub fn begin(spin: SpinBudget) -> (r: Self)
        ensures
            r == if spin.armed {
                Wait { state: WaitState::Spinning, spin }
            } else {
                Wait { state: WaitState::Asking, spin }
            },
    {
        if spin.armed {
            Wait { state: WaitState::Spinning, spin }
        } else {
            Wait { state: WaitState::Asking, spin }
        }
    }

    /// Whether the event answers what the state asked for.
    pub open spec fn expects(self, e: WaitEvent) -> bool {
        match self.state {
            WaitState::Spinning => e is Spun,
            WaitState::Asking => e is IsClosed,
            WaitState::Parking => e is Looked,
            WaitState::Parked => e is IsClosed,
            WaitState::Asleep => e is Woke,
            WaitState::Ready => false,
            WaitState::Closed => false,
        }
    }

    /// What follows an event.
    pub open spec fn after(self, e: WaitEvent) -> Wait {
        match (self.state, e) {
            (WaitState::Spinning, WaitEvent::Spun(hit)) => if hit {
                Wait { state: WaitState::Ready, ..self }
            } else {
                Wait {
                    state: WaitState::Asking,
                    spin: SpinBudget { armed: false, ..self.spin },
                }
            },
            (WaitState::Asking, WaitEvent::IsClosed(closed)) => Wait {
                state: if closed { WaitState::Closed } else { WaitState::Parking },
                ..self
            },
            (WaitState::Parking, WaitEvent::Looked(ready, us)) => if ready {
                Wait { state: WaitState::Ready, spin: rearmed(self.spin, us) }
            } else {
                Wait { state: WaitState::Parked, ..self }
            },
            (WaitState::Parked, WaitEvent::IsClosed(closed)) => Wait {
                state: if closed { WaitState::Closed } else { WaitState::Asleep },
                ..self
            },
            (WaitState::Asleep, WaitEvent::Woke(ready, us)) => if ready {
                Wait { state: WaitState::Ready, spin: rearmed(self.spin, us) }
            } else {
                Wait { state: WaitState::Asking, ..self }
            },
            _ => self,
        }
    }

    /// Goes on after an event. `true` means that the parking flag is to be
    /// cleared.
    pub fn step(&mut self, e: WaitEvent) -> (r: bool)
        requires
            old(self).expects(e),
        ensures
            *final(self) == old(self).after(e),
            r == ((old(self).state == WaitState::Parking && final(self).state == WaitState::Ready)
                || (old(self).state == WaitState::Parked && final(self).state
                == WaitState::Closed)),
    {
        match (self.state, e) {
            (WaitState::Spinning, WaitEvent::Spun(hit)) => {
                if hit {
                    self.state = WaitState::Ready;
                } else {
                    self.spin.armed = false;
                    self.state = WaitState::Asking;
                }
                false
            },
            (WaitState::Asking, WaitEvent::IsClosed(closed)) => {
                self.state = if closed {
                    WaitState::Closed
                } else {
                    WaitState::Parking
                };
                false
            },
            (WaitState::Parking, WaitEvent::Looked(ready, us)) => {
                if ready {
                    rearm_after_park(&mut self.spin, us);
                    self.state = WaitState::Ready;
                    true
                } else {
                    self.state = WaitState::Parked;
                    false
                }
            },
            (WaitState::Parked, WaitEvent::IsClosed(closed)) => {
                if closed {
                    self.state = WaitState::Closed;
                    true
                } else {
                    self.state = WaitState::Asleep;
                    false
                }
            },
            (WaitState::Asleep, WaitEvent::Woke(ready, us)) => {
                if ready {
                    rearm_after_park(&mut self.spin, us);
                    self.state = WaitState::Ready;
                } else {
                    self.state = WaitState::Asking;
                }
                false
            },
            _ => false,
        }
    }
}

/// A task sleeps only after it has set its flag, looked at the ring and found
/// nothing, and asked whether the connection is closed; it reports the ring
/// ready only when it saw so; and it reports the connection closed only when it
/// was told so.
pub proof fn law_wait_is_sound(w: Wait, e: WaitEvent)
    requires
        w.expects(e),
    ensures
        w.after(e).state == WaitState::Asleep ==> w.state == WaitState::Parked && e
            == WaitEvent::IsClosed(false),
        w.after(e).state == WaitState::Parked ==> w.state == WaitState::Parking && e is Looked && !(
        e->Looked_0),
        w.after(e).state == WaitState::Ready ==> (e matches WaitEvent::Spun(true)) || (
        e matches WaitEvent::Looked(true, _)) || (e matches WaitEvent::Woke(true, _)),
        w.after(e).state == WaitState::Closed ==> e == WaitEvent::IsClosed(true),
        e == WaitEvent::IsClosed(true) ==> w.after(e).state == WaitState::Closed,
        w.after(e).spin.us == w.spin.us,
        w.spin.us == 0 && !w.spin.armed ==> !w.after(e).spin.armed,
{
}

// ---------------------------------------------------------------------
// graceful flush
// ---------------------------------------------------------------------

/// What the writer does while it waits for the peer to take everything.
#[derive(Debug, Clone, Copy, PartialEq, Eq, Structural)]
pub enum FlushStep {
    /// Give up: the connection is closed.
    Abandon,
    /// Report that everything was taken.
    Flushed,
    /// Ring the doorbell, wait a little, and look again.
    Nudge,
}

/// The next step of a graceful flush.
pub open spec fn flush_next(closed: bool, drained: bool) -> FlushStep {
    if closed {
        FlushStep::Abandon
    } else if drained {
        FlushStep::Flushed
    } else {
        FlushStep::Nudge
    }
}

/// Decides the next step of a graceful flush.
pub fn flush_step(closed: bool, drained: bool) -> (r: FlushStep)
    ensures
        r == if closed {
            FlushStep::Abandon
        } else if drained {
            FlushStep::Flushed
        } else {
            FlushStep::Nudge
        },
        r == flush_next(closed, drained),
{
    if closed {
        FlushStep::Abandon
    } else if drained {
        FlushStep::Flushed
    } else {
        FlushStep::Nudge
    }
}

/// Each reason reads as what happened, with the message where there is one.
pub proof fn law_reasons_are_told(m: Seq<char>)
    ensures
        CloseView::Local.text() == "connection closed"@,
        CloseView::PeerGone.text() == "peer closed the connection"@,
        CloseView::Protocol(m).text() == "protocol error: "@ + m,
        CloseView::Io(m).text() == "i/o error: "@ + m,
{
}

/// A close gives an open connection its reason, and changes nothing else; it changes
/// nothing at all about one that is closed.
pub proof fn law_close_only_closes(io: IoView, reason: CloseView)
    ensures
        io.closed() <==> io.reason is Some,
        io.reason is None ==> io.close(reason).reason == Some(reason),
        io.reason is Some ==> io.close(reason) == io,
        io.close(reason).graceful == io.graceful,
        io.close(reason).ping_acks == io.ping_acks,
        io.reason matches Some(r) ==> io.close_reason() == r,
        io.reason is None ==> io.close_reason() == CloseView::Local,
        MAX_PENDING_PING_ACKS == 1024,
{
}

/// A wait that is told something goes on from there: a ring that is ready ends it, a
/// connection that is closed ends it, and otherwise the next thing is asked. A spin that
/// found nothing is not tried again until a park ended within the budget.
pub proof fn law_wait_goes_on(w: Wait, e: WaitEvent)
    requires
        w.expects(e),
    ensures
        ({
            let n = w.after(e);
            &&& e == WaitEvent::Spun(true) ==> n.state == WaitState::Ready && n.spin == w.spin
            &&& e == WaitEvent::Spun(false) ==> n.state == WaitState::Asking && !n.spin.armed
            &&& e == WaitEvent::IsClosed(true) ==> n.state == WaitState::Closed && n.spin == w.spin
            &&& e == WaitEvent::IsClosed(false) && w.state == WaitState::Asking ==> n.state
                == WaitState::Parking && n.spin == w.spin
            &&& e == WaitEvent::IsClosed(false) && w.state == WaitState::Parked ==> n.state
                == WaitState::Asleep && n.spin == w.spin
            &&& e matches WaitEvent::Looked(ready, us) ==> {
                &&& ready ==> n.state == WaitState::Ready
                &&& !ready ==> n.state == WaitState::Parked && n.spin == w.spin
            }
            &&& e matches WaitEvent::Woke(ready, us) ==> {
                &&& ready ==> n.state == WaitState::Ready
                &&& !ready ==> n.state == WaitState::Asking && n.spin == w.spin
            }
            &&& n.spin.us == w.spin.us
        }),
{
}

/// A park that found the ring ready arms the spin exactly where it ended within the budget;
/// otherwise the spin stays as it was.
pub proof fn law_short_parks_arm_the_spin(w: Wait, us: u64)
    requires
        w.state == WaitState::Parking || w.state == WaitState::Asleep,
    ensures
        ({
            let n = if w.state == WaitState::Parking {
                w.after(WaitEvent::Looked(true, us))
            } else {
                w.after(WaitEvent::Woke(true, us))
            };
            &&& n.state == WaitState::Ready
            &&& us < w.spin.us ==> n.spin.armed
            &&& us >= w.spin.us ==> n.spin.armed == w.spin.armed
        }),
{
}

/// Each state of a wait asks for one thing; one that is done asks for nothing.
pub proof fn law_what_a_wait_asks_for(w: Wait, e: WaitEvent)
    ensures
        w.expects(e) <==> (w.state == WaitState::Spinning && e is Spun) || (w.state
            == WaitState::Asking && e is IsClosed) || (w.state == WaitState::Parking
            && e is Looked) || (w.state == WaitState::Parked && e is IsClosed) || (w.state
            == WaitState::Asleep && e is Woke),
{
}

/// The end of the doorbell channel and an error on it close the connection, each with its
/// own reason, and stop the task; a doorbell and an empty channel change nothing.
pub proof fn law_dead_channels_close(io: IoView, m: String)
    requires
        io.reason is None,
    ensures
        rung(io, BellRead::End).0.reason == Some(CloseView::PeerGone),
        rung(io, BellRead::End).1 == BellStep::Stop,
        rung(io, BellRead::Failed(m)).0.reason == Some(CloseView::Io(m@)),
        rung(io, BellRead::Failed(m)).1 == BellStep::Stop,
        rung(io, BellRead::Bytes) == (io, BellStep::ReadOn),
        rung(io, BellRead::Empty) == (io, BellStep::Wake),
{
}

/// A flush is reported only where the peer took everything and the connection is still
/// open; a closed connection is given up, and otherwise the peer is nudged.
pub proof fn law_flushes_are_true(closed: bool, drained: bool)
    ensures
        flush_next(closed, drained) == FlushStep::Flushed <==> drained && !closed,
        flush_next(closed, drained) == FlushStep::Abandon <==> closed,
        flush_next(closed, drained) == FlushStep::Nudge <==> !closed && !drained,
{
}

/// Acknowledgements that are queued and not written are counted, up to 1024 at once: one
/// that is queued and written leaves the count as it was.
pub proof fn law_acknowledgements_are_counted(io: IoView)
    ensures
        io.ping_acks < 1024 ==> io.ack_queued().ping_acks == io.ping_acks + 1,
        io.ping_acks >= 1024 ==> io.ack_queued() == io,
        io.ping_acks > 0 ==> io.ack_written().ping_acks == io.ping_acks - 1,
        io.ping_acks < 1024 ==> io.ack_queued().ack_written() == io,
        io.ack_queued().reason == io.reason,
        io.ack_queued().graceful == io.graceful,
        io.ack_written().reason == io.reason,
        io.ack_written().graceful == io.graceful,
{
}

/// A reason shows what it is.
pub proof fn law_reasons_are_shown(r: CloseReason)
    ensures
        r is Local ==> r@ == CloseView::Local,
        r is PeerGone ==> r@ == CloseView::PeerGone,
        r matches CloseReason::Protocol(m) ==> r@ == CloseView::Protocol(m@),
        r matches CloseReason::Io(m) ==> r@ == CloseView::Io(m@),
{
}

} // verus!
