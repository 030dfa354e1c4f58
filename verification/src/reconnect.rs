//! Connecting again: a connection that broke is replaced by a fresh one for the
//! next call.

use vstd::prelude::*;

verus! {

/// Where a connection stands.
#[derive(Debug, Clone, Copy, PartialEq, Eq, Structural)]
pub enum Line {
    /// There is none: its maker is asked whether it is ready.
    Idle,
    /// An attempt to connect runs.
    Connecting,
    /// There is one.
    Connected,
}

/// A connection that is made again when it breaks.
#[derive(Debug, Clone, Copy, PartialEq, Eq, Structural)]
pub struct Reconnect {
    pub line: Line,
    /// Nobody waits for the first connection.
    pub lazy: bool,
    /// There was a connection before.
    pub connected_before: bool,
    /// The error of a failed attempt waits for the next call.
    pub error_waits: bool,
}

/// What came of asking the maker, the attempt or the connection.
#[derive(Debug, Clone, Copy, PartialEq, Eq, Structural)]
pub enum LineEvent {
    /// The maker is ready, and an attempt was begun.
    Begun,
    /// The maker failed.
    MakerFailed,
    /// The attempt gave a connection.
    Made,
    /// The attempt failed.
    AttemptFailed,
    /// The connection is ready for a call.
    Ready,
    /// The connection is broken.
    Broken,
}

/// What to do next.
#[derive(Debug, Clone, Copy, PartialEq, Eq, Structural)]
pub enum LineStep {
    /// Ask whatever the line now stands at.
    Ask,
    /// Report that a call can be made.
    Ready,
    /// Report the error.
    Fail,
}

/// What becomes of a call.
#[derive(Debug, Clone, Copy, PartialEq, Eq, Structural)]
pub enum CallStep {
    /// It fails with the error that waits.
    Fail,
    /// It goes to the connection.
    Send,
}

impl Reconnect {
    /// Whether the event answers what was asked.
    pub open spec fn expects(self, e: LineEvent) -> bool {
        match self.line {
            Line::Idle => e == LineEvent::Begun || e == LineEvent::MakerFailed,
            Line::Connecting => e == LineEvent::Made || e == LineEvent::AttemptFailed,
            Line::Connected => e == LineEvent::Ready || e == LineEvent::Broken,
        }
    }

    /// Whether a failed attempt is kept for the next call: only the first one of a
    /// connection that somebody waits for is reported at once.
    pub open spec fn keeps_errors(self) -> bool {
        self.lazy || self.connected_before
    }

    /// What follows an event.
    pub open spec fn after(self, e: LineEvent) -> (Reconnect, LineStep) {
        match e {
            LineEvent::Begun => (Reconnect { line: Line::Connecting, ..self }, LineStep::Ask),
            LineEvent::MakerFailed => (self, LineStep::Fail),
            LineEvent::Made => (Reconnect { line: Line::Connected, ..self }, LineStep::Ask),
            LineEvent::AttemptFailed => if self.keeps_errors() {
                (Reconnect { line: Line::Idle, error_waits: true, ..self }, LineStep::Ready)
            } else {
                (Reconnect { line: Line::Idle, ..self }, LineStep::Fail)
            },
            LineEvent::Ready => (Reconnect { connected_before: true, ..self }, LineStep::Ready),
            LineEvent::Broken => (
                Reconnect { line: Line::Idle, connected_before: true, ..self },
                LineStep::Ask,
            ),
        }
    }

    /// Without a connection yet.
    pub fn new(lazy: bool) -> (r: Self)
        ensures
            r == (Reconnect {
                line: Line::Idle,
                lazy,
                connected_before: false,
                error_waits: false,
            }),
    {
        Reconnect { line: Line::Idle, lazy, connected_before: false, error_waits: false }
    }

    /// Begins to ask whether a call can be made: it can where an error waits for it.
    pub fn begin(&self) -> (r: LineStep)
        ensures
            r == if self.error_waits {
                LineStep::Ready
            } else {
                LineStep::Ask
            },
    {
        if self.error_waits {
            LineStep::Ready
        } else {
            LineStep::Ask
        }
    }

    /// Goes on after an event.
    pub fn step(&mut self, e: LineEvent) -> (r: LineStep)
        requires
            old(self).expects(e),
        ensures
            (*final(self), r) == old(self).after(e),
    {
        match e {
            LineEvent::Begun => {
                self.line = Line::Connecting;
                LineStep::Ask
            },
            LineEvent::MakerFailed => LineStep::Fail,
            LineEvent::Made => {
                self.line = Line::Connected;
                LineStep::Ask
            },
            LineEvent::AttemptFailed => {
                self.line = Line::Idle;
                if self.lazy || self.connected_before {
                    self.error_waits = true;
                    LineStep::Ready
                } else {
                    LineStep::Fail
                }
            },
            LineEvent::Ready => {
                self.connected_before = true;
                LineStep::Ready
            },
            LineEvent::Broken => {
                self.connected_before = true;
                self.line = Line::Idle;
                LineStep::Ask
            },
        }
    }

    /// Whether a call may be made: an error waits for it, or there is a connection.
    pub open spec fn callable(self) -> bool {
        self.error_waits || self.line == Line::Connected
    }

    /// Decides what becomes of a call.
    pub fn call(&mut self) -> (r: CallStep)
        requires
            old(self).callable(),
        ensures
            *final(self) == (Reconnect { error_waits: false, ..*old(self) }),
            r == if old(self).error_waits {
                CallStep::Fail
            } else {
                CallStep::Send
            },
    {
        if self.error_waits {
            self.error_waits = false;
            CallStep::Fail
        } else {
            CallStep::Send
        }
    }
}

/// Whoever is told that a call can be made can make it, and one that broke leads to
/// a fresh attempt, never to an error by itself. Once there was a connection, only
/// its maker makes readiness fail: a failed attempt fails the next call alone.
pub proof fn law_broken_connections_are_replaced(r: Reconnect, e: LineEvent)
    requires
        r.expects(e),
    ensures
        r.after(e).1 == LineStep::Ready ==> r.after(e).0.callable(),
        e == LineEvent::Broken ==> r.after(e).0.line == Line::Idle && r.after(e).1
            == LineStep::Ask && r.after(e).0.keeps_errors(),
        r.keeps_errors() ==> r.after(e).0.keeps_errors(),
        r.keeps_errors() && r.after(e).1 == LineStep::Fail ==> e == LineEvent::MakerFailed,
{
}

/// A connection comes about and is used: the maker begins an attempt, the attempt makes the
/// connection, and the connection takes calls. Only the first attempt of a connection that
/// somebody waits for fails at once; the error of any other waits for the next call.
pub proof fn law_how_a_connection_comes_about(r: Reconnect)
    ensures
        r.after(LineEvent::Begun).0.line == Line::Connecting,
        r.after(LineEvent::Begun).1 == LineStep::Ask,
        r.after(LineEvent::Made).0.line == Line::Connected,
        r.after(LineEvent::Made).1 == LineStep::Ask,
        r.after(LineEvent::Ready).0.line == r.line,
        r.after(LineEvent::Ready).0.connected_before,
        r.after(LineEvent::Ready).1 == LineStep::Ready,
        r.after(LineEvent::MakerFailed) == (r, LineStep::Fail),
        r.after(LineEvent::AttemptFailed).0.line == Line::Idle,
        !r.lazy && !r.connected_before ==> r.after(LineEvent::AttemptFailed).1 == LineStep::Fail
            && r.after(LineEvent::AttemptFailed).0.error_waits == r.error_waits,
        r.lazy || r.connected_before ==> r.after(LineEvent::AttemptFailed).1 == LineStep::Ready
            && r.after(LineEvent::AttemptFailed).0.error_waits,
        r.after(LineEvent::Broken).0.line == Line::Idle,
        r.after(LineEvent::Broken).0.connected_before,
        r.after(LineEvent::Broken).1 == LineStep::Ask,
{
}

/// What no event changes: whether somebody waits for the first connection; an error that
/// waits for the next call stays; and once there was a connection, there was one.
pub proof fn law_what_events_leave_alone(r: Reconnect, e: LineEvent)
    ensures
        r.after(e).0.lazy == r.lazy,
        r.error_waits ==> r.after(e).0.error_waits,
        r.connected_before ==> r.after(e).0.connected_before,
        e != LineEvent::AttemptFailed ==> r.after(e).0.error_waits == r.error_waits,
        e != LineEvent::Ready && e != LineEvent::Broken ==> r.after(e).0.connected_before
            == r.connected_before,
{
}

/// What each state is answered with, and when a call may be made.
pub proof fn law_what_a_line_is_asked(r: Reconnect, e: LineEvent)
    ensures
        r.line == Line::Idle ==> (r.expects(e) <==> e == LineEvent::Begun || e
            == LineEvent::MakerFailed),
        r.line == Line::Connecting ==> (r.expects(e) <==> e == LineEvent::Made || e
            == LineEvent::AttemptFailed),
        r.line == Line::Connected ==> (r.expects(e) <==> e == LineEvent::Ready || e
            == LineEvent::Broken),
        r.callable() <==> r.error_waits || r.line == Line::Connected,
{
}

} // verus!
