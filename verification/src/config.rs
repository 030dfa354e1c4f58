//! Tuning of a connection or listener.

use vstd::prelude::*;

use crate::error::{ErrorKind, IoError};
use crate::frame::MAX_FRAME_PAYLOAD;
use crate::seg::cap_allowed;
use crate::text::with_number;

verus! {

use crate::seg::valid_cap;
use crate::text::decimal;

/// Tuning knobs of one connection or listener.
#[derive(Debug, Clone, Copy, PartialEq, Eq, Structural)]
pub struct Config {
    /// Capacity of each ring, a power of two.
    pub ring_size: usize,
    /// Initial per-stream flow-control window, in DATA payload bytes.
    pub stream_window: u32,
    /// Largest DATA payload sent in one frame.
    pub max_frame: usize,
    /// Microseconds to spin on a ring before parking; 0 disables spinning.
    pub spin_us: u32,
    /// Most streams that may be open at once on a connection, if bounded.
    pub max_streams: Option<u32>,
}

impl Default for Config {
    fn default() -> (r: Self)
        ensures
            r == (Config {
                ring_size: 0x100_0000,
                stream_window: 0x80_0000,
                max_frame: 0x10_0000,
                spin_us: 0,
                max_streams: None,
            }),
    {
        Config {
            ring_size: 0x100_0000,
            stream_window: 0x80_0000,
            max_frame: 0x10_0000,
            spin_us: 0,
            max_streams: None,
        }
    }
}

/// `x` moved into the range from `lo` to `hi`.
pub open spec fn clamp(x: int, lo: int, hi: int) -> int {
    if x < lo {
        lo
    } else if x > hi {
        hi
    } else {
        x
    }
}

impl Config {
    /// What a validated configuration satisfies.
    pub open spec fn wf(self) -> bool {
        &&& valid_cap(self.ring_size as int)
        &&& self.stream_window > 0
        &&& 4096 <= self.max_frame <= MAX_FRAME_PAYLOAD
    }

    /// What is wrong with this configuration, if anything.
    pub open spec fn error(self) -> Option<(ErrorKind, Seq<char>)> {
        if !valid_cap(self.ring_size as int) {
            Some(
                (
                    ErrorKind::InvalidInput,
                    "shmsc: ring_size "@ + decimal(self.ring_size as nat)
                        + " must be a power of two in [4 KiB, 1 GiB]"@,
                ),
            )
        } else if self.stream_window == 0 {
            Some((ErrorKind::InvalidInput, "shmsc: zero stream window"@))
        } else {
            None
        }
    }

    /// This configuration with the frame size clamped.
    pub open spec fn clamped(self) -> Config {
        Config {
            max_frame: clamp(self.max_frame as int, 4096, MAX_FRAME_PAYLOAD as int) as usize,
            ..self
        }
    }

    /// Checks the configuration and clamps the frame size.
    pub fn validated(self) -> (r: Result<Self, IoError>)
        ensures
            match r {
                Ok(c) => self.error() is None && c == self.clamped() && c.wf(),
                Err(e) => self.error() == Some(e@),
            },
    {
        if !cap_allowed(self.ring_size) {
            return Err(
                IoError {
                    kind: ErrorKind::InvalidInput,
                    message: with_number(
                        "shmsc: ring_size ",
                        self.ring_size as u64,
                        " must be a power of two in [4 KiB, 1 GiB]",
                    ),
                },
            );
        }
        if self.stream_window == 0 {
            return Err(IoError::new(ErrorKind::InvalidInput, "shmsc: zero stream window"));
        }
        let max_frame: usize = if self.max_frame < 4096 {
            4096
        } else if self.max_frame > MAX_FRAME_PAYLOAD {
            MAX_FRAME_PAYLOAD
        } else {
            self.max_frame
        };
        Ok(
            Config {
                ring_size: self.ring_size,
                stream_window: self.stream_window,
                max_frame,
                spin_us: self.spin_us,
                max_streams: self.max_streams,
            },
        )
    }

    /// The consumed credit at which a WINDOW_UPDATE is sent: a quarter of the
    /// window, at least 1 KiB, and at most half of the window. Without the floor
    /// and the cap a small window would never be granted back, and its sender
    /// would wait for ever.
    pub fn wu_threshold(window: u32) -> (r: u32)
        ensures
            r == threshold(window as int),
    {
        let half: u32 = if window / 2 > 1 {
            window / 2
        } else {
            1
        };
        let floor: u32 = if half < 1024 {
            half
        } else {
            1024
        };
        let quarter: u32 = window / 4;
        if quarter < floor {
            floor
        } else {
            quarter
        }
    }
}

/// A quarter of the window, floored at 1 KiB and capped at half of the window;
/// never zero.
pub open spec fn threshold(window: int) -> int {
    let half = if window / 2 > 1 { window / 2 } else { 1 };
    clamp(window / 4, if half < 1024 { half } else { 1024 }, half)
}

/// The threshold can always be reached: it is positive, and the window holds at
/// least as much as it.
pub proof fn law_threshold_reachable(window: u32)
    requires
        window > 0,
    ensures
        1 <= threshold(window as int) <= window,
        window >= 2 ==> threshold(window as int) <= window / 2,
        window >= 2048 ==> threshold(window as int) >= 1024,
{
}

/// A configuration is refused exactly where its rings are no power of two from 4 KiB to
/// 1 GiB, or its window is zero.
pub proof fn law_what_is_refused(c: Config)
    ensures
        c.error() is None <==> valid_cap(c.ring_size as int) && c.stream_window > 0,
        c.error() matches Some(e) ==> e.0 == ErrorKind::InvalidInput,
        c.error() matches Some(e) ==> e.1 == if valid_cap(c.ring_size as int) {
            "shmsc: zero stream window"@
        } else {
            "shmsc: ring_size "@ + decimal(c.ring_size as nat)
                + " must be a power of two in [4 KiB, 1 GiB]"@
        },
{
}

/// Only the frame size is adjusted: to 4 KiB where it is less, to 16 MiB where it is more,
/// and not at all in between.
pub proof fn law_only_the_frame_size_is_adjusted(c: Config)
    ensures
        c.max_frame < 4096 ==> c.clamped().max_frame == 4096,
        c.max_frame > 16777216 ==> c.clamped().max_frame == 16777216,
        4096 <= c.max_frame <= 16777216 ==> c.clamped().max_frame == c.max_frame,
        c.clamped().ring_size == c.ring_size,
        c.clamped().stream_window == c.stream_window,
        c.clamped().spin_us == c.spin_us,
        c.clamped().max_streams == c.max_streams,
{
}

/// Credit is granted back at a quarter of the window. A small window is granted back at
/// 1 KiB or at half of it, whichever is less, and never at nothing.
pub proof fn law_threshold_of_a_window(window: u32)
    ensures
        window >= 4096 ==> threshold(window as int) == window / 4,
        2048 <= window < 4096 ==> threshold(window as int) == 1024,
        2 <= window < 2048 ==> threshold(window as int) == window / 2,
        window < 2 ==> threshold(window as int) == 1,
{
}

} // verus!
