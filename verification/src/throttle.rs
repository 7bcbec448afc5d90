//! The frame-rate throttle. It keeps an anchor, the time at which the
//! current frame was due, and counts the frames that came late. All times
//! are nanoseconds on one clock that the caller reads.
//!
//! A frame boundary takes two steps, with the sleep between them:
//! `sync_framerate` says how long to sleep and counts the frame, and
//! `next_frame_time` then moves the anchor.

use vstd::prelude::*;

verus! {

/// The lag, in nanoseconds, up to which the throttle tries to catch up.
pub const CATCH_UP_WINDOW: u128 = 1_000_000_000;

/// The anchor could not be moved on by one frame: the time does not fit.
#[derive(Clone, Copy, Debug, PartialEq, Eq, Structural)]
pub enum ThrottleError {
    NextFrameOverflow,
}

/// What a throttle holds, as plain numbers.
pub struct Pacing {
    /// When the current frame was due.
    pub anchor: int,
    /// The time between two frames.
    pub frame_duration: int,
    /// How many frames came late and have not been made up for.
    pub missed: int,
}

/// Whether a frame that ends at `now` ends before the next one is due.
pub open spec fn is_early(p: Pacing, now: int) -> bool {
    p.frame_duration > now - p.anchor
}

/// How long to sleep at a frame boundary reached at `now`: until the next
/// frame is due, and not at all when that time has passed.
pub open spec fn sleep_needed(p: Pacing, now: int) -> int {
    if is_early(p, now) {
        p.frame_duration - (now - p.anchor)
    } else {
        0
    }
}

/// Whether the missed frames add up to more than the catch-up window.
pub open spec fn beyond_catch_up(p: Pacing) -> bool {
    p.missed * p.frame_duration > CATCH_UP_WINDOW
}

/// The throttle after it has counted the frame that ended at `now`: an early
/// frame makes up for one missed frame. A late one is one more missed frame
/// while the missed frames are within the catch-up window: beyond it no
/// frame is counted. The count stays within `u32`.
pub open spec fn count_frame(p: Pacing, now: int) -> Pacing {
    Pacing {
        missed: if is_early(p, now) {
            if p.missed > 0 {
                p.missed - 1
            } else {
                0
            }
        } else {
            if !beyond_catch_up(p) && p.missed < u32::MAX {
                p.missed + 1
            } else {
                p.missed
            }
        },
        ..p
    }
}

/// The bound on the missed frames: they add up to no more than the catch-up
/// window and one frame.
pub open spec fn within_bound(p: Pacing) -> bool {
    p.missed * p.frame_duration <= CATCH_UP_WINDOW + p.frame_duration
}

/// The throttle after it has set the anchor for the next frame at `now`:
/// one frame on, or `now` itself where catching up is given up.
pub open spec fn place_anchor(p: Pacing, now: int) -> Pacing {
    Pacing {
        anchor: if beyond_catch_up(p) {
            now
        } else {
            p.anchor + p.frame_duration
        },
        ..p
    }
}

/// The throttle: when the current frame was due, how far apart frames are,
/// and how many came late.
pub struct FrameCapper {
    last_frame: u128,
    frame_duration: u128,
    missed_frames: u32,
}

impl View for FrameCapper {
    type V = Pacing;

    closed spec fn view(&self) -> Pacing {
        Pacing {
            anchor: self.last_frame as int,
            frame_duration: self.frame_duration as int,
            missed: self.missed_frames as int,
        }
    }
}

impl FrameCapper {
    /// A throttle for one frame every `frame_duration_micros` microseconds,
    /// with its first frame due at `now`.
    pub fn new(frame_duration_micros: u64, now: u128) -> (capper: Self)
        ensures
            capper@ == (Pacing {
                anchor: now as int,
                frame_duration: frame_duration_micros * 1000,
                missed: 0,
            }),
            within_bound(capper@),
    {
        FrameCapper {
            last_frame: now,
            frame_duration: frame_duration_micros as u128 * 1000,
            missed_frames: 0,
        }
    }

    /// When the current frame was due.
    pub fn last_frame(&self) -> (t: u128)
        ensures
            t == self@.anchor,
    {
        self.last_frame
    }

    /// The time between two frames.
    pub fn frame_duration(&self) -> (d: u128)
        ensures
            d == self@.frame_duration,
    {
        self.frame_duration
    }

    /// How many frames came late and have not been made up for.
    pub fn missed_frames(&self) -> (m: u32)
        ensures
            m == self@.missed,
    {
        self.missed_frames
    }

    /// The first step at a frame boundary, reached at `now`: counts the
    /// frame and returns how long the caller has to sleep before the second
    /// step, `next_frame_time`. The clock must not have gone back behind the
    /// anchor.
    pub fn sync_framerate(&mut self, now: u128) -> (sleep: u128)
        requires
            now >= old(self)@.anchor,
        ensures
            final(self)@ == count_frame(old(self)@, now as int),
            sleep == sleep_needed(old(self)@, now as int),
            within_bound(old(self)@) ==> within_bound(final(self)@),
    {
        proof {
            lemma_count_keeps_bound(self@, now as int);
        }
        let elapsed = now - self.last_frame;
        if self.frame_duration > elapsed {
            if self.missed_frames > 0 {
                self.missed_frames = self.missed_frames - 1;
            }
            self.frame_duration - elapsed
        } else {
            if !self.beyond_catch_up() && self.missed_frames < u32::MAX {
                self.missed_frames = self.missed_frames + 1;
            }
            0
        }
    }

    /// Whether the missed frames add up to more than the catch-up window.
    pub fn beyond_catch_up(&self) -> (beyond: bool)
        ensures
            beyond == beyond_catch_up(self@),
    {
        match (self.missed_frames as u128).checked_mul(self.frame_duration) {
            Some(lag) => lag > CATCH_UP_WINDOW,
            None => true,
        }
    }

    /// The second step at a frame boundary, after the sleep, at `now`: moves
    /// the anchor on by one frame, or to `now` where the missed frames come
    /// to more than the catch-up window. Where one frame on is past the
    /// largest time, nothing changes and the error says so.
    pub fn next_frame_time(&mut self, now: u128) -> (r: Result<(), ThrottleError>)
        ensures
            r is Err <==> !beyond_catch_up(old(self)@) && old(self)@.anchor + old(
                self,
            )@.frame_duration > u128::MAX,
            match r {
                Ok(()) => final(self)@ == place_anchor(old(self)@, now as int),
                Err(e) => e == ThrottleError::NextFrameOverflow && final(self)@ == old(self)@,
            },
            within_bound(old(self)@) ==> within_bound(final(self)@),
    {
        if self.beyond_catch_up() {
            self.last_frame = now;
            Ok(())
        } else {
            match self.last_frame.checked_add(self.frame_duration) {
                Some(next) => {
                    self.last_frame = next;
                    Ok(())
                },
                None => Err(ThrottleError::NextFrameOverflow),
            }
        }
    }
}

/// Counting a frame keeps the bound: the missed frames of a throttle that
/// runs never add up to more than the catch-up window and one frame. With a
/// frame every 100 ms that is eleven frames, the count at which the window
/// is passed and the anchor is set anew.
pub proof fn lemma_count_keeps_bound(p: Pacing, now: int)
    requires
        p.missed >= 0,
        p.frame_duration >= 0,
    ensures
        within_bound(p) ==> within_bound(count_frame(p, now)),
        within_bound(p) ==> within_bound(place_anchor(p, now)),
        !beyond_catch_up(p) ==> within_bound(p),
{
    let m = p.missed;
    let d = p.frame_duration;
    assert((m + 1) * d == m * d + d && (m - 1) * d == m * d - d) by (nonlinear_arith);
}

/// Within the bound, no more frames are missed than fit in the catch-up
/// window, and one.
pub proof fn lemma_missed_frames_bounded(p: Pacing)
    requires
        p.frame_duration > 0,
        p.missed >= 0,
        within_bound(p),
    ensures
        p.missed <= (CATCH_UP_WINDOW as int) / p.frame_duration + 1,
{
    let m = p.missed;
    let d = p.frame_duration;
    let w = CATCH_UP_WINDOW as int;
    assert(m <= w / d + 1) by (nonlinear_arith)
        requires
            d > 0,
            m >= 0,
            m * d <= w + d,
    ;
}

} // verus!
