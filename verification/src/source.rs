//! The frame source: the bookkeeping of a reader that goes over one region
//! of `size` bytes again and again, frame after frame, and never lets one
//! read cross from a frame into the next.
//!
//! The caller holds the handle and the clock. For a read of `requested`
//! bytes it asks `request_len` how many to read, reads them, and reports
//! with `advance` how many came. When `advance` says that the frame is done,
//! the caller puts the handle back at `start`, calls `next_frame`, sleeps as
//! long as that says, and calls `frame_started`.

use vstd::prelude::*;
use crate::stream::StreamError;
use crate::throttle::count_frame;
use crate::throttle::place_anchor;
use crate::throttle::sleep_needed;
use crate::throttle::beyond_catch_up;
use crate::throttle::FrameCapper;
use crate::throttle::Pacing;
use crate::throttle::ThrottleError;

verus! {

/// `width * height * bytes_per_pixel`, where that fits in `usize`.
pub fn frame_size(width: usize, height: usize, bytes_per_pixel: usize) -> (size: Option<usize>)
    ensures
        match size {
            Some(n) => n == width * height * bytes_per_pixel,
            None => width * height * bytes_per_pixel > usize::MAX,
        },
{
    if bytes_per_pixel == 0 {
        assert(width * height * bytes_per_pixel == 0) by (nonlinear_arith)
            requires
                bytes_per_pixel == 0,
        ;
        return Some(0);
    }
    match width.checked_mul(height) {
        Some(pixels) => match pixels.checked_mul(bytes_per_pixel) {
            Some(size) => Some(size),
            None => None,
        },
        None => {
            assert(width * height * bytes_per_pixel > usize::MAX) by (nonlinear_arith)
                requires
                    width * height > usize::MAX,
                    bytes_per_pixel >= 1,
            ;
            None
        },
    }
}

/// Where a reader stands in the region that it re-reads, with the throttle
/// that paces it, if it has one.
pub struct ReStreamer {
    start: u64,
    cursor: usize,
    size: usize,
    framecapper: Option<FrameCapper>,
}

impl ReStreamer {
    /// Where the region starts in the capture source.
    pub closed spec fn start(&self) -> int {
        self.start as int
    }

    /// How many bytes of the current frame have been read.
    pub closed spec fn cursor(&self) -> int {
        self.cursor as int
    }

    /// The size of a frame in bytes.
    pub closed spec fn size(&self) -> int {
        self.size as int
    }

    /// The state of the throttle, if there is one.
    pub closed spec fn throttle(&self) -> Option<Pacing> {
        match self.framecapper {
            Some(capper) => Some(capper@),
            None => None,
        }
    }

    /// A frame has at least one byte, and the cursor is within the frame.
    pub closed spec fn wf(&self) -> bool {
        0 < self.size && self.cursor <= self.size
    }

    /// The bookkeeping for a region of `width * height` pixels that starts
    /// at `offset`, at the start of a frame. A frame of no bytes is refused,
    /// and one whose size does not fit in `usize`. The caller opens the
    /// source and goes through a frame boundary once before its first read.
    pub fn init(
        offset: usize,
        width: usize,
        height: usize,
        bytes_per_pixel: usize,
        framecapper: Option<FrameCapper>,
    ) -> (r: Result<ReStreamer, StreamError>)
        ensures
            match r {
                Ok(streamer) => {
                    &&& 0 < width * height * bytes_per_pixel <= usize::MAX
                    &&& streamer.wf()
                    &&& streamer.start() == offset
                    &&& streamer.cursor() == 0
                    &&& streamer.size() == width * height * bytes_per_pixel
                    &&& streamer.throttle() == match framecapper {
                        Some(capper) => Some(capper@),
                        None => None,
                    }
                },
                Err(e) => {
                    &&& width * height * bytes_per_pixel == 0 ==> e == StreamError::EmptyFrame
                    &&& width * height * bytes_per_pixel > usize::MAX ==> e
                        == StreamError::FrameTooLarge
                    &&& width * height * bytes_per_pixel == 0 || width * height * bytes_per_pixel
                        > usize::MAX
                },
            },
    {
        match frame_size(width, height, bytes_per_pixel) {
            None => Err(StreamError::FrameTooLarge),
            Some(size) => {
                if size == 0 {
                    Err(StreamError::EmptyFrame)
                } else {
                    Ok(ReStreamer { start: offset as u64, cursor: 0, size, framecapper })
                }
            },
        }
    }

    /// Where the region starts in the capture source.
    pub fn start_offset(&self) -> (start: u64)
        ensures
            start == self.start(),
    {
        self.start
    }

    /// How many bytes of the current frame have been read.
    pub fn position(&self) -> (cursor: usize)
        ensures
            cursor == self.cursor(),
    {
        self.cursor
    }

    /// The size of a frame in bytes.
    pub fn frame_size(&self) -> (size: usize)
        ensures
            size == self.size(),
    {
        self.size
    }

    /// How many frames the throttle counts as missed; `None` without a
    /// throttle.
    pub fn missed_frames(&self) -> (missed: Option<u32>)
        ensures
            match self.throttle() {
                Some(p) => missed matches Some(m) && m == p.missed,
                None => missed is None,
            },
    {
        match &self.framecapper {
            Some(capper) => Some(capper.missed_frames()),
            None => None,
        }
    }

    /// When the throttle holds the current frame to have been due; `None`
    /// without a throttle.
    pub fn last_frame(&self) -> (anchor: Option<u128>)
        ensures
            match self.throttle() {
                Some(p) => anchor matches Some(t) && t == p.anchor,
                None => anchor is None,
            },
    {
        match &self.framecapper {
            Some(capper) => Some(capper.last_frame()),
            None => None,
        }
    }

    /// How many bytes to read for a request of `requested` bytes: the
    /// request, cut down to what is left of the current frame. A request
    /// for just what is left is served whole, and ends the frame.
    pub fn request_len(&self, requested: usize) -> (len: usize)
        requires
            self.wf(),
        ensures
            len == if requested <= self.size() - self.cursor() {
                requested as int
            } else {
                self.size() - self.cursor()
            },
    {
        let rest = self.size - self.cursor;
        if requested <= rest {
            requested
        } else {
            rest
        }
    }

    /// Takes note that `bytes_read` bytes of the current frame were read,
    /// and says whether the frame is done with them. It then is for the
    /// caller to start the next frame.
    pub fn advance(&mut self, bytes_read: usize) -> (frame_done: bool)
        requires
            old(self).wf(),
            old(self).cursor() + bytes_read <= old(self).size(),
        ensures
            final(self).wf(),
            final(self).cursor() == old(self).cursor() + bytes_read,
            final(self).start() == old(self).start(),
            final(self).size() == old(self).size(),
            final(self).throttle() == old(self).throttle(),
            frame_done <==> final(self).cursor() == final(self).size(),
    {
        self.cursor = self.cursor + bytes_read;
        self.cursor == self.size
    }

    /// Starts the next frame, once the caller has put the handle back at
    /// `start`: the cursor goes to zero, and the throttle, if there is one,
    /// takes its first step at `now`, once. Returns how long to sleep.
    pub fn next_frame(&mut self, now: u128) -> (sleep: u128)
        requires
            old(self).wf(),
            old(self).throttle() matches Some(p) ==> now >= p.anchor,
        ensures
            final(self).wf(),
            final(self).cursor() == 0,
            final(self).start() == old(self).start(),
            final(self).size() == old(self).size(),
            match old(self).throttle() {
                Some(p) => {
                    &&& final(self).throttle() == Some(count_frame(p, now as int))
                    &&& sleep == sleep_needed(p, now as int)
                },
                None => final(self).throttle() is None && sleep == 0,
            },
    {
        self.cursor = 0;
        match &mut self.framecapper {
            Some(capper) => capper.sync_framerate(now),
            None => 0,
        }
    }

    /// Ends a frame boundary after the sleep, at `now`: the throttle, if
    /// there is one, takes its second step, and its error is handed on.
    pub fn frame_started(&mut self, now: u128) -> (r: Result<(), ThrottleError>)
        ensures
            final(self).wf() == old(self).wf(),
            final(self).cursor() == old(self).cursor(),
            final(self).start() == old(self).start(),
            final(self).size() == old(self).size(),
            match old(self).throttle() {
                Some(p) => {
                    &&& r is Err <==> !beyond_catch_up(p) && p.anchor + p.frame_duration
                        > u128::MAX
                    &&& match r {
                        Ok(()) => final(self).throttle() == Some(place_anchor(p, now as int)),
                        Err(e) => e == ThrottleError::NextFrameOverflow && final(self).throttle()
                            == Some(p),
                    }
                },
                None => r is Ok && final(self).throttle() is None,
            },
    {
        match &mut self.framecapper {
            Some(capper) => capper.next_frame_time(now),
            None => Ok(()),
        }
    }
}

} // verus!
