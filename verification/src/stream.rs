//! The pull interface that every stage of the pipeline offers to the stage
//! below it, and the errors that travel down the pipeline.

use vstd::prelude::*;

verus! {

/// Why a stage of the pipeline could not deliver bytes. None of these is
/// recoverable: a stage that reports one has lost its frame or block alignment.
#[derive(Clone, Copy, Debug, PartialEq, Eq, Structural)]
pub enum StreamError {
    /// The capture source could not be read or repositioned.
    Source,
    /// The upstream producer had ended when the read of a frame or block
    /// began: not one byte of it came.
    EndOfStream,
    /// The upstream producer ended inside a frame or block: some of its
    /// bytes came, and not all.
    UnexpectedEof,
    /// A pixel is neither one nor two bytes wide.
    UnsupportedBytesPerPixel,
    /// `width * height * bytes_per_pixel` does not fit in `usize`.
    FrameTooLarge,
    /// `width * height * bytes_per_pixel` is zero.
    EmptyFrame,
}

/// A run of `len` zero bytes: a buffer before anything is read into it, and
/// the block that stands before a stream.
pub open spec fn zero_block(len: nat) -> Seq<u8> {
    Seq::new(len, |i: int| 0u8)
}

/// A blocking source of bytes. Each stage owns the stage above it and pulls
/// from it through this one capability.
pub trait Producer {
    /// What the producer needs to hold of itself between two calls.
    open spec fn inv(&self) -> bool {
        true
    }

    /// What one pull can do: take the producer from `self` to `after` and
    /// the buffer from `before` to `filled`, with the outcome `r`. A
    /// producer that says nothing of itself leaves every outcome open.
    open spec fn pulls(
        &self,
        after: &Self,
        before: Seq<u8>,
        filled: Seq<u8>,
        r: Result<usize, StreamError>,
    ) -> bool {
        true
    }

    /// Writes up to `buf.len()` bytes to the front of `buf` and returns how
    /// many were written.
    fn produce(&mut self, buf: &mut [u8]) -> (r: Result<usize, StreamError>)
        requires
            old(self).inv(),
        ensures
            final(self).inv(),
            final(buf)@.len() == old(buf)@.len(),
            r matches Ok(n) ==> n <= old(buf)@.len(),
            old(self).pulls(final(self), old(buf)@, final(buf)@, r),
    ;
}

/// The part of `buf` from index `from` on, borrowed mutably. Whatever is
/// written through the borrow lands behind the first `from` bytes of `buf`,
/// which stay as they are.
fn tail_mut(buf: &mut [u8], from: usize) -> (tail: &mut [u8])
    requires
        from <= old(buf)@.len(),
    ensures
        tail@ == old(buf)@.skip(from as int),
        final(buf)@ == old(buf)@.take(from as int) + final(tail)@,
{
    let (_head, tail) = buf.split_at_mut(from);
    tail
}

/// Pulls from `inner` until `buf` is full: each pull gets the part of `buf`
/// that is not filled yet. An error of `inner` ends the read and is handed
/// on. A pull that delivers nothing while bytes are still missing ends it
/// too: with `EndOfStream` where none had come before, with `UnexpectedEof`
/// where some had. An empty `buf` is full from the start: `inner` is then
/// not touched.
pub fn fill_exact<R: Producer>(inner: &mut R, buf: &mut [u8]) -> (r: Result<(), StreamError>)
    requires
        old(inner).inv(),
    ensures
        final(inner).inv(),
        final(buf)@.len() == old(buf)@.len(),
        fills(*old(inner), *final(inner), old(buf)@, final(buf)@, 0, r),
        old(buf)@.len() == 0 ==> r is Ok && *final(inner) == *old(inner) && final(buf)@ == old(
            buf,
        )@,
{
    let total = buf.len();
    let mut filled: usize = 0;
    while filled < total
        invariant
            inner.inv(),
            filled <= total,
            total == buf@.len(),
            buf@.len() == old(buf)@.len(),
            total == 0 ==> *inner == *old(inner) && buf@ == old(buf)@,
            forall|end: R, after: Seq<u8>, r: Result<(), StreamError>| #[trigger]
                fills(*inner, end, buf@, after, filled as nat, r) ==> fills(
                    *old(inner),
                    end,
                    old(buf)@,
                    after,
                    0,
                    r,
                ),
        decreases total - filled,
    {
        let ghost at = *inner;
        let ghost had = buf@;
        let rest = tail_mut(buf, filled);
        let step = inner.produce(rest);
        let ghost got = rest@;
        proof {
            assert forall|end: R, after: Seq<u8>, r: Result<(), StreamError>|
                after_pull(*inner, end, had.take(filled as int) + got, after, filled as nat, step, r)
                implies fills(*old(inner), end, old(buf)@, after, 0, r) by {
                lemma_fills_step(at, *inner, end, had, got, after, filled as nat, step, r);
            }
        }
        match step {
            Ok(n) => {
                if n == 0 {
                    return Err(ended(filled));
                }
                filled += n;
            },
            Err(e) => {
                return Err(e);
            },
        }
    }
    assert(fills(*inner, *inner, buf@, buf@, filled as nat, Ok::<(), StreamError>(())));
    Ok(())
}

/// How the end of the source is reported when `filled` bytes of the buffer
/// had been filled before it.
pub open spec fn end_of_source(filled: nat) -> StreamError {
    if filled == 0 {
        StreamError::EndOfStream
    } else {
        StreamError::UnexpectedEof
    }
}

/// How the end of the source is reported when `filled` bytes of the buffer
/// had been filled before it.
fn ended(filled: usize) -> (e: StreamError)
    ensures
        e == end_of_source(filled as nat),
{
    if filled == 0 {
        StreamError::EndOfStream
    } else {
        StreamError::UnexpectedEof
    }
}

/// What is left to do behind one pull that took the producer to `mid` and
/// the buffer to `now`, of which the first `from` bytes had been filled
/// before: nothing behind an error or a pull that delivered nothing, which
/// is the end of the source, and else the rest of the read, with the bytes
/// that came counted as filled.
pub open spec fn after_pull<R: Producer>(
    mid: R,
    end: R,
    now: Seq<u8>,
    after: Seq<u8>,
    from: nat,
    step: Result<usize, StreamError>,
    r: Result<(), StreamError>,
) -> bool
    decreases now.len() - from, 0nat,
{
    match step {
        Ok(count) => if count == 0 {
            r == Err::<(), StreamError>(end_of_source(from)) && end == mid && after == now
        } else {
            from + count <= now.len() && fills(mid, end, now, after, from + count as nat, r)
        },
        Err(e) => r == Err::<(), StreamError>(e) && end == mid && after == now,
    }
}

/// What `fill_exact` makes of a producer `start` and a buffer `before` of
/// which the first `from` bytes are filled: it ends with the producer `end`,
/// the buffer `after` and the outcome `r`. A full buffer is left as it is,
/// with the producer. Else the producer is pulled once, with the part of the
/// buffer that is not filled, and the read goes on behind that pull.
pub open spec fn fills<R: Producer>(
    start: R,
    end: R,
    before: Seq<u8>,
    after: Seq<u8>,
    from: nat,
    r: Result<(), StreamError>,
) -> bool
    decreases before.len() - from, 1nat,
{
    if from >= before.len() {
        r is Ok && end == start && after == before
    } else {
        exists|mid: R, filled: Seq<u8>, step: Result<usize, StreamError>|
            {
                &&& #[trigger] start.pulls(&mid, before.skip(from as int), filled, step)
                &&& filled.len() == before.len() - from
                &&& after_pull(mid, end, before.take(from as int) + filled, after, from, step, r)
            }
    }
}

/// A pull and what follows it make up the read from where the pull began.
proof fn lemma_fills_step<R: Producer>(
    start: R,
    mid: R,
    end: R,
    before: Seq<u8>,
    filled: Seq<u8>,
    after: Seq<u8>,
    from: nat,
    step: Result<usize, StreamError>,
    r: Result<(), StreamError>,
)
    requires
        from < before.len(),
        start.pulls(&mid, before.skip(from as int), filled, step),
        filled.len() == before.len() - from,
        after_pull(mid, end, before.take(from as int) + filled, after, from, step, r),
    ensures
        fills(start, end, before, after, from, r),
{
}

} // verus!
