//! The delta-XOR codec. The encoder hands on, for each byte of its source,
//! the exclusive-or of that byte with the byte one block earlier in the
//! stream; the decoder turns that back into the stream. Before the stream
//! stands a block of zeros.
//!
//! Both ends keep the last block of plain bytes, oldest first: the window.
//! The contracts are stated over it, so that what one end encodes in any
//! number of calls the other end decodes in any number of calls.

use vstd::prelude::*;
use std::collections::VecDeque;
use crate::stream::fill_exact;
use crate::stream::fills;
use crate::stream::zero_block;
use crate::stream::Producer;
use crate::stream::StreamError;

verus! {

/// What the encoder makes of `plain` when `window` holds the block before
/// it: each byte is joined by exclusive-or with the byte one block earlier.
pub open spec fn xor_encode(window: Seq<u8>, plain: Seq<u8>) -> Seq<u8> {
    Seq::new(plain.len(), |i: int| plain[i] ^ (window + plain)[i])
}

/// What the decoder makes of `diff` when `window` holds the block before
/// it: each byte is joined by exclusive-or with the plain byte one block
/// earlier.
pub open spec fn xor_decode(window: Seq<u8>, diff: Seq<u8>) -> Seq<u8>
    decreases diff.len(),
{
    if diff.len() == 0 {
        Seq::empty()
    } else {
        let before = xor_decode(window, diff.drop_last());
        before.push(diff.last() ^ (window + before)[diff.len() - 1])
    }
}

/// The window behind `plain`: the last block of `window` followed by
/// `plain`.
pub open spec fn window_after(window: Seq<u8>, plain: Seq<u8>) -> Seq<u8> {
    (window + plain).skip(plain.len() as int)
}

/// What the encoder makes of a stream that it gets chunk by chunk, starting
/// with `window`.
pub open spec fn encode_chunks(window: Seq<u8>, chunks: Seq<Seq<u8>>) -> Seq<Seq<u8>>
    decreases chunks.len(),
{
    if chunks.len() == 0 {
        Seq::empty()
    } else {
        seq![xor_encode(window, chunks[0])] + encode_chunks(
            window_after(window, chunks[0]),
            chunks.skip(1),
        )
    }
}

/// What the decoder makes of a stream that it gets chunk by chunk, starting
/// with `window`.
pub open spec fn decode_chunks(window: Seq<u8>, chunks: Seq<Seq<u8>>) -> Seq<Seq<u8>>
    decreases chunks.len(),
{
    if chunks.len() == 0 {
        Seq::empty()
    } else {
        let plain = xor_decode(window, chunks[0]);
        seq![plain] + decode_chunks(window_after(window, plain), chunks.skip(1))
    }
}

/// Joining a byte twice with the same byte gives it back.
proof fn lemma_xor_twice(x: u8, y: u8)
    by (bit_vector)
    ensures
        (x ^ y) ^ y == x,
        x ^ x == 0,
{
}

/// Decoding gives as many bytes as it gets.
pub proof fn lemma_decode_len(window: Seq<u8>, diff: Seq<u8>)
    ensures
        xor_decode(window, diff).len() == diff.len(),
    decreases diff.len(),
{
    if diff.len() > 0 {
        lemma_decode_len(window, diff.drop_last());
    }
}

/// One more plain byte adds one byte to the encoding, made with the oldest
/// byte of the window, and moves the window on by one.
pub proof fn lemma_encode_push(window: Seq<u8>, plain: Seq<u8>, byte: u8)
    requires
        window.len() >= 1,
    ensures
        xor_encode(window, plain.push(byte)) == xor_encode(window, plain).push(
            byte ^ window_after(window, plain)[0],
        ),
        window_after(window, plain.push(byte)) == window_after(window, plain).skip(1).push(byte),
        window_after(window, plain).len() == window.len(),
{
}

/// One more byte to decode adds one plain byte, made with the oldest byte
/// of the window.
pub proof fn lemma_decode_push(window: Seq<u8>, diff: Seq<u8>, byte: u8)
    requires
        window.len() >= 1,
    ensures
        xor_decode(window, diff.push(byte)) == xor_decode(window, diff).push(
            byte ^ window_after(window, xor_decode(window, diff))[0],
        ),
{
    lemma_decode_len(window, diff);
    assert(diff.push(byte).drop_last() =~= diff);
}

/// Decoding undoes encoding: for every window of at least one byte and
/// every run of bytes.
pub proof fn lemma_decode_encode(window: Seq<u8>, plain: Seq<u8>)
    requires
        window.len() >= 1,
    ensures
        xor_decode(window, xor_encode(window, plain)) == plain,
    decreases plain.len(),
{
    if plain.len() > 0 {
        let front = plain.drop_last();
        let last = plain.last();
        assert(plain =~= front.push(last));
        lemma_decode_encode(window, front);
        lemma_encode_push(window, front, last);
        let old_byte = window_after(window, front)[0];
        lemma_decode_push(window, xor_encode(window, front), last ^ old_byte);
        lemma_xor_twice(last, old_byte);
    }
}

/// Encoding undoes decoding: for every window of at least one byte and
/// every run of bytes.
pub proof fn lemma_encode_decode(window: Seq<u8>, diff: Seq<u8>)
    requires
        window.len() >= 1,
    ensures
        xor_encode(window, xor_decode(window, diff)) == diff,
    decreases diff.len(),
{
    if diff.len() > 0 {
        let front = diff.drop_last();
        let last = diff.last();
        lemma_encode_decode(window, front);
        let plain = xor_decode(window, front);
        let old_byte = window_after(window, plain)[0];
        lemma_encode_push(window, plain, last ^ old_byte);
        lemma_xor_twice(last, old_byte);
    }
}

/// The window behind two runs is the window behind the second, taken from
/// the window behind the first.
pub proof fn lemma_window_concat(window: Seq<u8>, first: Seq<u8>, second: Seq<u8>)
    ensures
        window_after(window, first + second) == window_after(
            window_after(window, first),
            second,
        ),
        window_after(window, first).len() == window.len(),
{
}

/// Encoding does not depend on how the stream is cut: two runs encoded one
/// after the other give what they give encoded as one.
pub proof fn lemma_encode_concat(window: Seq<u8>, first: Seq<u8>, second: Seq<u8>)
    ensures
        xor_encode(window, first + second) == xor_encode(window, first) + xor_encode(
            window_after(window, first),
            second,
        ),
{
}

/// Decoding does not depend on how the stream is cut: two runs decoded one
/// after the other give what they give decoded as one.
pub proof fn lemma_decode_concat(window: Seq<u8>, first: Seq<u8>, second: Seq<u8>)
    requires
        window.len() >= 1,
    ensures
        xor_decode(window, first + second) == xor_decode(window, first) + xor_decode(
            window_after(window, xor_decode(window, first)),
            second,
        ),
{
    let plain = xor_decode(window, first + second);
    lemma_encode_decode(window, first + second);
    let head = plain.take(first.len() as int);
    let tail = plain.skip(first.len() as int);
    let head_diff = xor_encode(window, head);
    let tail_diff = xor_encode(window_after(window, head), tail);
    assert(head_diff =~= (first + second).take(first.len() as int));
    assert(tail_diff =~= (first + second).skip(first.len() as int));
    assert((first + second).take(first.len() as int) =~= first);
    assert((first + second).skip(first.len() as int) =~= second);
    lemma_decode_encode(window, head);
    lemma_decode_encode(window_after(window, head), tail);
}

/// The two ends stay in step: a decoder that starts a run with the window
/// of the encoder has the window of the encoder behind that run.
pub proof fn lemma_ends_stay_in_step(window: Seq<u8>, plain: Seq<u8>)
    requires
        window.len() >= 1,
    ensures
        window_after(window, xor_decode(window, xor_encode(window, plain))) == window_after(
            window,
            plain,
        ),
{
    lemma_decode_encode(window, plain);
}

/// A stream that is encoded chunk by chunk and decoded chunk by chunk, both
/// from the same window of at least one byte, comes out as it went in.
pub proof fn lemma_round_trip(window: Seq<u8>, chunks: Seq<Seq<u8>>)
    requires
        window.len() >= 1,
    ensures
        decode_chunks(window, encode_chunks(window, chunks)) == chunks,
    decreases chunks.len(),
{
    if chunks.len() > 0 {
        let next = window_after(window, chunks[0]);
        assert(encode_chunks(window, chunks).skip(1) =~= encode_chunks(next, chunks.skip(1)));
        lemma_decode_encode(window, chunks[0]);
        lemma_round_trip(next, chunks.skip(1));
    }
}

/// A block that follows itself is encoded as zeros, and the window behind a
/// block is that block.
pub proof fn lemma_repeated_block(window: Seq<u8>, block: Seq<u8>)
    requires
        block.len() == window.len(),
    ensures
        window_after(window, block) == block,
        xor_encode(block, block) == zero_block(block.len()),
        xor_encode(window, block + block) == xor_encode(window, block) + zero_block(block.len()),
{
    assert forall|i: int| 0 <= i < block.len() implies #[trigger] xor_encode(block, block)[i]
        == 0u8 by {
        lemma_xor_twice(block[i], block[i]);
    }
}

/// The encoding end of the codec, over the producer `R` of plain bytes.
pub struct XorStream<R> {
    inner: R,
    last_cache: Vec<u8>,
    last_cache_index: usize,
}

impl<R: Producer> XorStream<R> {
    /// The producer of plain bytes.
    pub closed spec fn source(&self) -> R {
        self.inner
    }

    /// The last block of plain bytes, oldest first.
    pub closed spec fn window(&self) -> Seq<u8> {
        self.last_cache@.skip(self.last_cache_index as int) + self.last_cache@.take(
            self.last_cache_index as int,
        )
    }

    /// The window is a block of at least one byte.
    pub closed spec fn wf(&self) -> bool {
        &&& self.inner.inv()
        &&& self.last_cache@.len() >= 1
        &&& self.last_cache_index < self.last_cache@.len()
    }

    /// An encoder for blocks of `block_size` bytes, at the start of a stream.
    pub fn new(block_size: usize, inner: R) -> (stream: Self)
        requires
            block_size >= 1,
            inner.inv(),
        ensures
            stream.wf(),
            stream.window() == zero_block(block_size as nat),
            stream.source() == inner,
    {
        let stream = XorStream { inner, last_cache: vec![0u8; block_size], last_cache_index: 0 };
        stream
    }

    /// The size of a block.
    pub fn block_size(&self) -> (size: usize)
        requires
            self.wf(),
        ensures
            size == self.window().len(),
            size >= 1,
    {
        self.last_cache.len()
    }

    /// Encodes the first `count` bytes of `buf` where they stand, as the
    /// bytes that follow the window, and moves the window behind them.
    pub fn encode(&mut self, buf: &mut [u8], count: usize)
        requires
            old(self).wf(),
            count <= old(buf)@.len(),
        ensures
            final(self).wf(),
            final(self).source() == old(self).source(),
            final(buf)@ == xor_encode(old(self).window(), old(buf)@.take(count as int)) + old(
                buf,
            )@.skip(count as int),
            final(self).window() == window_after(
                old(self).window(),
                old(buf)@.take(count as int),
            ),
    {
        let ghost start = self.window();
        let ghost plain = old(buf)@.take(count as int);
        let block = self.last_cache.len();
        let mut i: usize = 0;
        while i < count
            invariant
                self.wf(),
                self.inner == old(self).inner,
                block == self.last_cache@.len(),
                start.len() == block,
                i <= count <= old(buf)@.len(),
                buf@.len() == old(buf)@.len(),
                plain == old(buf)@.take(count as int),
                self.window() == window_after(start, plain.take(i as int)),
                buf@ == xor_encode(start, plain.take(i as int)) + old(buf)@.skip(i as int),
            decreases count - i,
        {
            let ghost done = plain.take(i as int);
            let prev_byte = self.last_cache[self.last_cache_index];
            let byte = buf[i];
            let ghost window_before = self.window();
            self.last_cache[self.last_cache_index] = byte;
            buf[i] = byte ^ prev_byte;
            self.last_cache_index = if self.last_cache_index + 1 == block {
                0
            } else {
                self.last_cache_index + 1
            };
            proof {
                lemma_encode_push(start, done, byte);
                assert(self.window() =~= window_before.skip(1).push(byte));
            }
            i += 1;
        }
    }
}

impl<R: Producer> Producer for XorStream<R> {
    open spec fn inv(&self) -> bool {
        self.wf()
    }

    /// One pull of the encoder is one pull of its source with the same
    /// buffer, which leaves `plain` there. Of `plain`, the bytes that the
    /// source delivered are encoded where they stand, and the window moves
    /// behind them. Where the source fails, the buffer is as the source left
    /// it and the window stays.
    open spec fn pulls(
        &self,
        after: &Self,
        before: Seq<u8>,
        filled: Seq<u8>,
        r: Result<usize, StreamError>,
    ) -> bool {
        exists|plain: Seq<u8>|
            {
                &&& #[trigger] self.source().pulls(&after.source(), before, plain, r)
                &&& plain.len() == before.len()
                &&& match r {
                    Ok(count) => {
                        &&& count <= plain.len()
                        &&& filled == xor_encode(self.window(), plain.take(count as int))
                            + plain.skip(count as int)
                        &&& after.window() == window_after(
                            self.window(),
                            plain.take(count as int),
                        )
                    },
                    Err(_) => filled == plain && after.window() == self.window(),
                }
            }
    }

    /// Pulls plain bytes from the source into `buf`, once, and encodes
    /// there what came, as `pulls` says. The window moves behind what the
    /// source delivered, which is what the bytes in `buf` decode to.
    fn produce(&mut self, buf: &mut [u8]) -> (r: Result<usize, StreamError>)
        ensures
            old(self).pulls(final(self), old(buf)@, final(buf)@, r),
            match r {
                Ok(count) => final(self).window() == window_after(
                    old(self).window(),
                    xor_decode(old(self).window(), final(buf)@.take(count as int)),
                ),
                Err(_) => final(self).window() == old(self).window(),
            },
    {
        let ghost start = self.window();
        match self.inner.produce(buf) {
            Ok(count) => {
                let ghost plain = buf@;
                self.encode(buf, count);
                proof {
                    assert(buf@.take(count as int) =~= xor_encode(start, plain.take(count as int)));
                    lemma_decode_encode(start, plain.take(count as int));
                    assert(old(self).source().pulls(
                        &self.source(),
                        old(buf)@,
                        plain,
                        Ok::<usize, StreamError>(count),
                    ));
                }
                Ok(count)
            },
            Err(e) => {
                assert(old(self).source().pulls(
                    &self.source(),
                    old(buf)@,
                    buf@,
                    Err::<usize, StreamError>(e),
                ));
                Err(e)
            },
        }
    }
}

/// The decoding end of the codec, over the producer `R` of encoded bytes.
pub struct UnxorStream<R> {
    inner: R,
    diff_cache: VecDeque<u8>,
}

impl<R: Producer> UnxorStream<R> {
    /// The producer of encoded bytes.
    pub closed spec fn source(&self) -> R {
        self.inner
    }

    /// The last block of plain bytes, oldest first.
    pub closed spec fn window(&self) -> Seq<u8> {
        self.diff_cache@
    }

    /// The window is a block of at least one byte.
    pub closed spec fn wf(&self) -> bool {
        &&& self.inner.inv()
        &&& self.diff_cache@.len() >= 1
    }

    /// A decoder for blocks of `block_size` bytes, at the start of a stream.
    pub fn new(block_size: usize, inner: R) -> (stream: Self)
        requires
            block_size >= 1,
            inner.inv(),
        ensures
            stream.wf(),
            stream.window() == zero_block(block_size as nat),
            stream.source() == inner,
    {
        let mut diff_cache: VecDeque<u8> = VecDeque::with_capacity(block_size);
        let mut i: usize = 0;
        while i < block_size
            invariant
                i <= block_size,
                diff_cache@ == zero_block(i as nat),
            decreases block_size - i,
        {
            diff_cache.push_back(0u8);
            i += 1;
        }
        UnxorStream { inner, diff_cache }
    }

    /// The size of a block.
    pub fn block_size(&self) -> (size: usize)
        requires
            self.wf(),
        ensures
            size == self.window().len(),
            size >= 1,
    {
        self.diff_cache.len()
    }

    /// Decodes the first `count` bytes of `buf` where they stand, as the
    /// bytes that follow the window, and moves the window behind what they
    /// decode to.
    pub fn decode(&mut self, buf: &mut [u8], count: usize)
        requires
            old(self).wf(),
            count <= old(buf)@.len(),
        ensures
            final(self).wf(),
            final(self).source() == old(self).source(),
            final(buf)@ == xor_decode(old(self).window(), old(buf)@.take(count as int)) + old(
                buf,
            )@.skip(count as int),
            final(self).window() == window_after(
                old(self).window(),
                xor_decode(old(self).window(), old(buf)@.take(count as int)),
            ),
    {
        let ghost start = self.window();
        let ghost diff = old(buf)@.take(count as int);
        let mut i: usize = 0;
        while i < count
            invariant
                self.wf(),
                self.inner == old(self).inner,
                start.len() >= 1,
                i <= count <= old(buf)@.len(),
                buf@.len() == old(buf)@.len(),
                diff == old(buf)@.take(count as int),
                self.window() == window_after(start, xor_decode(start, diff.take(i as int))),
                buf@ == xor_decode(start, diff.take(i as int)) + old(buf)@.skip(i as int),
            decreases count - i,
        {
            let ghost done = diff.take(i as int);
            let byte = buf[i];
            let prev_byte = self.diff_cache.pop_front().unwrap();
            let plain_byte = prev_byte ^ byte;
            self.diff_cache.push_back(plain_byte);
            buf[i] = plain_byte;
            proof {
                lemma_xor_commutes(prev_byte, byte);
                lemma_decode_push(start, done, byte);
                assert(diff.take(i + 1) =~= done.push(byte));
            }
            i += 1;
        }
        assert(diff.take(count as int) =~= diff);
    }
}

/// The order of the two bytes that are joined does not matter.
proof fn lemma_xor_commutes(x: u8, y: u8)
    by (bit_vector)
    ensures
        x ^ y == y ^ x,
{
}

impl<R: Producer> Producer for UnxorStream<R> {
    open spec fn inv(&self) -> bool {
        self.wf()
    }

    /// One pull of the decoder is one exact read of its source, as
    /// `fill_exact` reads it, into the same buffer, which leaves `diff`
    /// there. Where the read ends well, the buffer is full and is decoded
    /// where it stands, and the window moves behind what it decodes to.
    /// Where the read fails, its error is the error, the buffer is as the
    /// read left it and the window stays.
    open spec fn pulls(
        &self,
        after: &Self,
        before: Seq<u8>,
        filled: Seq<u8>,
        r: Result<usize, StreamError>,
    ) -> bool {
        exists|diff: Seq<u8>, read: Result<(), StreamError>|
            {
                &&& #[trigger] fills(self.source(), after.source(), before, diff, 0, read)
                &&& diff.len() == before.len()
                &&& match r {
                    Ok(count) => {
                        &&& read is Ok
                        &&& count == before.len()
                        &&& filled == xor_decode(self.window(), diff)
                        &&& after.window() == window_after(self.window(), filled)
                    },
                    Err(e) => {
                        &&& read == Err::<(), StreamError>(e)
                        &&& filled == diff
                        &&& after.window() == self.window()
                    },
                }
            }
    }

    /// Pulls encoded bytes from the source until `buf` is full and decodes
    /// them there, as `pulls` says. A source that cannot fill `buf` is an
    /// error, and the window then stays where it was. An empty `buf` is
    /// served without asking the source.
    fn produce(&mut self, buf: &mut [u8]) -> (r: Result<usize, StreamError>)
        ensures
            old(self).pulls(final(self), old(buf)@, final(buf)@, r),
            match r {
                Ok(count) => {
                    &&& count == old(buf)@.len()
                    &&& final(self).window() == window_after(old(self).window(), final(buf)@)
                },
                Err(_) => final(self).window() == old(self).window(),
            },
            old(buf)@.len() == 0 ==> r is Ok && final(self).source() == old(self).source(),
    {
        let read = fill_exact(&mut self.inner, buf);
        let ghost diff = buf@;
        match read {
            Ok(()) => {},
            Err(e) => {
                assert(fills(old(self).source(), self.source(), old(buf)@, diff, 0, read));
                return Err(e);
            },
        }
        let count = buf.len();
        self.decode(buf, count);
        proof {
            lemma_decode_len(old(self).window(), diff);
            assert(diff.take(count as int) =~= diff);
            assert(buf@ =~= xor_decode(old(self).window(), diff));
            assert(fills(old(self).source(), self.source(), old(buf)@, diff, 0, read));
        }
        Ok(count)
    }
}

} // verus!
