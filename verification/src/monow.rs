//! The monochrome transcoder: one bit per pixel, eight pixels per byte, the
//! first pixel of a group in the most significant bit.

use vstd::prelude::*;
use crate::source::frame_size;
use crate::stream::fill_exact;
use crate::stream::fills;
use crate::stream::zero_block;
use crate::stream::Producer;
use crate::stream::StreamError;

verus! {

/// The pixels of a frame that has one byte per pixel: a pixel is on when its
/// byte is zero.
pub open spec fn pixels_1byte(frame: Seq<u8>) -> Seq<bool> {
    Seq::new(frame.len(), |p: int| frame[p] == 0)
}

/// The pixels of a frame that has two bytes per pixel: a pixel is on when
/// both its bytes are zero. A last odd byte belongs to no pixel.
pub open spec fn pixels_2bytes(frame: Seq<u8>) -> Seq<bool> {
    Seq::new(frame.len() / 2, |p: int| frame[2 * p] == 0 && frame[2 * p + 1] == 0)
}

/// What a pixel adds to its byte: the weight of its bit when it is on.
pub open spec fn bit(on: bool, weight: int) -> int {
    if on {
        weight
    } else {
        0
    }
}

/// The value of the byte that holds the pixels `8 * k` to `8 * k + 7`.
pub open spec fn packed_byte(pixels: Seq<bool>, k: int) -> int {
    bit(pixels[8 * k], 128) + bit(pixels[8 * k + 1], 64) + bit(pixels[8 * k + 2], 32) + bit(
        pixels[8 * k + 3],
        16,
    ) + bit(pixels[8 * k + 4], 8) + bit(pixels[8 * k + 5], 4) + bit(pixels[8 * k + 6], 2) + bit(
        pixels[8 * k + 7],
        1,
    )
}

/// The packed form of a run of pixels: one byte for each full group of
/// eight. Pixels behind the last full group are left out.
pub open spec fn pack_pixels(pixels: Seq<bool>) -> Seq<u8> {
    Seq::new(pixels.len() / 8, |k: int| packed_byte(pixels, k) as u8)
}

/// Bits that do not overlap add up to what they give when joined by `|`.
proof fn lemma_join_bits(b7: u8, b6: u8, b5: u8, b4: u8, b3: u8, b2: u8, b1: u8, b0: u8)
    by (bit_vector)
    requires
        b7 == 0 || b7 == 128,
        b6 == 0 || b6 == 64,
        b5 == 0 || b5 == 32,
        b4 == 0 || b4 == 16,
        b3 == 0 || b3 == 8,
        b2 == 0 || b2 == 4,
        b1 == 0 || b1 == 2,
        b0 == 0 || b0 == 1,
    ensures
        (b7 | b6 | b5 | b4 | b3 | b2 | b1 | b0) as int == b7 + b6 + b5 + b4 + b3 + b2 + b1 + b0,
{
}

/// In bits that are joined by `|` and do not overlap, each can be told
/// from its place.
proof fn lemma_split_bits(b7: u8, b6: u8, b5: u8, b4: u8, b3: u8, b2: u8, b1: u8, b0: u8)
    by (bit_vector)
    requires
        b7 == 0 || b7 == 128,
        b6 == 0 || b6 == 64,
        b5 == 0 || b5 == 32,
        b4 == 0 || b4 == 16,
        b3 == 0 || b3 == 8,
        b2 == 0 || b2 == 4,
        b1 == 0 || b1 == 2,
        b0 == 0 || b0 == 1,
    ensures
        ((b7 | b6 | b5 | b4 | b3 | b2 | b1 | b0) >> 7u8) & 1 == 1 <==> b7 == 128,
        ((b7 | b6 | b5 | b4 | b3 | b2 | b1 | b0) >> 6u8) & 1 == 1 <==> b6 == 64,
        ((b7 | b6 | b5 | b4 | b3 | b2 | b1 | b0) >> 5u8) & 1 == 1 <==> b5 == 32,
        ((b7 | b6 | b5 | b4 | b3 | b2 | b1 | b0) >> 4u8) & 1 == 1 <==> b4 == 16,
        ((b7 | b6 | b5 | b4 | b3 | b2 | b1 | b0) >> 3u8) & 1 == 1 <==> b3 == 8,
        ((b7 | b6 | b5 | b4 | b3 | b2 | b1 | b0) >> 2u8) & 1 == 1 <==> b2 == 4,
        ((b7 | b6 | b5 | b4 | b3 | b2 | b1 | b0) >> 1u8) & 1 == 1 <==> b1 == 2,
        ((b7 | b6 | b5 | b4 | b3 | b2 | b1 | b0) >> 0u8) & 1 == 1 <==> b0 == 1,
{
}

/// Whether bit `place` of `byte` is set, with place 0 for the least
/// significant bit.
pub open spec fn bit_is_set(byte: u8, place: int) -> bool {
    (byte >> (place as u8)) & 1 == 1
}

/// Every pixel of a full group can be read back from the packed frame: the
/// pixel `j` of group `k` stands in bit `7 - j` of byte `k`.
pub proof fn lemma_pixel_in_bit(pixels: Seq<bool>, k: int, j: int)
    requires
        0 <= k < pixels.len() / 8,
        0 <= j < 8,
    ensures
        bit_is_set(pack_pixels(pixels)[k], 7 - j) == pixels[8 * k + j],
{
    let b7 = bit(pixels[8 * k], 128) as u8;
    let b6 = bit(pixels[8 * k + 1], 64) as u8;
    let b5 = bit(pixels[8 * k + 2], 32) as u8;
    let b4 = bit(pixels[8 * k + 3], 16) as u8;
    let b3 = bit(pixels[8 * k + 4], 8) as u8;
    let b2 = bit(pixels[8 * k + 5], 4) as u8;
    let b1 = bit(pixels[8 * k + 6], 2) as u8;
    let b0 = bit(pixels[8 * k + 7], 1) as u8;
    lemma_join_bits(b7, b6, b5, b4, b3, b2, b1, b0);
    lemma_split_bits(b7, b6, b5, b4, b3, b2, b1, b0);
}

/// The bit of weight `weight` where `on` holds, no bit otherwise.
fn bit_mask(on: bool, weight: u8) -> (mask: u8)
    ensures
        mask == bit(on, weight as int),
{
    if on {
        weight
    } else {
        0
    }
}

/// Joins eight pixels into one byte, the first in the most significant bit.
fn join_pixels(
    on0: bool,
    on1: bool,
    on2: bool,
    on3: bool,
    on4: bool,
    on5: bool,
    on6: bool,
    on7: bool,
) -> (byte: u8)
    ensures
        byte == bit(on0, 128) + bit(on1, 64) + bit(on2, 32) + bit(on3, 16) + bit(on4, 8) + bit(on5, 4)
            + bit(on6, 2) + bit(on7, 1),
{
    let b7 = bit_mask(on0, 128);
    let b6 = bit_mask(on1, 64);
    let b5 = bit_mask(on2, 32);
    let b4 = bit_mask(on3, 16);
    let b3 = bit_mask(on4, 8);
    let b2 = bit_mask(on5, 4);
    let b1 = bit_mask(on6, 2);
    let b0 = bit_mask(on7, 1);
    proof {
        lemma_join_bits(b7, b6, b5, b4, b3, b2, b1, b0);
    }
    b7 | b6 | b5 | b4 | b3 | b2 | b1 | b0
}

/// Packs a frame of one byte per pixel into `packed`, whose old content is
/// dropped and whose storage is used again.
pub fn pack_1byte_per_pixel(frame: &[u8], packed: &mut Vec<u8>)
    ensures
        final(packed)@ == pack_pixels(pixels_1byte(frame@)),
{
    packed.clear();
    let groups = frame.len() / 8;
    let ghost pixels = pixels_1byte(frame@);
    let mut k: usize = 0;
    while k < groups
        invariant
            k <= groups,
            groups == frame@.len() / 8,
            frame@.len() <= usize::MAX,
            pixels == pixels_1byte(frame@),
            packed@.len() == k,
            forall|j: int| 0 <= j < k ==> packed@[j] == packed_byte(pixels, j) as u8,
        decreases groups - k,
    {
        let at = k * 8;
        let byte = join_pixels(
            frame[at] == 0,
            frame[at + 1] == 0,
            frame[at + 2] == 0,
            frame[at + 3] == 0,
            frame[at + 4] == 0,
            frame[at + 5] == 0,
            frame[at + 6] == 0,
            frame[at + 7] == 0,
        );
        assert(byte == packed_byte(pixels, k as int));
        packed.push(byte);
        k += 1;
    }
    assert(packed@ =~= pack_pixels(pixels));
}

/// Packs a frame of two bytes per pixel into `packed`, whose old content is
/// dropped and whose storage is used again.
pub fn pack_2bytes_per_pixel(frame: &[u8], packed: &mut Vec<u8>)
    ensures
        final(packed)@ == pack_pixels(pixels_2bytes(frame@)),
{
    packed.clear();
    let groups = frame.len() / 16;
    let ghost pixels = pixels_2bytes(frame@);
    let mut k: usize = 0;
    while k < groups
        invariant
            k <= groups,
            groups == frame@.len() / 16,
            frame@.len() <= usize::MAX,
            pixels == pixels_2bytes(frame@),
            packed@.len() == k,
            forall|j: int| 0 <= j < k ==> packed@[j] == packed_byte(pixels, j) as u8,
        decreases groups - k,
    {
        let at = k * 16;
        let byte = join_pixels(
            frame[at] == 0 && frame[at + 1] == 0,
            frame[at + 2] == 0 && frame[at + 3] == 0,
            frame[at + 4] == 0 && frame[at + 5] == 0,
            frame[at + 6] == 0 && frame[at + 7] == 0,
            frame[at + 8] == 0 && frame[at + 9] == 0,
            frame[at + 10] == 0 && frame[at + 11] == 0,
            frame[at + 12] == 0 && frame[at + 13] == 0,
            frame[at + 14] == 0 && frame[at + 15] == 0,
        );
        assert(byte == packed_byte(pixels, k as int));
        packed.push(byte);
        k += 1;
    }
    assert(packed@ =~= pack_pixels(pixels));
}

/// The block size to give the compressor behind a transcoder: packed frames
/// are small, and a compressor that waits for more would hold them back.
pub const MONOW_BLOCK_SIZE: usize = 64 * 1024;

/// How many bytes of a native frame make one pixel.
#[derive(Clone, Copy, Debug, PartialEq, Eq, Structural)]
pub enum PixelFormat {
    OneByte,
    TwoBytes,
}

impl PixelFormat {
    /// The width of a pixel in bytes.
    pub open spec fn width(self) -> int {
        match self {
            PixelFormat::OneByte => 1,
            PixelFormat::TwoBytes => 2,
        }
    }

    /// The format of pixels that are `bytes_per_pixel` wide. Only one and two
    /// bytes are known.
    pub fn from_bytes_per_pixel(bytes_per_pixel: usize) -> (r: Result<PixelFormat, StreamError>)
        ensures
            bytes_per_pixel == 1 ==> r == Ok::<PixelFormat, StreamError>(PixelFormat::OneByte),
            bytes_per_pixel == 2 ==> r == Ok::<PixelFormat, StreamError>(PixelFormat::TwoBytes),
            bytes_per_pixel != 1 && bytes_per_pixel != 2 ==> r == Err::<PixelFormat, StreamError>(
                StreamError::UnsupportedBytesPerPixel,
            ),
    {
        if bytes_per_pixel == 1 {
            Ok(PixelFormat::OneByte)
        } else if bytes_per_pixel == 2 {
            Ok(PixelFormat::TwoBytes)
        } else {
            Err(StreamError::UnsupportedBytesPerPixel)
        }
    }
}

/// The packed form of a native frame in the given format.
pub open spec fn pack_frame(format: PixelFormat, frame: Seq<u8>) -> Seq<u8> {
    match format {
        PixelFormat::OneByte => pack_pixels(pixels_1byte(frame)),
        PixelFormat::TwoBytes => pack_pixels(pixels_2bytes(frame)),
    }
}

/// Reads whole native frames from `inner` and serves them packed to one bit
/// per pixel. A frame is fetched when the transcoder is made, and by the
/// first read after the packed frame has been served to its end.
pub struct MonowTranscoder<R> {
    inner: R,
    format: PixelFormat,
    native_size: usize,
    monow_data: Vec<u8>,
    position: usize,
}

impl<R: Producer> MonowTranscoder<R> {
    /// The producer of native frames.
    pub closed spec fn source(&self) -> R {
        self.inner
    }

    /// The format of the native frames.
    pub closed spec fn format(&self) -> PixelFormat {
        self.format
    }

    /// The size of a native frame in bytes.
    pub closed spec fn native_size(&self) -> int {
        self.native_size as int
    }

    /// The bytes of the packed frame that have not been served yet.
    pub closed spec fn remaining(&self) -> Seq<u8> {
        self.monow_data@.skip(self.position as int)
    }

    /// The size of a packed frame in bytes: an eighth of the pixel count.
    pub open spec fn packed_size(&self) -> int {
        self.native_size() / self.format().width() / 8
    }

    /// The read position lies within the packed frame, which has its full
    /// size.
    pub closed spec fn wf(&self) -> bool {
        &&& self.inner.inv()
        &&& self.position <= self.monow_data@.len()
        &&& self.monow_data@.len() == self.packed_size()
    }

    /// What the making of a transcoder from `inner` comes to, for a pixel
    /// width that is known and a native frame of `native_size` bytes: the
    /// source is read as `fill_exact` reads it, into a buffer of that size.
    /// Where the read ends well the transcoder is made, with that source
    /// as the read left it, and holds the packing of what was read. Where
    /// the read fails, its error is the error.
    pub open spec fn made(inner: R, native_size: nat, r: Result<Self, StreamError>) -> bool {
        exists|end: R, frame: Seq<u8>, read: Result<(), StreamError>|
            {
                &&& #[trigger] fills(inner, end, zero_block(native_size), frame, 0, read)
                &&& match r {
                    Ok(t) => {
                        &&& read is Ok
                        &&& t.source() == end
                        &&& t.remaining() == pack_frame(t.format(), frame)
                    },
                    Err(e) => read == Err::<(), StreamError>(e),
                }
            }
    }

    /// Makes a transcoder for frames of `width * height` pixels and fetches
    /// the first frame. A pixel width other than one or two bytes is refused
    /// before anything is read; then a frame whose size does not fit in
    /// `usize`.
    pub fn new(width: usize, height: usize, bytes_per_pixel: usize, inner: R) -> (r: Result<
        Self,
        StreamError,
    >)
        requires
            inner.inv(),
        ensures
            bytes_per_pixel != 1 && bytes_per_pixel != 2 ==> r == Err::<Self, StreamError>(
                StreamError::UnsupportedBytesPerPixel,
            ),
            (bytes_per_pixel == 1 || bytes_per_pixel == 2) && width * height * bytes_per_pixel
                > usize::MAX ==> r == Err::<Self, StreamError>(StreamError::FrameTooLarge),
            (bytes_per_pixel == 1 || bytes_per_pixel == 2) && width * height * bytes_per_pixel
                <= usize::MAX ==> Self::made(
                inner,
                (width * height * bytes_per_pixel) as nat,
                r,
            ),
            (bytes_per_pixel == 1 || bytes_per_pixel == 2) && width * height * bytes_per_pixel
                == 0 ==> r is Ok,
            r matches Ok(t) ==> {
                &&& t.wf()
                &&& t.format().width() == bytes_per_pixel
                &&& t.native_size() == width * height * bytes_per_pixel
                &&& t.packed_size() == width * height / 8
                &&& t.remaining().len() == t.packed_size()
            },
    {
        let format = match PixelFormat::from_bytes_per_pixel(bytes_per_pixel) {
            Ok(format) => format,
            Err(e) => {
                return Err(e);
            },
        };
        let native_size = match frame_size(width, height, bytes_per_pixel) {
            Some(size) => size,
            None => {
                return Err(StreamError::FrameTooLarge);
            },
        };
        proof {
            lemma_pixel_count(width as int, height as int, bytes_per_pixel as int);
        }
        let monow_size = native_size / bytes_per_pixel / 8;
        let mut instance = MonowTranscoder {
            inner,
            format,
            native_size,
            monow_data: vec![0u8; monow_size],
            position: 0,
        };
        let ghost fresh = instance;
        let refill = instance.refill_bw_data();
        let ghost end = instance.inner;
        let ghost frame = choose|frame: Seq<u8>| instance.read_into(fresh, frame, refill);
        assert(fills(inner, end, zero_block(native_size as nat), frame, 0, refill));
        match refill {
            Ok(()) => Ok(instance),
            Err(e) => Err(e),
        }
    }

    /// What a refill with the outcome `r` makes of the transcoder `before`
    /// when it reads `frame`: the source is read as `fill_exact` reads it,
    /// into a buffer of the size of a native frame. Where the read ends well
    /// the packing of `frame` is there to be served from its start. Where it
    /// fails, what is served stays as it was.
    pub open spec fn read_into(&self, before: Self, frame: Seq<u8>, r: Result<(), StreamError>) -> bool {
        &&& fills(
            before.source(),
            self.source(),
            zero_block(before.native_size() as nat),
            frame,
            0,
            r,
        )
        &&& match r {
            Ok(()) => self.remaining() == pack_frame(self.format(), frame),
            Err(_) => self.remaining() == before.remaining(),
        }
    }

    /// What a refill with the outcome `r` makes of the transcoder `before`:
    /// it reads some frame, as `read_into` says.
    pub open spec fn refilled(&self, before: Self, r: Result<(), StreamError>) -> bool {
        &&& self.format() == before.format()
        &&& self.native_size() == before.native_size()
        &&& exists|frame: Seq<u8>| #[trigger] self.read_into(before, frame, r)
    }

    /// What a fetch with the outcome `r` makes of the fields of the
    /// transcoder `before`.
    spec fn fetched(&self, before: Self, r: Result<(), StreamError>) -> bool {
        &&& self.inner.inv()
        &&& self.refilled(before, r)
        &&& match r {
            Ok(()) => self.position == 0 && self.monow_data@.len() == self.packed_size(),
            Err(_) => self.position == before.position && self.monow_data@ == before.monow_data@,
        }
        &&& before.native_size == 0 ==> r is Ok && self.inner == before.inner
    }

    /// Replaces the packed frame by the next frame of the source: one native
    /// frame is read, exactly, and packed by the rule of the format. Where
    /// the source fails or ends early, the refill fails with that error, and
    /// the packed frame and the read position stay as they were. A native
    /// frame of no bytes is had without asking the source.
    pub fn refill_bw_data(&mut self) -> (r: Result<(), StreamError>)
        requires
            old(self).wf(),
        ensures
            final(self).wf(),
            final(self).refilled(*old(self), r),
            r is Ok ==> final(self).remaining().len() == final(self).packed_size(),
            old(self).native_size() == 0 ==> r is Ok && final(self).source() == old(self).source(),
    {
        match self.format {
            PixelFormat::OneByte => self.refill_bw_data_1byte_per_pixel(),
            PixelFormat::TwoBytes => self.refill_bw_data_2bytes_per_pixel(),
        }
    }

    /// Reads one native frame of two bytes per pixel and packs it over the
    /// packed frame.
    fn refill_bw_data_2bytes_per_pixel(&mut self) -> (r: Result<(), StreamError>)
        requires
            old(self).inner.inv(),
            old(self).format == PixelFormat::TwoBytes,
        ensures
            final(self).fetched(*old(self), r),
    {
        let mut fb_data = vec![0u8; self.native_size];
        assert(fb_data@ =~= zero_block(self.native_size as nat));
        let read = fill_exact(&mut self.inner, fb_data.as_mut_slice());
        if read.is_err() {
            assert(self.read_into(*old(self), fb_data@, read));
            return read;
        }
        pack_2bytes_per_pixel(fb_data.as_slice(), &mut self.monow_data);
        self.position = 0;
        assert(self.remaining() =~= self.monow_data@);
        assert(self.read_into(*old(self), fb_data@, read));
        read
    }

    /// Reads one native frame of one byte per pixel and packs it over the
    /// packed frame.
    fn refill_bw_data_1byte_per_pixel(&mut self) -> (r: Result<(), StreamError>)
        requires
            old(self).inner.inv(),
            old(self).format == PixelFormat::OneByte,
        ensures
            final(self).fetched(*old(self), r),
    {
        let mut fb_data = vec![0u8; self.native_size];
        assert(fb_data@ =~= zero_block(self.native_size as nat));
        let read = fill_exact(&mut self.inner, fb_data.as_mut_slice());
        if read.is_err() {
            assert(self.read_into(*old(self), fb_data@, read));
            return read;
        }
        pack_1byte_per_pixel(fb_data.as_slice(), &mut self.monow_data);
        self.position = 0;
        assert(self.remaining() =~= self.monow_data@);
        assert(self.read_into(*old(self), fb_data@, read));
        read
    }

    /// What a read does that finds nothing left of the packed frame: the
    /// transcoder is refilled with some frame, as `read_into` says. Where
    /// that ends well, the buffer gets its share of the new packed frame and
    /// the rest of it is left. Where it fails, the error is that of the
    /// refill and the buffer is as it was.
    pub open spec fn fetches(
        &self,
        after: &Self,
        before: Seq<u8>,
        filled: Seq<u8>,
        r: Result<usize, StreamError>,
    ) -> bool {
        exists|frame: Seq<u8>, read: Result<(), StreamError>|
            {
                &&& #[trigger] fills(
                    self.source(),
                    after.source(),
                    zero_block(self.native_size() as nat),
                    frame,
                    0,
                    read,
                )
                &&& match r {
                    Ok(count) => {
                        &&& read is Ok
                        &&& count == share(pack_frame(self.format(), frame), before.len())
                        &&& served(pack_frame(self.format(), frame), before, filled)
                        &&& after.remaining() == pack_frame(self.format(), frame).skip(
                            count as int,
                        )
                    },
                    Err(e) => {
                        &&& read == Err::<(), StreamError>(e)
                        &&& after.remaining() == self.remaining()
                        &&& filled == before
                    },
                }
            }
    }
}

/// How many bytes a read into a buffer of `room` bytes takes from `left`.
pub open spec fn share(left: Seq<u8>, room: nat) -> int {
    if room < left.len() {
        room as int
    } else {
        left.len() as int
    }
}

/// What a read leaves in the buffer as `after`, when the buffer was `before`
/// and the packed frame held `left`: its share of `left`, and behind that
/// the buffer as it was.
pub open spec fn served(left: Seq<u8>, before: Seq<u8>, after: Seq<u8>) -> bool {
    after == left.take(share(left, before.len())) + before.skip(share(left, before.len()))
}

impl<R: Producer> Producer for MonowTranscoder<R> {
    open spec fn inv(&self) -> bool {
        self.wf()
    }

    /// One pull of the transcoder. Into an empty buffer it does nothing.
    /// While something is left of the packed frame, the buffer gets its
    /// share of that and the source is not touched. Else the next frame is
    /// fetched first, as `fetches` says.
    open spec fn pulls(
        &self,
        after: &Self,
        before: Seq<u8>,
        filled: Seq<u8>,
        r: Result<usize, StreamError>,
    ) -> bool {
        &&& after.format() == self.format()
        &&& after.native_size() == self.native_size()
        &&& if before.len() == 0 {
            &&& r == Ok::<usize, StreamError>(0)
            &&& filled == before
            &&& after.remaining() == self.remaining()
            &&& after.source() == self.source()
        } else if self.remaining().len() > 0 {
            &&& r == Ok::<usize, StreamError>(share(self.remaining(), before.len()) as usize)
            &&& served(self.remaining(), before, filled)
            &&& after.remaining() == self.remaining().skip(share(self.remaining(), before.len()))
            &&& after.source() == self.source()
        } else {
            self.fetches(after, before, filled, r)
        }
    }

    /// Serves what is left of the packed frame, up to `buf.len()` bytes, and
    /// no more: a request for more than is left is served short, without a
    /// look at the source. Only a read that finds nothing left fetches the
    /// next frame, and then serves from that. Where the fetch fails, `buf`
    /// is as it was. A read into an empty `buf` does nothing.
    fn produce(&mut self, buf: &mut [u8]) -> (r: Result<usize, StreamError>)
        ensures
            old(self).pulls(final(self), old(buf)@, final(buf)@, r),
            old(self).native_size() == 0 ==> r is Ok,
    {
        if buf.len() == 0 {
            return Ok(0);
        }
        let ghost fetched = self.position == self.monow_data@.len();
        let ghost frame = Seq::<u8>::empty();
        let ghost read = Ok::<(), StreamError>(());
        if self.position == self.monow_data.len() {
            let refill = self.refill_bw_data();
            proof {
                frame = choose|frame: Seq<u8>| self.read_into(*old(self), frame, refill);
                read = refill;
            }
            match refill {
                Ok(()) => {},
                Err(e) => {
                    return Err(e);
                },
            }
        }
        let ghost left = self.remaining();
        let ghost before = *self;
        let rest = self.monow_data.len() - self.position;
        let count = if buf.len() < rest {
            buf.len()
        } else {
            rest
        };
        let mut i: usize = 0;
        while i < count
            invariant
                i <= count,
                count <= buf@.len(),
                buf@.len() == old(buf)@.len(),
                self.position + count <= self.monow_data@.len() <= usize::MAX,
                *self == before,
                fetched ==> fills(
                    old(self).source(),
                    before.source(),
                    zero_block(old(self).native_size() as nat),
                    frame,
                    0,
                    read,
                ) && read is Ok && left == pack_frame(before.format(), frame),
                forall|j: int| 0 <= j < i ==> buf@[j] == self.monow_data@[self.position + j],
                forall|j: int| i <= j < buf@.len() ==> buf@[j] == old(buf)@[j],
            decreases count - i,
        {
            buf[i] = self.monow_data[self.position + i];
            i += 1;
        }
        self.position = self.position + count;
        proof {
            assert(self.remaining() =~= left.skip(count as int));
            assert(buf@ =~= left.take(count as int) + old(buf)@.skip(count as int));
            if fetched {
                assert(fills(
                    old(self).source(),
                    self.source(),
                    zero_block(old(self).native_size() as nat),
                    frame,
                    0,
                    read,
                ));
                assert(old(self).fetches(&*self, old(buf)@, buf@, Ok::<usize, StreamError>(count)));
            }
        }
        Ok(count)
    }
}

/// A frame of `width * height` pixels of `bpp` bytes each holds that many
/// pixels.
proof fn lemma_pixel_count(width: int, height: int, bpp: int)
    requires
        bpp > 0,
        width >= 0,
        height >= 0,
    ensures
        width * height * bpp / bpp == width * height,
{
    assert(width * height * bpp / bpp == width * height) by (nonlinear_arith)
        requires
            bpp > 0,
    ;
}

} // verus!
