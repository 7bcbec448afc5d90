use restream::monow::pack_1byte_per_pixel;
use restream::monow::pack_2bytes_per_pixel;
use restream::monow::MonowTranscoder;
use restream::monow::PixelFormat;
use restream::monow::MONOW_BLOCK_SIZE;
use restream::stream::Producer;
use restream::stream::StreamError;
use std::cell::Cell;
use std::rc::Rc;

/// Hands out `data` from its start and counts the calls in `calls`.
struct Frames {
    data: Vec<u8>,
    pos: usize,
    calls: Rc<Cell<usize>>,
}

impl Frames {
    fn new(data: Vec<u8>) -> Frames {
        Frames { data, pos: 0, calls: Rc::new(Cell::new(0)) }
    }
}

impl Producer for Frames {
    fn produce(&mut self, buf: &mut [u8]) -> Result<usize, StreamError> {
        self.calls.set(self.calls.get() + 1);
        let n = buf.len().min(self.data.len() - self.pos);
        buf[..n].copy_from_slice(&self.data[self.pos..self.pos + n]);
        self.pos += n;
        Ok(n)
    }
}

struct Broken;

impl Producer for Broken {
    fn produce(&mut self, _buf: &mut [u8]) -> Result<usize, StreamError> {
        Err(StreamError::Source)
    }
}

fn error_of<R: Producer>(r: Result<MonowTranscoder<R>, StreamError>) -> Option<StreamError> {
    match r {
        Ok(_) => None,
        Err(e) => Some(e),
    }
}

#[test]
fn packs_two_bytes_per_pixel() {
    let frame = [0u8, 0, 0, 0, 1, 0, 0, 0, 0, 0, 0, 0, 0, 0, 0, 0];
    let mut packed = Vec::new();
    pack_2bytes_per_pixel(&frame, &mut packed);
    assert_eq!(packed, vec![0b11011111]);
    assert_eq!(packed, vec![0xDF]);
}

#[test]
fn packs_one_byte_per_pixel() {
    let frame = [0u8, 1, 0, 1, 0, 1, 0, 1];
    let mut packed = Vec::new();
    pack_1byte_per_pixel(&frame, &mut packed);
    assert_eq!(packed, vec![0b10101010]);
    assert_eq!(packed, vec![0xAA]);
}

#[test]
fn first_pixel_is_the_most_significant_bit() {
    let mut packed = Vec::new();
    pack_1byte_per_pixel(&[0, 9, 9, 9, 9, 9, 9, 9], &mut packed);
    assert_eq!(packed, vec![0x80]);
    pack_1byte_per_pixel(&[9, 9, 9, 9, 9, 9, 9, 0], &mut packed);
    assert_eq!(packed, vec![0x01]);
    pack_2bytes_per_pixel(&[0, 0, 9, 9, 9, 9, 9, 9, 9, 9, 9, 9, 9, 9, 9, 9], &mut packed);
    assert_eq!(packed, vec![0x80]);
    pack_2bytes_per_pixel(&[9, 9, 9, 9, 9, 9, 9, 9, 9, 9, 9, 9, 9, 9, 0, 0], &mut packed);
    assert_eq!(packed, vec![0x01]);
}

#[test]
fn a_pixel_of_two_bytes_is_on_only_when_both_are_zero() {
    let mut packed = Vec::new();
    pack_2bytes_per_pixel(&[0, 1, 1, 0, 255, 255, 0, 0, 0, 0, 0, 0, 0, 0, 0, 0], &mut packed);
    assert_eq!(packed, vec![0b00011111]);
}

#[test]
fn all_on_and_all_off() {
    let mut packed = Vec::new();
    pack_1byte_per_pixel(&[0u8; 16], &mut packed);
    assert_eq!(packed, vec![0xFF, 0xFF]);
    pack_1byte_per_pixel(&[3u8; 16], &mut packed);
    assert_eq!(packed, vec![0, 0]);
    pack_2bytes_per_pixel(&[0u8; 32], &mut packed);
    assert_eq!(packed, vec![0xFF, 0xFF]);
    pack_2bytes_per_pixel(&[3u8; 32], &mut packed);
    assert_eq!(packed, vec![0, 0]);
}

#[test]
fn pixels_behind_the_last_full_group_are_left_out() {
    let mut packed = vec![1, 2, 3];
    pack_1byte_per_pixel(&[0u8; 15], &mut packed);
    assert_eq!(packed, vec![0xFF]);
    pack_2bytes_per_pixel(&[0u8; 31], &mut packed);
    assert_eq!(packed, vec![0xFF]);
    pack_1byte_per_pixel(&[0u8; 7], &mut packed);
    assert_eq!(packed, Vec::<u8>::new());
    pack_2bytes_per_pixel(&[], &mut packed);
    assert_eq!(packed, Vec::<u8>::new());
}

#[test]
fn groups_are_packed_in_order() {
    let mut frame = vec![1u8; 24];
    frame[0] = 0;
    frame[9] = 0;
    frame[23] = 0;
    let mut packed = Vec::new();
    pack_1byte_per_pixel(&frame, &mut packed);
    assert_eq!(packed, vec![0x80, 0x40, 0x01]);
}

#[test]
fn pixel_formats() {
    assert_eq!(PixelFormat::from_bytes_per_pixel(1), Ok(PixelFormat::OneByte));
    assert_eq!(PixelFormat::from_bytes_per_pixel(2), Ok(PixelFormat::TwoBytes));
    assert_eq!(
        PixelFormat::from_bytes_per_pixel(0),
        Err(StreamError::UnsupportedBytesPerPixel)
    );
    assert_eq!(
        PixelFormat::from_bytes_per_pixel(3),
        Err(StreamError::UnsupportedBytesPerPixel)
    );
    assert_eq!(
        PixelFormat::from_bytes_per_pixel(4),
        Err(StreamError::UnsupportedBytesPerPixel)
    );
}

#[test]
fn block_size_for_the_compressor() {
    assert_eq!(MONOW_BLOCK_SIZE, 65536);
}

#[test]
fn other_pixel_widths_are_refused_before_anything_is_read() {
    let source = Frames::new(vec![0u8; 64]);
    let calls = source.calls.clone();
    assert_eq!(
        error_of(MonowTranscoder::new(4, 4, 3, source)),
        Some(StreamError::UnsupportedBytesPerPixel)
    );
    assert_eq!(calls.get(), 0);
    assert_eq!(
        error_of(MonowTranscoder::new(4, 4, 0, Broken)),
        Some(StreamError::UnsupportedBytesPerPixel)
    );
    assert_eq!(
        error_of(MonowTranscoder::new(usize::MAX, 4, 3, Broken)),
        Some(StreamError::UnsupportedBytesPerPixel)
    );
}

#[test]
fn frames_that_do_not_fit_are_refused() {
    assert_eq!(
        error_of(MonowTranscoder::new(usize::MAX, 2, 1, Broken)),
        Some(StreamError::FrameTooLarge)
    );
    assert_eq!(
        error_of(MonowTranscoder::new(usize::MAX, 1, 2, Broken)),
        Some(StreamError::FrameTooLarge)
    );
}

#[test]
fn a_frame_of_no_pixels_is_made_without_the_source() {
    let mut stream = match MonowTranscoder::new(0, 5, 2, Broken) {
        Ok(stream) => stream,
        Err(e) => panic!("{:?}", e),
    };
    let mut buf = [7u8; 4];
    assert_eq!(stream.produce(&mut buf), Ok(0));
    assert_eq!(buf, [7, 7, 7, 7]);
    assert_eq!(stream.refill_bw_data(), Ok(()));
}

#[test]
fn a_frame_of_fewer_than_eight_pixels_packs_to_nothing() {
    let source = Frames::new(vec![0u8; 21]);
    let calls = source.calls.clone();
    let mut stream = MonowTranscoder::new(7, 1, 1, source).unwrap_or_else(|e| panic!("{:?}", e));
    let mut buf = [7u8; 4];
    assert_eq!(stream.produce(&mut buf), Ok(0));
    assert_eq!(stream.produce(&mut buf), Ok(0));
    assert_eq!(buf, [7, 7, 7, 7]);
    assert_eq!(calls.get(), 3);
    assert_eq!(stream.produce(&mut buf), Err(StreamError::EndOfStream));
}

#[test]
fn the_first_frame_is_read_when_the_transcoder_is_made() {
    assert_eq!(error_of(MonowTranscoder::new(8, 2, 1, Broken)), Some(StreamError::Source));
    assert_eq!(
        error_of(MonowTranscoder::new(8, 2, 1, Frames::new(vec![0u8; 15]))),
        Some(StreamError::UnexpectedEof)
    );
    assert_eq!(
        error_of(MonowTranscoder::new(8, 2, 1, Frames::new(Vec::new()))),
        Some(StreamError::EndOfStream)
    );
    let source = Frames::new(vec![0u8; 16]);
    let calls = source.calls.clone();
    assert_eq!(error_of(MonowTranscoder::new(8, 2, 1, source)), None);
    assert_eq!(calls.get(), 1);
}

#[test]
fn serves_the_packed_frame_piece_by_piece() {
    let mut frame = vec![1u8; 32];
    frame[0] = 0;
    frame[15] = 0;
    frame[16] = 0;
    frame[31] = 0;
    let mut stream = MonowTranscoder::new(8, 4, 1, Frames::new(frame)).unwrap_or_else(|e| panic!("{:?}", e));
    let mut buf = [0u8; 3];
    assert_eq!(stream.produce(&mut buf), Ok(3));
    assert_eq!(buf, [0x80, 0x01, 0x80]);
    let mut one = [0u8; 1];
    assert_eq!(stream.produce(&mut one), Ok(1));
    assert_eq!(one, [0x01]);
}

#[test]
fn a_request_for_more_than_is_left_is_served_short() {
    let mut frames = vec![0u8; 16];
    frames.extend_from_slice(&[1u8; 16]);
    frames.extend_from_slice(&[0u8; 16]);
    let source = Frames::new(frames);
    let calls = source.calls.clone();
    let mut stream = MonowTranscoder::new(8, 2, 1, source).unwrap_or_else(|e| panic!("{:?}", e));
    assert_eq!(calls.get(), 1);
    let mut buf = [9u8; 5];
    assert_eq!(stream.produce(&mut buf), Ok(2));
    assert_eq!(buf, [0xFF, 0xFF, 9, 9, 9]);
    assert_eq!(calls.get(), 1);
    assert_eq!(stream.produce(&mut buf), Ok(2));
    assert_eq!(buf, [0, 0, 9, 9, 9]);
    assert_eq!(calls.get(), 2);
    let mut one = [9u8; 1];
    assert_eq!(stream.produce(&mut one), Ok(1));
    assert_eq!(one, [0xFF]);
    assert_eq!(calls.get(), 3);
}

#[test]
fn the_read_after_the_end_of_a_frame_fetches_the_next() {
    let mut frames = vec![0u8; 16];
    frames.extend_from_slice(&[1u8; 16]);
    let source = Frames::new(frames);
    let calls = source.calls.clone();
    let mut stream = MonowTranscoder::new(8, 2, 1, source).unwrap_or_else(|e| panic!("{:?}", e));
    let mut buf = [9u8; 2];
    assert_eq!(stream.produce(&mut buf), Ok(2));
    assert_eq!(buf, [0xFF, 0xFF]);
    assert_eq!(calls.get(), 1);
    assert_eq!(stream.produce(&mut buf), Ok(2));
    assert_eq!(buf, [0, 0]);
    assert_eq!(calls.get(), 2);
}

#[test]
fn an_empty_request_fetches_nothing() {
    let source = Frames::new(vec![0u8; 16]);
    let calls = source.calls.clone();
    let mut stream = MonowTranscoder::new(8, 2, 1, source).unwrap_or_else(|e| panic!("{:?}", e));
    let mut none = [0u8; 0];
    assert_eq!(stream.produce(&mut none), Ok(0));
    let mut buf = [9u8; 2];
    assert_eq!(stream.produce(&mut buf), Ok(2));
    assert_eq!(stream.produce(&mut none), Ok(0));
    assert_eq!(calls.get(), 1);
}

#[test]
fn a_source_that_ends_fails_the_read_that_wants_the_next_frame() {
    let mut stream = MonowTranscoder::new(8, 2, 1, Frames::new(vec![0u8; 20])).unwrap_or_else(|e| panic!("{:?}", e));
    let mut buf = [9u8; 4];
    assert_eq!(stream.produce(&mut buf), Ok(2));
    assert_eq!(buf, [0xFF, 0xFF, 9, 9]);
    let mut next = [7u8; 4];
    assert_eq!(stream.produce(&mut next), Err(StreamError::UnexpectedEof));
    assert_eq!(next, [7, 7, 7, 7]);
    assert_eq!(stream.produce(&mut next), Err(StreamError::EndOfStream));
}

#[test]
fn two_bytes_per_pixel_through_the_transcoder() {
    let mut frame = vec![0u8; 32];
    frame[4] = 1;
    frame.extend_from_slice(&[7u8; 32]);
    let mut stream = MonowTranscoder::new(4, 4, 2, Frames::new(frame)).unwrap_or_else(|e| panic!("{:?}", e));
    let mut buf = [0u8; 4];
    assert_eq!(stream.produce(&mut buf), Ok(2));
    assert_eq!(&buf[..2], &[0xDF, 0xFF]);
    assert_eq!(stream.produce(&mut buf), Ok(2));
    assert_eq!(&buf[..2], &[0, 0]);
}

#[test]
fn refill_drops_what_is_left_and_loads_the_next_frame() {
    let mut frames = vec![0u8; 16];
    frames.extend_from_slice(&[1u8; 16]);
    let mut stream = MonowTranscoder::new(8, 2, 1, Frames::new(frames)).unwrap_or_else(|e| panic!("{:?}", e));
    let mut one = [0u8; 1];
    assert_eq!(stream.produce(&mut one), Ok(1));
    assert_eq!(one, [0xFF]);
    assert_eq!(stream.refill_bw_data(), Ok(()));
    let mut buf = [9u8; 2];
    assert_eq!(stream.produce(&mut buf), Ok(2));
    assert_eq!(buf, [0, 0]);
}

#[test]
fn a_failed_refill_keeps_what_is_left() {
    let mut stream = MonowTranscoder::new(8, 2, 1, Frames::new(vec![0u8; 16])).unwrap_or_else(|e| panic!("{:?}", e));
    assert_eq!(stream.refill_bw_data(), Err(StreamError::EndOfStream));
    let mut buf = [9u8; 2];
    assert_eq!(stream.produce(&mut buf), Ok(2));
    assert_eq!(buf, [0xFF, 0xFF]);
}

#[test]
fn the_packed_frame_has_an_eighth_of_the_pixels() {
    let mut stream = MonowTranscoder::new(5, 5, 1, Frames::new(vec![0u8; 50])).unwrap_or_else(|e| panic!("{:?}", e));
    let mut buf = [9u8; 8];
    assert_eq!(stream.produce(&mut buf), Ok(3));
    assert_eq!(&buf[..3], &[0xFF, 0xFF, 0xFF]);
}
