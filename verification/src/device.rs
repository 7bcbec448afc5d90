//! What the capture region is found by: the device model as the machine
//! file names it, the process id as `pidof` prints it, and the place of the
//! framebuffer in the memory map of that process. All texts are taken as
//! bytes.

use vstd::prelude::*;
use vstd::string::StringSliceAdditionalSpecFns;

verus! {

/// Why no capture region was found.
#[derive(Clone, Copy, Debug, PartialEq, Eq, Structural)]
pub enum DeviceError {
    /// The machine file names no device model that is known.
    UnknownModel,
    /// What `pidof` printed is no process id.
    BadPid,
    /// The memory map has no line behind a line that ends in `/dev/fb0`.
    NoFramebufferMapping,
    /// The line of the framebuffer does not start with an address, or the
    /// framebuffer would lie behind the largest address.
    BadFramebufferAddress,
}

/// How many bytes stand before the first `byte` in `text`: all of them
/// where there is none.
pub open spec fn count_until(text: Seq<u8>, byte: u8) -> int
    decreases text.len(),
{
    if text.len() == 0 || text[0] == byte {
        0
    } else {
        1 + count_until(text.skip(1), byte)
    }
}

/// Whether `text` ends in `suffix`.
pub open spec fn ends_with(text: Seq<u8>, suffix: Seq<u8>) -> bool {
    text.len() >= suffix.len() && text.skip(text.len() - suffix.len()) == suffix
}

/// Tab, line feed, vertical tab, form feed, carriage return and space: the
/// white space of ASCII. Bytes that spell other white space of Unicode are
/// no spaces here.
pub open spec fn is_space(byte: u8) -> bool {
    (9 <= byte <= 13) || byte == 32
}

/// How many spaces `text` starts with.
pub open spec fn leading_spaces(text: Seq<u8>) -> int
    decreases text.len(),
{
    if text.len() == 0 || !is_space(text[0]) {
        0
    } else {
        1 + leading_spaces(text.skip(1))
    }
}

/// How many spaces `text` ends with.
pub open spec fn trailing_spaces(text: Seq<u8>) -> int
    decreases text.len(),
{
    if text.len() == 0 || !is_space(text.last()) {
        0
    } else {
        1 + trailing_spaces(text.drop_last())
    }
}

/// `text` without the spaces at its start and at its end.
pub open spec fn trimmed(text: Seq<u8>) -> Seq<u8> {
    let rest = text.skip(leading_spaces(text));
    rest.take(rest.len() - trailing_spaces(rest))
}

/// The value of a digit in the given radix: `0` to `9`, then the letters in
/// either case. `None` for a byte that is no digit of that radix.
pub open spec fn digit_value(byte: u8, radix: int) -> Option<int> {
    let value = if 48 <= byte <= 57 {
        byte - 48
    } else if 97 <= byte <= 122 {
        byte - 97 + 10
    } else if 65 <= byte <= 90 {
        byte - 65 + 10
    } else {
        36
    };
    if value < radix {
        Some(value)
    } else {
        None
    }
}

/// Whether every byte of `text` is a digit of the given radix.
pub open spec fn all_digits(text: Seq<u8>, radix: int) -> bool {
    forall|i: int| 0 <= i < text.len() ==> (#[trigger] digit_value(text[i], radix)) is Some
}

/// The number that the digits of `text` spell in the given radix.
pub open spec fn number_value(text: Seq<u8>, radix: int) -> int
    decreases text.len(),
{
    if text.len() == 0 {
        0
    } else {
        number_value(text.drop_last(), radix) * radix + digit_value(text.last(), radix).unwrap()
    }
}

/// `text` without a plus sign at its start.
pub open spec fn unsigned_digits(text: Seq<u8>) -> Seq<u8> {
    if text.len() > 0 && text[0] == 43 {
        text.skip(1)
    } else {
        text
    }
}

/// The number that `text` spells in the given radix: a plus sign or none,
/// then at least one digit and nothing else. `None` for any other text, and
/// for a number that does not fit in `usize`.
pub open spec fn parse_unsigned(text: Seq<u8>, radix: int) -> Option<int> {
    let digits = unsigned_digits(text);
    if digits.len() > 0 && all_digits(digits, radix) && number_value(digits, radix)
        <= usize::MAX {
        Some(number_value(digits, radix))
    } else {
        None
    }
}

/// A number with more digits is not smaller.
proof fn lemma_number_grows(text: Seq<u8>, radix: int, shorter: int)
    requires
        2 <= radix <= 36,
        all_digits(text, radix),
        0 <= shorter <= text.len(),
    ensures
        0 <= number_value(text.take(shorter), radix) <= number_value(text, radix),
    decreases text.len() - shorter,
{
    lemma_number_not_negative(text.take(shorter), radix);
    if shorter == text.len() {
        assert(text.take(shorter) =~= text);
    } else {
        lemma_number_grows(text, radix, shorter + 1);
        let longer = text.take(shorter + 1);
        assert(longer.drop_last() =~= text.take(shorter));
        let low = number_value(text.take(shorter), radix);
        assert(low * radix >= low) by (nonlinear_arith)
            requires
                low >= 0,
                radix >= 2,
        ;
    }
}

proof fn lemma_number_not_negative(text: Seq<u8>, radix: int)
    requires
        2 <= radix <= 36,
        all_digits(text, radix),
    ensures
        0 <= number_value(text, radix),
    decreases text.len(),
{
    if text.len() > 0 {
        lemma_number_not_negative(text.drop_last(), radix);
        let low = number_value(text.drop_last(), radix);
        assert(low * radix >= 0) by (nonlinear_arith)
            requires
                low >= 0,
                radix >= 2,
        ;
    }
}

/// The value of a digit in the given radix.
fn digit(byte: u8, radix: u8) -> (value: Option<u8>)
    requires
        2 <= radix <= 36,
    ensures
        match value {
            Some(v) => digit_value(byte, radix as int) == Some(v as int),
            None => digit_value(byte, radix as int) is None,
        },
{
    let value: u8 = if 48 <= byte && byte <= 57 {
        byte - 48
    } else if 97 <= byte && byte <= 122 {
        byte - 97 + 10
    } else if 65 <= byte && byte <= 90 {
        byte - 65 + 10
    } else {
        36
    };
    if value < radix {
        Some(value)
    } else {
        None
    }
}

/// Reads `text` as a number in the given radix.
pub fn read_unsigned(text: &[u8], radix: u8) -> (number: Option<usize>)
    requires
        2 <= radix <= 36,
    ensures
        match number {
            Some(n) => parse_unsigned(text@, radix as int) == Some(n as int),
            None => parse_unsigned(text@, radix as int) is None,
        },
{
    let start: usize = if text.len() > 0 && text[0] == 43 {
        1
    } else {
        0
    };
    let ghost digits = unsigned_digits(text@);
    if start == text.len() {
        return None;
    }
    let mut number: usize = 0;
    let mut i: usize = start;
    while i < text.len()
        invariant
            2 <= radix <= 36,
            start <= i <= text@.len(),
            digits == text@.skip(start as int),
            digits == unsigned_digits(text@),
            all_digits(digits.take(i - start), radix as int),
            number == number_value(digits.take(i - start), radix as int),
        decreases text@.len() - i,
    {
        let ghost done = digits.take(i - start);
        let ghost next = digits.take(i - start + 1);
        assert(next.drop_last() =~= done);
        let value = match digit(text[i], radix) {
            Some(value) => value,
            None => {
                assert(digit_value(digits[i - start], radix as int) is None);
                return None;
            },
        };
        let scaled = match number.checked_mul(radix as usize) {
            Some(scaled) => scaled,
            None => {
                proof {
                    lemma_overflow(digits, radix as int, i - start + 1);
                }
                return None;
            },
        };
        number = match scaled.checked_add(value as usize) {
            Some(sum) => sum,
            None => {
                proof {
                    lemma_overflow(digits, radix as int, i - start + 1);
                }
                return None;
            },
        };
        i += 1;
    }
    assert(digits.take(i - start) =~= digits);
    Some(number)
}

/// Where the first digits of a text spell too large a number, the text
/// spells none that fits.
proof fn lemma_overflow(digits: Seq<u8>, radix: int, shorter: int)
    requires
        2 <= radix <= 36,
        0 <= shorter <= digits.len(),
        all_digits(digits.take(shorter), radix),
        number_value(digits.take(shorter), radix) > usize::MAX,
    ensures
        !(all_digits(digits, radix) && number_value(digits, radix) <= usize::MAX),
{
    if all_digits(digits, radix) {
        lemma_number_grows(digits, radix, shorter);
    }
}

/// Whether `byte` is a space.
fn is_space_byte(byte: u8) -> (space: bool)
    ensures
        space == is_space(byte),
{
    (9 <= byte && byte <= 13) || byte == 32
}

/// The part of `text` between the spaces at its start and at its end.
pub fn trim(text: &[u8]) -> (inner: &[u8])
    ensures
        inner@ == trimmed(text@),
{
    let mut start: usize = 0;
    assert(text@.skip(0) =~= text@);
    while start < text.len() && is_space_byte(text[start])
        invariant
            start <= text@.len(),
            leading_spaces(text@) == start + leading_spaces(text@.skip(start as int)),
        decreases text@.len() - start,
    {
        assert(text@.skip(start as int).skip(1) =~= text@.skip(start + 1));
        start += 1;
    }
    let ghost rest = text@.skip(start as int);
    let mut end: usize = text.len();
    assert(rest.take(end - start) =~= rest);
    while end > start && is_space_byte(text[end - 1])
        invariant
            start <= end <= text@.len(),
            rest == text@.skip(start as int),
            trailing_spaces(rest) == text@.len() - end + trailing_spaces(rest.take(end - start)),
        decreases end,
    {
        assert(rest.take(end - start).drop_last() =~= rest.take(end - start - 1));
        end -= 1;
    }
    vstd::slice::slice_subrange(text, start, end)
}

/// Reads what `pidof` printed for one process: its id in decimal, with
/// spaces and line ends around it. Only the white space of ASCII is taken
/// off, as `is_space` says: with any other byte around the number, white
/// space of Unicode too, the text is no process id.
pub fn xochitl_pid(output: &[u8]) -> (r: Result<usize, DeviceError>)
    ensures
        match parse_unsigned(trimmed(output@), 10) {
            Some(pid) => r == Ok::<usize, DeviceError>(pid as usize),
            None => r == Err::<usize, DeviceError>(DeviceError::BadPid),
        },
{
    match read_unsigned(trim(output), 10) {
        Some(pid) => Ok(pid),
        None => Err(DeviceError::BadPid),
    }
}

/// The device models whose framebuffer is known.
#[derive(Clone, Copy, Debug, PartialEq, Eq, Structural)]
pub enum Model {
    Remarkable1,
    Remarkable2,
}

/// The size of the display and the width of a pixel in its framebuffer.
#[derive(Clone, Copy, Debug, PartialEq, Eq, Structural)]
pub struct Geometry {
    pub width: usize,
    pub height: usize,
    pub bytes_per_pixel: usize,
}

impl Model {
    /// What the machine file of this model holds, with the line end.
    pub open spec fn machine_name(self) -> Seq<u8> {
        match self {
            Model::Remarkable1 => "reMarkable 1.0\n".spec_bytes(),
            Model::Remarkable2 => "reMarkable 2.0\n".spec_bytes(),
        }
    }

    /// The framebuffer of this model.
    pub open spec fn framebuffer(self) -> Geometry {
        match self {
            Model::Remarkable1 => Geometry { width: 1408, height: 1872, bytes_per_pixel: 2 },
            Model::Remarkable2 => Geometry { width: 1404, height: 1872, bytes_per_pixel: 1 },
        }
    }

    /// The framebuffer of this model.
    pub fn geometry(self) -> (geometry: Geometry)
        ensures
            geometry == self.framebuffer(),
    {
        match self {
            Model::Remarkable1 => Geometry { width: 1408, height: 1872, bytes_per_pixel: 2 },
            Model::Remarkable2 => Geometry { width: 1404, height: 1872, bytes_per_pixel: 1 },
        }
    }
}

/// Whether two texts are the same.
fn same_bytes(left: &[u8], right: &[u8]) -> (same: bool)
    ensures
        same == (left@ == right@),
{
    if left.len() != right.len() {
        return false;
    }
    let mut i: usize = 0;
    while i < left.len()
        invariant
            i <= left@.len(),
            left@.len() == right@.len(),
            forall|j: int| 0 <= j < i ==> left@[j] == right@[j],
        decreases left@.len() - i,
    {
        if left[i] != right[i] {
            return false;
        }
        i += 1;
    }
    assert(left@ =~= right@);
    true
}

/// The model that the content of the machine file names.
pub fn detect_model(machine: &[u8]) -> (r: Result<Model, DeviceError>)
    ensures
        r == if machine@ == Model::Remarkable1.machine_name() {
            Ok::<Model, DeviceError>(Model::Remarkable1)
        } else if machine@ == Model::Remarkable2.machine_name() {
            Ok::<Model, DeviceError>(Model::Remarkable2)
        } else {
            Err::<Model, DeviceError>(DeviceError::UnknownModel)
        },
{
    if same_bytes(machine, "reMarkable 1.0\n".as_bytes()) {
        Ok(Model::Remarkable1)
    } else if same_bytes(machine, "reMarkable 2.0\n".as_bytes()) {
        Ok(Model::Remarkable2)
    } else {
        Err(DeviceError::UnknownModel)
    }
}

/// The first line of `text`, without its line end: a line feed, or a
/// carriage return and a line feed.
pub open spec fn first_line(text: Seq<u8>) -> Seq<u8> {
    let len = count_until(text, 10);
    if 0 < len < text.len() && text[len - 1] == 13 {
        text.take(len - 1)
    } else {
        text.take(len)
    }
}

/// What follows the first line of `text` and its line end.
pub open spec fn after_first_line(text: Seq<u8>) -> Seq<u8> {
    let len = count_until(text, 10);
    if len < text.len() {
        text.skip(len + 1)
    } else {
        Seq::empty()
    }
}

/// The line that follows the first line of `text` that ends in `suffix`.
/// `None` where no line ends so, and where the one that does is the last.
pub open spec fn line_after(text: Seq<u8>, suffix: Seq<u8>) -> Option<Seq<u8>>
    decreases text.len(),
    via line_after_decreases
{
    if text.len() == 0 {
        None
    } else if ends_with(first_line(text), suffix) {
        if after_first_line(text).len() == 0 {
            None
        } else {
            Some(first_line(after_first_line(text)))
        }
    } else {
        line_after(after_first_line(text), suffix)
    }
}

#[via_fn]
proof fn line_after_decreases(text: Seq<u8>, suffix: Seq<u8>) {
    lemma_count_bounds(text, 10);
}

/// The count is within the text.
proof fn lemma_count_bounds(text: Seq<u8>, byte: u8)
    ensures
        0 <= count_until(text, byte) <= text.len(),
    decreases text.len(),
{
    if text.len() > 0 && text[0] != byte {
        lemma_count_bounds(text.skip(1), byte);
    }
}

/// The name that marks the framebuffer device in a memory map.
pub open spec fn framebuffer_device() -> Seq<u8> {
    "/dev/fb0".spec_bytes()
}

/// How far behind the start of its mapping the framebuffer lies.
pub const FRAMEBUFFER_HEADER: usize = 8;

/// Where the framebuffer lies in the memory of the process whose memory map
/// is `maps`: the mapping in the line behind the first line that ends in
/// `/dev/fb0` starts at the address that this line gives in hexadecimal
/// before its first `-`, and the framebuffer lies `FRAMEBUFFER_HEADER` bytes
/// behind that.
pub open spec fn framebuffer_offset(maps: Seq<u8>) -> Result<int, DeviceError> {
    match line_after(maps, framebuffer_device()) {
        None => Err(DeviceError::NoFramebufferMapping),
        Some(line) => match parse_unsigned(line.take(count_until(line, 45)), 16) {
            None => Err(DeviceError::BadFramebufferAddress),
            Some(address) => if address + FRAMEBUFFER_HEADER <= usize::MAX {
                Ok(address + FRAMEBUFFER_HEADER)
            } else {
                Err(DeviceError::BadFramebufferAddress)
            },
        },
    }
}

/// Counting goes on byte by byte.
proof fn lemma_count_step(text: Seq<u8>, byte: u8, at: int)
    requires
        0 <= at < text.len(),
        text[at] != byte,
    ensures
        count_until(text.skip(at), byte) == 1 + count_until(text.skip(at + 1), byte),
{
    assert(text.skip(at).skip(1) =~= text.skip(at + 1));
}

/// How many bytes stand before the first `byte` in `text`.
fn index_of(text: &[u8], byte: u8) -> (len: usize)
    ensures
        len == count_until(text@, byte),
        len <= text@.len(),
{
    let mut i: usize = 0;
    assert(text@.skip(0) =~= text@);
    while i < text.len() && text[i] != byte
        invariant
            i <= text@.len(),
            count_until(text@, byte) == i + count_until(text@.skip(i as int), byte),
        decreases text@.len() - i,
    {
        proof {
            lemma_count_step(text@, byte, i as int);
        }
        i += 1;
    }
    i
}

/// Cuts `text` behind its first line.
fn split_line(text: &[u8]) -> (parts: (&[u8], &[u8]))
    ensures
        parts.0@ == first_line(text@),
        parts.1@ == after_first_line(text@),
        text@.len() > 0 ==> parts.1@.len() < text@.len(),
{
    let len = index_of(text, 10);
    let line = if 0 < len && len < text.len() && text[len - 1] == 13 {
        vstd::slice::slice_subrange(text, 0, len - 1)
    } else {
        vstd::slice::slice_subrange(text, 0, len)
    };
    let rest = if len < text.len() {
        vstd::slice::slice_subrange(text, len + 1, text.len())
    } else {
        vstd::slice::slice_subrange(text, 0, 0)
    };
    (line, rest)
}

/// Whether `text` ends in `suffix`.
fn has_suffix(text: &[u8], suffix: &[u8]) -> (found: bool)
    ensures
        found == ends_with(text@, suffix@),
{
    if text.len() < suffix.len() {
        return false;
    }
    let from = text.len() - suffix.len();
    same_bytes(vstd::slice::slice_subrange(text, from, text.len()), suffix)
}

/// Finds the framebuffer in the memory map of a process.
pub fn rm2_fb_offset(maps: &[u8]) -> (r: Result<usize, DeviceError>)
    ensures
        match framebuffer_offset(maps@) {
            Ok(offset) => r == Ok::<usize, DeviceError>(offset as usize),
            Err(e) => r == Err::<usize, DeviceError>(e),
        },
{
    let device = "/dev/fb0".as_bytes();
    let mut text = maps;
    while text.len() > 0
        invariant
            device@ == framebuffer_device(),
            line_after(maps@, device@) == line_after(text@, device@),
        decreases text@.len(),
    {
        let (line, rest) = split_line(text);
        if has_suffix(line, device) {
            if rest.len() == 0 {
                return Err(DeviceError::NoFramebufferMapping);
            }
            let (mapping, _) = split_line(rest);
            let field = vstd::slice::slice_subrange(mapping, 0, index_of(mapping, 45));
            return match read_unsigned(field, 16) {
                None => Err(DeviceError::BadFramebufferAddress),
                Some(address) => match address.checked_add(FRAMEBUFFER_HEADER) {
                    Some(offset) => Ok(offset),
                    None => Err(DeviceError::BadFramebufferAddress),
                },
            };
        }
        text = rest;
    }
    Err(DeviceError::NoFramebufferMapping)
}

} // verus!
