//! Portable float maps: the exchange format for linear images.
//!
//! A map is three lines of text, then the rows from the bottom up, each value
//! as the four bytes of an `f32`, lowest first. Values stand here as bits.
use vstd::prelude::*;

use crate::bits;
use crate::bits::{is_at_most32, is_finite32, is_less32};
use crate::pixels;
use crate::text;
use crate::text::{decimal_text, join5, parse_unsigned, same, trim_text, IntFault};

verus! {

/// Why something is no usable map.
#[derive(Clone, Copy, Debug, PartialEq, Eq, Structural)]
pub enum PfmError {
    /// The number of values is not that of an image of this extent.
    Extent,
    /// A line of the header is not text.
    Encoding,
    /// The first line does not announce a colour map.
    Magic,
    WidthMissing,
    Width(IntFault),
    HeightMissing,
    Height(IntFault),
    /// The third line is no number.
    Scale,
    /// The third line says that the highest byte comes first.
    BigEndian,
    /// There are fewer bytes than the extent asks for.
    Truncated,
    /// The header is not that of a map of the expected extent.
    Unexpected,
    /// The number of bytes is not that of the expected extent.
    ByteCount,
    /// A value is negative, infinite or no number.
    Radiance,
}

/// The place of the value that stands at place `k` once the rows are put in
/// opposite order.
pub open spec fn mirrored(k: int, row: int, height: int) -> int {
    pixels::cell(row, k % row, height - 1 - k / row)
}

/// The rows of a grid in opposite order.
pub open spec fn upside_down<T>(values: Seq<T>, row: int, height: int) -> Seq<T> {
    Seq::new(values.len(), |k: int| values[mirrored(k, row, height)])
}

/// Turning a grid upside down twice gives it back.
pub proof fn upside_down_twice<T>(values: Seq<T>, row: int, height: int)
    requires
        0 <= row,
        0 <= height,
        values.len() == row * height,
    ensures
        upside_down(upside_down(values, row, height), row, height) == values,
{
    let flipped = upside_down(values, row, height);
    assert forall|k: int| 0 <= k < values.len() implies upside_down(flipped, row, height)[k]
        == values[k] by {
        lemma_row_positive(k, row, height);
        pixels::coordinates_inside(row, height, k);
        let m = mirrored(k, row, height);
        pixels::cell_inside(row, height, k % row, height - 1 - k / row);
        pixels::cell_coordinates(row, k % row, height - 1 - k / row);
    }
    assert(upside_down(flipped, row, height) =~= values);
}

proof fn lemma_row_positive(k: int, row: int, height: int)
    requires
        0 <= row,
        0 <= height,
        0 <= k < row * height,
    ensures
        0 < row,
        0 < height,
{
    assert(0 < row && 0 < height) by (nonlinear_arith)
        requires
            0 <= row,
            0 <= height,
            0 <= k < row * height,
    ;
}

/// Puts the rows of a grid in opposite order.
pub fn flip_rows<T: Copy>(values: &[T], row: usize, height: usize) -> (result: Vec<T>)
    requires
        values.len() == row * height,
    ensures
        result@ == upside_down(values@, row as int, height as int),
{
    let ghost r = row as int;
    let ghost h = height as int;
    let mut out: Vec<T> = Vec::new();
    let mut k: usize = 0;
    while k < values.len()
        invariant
            r == row,
            h == height,
            k <= values.len(),
            values.len() == r * h,
            out.len() == k,
            forall|j: int| 0 <= j < k ==> #[trigger] out[j] == values[mirrored(j, r, h)],
        decreases values.len() - k,
    {
        proof {
            lemma_row_positive(k as int, r, h);
            pixels::coordinates_inside(r, h, k as int);
            pixels::cell_inside(r, h, k as int % r, h - 1 - k as int / r);
            assert(0 <= (h - 1 - k as int / r) * r) by (nonlinear_arith)
                requires
                    0 <= h - 1 - k as int / r,
                    0 < r,
            ;
        }
        let y: usize = height - 1 - k / row;
        out.push(values[y * row + k % row]);
        k = k + 1;
    }
    assert(out@ =~= upside_down(values@, r, h));
    out
}

/// The bytes of 32-bit words, lowest byte first.
pub open spec fn word_bytes(values: Seq<u32>) -> Seq<u8> {
    Seq::new(
        4 * values.len(),
        |i: int| vstd::bytes::spec_u32_to_le_bytes(values[i / 4])[i % 4],
    )
}

/// The 32-bit words that bytes spell, lowest byte first.
pub open spec fn byte_words(bytes: Seq<u8>) -> Seq<u32> {
    Seq::new(
        (bytes.len() / 4) as nat,
        |i: int| vstd::bytes::spec_u32_from_le_bytes(bytes.subrange(4 * i, 4 * i + 4)),
    )
}

/// Words read back from their bytes.
pub proof fn words_read_back(values: Seq<u32>)
    ensures
        byte_words(word_bytes(values)) == values,
{
    vstd::bytes::lemma_auto_spec_u32_to_from_le_bytes();
    let bytes = word_bytes(values);
    assert forall|i: int| 0 <= i < values.len() implies byte_words(bytes)[i] == values[i] by {
        let four = vstd::bytes::spec_u32_to_le_bytes(values[i]);
        assert(four.len() == 4);
        assert forall|b: int| 0 <= b < 4 implies bytes.subrange(4 * i, 4 * i + 4)[b]
            == four[b] by {
            assert((4 * i + b) / 4 == i && (4 * i + b) % 4 == b);
        }
        assert(bytes.subrange(4 * i, 4 * i + 4) =~= four);
    }
    assert(byte_words(bytes) =~= values);
}

/// Appends the bytes of 32-bit words, lowest byte first.
pub fn push_words(out: &mut Vec<u8>, values: &[u32])
    ensures
        final(out)@ == old(out)@ + word_bytes(values@),
{
    let ghost start = out@;
    let mut i: usize = 0;
    assert(out@ =~= start + word_bytes(values@.take(0)));
    while i < values.len()
        invariant
            i <= values.len(),
            out@ == start + word_bytes(values@.take(i as int)),
        decreases values.len() - i,
    {
        let mut four = vstd::bytes::u32_to_le_bytes(values[i]);
        proof {
            vstd::bytes::lemma_auto_spec_u32_to_from_le_bytes();
            let a = values@.take(i as int);
            let b = values@.take(i + 1);
            assert(four@.len() == 4);
            assert forall|k: int| 0 <= k < 4 * (i + 1) implies (word_bytes(a) + four@)[k]
                == word_bytes(b)[k] by {
                if k < 4 * i {
                    assert(a[k / 4] == b[k / 4]);
                } else {
                    assert(k / 4 == i);
                    assert(k % 4 == k - 4 * i);
                }
            }
            assert(word_bytes(a) + four@ =~= word_bytes(b));
            assert(start + word_bytes(a) + four@ =~= start + word_bytes(b));
        }
        out.append(&mut four);
        i = i + 1;
    }
    assert(values@.take(values.len() as int) =~= values@);
}

/// Reads `count` words from byte `start` on, lowest byte first.
pub fn read_words(bytes: &[u8], start: usize, count: usize) -> (result: Vec<u32>)
    requires
        start + 4 * count <= bytes.len(),
    ensures
        result@ == byte_words(bytes@.subrange(start as int, start + 4 * count)),
{
    let ghost part = bytes@.subrange(start as int, start + 4 * count);
    let mut out: Vec<u32> = Vec::new();
    let mut i: usize = 0;
    while i < count
        invariant
            i <= count,
            start + 4 * count <= bytes.len(),
            part == bytes@.subrange(start as int, start + 4 * count),
            out.len() == i,
            forall|j: int|
                0 <= j < i ==> #[trigger] out[j] == vstd::bytes::spec_u32_from_le_bytes(
                    part.subrange(4 * j, 4 * j + 4),
                ),
        decreases count - i,
    {
        let from: usize = start + 4 * i;
        let four = vstd::slice::slice_subrange(bytes, from, from + 4);
        assert(four@ =~= part.subrange(4 * i, 4 * i + 4));
        out.push(vstd::bytes::u32_from_le_bytes(four));
        i = i + 1;
    }
    assert(out@ =~= byte_words(part));
    out
}

/// The three lines before the values.
pub open spec fn header_text(width: int, height: int) -> Seq<char> {
    "PF\n"@ + text::decimal(width as nat) + " "@ + text::decimal(height as nat) + "\n-1.0\n"@
}

/// Whether an image of this extent has this many values.
pub open spec fn extent_fits(len: int, width: int, height: int) -> bool {
    len == width * height * 3
}

/// The bytes of the map of an image.
pub open spec fn encoded(rgb: Seq<u32>, width: int, height: int) -> Seq<u8> {
    vstd::utf8::encode_utf8(header_text(width, height)) + word_bytes(
        upside_down(rgb, width * 3, height),
    )
}

/// Whether `len == width * height * 3`, with nothing lost to overflow.
pub fn extent_matches(len: usize, width: usize, height: usize) -> (result: bool)
    ensures
        result == extent_fits(len as int, width as int, height as int),
{
    match width.checked_mul(height) {
        None => {
            proof {
                assert(width * height > usize::MAX);
            }
            false
        },
        Some(texels) => {
            if texels > usize::MAX / 3 {
                return false;
            }
            len == texels * 3
        },
    }
}

/// Writes a map.
pub fn write_pfm(rgb: &[u32], width: usize, height: usize) -> (result: Result<Vec<u8>, PfmError>)
    ensures
        if extent_fits(rgb.len() as int, width as int, height as int) {
            result matches Ok(bytes) && bytes@ == encoded(rgb@, width as int, height as int)
        } else {
            result == Err::<Vec<u8>, PfmError>(PfmError::Extent)
        },
{
    if !extent_matches(rgb.len(), width, height) {
        return Err(PfmError::Extent);
    }
    let w = decimal_text(width as u64);
    let h = decimal_text(height as u64);
    let header = join5("PF\n", w.as_str(), " ", h.as_str(), "\n-1.0\n");
    let mut out: Vec<u8> = header.as_str().as_bytes_vec();
    assert(out@ == vstd::utf8::encode_utf8(header_text(width as int, height as int)));
    if rgb.len() == 0 {
        proof {
            assert(upside_down(rgb@, width * 3, height as int) =~= rgb@);
            assert(word_bytes(rgb@) =~= Seq::<u8>::empty());
            assert(out@ + Seq::<u8>::empty() =~= out@);
        }
        return Ok(out);
    }
    proof {
        lemma_row_positive(0, width as int, height as int);
        assert(width * 3 <= width * height * 3 && (width * 3) * height == width * height * 3)
            by (nonlinear_arith)
            requires
                0 < height,
                0 <= width,
        ;
    }
    let flipped = flip_rows(rgb, width * 3, height);
    push_words(&mut out, flipped.as_slice());
    Ok(out)
}

/// Writes a map that holds at least one texel.
pub fn write_nonempty_pfm(rgb: &[u32], width: usize, height: usize) -> (result: Result<
    Vec<u8>,
    PfmError,
>)
    ensures
        if width > 0 && height > 0 && extent_fits(rgb.len() as int, width as int, height as int) {
            result matches Ok(bytes) && bytes@ == encoded(rgb@, width as int, height as int)
        } else {
            result == Err::<Vec<u8>, PfmError>(PfmError::Extent)
        },
{
    if width == 0 || height == 0 {
        return Err(PfmError::Extent);
    }
    write_pfm(rgb, width, height)
}

/// Where the line that starts at `from` ends: after its line feed, or at the
/// end of the bytes.
pub open spec fn line_end(bytes: Seq<u8>, from: int) -> int
    decreases bytes.len() - from,
{
    if from < 0 || from >= bytes.len() {
        bytes.len() as int
    } else if bytes[from] == 10 {
        from + 1
    } else {
        line_end(bytes, from + 1)
    }
}

/// A line ends at the first line feed.
proof fn lemma_line_end(bytes: Seq<u8>, from: int, end: int)
    requires
        0 <= from <= end < bytes.len(),
        forall|j: int| from <= j < end ==> #[trigger] bytes[j] != 10,
        bytes[end] == 10,
    ensures
        line_end(bytes, from) == end + 1,
    decreases end - from,
{
    if from < end {
        lemma_line_end(bytes, from + 1, end);
    }
}

/// Finds the end of the line that starts at `from`.
fn find_line_end(bytes: &[u8], from: usize) -> (result: usize)
    requires
        from <= bytes.len(),
    ensures
        result == line_end(bytes@, from as int),
        from <= result <= bytes.len(),
{
    let mut i: usize = from;
    while i < bytes.len()
        invariant
            from <= i <= bytes.len(),
            line_end(bytes@, from as int) == line_end(bytes@, i as int),
        decreases bytes.len() - i,
    {
        if bytes[i] == 10 {
            return i + 1;
        }
        i = i + 1;
    }
    bytes.len()
}

/// The text of the line between two places, without white space at its ends.
pub open spec fn line_text(bytes: Seq<u8>, from: int, to: int) -> Seq<char> {
    text::trimmed(vstd::utf8::decode_utf8(bytes.subrange(from, to)))
}

/// Whether the line between two places is text.
pub open spec fn line_valid(bytes: Seq<u8>, from: int, to: int) -> bool {
    vstd::utf8::valid_utf8(bytes.subrange(from, to))
}

/// Reads the line between two places.
fn read_line(bytes: &[u8], from: usize, to: usize) -> (result: Option<String>)
    requires
        from <= to <= bytes.len(),
    ensures
        match result {
            Some(line) => line_valid(bytes@, from as int, to as int) && line@
                == vstd::utf8::decode_utf8(bytes@.subrange(from as int, to as int)),
            None => !line_valid(bytes@, from as int, to as int),
        },
{
    text::decode_text(vstd::slice::slice_subrange(bytes, from, to))
}

/// What the header of a map says.
#[derive(Debug)]
pub struct Header {
    pub width: usize,
    pub height: usize,
    /// The third line: the sign of this number gives the order of bytes.
    pub scale: String,
    /// Where the values start.
    pub body: usize,
}

/// What the header of a map says, with its text as characters.
pub struct HeaderView {
    pub width: int,
    pub height: int,
    pub scale: Seq<char>,
    pub body: int,
}

impl View for Header {
    type V = HeaderView;

    open spec fn view(&self) -> HeaderView {
        HeaderView {
            width: self.width as int,
            height: self.height as int,
            scale: self.scale@,
            body: self.body as int,
        }
    }
}

/// The extent that the second line of a header gives.
pub open spec fn read_extent(line: Seq<char>) -> Result<(int, int), PfmError> {
    match text::first_word(line) {
        None => Err(PfmError::WidthMissing),
        Some((width, rest)) => match text::read_unsigned(width, usize::MAX as int) {
            Err(fault) => Err(PfmError::Width(fault)),
            Ok(w) => match text::first_word(rest) {
                None => Err(PfmError::HeightMissing),
                Some((height, _)) => match text::read_unsigned(height, usize::MAX as int) {
                    Err(fault) => Err(PfmError::Height(fault)),
                    Ok(h) => Ok((w, h)),
                },
            },
        },
    }
}

/// What the header of a map says, or the first thing wrong with it.
pub open spec fn header_of(bytes: Seq<u8>) -> Result<HeaderView, PfmError> {
    let a = line_end(bytes, 0);
    let b = line_end(bytes, a);
    let c = line_end(bytes, b);
    if !line_valid(bytes, 0, a) {
        Err(PfmError::Encoding)
    } else if line_text(bytes, 0, a) != "PF"@ {
        Err(PfmError::Magic)
    } else if !line_valid(bytes, a, b) {
        Err(PfmError::Encoding)
    } else {
        match read_extent(vstd::utf8::decode_utf8(bytes.subrange(a, b))) {
            Err(error) => Err(error),
            Ok((width, height)) => if !line_valid(bytes, b, c) {
                Err(PfmError::Encoding)
            } else {
                Ok(HeaderView { width, height, scale: line_text(bytes, b, c), body: c })
            },
        }
    }
}

/// Reads the second line of a header.
fn parse_extent(line: &str) -> (result: Result<(usize, usize), PfmError>)
    ensures
        match result {
            Ok(pair) => read_extent(line@) == Ok::<(int, int), PfmError>(
                (pair.0 as int, pair.1 as int),
            ),
            Err(error) => read_extent(line@) == Err::<(int, int), PfmError>(error),
        },
{
    match text::next_word(line) {
        None => Err(PfmError::WidthMissing),
        Some((width, rest)) => match parse_unsigned(width.as_str(), usize::MAX as u64) {
            Err(fault) => Err(PfmError::Width(fault)),
            Ok(w) => match text::next_word(rest.as_str()) {
                None => Err(PfmError::HeightMissing),
                Some((height, _)) => match parse_unsigned(height.as_str(), usize::MAX as u64) {
                    Err(fault) => Err(PfmError::Height(fault)),
                    Ok(h) => {
                        proof {
                            text::unsigned_is_bounded(width@, usize::MAX as int);
                            text::unsigned_is_bounded(height@, usize::MAX as int);
                        }
                        Ok((w as usize, h as usize))
                    },
                },
            },
        },
    }
}

/// Reads the header of a map.
pub fn read_header(bytes: &[u8]) -> (result: Result<Header, PfmError>)
    ensures
        match result {
            Ok(header) => header_of(bytes@) == Ok::<HeaderView, PfmError>(header@)
                && header.body <= bytes.len(),
            Err(error) => header_of(bytes@) == Err::<HeaderView, PfmError>(error),
        },
{
    let a: usize = find_line_end(bytes, 0);
    let first = match read_line(bytes, 0, a) {
        None => {
            return Err(PfmError::Encoding);
        },
        Some(line) => line,
    };
    if !same(trim_text(first.as_str()).as_str(), "PF") {
        return Err(PfmError::Magic);
    }
    let b: usize = find_line_end(bytes, a);
    let second = match read_line(bytes, a, b) {
        None => {
            return Err(PfmError::Encoding);
        },
        Some(line) => line,
    };
    let (width, height) = match parse_extent(second.as_str()) {
        Err(error) => {
            return Err(error);
        },
        Ok(pair) => pair,
    };
    let c: usize = find_line_end(bytes, b);
    match read_line(bytes, b, c) {
        None => Err(PfmError::Encoding),
        Some(third) => Ok(Header { width, height, scale: trim_text(third.as_str()), body: c }),
    }
}

/// The values of a map whose header reads as `header` and whose third line
/// denotes the `f32` with the bits `scale`, where it denotes a number.
pub open spec fn values_of(bytes: Seq<u8>, header: HeaderView, scale: Option<u32>) -> Result<
    Seq<u32>,
    PfmError,
> {
    let count = header.width * header.height * 3;
    match scale {
        None => Err(PfmError::Scale),
        Some(s) => if bits::at_most32(0, s) {
            Err(PfmError::BigEndian)
        } else if bytes.len() - header.body < 4 * count {
            Err(PfmError::Truncated)
        } else {
            Ok(
                upside_down(
                    byte_words(bytes.subrange(header.body, header.body + 4 * count)),
                    header.width * 3,
                    header.height,
                ),
            )
        },
    }
}

/// Reads the values of a map, after its header.
pub fn read_pfm(bytes: &[u8], header: &Header, scale: Option<u32>) -> (result: Result<
    Vec<u32>,
    PfmError,
>)
    requires
        header.body <= bytes.len(),
    ensures
        match result {
            Ok(values) => values_of(bytes@, header@, scale) == Ok::<Seq<u32>, PfmError>(values@),
            Err(error) => values_of(bytes@, header@, scale) == Err::<Seq<u32>, PfmError>(error),
        },
{
    match scale {
        None => {
            return Err(PfmError::Scale);
        },
        Some(s) => {
            if is_at_most32(0, s) {
                return Err(PfmError::BigEndian);
            }
        },
    }
    let width: usize = header.width;
    let height: usize = header.height;
    let room: usize = (bytes.len() - header.body) / 12;
    let texels: usize = match width.checked_mul(height) {
        None => {
            return Err(PfmError::Truncated);
        },
        Some(texels) => texels,
    };
    if texels > room {
        return Err(PfmError::Truncated);
    }
    let count: usize = texels * 3;
    let words = read_words(bytes, header.body, count);
    assert(words.len() == count);
    if count == 0 {
        proof {
            assert(upside_down(words@, width * 3, height as int) =~= words@);
        }
        return Ok(words);
    }
    proof {
        lemma_row_positive(0, width as int, height as int);
        assert(width * 3 <= width * height * 3 && (width * 3) * height == width * height * 3)
            by (nonlinear_arith)
            requires
                0 < height,
                0 <= width,
        ;
    }
    Ok(flip_rows(words.as_slice(), width * 3, height))
}

/// The three lines of a header, without white space at their ends.
#[derive(Debug)]
pub struct Lines {
    pub first: String,
    pub second: String,
    pub third: String,
    /// Where the values start.
    pub body: usize,
}

/// Whether `lines` are the three lines of the header of `bytes`.
pub open spec fn lines_of(lines: Lines, bytes: Seq<u8>) -> bool {
    let a = line_end(bytes, 0);
    let b = line_end(bytes, a);
    let c = line_end(bytes, b);
    &&& lines.first@ == line_text(bytes, 0, a)
    &&& lines.second@ == line_text(bytes, a, b)
    &&& lines.third@ == line_text(bytes, b, c)
    &&& lines.body == c
}

/// Whether the three lines of a header are text.
pub open spec fn lines_valid(bytes: Seq<u8>) -> bool {
    let a = line_end(bytes, 0);
    let b = line_end(bytes, a);
    let c = line_end(bytes, b);
    line_valid(bytes, 0, a) && line_valid(bytes, a, b) && line_valid(bytes, b, c)
}

/// Reads the three lines of a header.
pub fn read_lines(bytes: &[u8]) -> (result: Option<Lines>)
    ensures
        match result {
            Some(lines) => lines_valid(bytes@) && lines_of(lines, bytes@) && lines.body
                <= bytes.len(),
            None => !lines_valid(bytes@),
        },
{
    let a: usize = find_line_end(bytes, 0);
    let b: usize = find_line_end(bytes, a);
    let c: usize = find_line_end(bytes, b);
    match (read_line(bytes, 0, a), read_line(bytes, a, b), read_line(bytes, b, c)) {
        (Some(first), Some(second), Some(third)) => Some(
            Lines {
                first: trim_text(first.as_str()),
                second: trim_text(second.as_str()),
                third: trim_text(third.as_str()),
                body: c,
            },
        ),
        _ => None,
    }
}

/// Whether a value can be radiance: finite, and not below zero.
pub open spec fn radiant(value: u32) -> bool {
    bits::finite32(value) && !bits::less32(value, 0)
}

/// The values of a map that is expected to have this extent. `scale` is what
/// its third line denotes, where it denotes a number.
pub open spec fn expected_values(
    bytes: Seq<u8>,
    lines: Lines,
    width: int,
    height: int,
    scale: Option<u32>,
) -> Result<Seq<u32>, PfmError> {
    if lines.first@ != "PF"@ || lines.second@ != text::decimal(width as nat) + " "@ + text::decimal(
        height as nat,
    ) {
        Err(PfmError::Unexpected)
    } else {
        match scale {
            None => Err(PfmError::Scale),
            Some(s) => if !bits::equal32(s, 0xbf80_0000) {
                Err(PfmError::Unexpected)
            } else if bytes.len() - lines.body != 12 * (width * height) {
                Err(PfmError::ByteCount)
            } else {
                let values = upside_down(
                    byte_words(bytes.skip(lines.body as int)),
                    width * 3,
                    height,
                );
                if forall|i: int| 0 <= i < values.len() ==> radiant(#[trigger] values[i]) {
                    Ok(values)
                } else {
                    Err(PfmError::Radiance)
                }
            },
        }
    }
}

/// Whether every value can be radiance.
pub fn all_radiant(values: &[u32]) -> (result: bool)
    ensures
        result == (forall|i: int| 0 <= i < values.len() ==> radiant(#[trigger] values@[i])),
        result ==> forall|i: int|
            0 <= i < values@.len() ==> (#[trigger] values@[i]) < 0x7f80_0000 || values@[i]
                == 0x8000_0000,
        !result ==> exists|i: int|
            0 <= i < values@.len() && !((#[trigger] values@[i]) < 0x7f80_0000 || values@[i]
                == 0x8000_0000),
{
    let mut i: usize = 0;
    while i < values.len()
        invariant
            i <= values.len(),
            forall|j: int| 0 <= j < i ==> radiant(#[trigger] values@[j]),
        decreases values.len() - i,
    {
        let value: u32 = values[i];
        if !is_finite32(value) || is_less32(value, 0) {
            assert(!radiant(values@[i as int]));
            return false;
        }
        i = i + 1;
    }
    true
}

/// Reads the values of a map that is expected to have this extent.
pub fn read_expected(
    bytes: &[u8],
    lines: &Lines,
    width: usize,
    height: usize,
    scale: Option<u32>,
) -> (result: Result<Vec<u32>, PfmError>)
    requires
        lines.body <= bytes.len(),
        0 < width,
    ensures
        match result {
            Ok(values) => expected_values(
                bytes@,
                *lines,
                width as int,
                height as int,
                scale,
            ) == Ok::<Seq<u32>, PfmError>(values@),
            Err(error) => expected_values(
                bytes@,
                *lines,
                width as int,
                height as int,
                scale,
            ) == Err::<Seq<u32>, PfmError>(error),
        },
{
    let w = decimal_text(width as u64);
    let h = decimal_text(height as u64);
    let extent = text::join3(w.as_str(), " ", h.as_str());
    if !same(lines.first.as_str(), "PF") || !same(lines.second.as_str(), extent.as_str()) {
        return Err(PfmError::Unexpected);
    }
    match scale {
        None => {
            return Err(PfmError::Scale);
        },
        Some(s) => {
            if !bits::is_equal32(s, 0xbf80_0000) {
                return Err(PfmError::Unexpected);
            }
        },
    }
    let room: usize = bytes.len() - lines.body;
    let texels: usize = match width.checked_mul(height) {
        None => {
            return Err(PfmError::ByteCount);
        },
        Some(texels) => texels,
    };
    if room % 12 != 0 || texels != room / 12 {
        return Err(PfmError::ByteCount);
    }
    let count: usize = texels * 3;
    let words = read_words(bytes, lines.body, count);
    proof {
        assert(bytes@.subrange(lines.body as int, lines.body + 4 * count) =~= bytes@.skip(
            lines.body as int,
        ));
    }
    let values = if count == 0 {
        proof {
            assert(upside_down(words@, width * 3, height as int) =~= words@);
        }
        words
    } else {
        proof {
            lemma_row_positive(0, width as int, height as int);
            assert(width * 3 <= width * height * 3 && (width * 3) * height == width * height * 3)
                by (nonlinear_arith)
                requires
                    0 < height,
                    0 <= width,
            ;
        }
        flip_rows(words.as_slice(), width * 3, height)
    };
    if !all_radiant(values.as_slice()) {
        return Err(PfmError::Radiance);
    }
    Ok(values)
}

/// A part of ASCII text is spelled by the same part of its bytes.
proof fn lemma_ascii_part(s: Seq<char>, rest: Seq<u8>, from: int, to: int)
    requires
        vstd::utf8::is_ascii_chars(s),
        0 <= from <= to <= s.len(),
    ensures
        line_valid(vstd::utf8::encode_utf8(s) + rest, from, to),
        vstd::utf8::decode_utf8((vstd::utf8::encode_utf8(s) + rest).subrange(from, to))
            == s.subrange(from, to),
{
    let part = s.subrange(from, to);
    let bytes = vstd::utf8::encode_utf8(s) + rest;
    vstd::utf8::is_ascii_chars_encode_utf8(s);
    assert(vstd::utf8::is_ascii_chars(part));
    vstd::utf8::is_ascii_chars_encode_utf8(part);
    assert forall|i: int| 0 <= i < to - from implies bytes.subrange(from, to)[i]
        == vstd::utf8::encode_utf8(part)[i] by {
        assert(part[i] == s[from + i]);
        assert(s[from + i] as u8 == vstd::utf8::encode_utf8(s)[from + i]);
        assert(part[i] as u8 == vstd::utf8::encode_utf8(part)[i]);
    }
    assert(bytes.subrange(from, to) =~= vstd::utf8::encode_utf8(part));
    vstd::utf8::encode_utf8_valid_utf8(part);
    vstd::utf8::encode_utf8_decode_utf8(part);
}

/// A line of ASCII text ends at its first line feed.
proof fn lemma_ascii_line(s: Seq<char>, rest: Seq<u8>, from: int, end: int)
    requires
        vstd::utf8::is_ascii_chars(s),
        0 <= from <= end < s.len(),
        forall|j: int| from <= j < end ==> #[trigger] s[j] != '\n',
        s[end] == '\n',
    ensures
        line_end(vstd::utf8::encode_utf8(s) + rest, from) == end + 1,
{
    let bytes = vstd::utf8::encode_utf8(s) + rest;
    vstd::utf8::is_ascii_chars_encode_utf8(s);
    assert forall|j: int| from <= j < end implies #[trigger] bytes[j] != 10 by {
        assert(s[j] as u8 == vstd::utf8::encode_utf8(s)[j]);
        assert('\0' <= s[j] <= '\u{7f}');
    }
    assert(s[end] as u8 == vstd::utf8::encode_utf8(s)[end]);
    lemma_line_end(bytes, from, end);
}

/// Text with no white space at its ends is not changed by trimming, and a line
/// feed after it goes.
proof fn lemma_trimmed_line(s: Seq<char>)
    requires
        s.len() > 0,
        !text::white(s[0]),
        !text::white(s.last()),
    ensures
        text::trimmed(s + seq!['\n']) == s,
{
    let line = s + seq!['\n'];
    assert(line[0] == s[0]);
    assert(text::trim_start(line) == line);
    assert(line.last() == '\n');
    assert(line.drop_last() =~= s);
    assert(text::trim_end(s) == s);
}

/// The header of a written map reads back, whatever follows it.
pub proof fn header_reads_back(width: int, height: int, rest: Seq<u8>)
    requires
        0 <= width <= usize::MAX,
        0 <= height <= usize::MAX,
    ensures
        header_of(vstd::utf8::encode_utf8(header_text(width, height)) + rest) == Ok::<
            HeaderView,
            PfmError,
        >(
            HeaderView {
                width,
                height,
                scale: "-1.0"@,
                body: vstd::utf8::encode_utf8(header_text(width, height)).len() as int,
            },
        ),
{
    let dw = text::decimal(width as nat);
    let dh = text::decimal(height as nat);
    let s = header_text(width, height);
    let bytes = vstd::utf8::encode_utf8(s) + rest;
    reveal_strlit("PF\n");
    reveal_strlit(" ");
    reveal_strlit("\n-1.0\n");
    reveal_strlit("PF");
    reveal_strlit("-1.0");
    text::decimal_is_digits(width as nat);
    text::decimal_is_digits(height as nat);
    let a: int = 3;
    let b: int = (3 + dw.len() + 1 + dh.len() + 1) as int;
    let c: int = b + 5;
    assert(s.len() == c);
    assert forall|i: int| 0 <= i < dw.len() implies #[trigger] s[3 + i] == dw[i] by {}
    assert forall|i: int| 0 <= i < dh.len() implies #[trigger] s[4 + dw.len() + i] == dh[i] by {}
    assert(s[(3 + dw.len()) as int] == ' ');
    assert(vstd::utf8::is_ascii_chars(s)) by {
        assert forall|i: int| 0 <= i < s.len() implies '\0' <= #[trigger] s[i] <= '\u{7f}' by {
            if 3 <= i < 3 + dw.len() {
                assert(s[i] == dw[i - 3]);
            } else if 4 + dw.len() <= i < 4 + dw.len() + dh.len() {
                assert(s[i] == dh[i - 4 - dw.len()]);
            }
        }
    }
    assert(s.subrange(0, a) =~= "PF"@ + seq!['\n']);
    assert(s.subrange(a, b) =~= dw + seq![' '] + dh + seq!['\n']);
    assert(s.subrange(b, c) =~= "-1.0"@ + seq!['\n']);
    lemma_ascii_line(s, rest, 0, 2);
    assert forall|j: int| a <= j < b - 1 implies #[trigger] s[j] != '\n' by {
        if j < 3 + dw.len() {
            assert(s[j] == dw[j - 3]);
        } else if j > 3 + dw.len() {
            assert(s[j] == dh[j - 4 - dw.len()]);
        }
    }
    lemma_ascii_line(s, rest, a, b - 1);
    lemma_ascii_line(s, rest, b, c - 1);
    lemma_ascii_part(s, rest, 0, a);
    lemma_ascii_part(s, rest, a, b);
    lemma_ascii_part(s, rest, b, c);
    lemma_trimmed_line("PF"@);
    lemma_trimmed_line("-1.0"@);
    vstd::utf8::is_ascii_chars_encode_utf8(s);
    // The second line: two numbers with a blank between them.
    let line = s.subrange(a, b);
    let tail = seq![' '] + dh + seq!['\n'];
    assert(line =~= dw + tail);
    assert(line[0] == dw[0]);
    assert(text::trim_start(line) == line);
    assert forall|j: int| 0 <= j < dw.len() implies !text::white(#[trigger] line[j]) by {
        assert(line[j] == dw[j]);
    }
    assert(line[dw.len() as int] == ' ');
    text::word_ends(line, dw.len() as int);
    assert(line.take(dw.len() as int) =~= dw);
    assert(line.skip(dw.len() as int) =~= tail);
    let t = dh + seq!['\n'];
    assert(tail.skip(1) =~= t);
    assert(text::white(tail[0]));
    assert(t[0] == dh[0]);
    assert(text::trim_start(t) == t);
    assert(text::trim_start(tail) == t);
    assert forall|j: int| 0 <= j < dh.len() implies !text::white(#[trigger] t[j]) by {
        assert(t[j] == dh[j]);
    }
    assert(t[dh.len() as int] == '\n');
    text::word_ends(t, dh.len() as int);
    assert(t.take(dh.len() as int) =~= dh);
    text::decimal_reads_back(width as nat, usize::MAX as int);
    text::decimal_reads_back(height as nat, usize::MAX as int);
}

/// What is written to a map is read back: the same extent, and the same values
/// in the same places, with nothing lost of their range.
pub proof fn map_round_trip(rgb: Seq<u32>, width: int, height: int, scale: u32)
    requires
        0 <= width <= usize::MAX,
        0 <= height <= usize::MAX,
        extent_fits(rgb.len() as int, width, height),
        bits::less32(scale, 0),
    ensures
        header_of(encoded(rgb, width, height)) matches Ok(header) && {
            &&& header.width == width
            &&& header.height == height
            &&& header.scale == "-1.0"@
            &&& values_of(encoded(rgb, width, height), header, Some(scale)) == Ok::<
                Seq<u32>,
                PfmError,
            >(rgb)
        },
{
    let flipped = upside_down(rgb, width * 3, height);
    let body = word_bytes(flipped);
    let head = vstd::utf8::encode_utf8(header_text(width, height));
    let bytes = encoded(rgb, width, height);
    header_reads_back(width, height, body);
    assert(bytes == head + body);
    assert(body.len() == 4 * rgb.len());
    assert(bytes.subrange(head.len() as int, head.len() + 4 * (width * height * 3)) =~= body);
    words_read_back(flipped);
    assert((width * 3) * height == width * height * 3) by (nonlinear_arith);
    upside_down_twice(rgb, width * 3, height);
}

/// A map that was written, of values that can be radiance, is what a reader of
/// that extent expects, and it gives those values back.
pub proof fn expected_round_trip(rgb: Seq<u32>, width: int, height: int, lines: Lines)
    requires
        0 < width <= usize::MAX,
        0 < height <= usize::MAX,
        extent_fits(rgb.len() as int, width, height),
        forall|i: int| 0 <= i < rgb.len() ==> radiant(#[trigger] rgb[i]),
        lines_of(lines, encoded(rgb, width, height)),
    ensures
        lines.third@ == "-1.0"@,
        expected_values(encoded(rgb, width, height), lines, width, height, Some(0xbf80_0000u32))
            == Ok::<Seq<u32>, PfmError>(rgb),
{
    let flipped = upside_down(rgb, width * 3, height);
    let body = word_bytes(flipped);
    let head = vstd::utf8::encode_utf8(header_text(width, height));
    let bytes = encoded(rgb, width, height);
    header_reads_back(width, height, body);
    lemma_second_line(width, height, body);
    assert(bytes == head + body);
    assert(lines.body == head.len());
    assert(bytes.skip(lines.body as int) =~= body);
    words_read_back(flipped);
    assert((width * 3) * height == width * height * 3) by (nonlinear_arith);
    upside_down_twice(rgb, width * 3, height);
}

proof fn lemma_second_line(width: int, height: int, rest: Seq<u8>)
    requires
        0 <= width,
        0 <= height,
    ensures
        ({
            let bytes = vstd::utf8::encode_utf8(header_text(width, height)) + rest;
            let a = line_end(bytes, 0);
            line_text(bytes, a, line_end(bytes, a)) == text::decimal(width as nat) + " "@
                + text::decimal(height as nat)
        }),
{
    let dw = text::decimal(width as nat);
    let dh = text::decimal(height as nat);
    let s = header_text(width, height);
    reveal_strlit("PF\n");
    reveal_strlit(" ");
    reveal_strlit("\n-1.0\n");
    text::decimal_is_digits(width as nat);
    text::decimal_is_digits(height as nat);
    let a: int = 3;
    let b: int = (3 + dw.len() + 1 + dh.len() + 1) as int;
    assert(vstd::utf8::is_ascii_chars(s)) by {
        assert forall|i: int| 0 <= i < s.len() implies '\0' <= #[trigger] s[i] <= '\u{7f}' by {
            if 3 <= i < 3 + dw.len() {
                assert(s[i] == dw[i - 3]);
            } else if 4 + dw.len() <= i < 4 + dw.len() + dh.len() {
                assert(s[i] == dh[i - 4 - dw.len()]);
            }
        }
    }
    let line = dw + " "@ + dh;
    assert(s.subrange(a, b) =~= line + seq!['\n']);
    lemma_ascii_line(s, rest, 0, 2);
    assert forall|j: int| a <= j < b - 1 implies #[trigger] s[j] != '\n' by {
        if j < 3 + dw.len() {
            assert(s[j] == dw[j - 3]);
        } else if j > 3 + dw.len() {
            assert(s[j] == dh[j - 4 - dw.len()]);
        }
    }
    lemma_ascii_line(s, rest, a, b - 1);
    lemma_ascii_part(s, rest, a, b);
    assert(line[0] == dw[0]);
    assert(line.last() == dh.last());
    lemma_trimmed_line(line);
}

/// A map is its header and then its rows from the bottom up, four bytes a value,
/// lowest first: each value of each texel stands where the other side looks for
/// it, and there is nothing else.
pub proof fn maps_hold_their_rows_from_the_bottom_up(
    rgb: &[u32],
    width: usize,
    height: usize,
    result: Result<Vec<u8>, PfmError>,
    x: int,
    y: int,
    c: int,
    b: int,
)
    requires
        call_ensures(write_pfm, (rgb, width, height), result),
        0 <= x < width,
        0 <= y < height,
        0 <= c < 3,
        0 <= b < 4,
    ensures
        result is Ok <==> rgb@.len() == 3 * (width * height),
        result matches Ok(bytes) ==> {
            let header = vstd::utf8::encode_utf8(
                "PF\n"@ + text::decimal(width as nat) + " "@ + text::decimal(height as nat)
                    + "\n-1.0\n"@,
            );
            let place = header.len() + 4 * ((height - 1 - y) * (3 * width) + 3 * x + c) + b;
            &&& bytes@.len() == header.len() + 12 * (width * height)
            &&& bytes@.take(header.len() as int) == header
            &&& header.len() <= place < bytes@.len()
            &&& bytes@[place] == vstd::bytes::spec_u32_to_le_bytes(
                rgb@[3 * (y * width + x) + c],
            )[b]
        },
{
    let (w, h) = (width as int, height as int);
    assert(w * h * 3 == 3 * (w * h));
    if result is Ok {
        let bytes = result->Ok_0@;
        let header = vstd::utf8::encode_utf8(header_text(w, h));
        let row = w * 3;
        let flipped = upside_down(rgb@, row, h);
        let words = word_bytes(flipped);
        let q = h - 1 - y;
        let k = q * row + (3 * x + c);
        assert(0 <= k < row * h) by (nonlinear_arith)
            requires
                0 <= q < h,
                0 <= 3 * x + c < row,
                k == q * row + (3 * x + c),
        ;
        assert(row * h == 3 * (w * h)) by (nonlinear_arith)
            requires
                row == w * 3,
        ;
        vstd::arithmetic::div_mod::lemma_fundamental_div_mod_converse(k, row, q, 3 * x + c);
        assert(mirrored(k, row, h) == y * row + (3 * x + c));
        assert(y * row == 3 * (y * w)) by (nonlinear_arith)
            requires
                row == w * 3,
        ;
        assert(q * row == q * (3 * w)) by (nonlinear_arith)
            requires
                row == w * 3,
        ;
        assert(flipped[k] == rgb@[3 * (y * w + x) + c]);
        assert((4 * k + b) / 4 == k && (4 * k + b) % 4 == b);
        assert(words[4 * k + b] == vstd::bytes::spec_u32_to_le_bytes(flipped[k])[b]);
        assert(bytes == header + words);
        assert(bytes.take(header.len() as int) =~= header);
        assert(words.len() == 12 * (w * h));
    }
}

/// A value can be radiance exactly if it is a number from zero on that is finite;
/// a negative zero is one.
pub proof fn radiance_is_finite_and_not_negative(value: u32)
    ensures
        radiant(value) <==> value < 0x7f80_0000 || value == 0x8000_0000,
{
}

/// Rows change places and nothing else: what stands in a row stands, in its order,
/// in the row as far from the other end.
pub proof fn rows_change_places<T: Copy>(
    values: &[T],
    row: usize,
    height: usize,
    result: Vec<T>,
    x: int,
    y: int,
)
    requires
        values@.len() == row * height,
        call_ensures(flip_rows::<T>, (values, row, height), result),
        0 <= x < row,
        0 <= y < height,
    ensures
        result@.len() == values@.len(),
        0 <= (height - 1 - y) * row + x < values@.len(),
        0 <= y * row + x < values@.len(),
        result@[(height - 1 - y) * row + x] == values@[y * row + x],
{
    let (r, h) = (row as int, height as int);
    let q = h - 1 - y;
    let k = q * r + x;
    assert(0 <= k < r * h && 0 <= y * r + x < r * h) by (nonlinear_arith)
        requires
            0 <= q < h,
            0 <= y < h,
            0 <= x < r,
            k == q * r + x,
    ;
    vstd::arithmetic::div_mod::lemma_fundamental_div_mod_converse(k, r, q, x);
    assert(mirrored(k, r, h) == y * r + x);
}

} // verus!
