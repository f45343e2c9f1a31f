//! Screenshots as the `grim` tool writes them: binary PPM images, turned into pixels with their
//! bytes in the order blue, green, red, alpha.
use vstd::arithmetic::div_mod::*;
use vstd::prelude::*;
use vstd::utf8::*;

use crate::raster::column_of;
use crate::raster::crop_byte;
use crate::raster::row_of;
use crate::text::chars_of;
use crate::text::decimal;
use crate::text::decimal_is_digits;
use crate::text::decimal_reads_back;
use crate::text::find_word;
use crate::text::is_digit;
use crate::text::is_space;
use crate::text::parse_u32;
use crate::text::parsed_u32;
use crate::text::word_at;
use crate::text::word_end;
use crate::text::word_start;
use crate::text::words_in_detail;

verus! {

/// Why an image could not be read.
#[derive(Debug, Clone, Copy, PartialEq, Eq, Structural)]
pub enum PpmError {
    /// The image does not start with `P6`.
    NotP6,
    /// A line that should be there has no end.
    UnexpectedEnd,
    /// The line of dimensions is not valid UTF-8.
    InvalidDimensions,
    /// The line of dimensions is blank.
    NoWidth,
    /// The width is no number below 2^32.
    BadWidth,
    /// The line of dimensions holds one word only.
    NoHeight,
    /// The height is no number below 2^32.
    BadHeight,
    /// The number of pixels, or of the bytes in a row or in all rows, is too large to count.
    TooLarge,
}

/// The end of a line.
pub const NEWLINE: u8 = 0x0a;

/// The first byte of a comment line.
pub const HASH: u8 = 0x23;

/// `std::str::from_utf8` reads bytes as UTF-8: it succeeds on valid UTF-8, and gives the characters
/// that the bytes encode.
#[verifier::external_body]
fn from_utf8(bytes: &[u8]) -> (r: Option<&str>)
    ensures
        r is Some == valid_utf8(bytes@),
        r matches Some(s) ==> s@ == decode_utf8(bytes@),
{
    std::str::from_utf8(bytes).ok()
}

// ── The header ───────────────────────────────────────────────────

/// The first place of a byte at or after `start`.
pub open spec fn find_from(data: Seq<u8>, byte: u8, start: int) -> Option<int>
    decreases data.len() - start,
{
    if 0 <= start < data.len() {
        if data[start] == byte {
            Some(start)
        } else {
            find_from(data, byte, start + 1)
        }
    } else {
        None
    }
}

/// Where the first line at or after `pos` starts that is no comment, unless a comment has no end.
pub open spec fn after_comments(data: Seq<u8>, pos: int) -> Option<int>
    decreases data.len() - pos,
    when 0 <= pos
{
    if pos < data.len() && data[pos] == HASH {
        proof {
            find_is_in_range(data, NEWLINE, pos);
        }
        match find_from(data, NEWLINE, pos) {
            Some(end) => after_comments(data, end + 1),
            None => None,
        }
    } else {
        Some(pos)
    }
}

/// The dimensions that a line writes: width and height, as its first two words.
pub open spec fn dimensions(line: Seq<u8>) -> Result<(u32, u32), PpmError> {
    if !valid_utf8(line) {
        Err(PpmError::InvalidDimensions)
    } else {
        let text = decode_utf8(line);
        match word_at(text, 0) {
            None => Err(PpmError::NoWidth),
            Some(first) => match parsed_u32(first) {
                None => Err(PpmError::BadWidth),
                Some(width) => match word_at(text, word_end(text, word_start(text, 0))) {
                    None => Err(PpmError::NoHeight),
                    Some(second) => match parsed_u32(second) {
                        None => Err(PpmError::BadHeight),
                        Some(height) => Ok((width, height)),
                    },
                },
            },
        }
    }
}

/// What stands before the pixels of an image.
pub struct Header {
    pub width: u32,
    pub height: u32,
    /// Where the pixels start.
    pub pixels: int,
}

/// The header of an image: the line that starts with `P6`, comments, the line of dimensions, and
/// the line of the largest value.
pub open spec fn header(data: Seq<u8>) -> Result<Header, PpmError> {
    if !(data.len() >= 2 && data[0] == 0x50 && data[1] == 0x36) {
        Err(PpmError::NotP6)
    } else {
        match find_from(data, NEWLINE, 0) {
            None => Err(PpmError::UnexpectedEnd),
            Some(magic_end) => match after_comments(data, magic_end + 1) {
                None => Err(PpmError::UnexpectedEnd),
                Some(start) => match find_from(data, NEWLINE, start) {
                    None => Err(PpmError::UnexpectedEnd),
                    Some(end) => match dimensions(data.subrange(start, end)) {
                        Err(e) => Err(e),
                        Ok((width, height)) => match find_from(data, NEWLINE, end + 1) {
                            None => Err(PpmError::UnexpectedEnd),
                            Some(last) => Ok(Header { width, height, pixels: last + 1 }),
                        },
                    },
                },
            },
        }
    }
}

/// A byte is found at or after the start, and in the data.
pub proof fn find_is_in_range(data: Seq<u8>, byte: u8, start: int)
    ensures
        find_from(data, byte, start) matches Some(p) ==> start <= p < data.len() && 0 <= start,
    decreases data.len() - start,
{
    if 0 <= start < data.len() && data[start] != byte {
        find_is_in_range(data, byte, start + 1);
    }
}

/// Finds the first place of a byte at or after `start`.
pub fn find_byte(byte: u8, data: &[u8], start: usize) -> (r: Result<usize, PpmError>)
    requires
        start <= data@.len(),
    ensures
        match find_from(data@, byte, start as int) {
            Some(p) => r matches Ok(found) && found == p && start <= p < data@.len(),
            None => r == Err::<usize, PpmError>(PpmError::UnexpectedEnd),
        },
{
    let mut i: usize = start;
    while i < data.len()
        invariant
            start <= i <= data@.len(),
            find_from(data@, byte, i as int) == find_from(data@, byte, start as int),
        decreases data@.len() - i,
    {
        if data[i] == byte {
            return Ok(i);
        }
        i = i + 1;
    }
    Err(PpmError::UnexpectedEnd)
}

/// Reads the dimensions from a line.
fn read_dimensions(line: &[u8]) -> (r: Result<(u32, u32), PpmError>)
    ensures
        r == dimensions(line@),
{
    let text: Vec<char> = match from_utf8(line) {
        Some(s) => chars_of(s),
        None => return Err(PpmError::InvalidDimensions),
    };
    let (first, first_end): (usize, usize) = match find_word(&text, 0) {
        Some(word) => word,
        None => return Err(PpmError::NoWidth),
    };
    let width: u32 = match parse_u32(&text, first, first_end) {
        Some(n) => n,
        None => return Err(PpmError::BadWidth),
    };
    let (second, second_end): (usize, usize) = match find_word(&text, first_end) {
        Some(word) => word,
        None => return Err(PpmError::NoHeight),
    };
    match parse_u32(&text, second, second_end) {
        Some(height) => Ok((width, height)),
        None => Err(PpmError::BadHeight),
    }
}

/// Reads the header: the width, the height and where the pixels start.
fn read_header(data: &[u8]) -> (r: Result<(u32, u32, usize), PpmError>)
    ensures
        match header(data@) {
            Ok(h) => {
                &&& r matches Ok((width, height, pixels))
                &&& width == h.width
                &&& height == h.height
                &&& pixels == h.pixels
                &&& pixels <= data@.len()
            },
            Err(e) => r == Err::<(u32, u32, usize), PpmError>(e),
        },
{
    if !(data.len() >= 2 && data[0] == 0x50 && data[1] == 0x36) {
        return Err(PpmError::NotP6);
    }
    let magic_end: usize = match find_byte(NEWLINE, data, 0) {
        Ok(p) => p,
        Err(e) => return Err(e),
    };
    let mut pos: usize = magic_end + 1;
    while pos < data.len() && data[pos] == HASH
        invariant
            pos <= data@.len(),
            data@.len() >= 2 && data@[0] == 0x50 && data@[1] == 0x36,
            find_from(data@, NEWLINE, 0) == Some(magic_end as int),
            after_comments(data@, pos as int) == after_comments(data@, magic_end + 1),
        decreases data@.len() - pos,
    {
        match find_byte(NEWLINE, data, pos) {
            Ok(p) => {
                pos = p + 1;
            },
            Err(e) => return Err(e),
        }
    }
    let line_end: usize = match find_byte(NEWLINE, data, pos) {
        Ok(p) => p,
        Err(e) => return Err(e),
    };
    let (width, height): (u32, u32) = match read_dimensions(
        vstd::slice::slice_subrange(data, pos, line_end),
    ) {
        Ok(d) => d,
        Err(e) => return Err(e),
    };
    match find_byte(NEWLINE, data, line_end + 1) {
        Ok(p) => Ok((width, height, p + 1)),
        Err(e) => Err(e),
    }
}

// ── The pixels ───────────────────────────────────────────────────

/// Byte `k` of the pixels in the order blue, green, red, alpha, opaque, from bytes in the order
/// red, green, blue. A pixel that is not there is zero.
pub open spec fn bgra_byte(rgb: Seq<u8>, k: int) -> u8 {
    let place = (k / 4) * 3;
    if place + 2 < rgb.len() {
        if k % 4 == 3 {
            255
        } else {
            rgb[place + 2 - k % 4]
        }
    } else {
        0
    }
}

/// The numbers of pixels and bytes of an image can be counted.
pub open spec fn countable(width: u32, height: u32) -> bool {
    &&& width * 4 <= u32::MAX
    &&& width * height <= u32::MAX
    &&& width * height * 4 <= usize::MAX
}

/// Turns the bytes of `count` pixels, which start at `start`, into the order blue, green, red,
/// alpha.
fn read_pixels(data: &[u8], start: usize, count: usize) -> (r: Vec<u8>)
    requires
        start <= data@.len(),
        count * 4 <= usize::MAX,
    ensures
        r@.len() == count * 4,
        forall|k: int|
            0 <= k < count * 4 ==> #[trigger] r@[k] == bgra_byte(data@.skip(start as int), k),
{
    let ghost rgb = data@.skip(start as int);
    let total: usize = data.len();
    let len: usize = total - start;
    let mut bgra: Vec<u8> = Vec::with_capacity(count * 4);
    let mut i: usize = 0;
    while i < count
        invariant
            start <= data@.len(),
            total == data@.len(),
            len == total - start,
            rgb == data@.skip(start as int),
            count * 4 <= usize::MAX,
            i <= count,
            bgra@.len() == i * 4,
            forall|k: int| 0 <= k < bgra@.len() ==> #[trigger] bgra@[k] == bgra_byte(rgb, k),
        decreases count - i,
    {
        let si: usize = i * 3;
        if si < len && len - si > 2 {
            bgra.push(data[start + si + 2]);
            bgra.push(data[start + si + 1]);
            bgra.push(data[start + si]);
            bgra.push(255);
        } else {
            bgra.push(0);
            bgra.push(0);
            bgra.push(0);
            bgra.push(0);
        }
        i = i + 1;
    }
    bgra
}

/// The result is what the image holds: its pixels, its width, its height and the bytes in a row, or
/// the error that it has.
pub open spec fn is_reading(data: Seq<u8>, r: Result<(Vec<u8>, u32, u32, u32), PpmError>) -> bool {
    match header(data) {
        Err(e) => r == Err::<(Vec<u8>, u32, u32, u32), PpmError>(e),
        Ok(h) => if !countable(h.width, h.height) {
            r == Err::<(Vec<u8>, u32, u32, u32), PpmError>(PpmError::TooLarge)
        } else {
            &&& r matches Ok((bgra, width, height, stride))
            &&& width == h.width
            &&& height == h.height
            &&& stride == h.width * 4
            &&& bgra@.len() == h.width * h.height * 4
            &&& forall|k: int|
                0 <= k < bgra@.len() ==> #[trigger] bgra@[k] == bgra_byte(data.skip(h.pixels), k)
        },
    }
}

/// Reads a binary PPM image: its pixels, its width, its height and the bytes in a row.
pub fn parse_ppm(data: &[u8]) -> (r: Result<(Vec<u8>, u32, u32, u32), PpmError>)
    ensures
        is_reading(data@, r),
{
    let (width, height, pos): (u32, u32, usize) = match read_header(data) {
        Ok(h) => h,
        Err(e) => return Err(e),
    };
    assert(0 <= width * height <= u32::MAX * u32::MAX) by (nonlinear_arith)
        requires
            0 <= width <= u32::MAX,
            0 <= height <= u32::MAX,
    ;
    let count: u64 = width as u64 * height as u64;
    if width > 0xffff_ffff / 4 || count > 0xffff_ffff || count > (usize::MAX / 4) as u64 {
        return Err(PpmError::TooLarge);
    }
    let bgra: Vec<u8> = read_pixels(data, pos, count as usize);
    Ok((bgra, width, height, width * 4))
}

// ── Images written and read back ─────────────────────────────────

/// The bytes of an ASCII text.
pub open spec fn ascii(s: Seq<char>) -> Seq<u8> {
    Seq::new(s.len(), |i: int| s[i] as u8)
}

/// Comment lines with these texts.
pub open spec fn comment_lines(comments: Seq<Seq<u8>>) -> Seq<u8>
    decreases comments.len(),
{
    if comments.len() == 0 {
        Seq::empty()
    } else {
        seq![HASH] + comments[0] + seq![NEWLINE] + comment_lines(comments.skip(1))
    }
}

/// The characters of a line of dimensions.
pub open spec fn dimension_text(width: u32, height: u32) -> Seq<char> {
    decimal(width as nat) + seq![' '] + decimal(height as nat)
}

/// A binary PPM image: `P6`, comments, the dimensions, the largest value 255, and the pixels.
pub open spec fn ppm_file(comments: Seq<Seq<u8>>, width: u32, height: u32, rgb: Seq<u8>) -> Seq<
    u8,
> {
    seq![0x50u8, 0x36u8, NEWLINE] + comment_lines(comments) + ascii(dimension_text(width, height))
        + seq![NEWLINE, 0x32u8, 0x35u8, 0x35u8, NEWLINE] + rgb
}

proof fn lemma_find(data: Seq<u8>, byte: u8, start: int, p: int)
    requires
        0 <= start <= p < data.len(),
        data[p] == byte,
        forall|i: int| start <= i < p ==> data[i] != byte,
    ensures
        find_from(data, byte, start) == Some(p),
    decreases p - start,
{
    if start < p {
        lemma_find(data, byte, start + 1, p);
    }
}

proof fn lemma_comments(pre: Seq<u8>, comments: Seq<Seq<u8>>, rest: Seq<u8>)
    requires
        forall|i: int| 0 <= i < comments.len() ==> !(#[trigger] comments[i]).contains(NEWLINE),
        rest.len() > 0,
        rest[0] != HASH,
    ensures
        after_comments(pre + comment_lines(comments) + rest, pre.len() as int) == Some(
            (pre.len() + comment_lines(comments).len()) as int,
        ),
    decreases comments.len(),
{
    let data = pre + comment_lines(comments) + rest;
    if comments.len() > 0 {
        let first = seq![HASH] + comments[0] + seq![NEWLINE];
        let more = comments.skip(1);
        assert forall|i: int| 0 <= i < more.len() implies !(#[trigger] more[i]).contains(
            NEWLINE,
        ) by {
            assert(more[i] == comments[i + 1]);
        }
        lemma_comments(pre + first, more, rest);
        assert((pre + first) + comment_lines(more) + rest =~= data);
        let end = pre.len() + 1 + comments[0].len();
        assert forall|i: int| pre.len() <= i < end implies data[i] != NEWLINE by {
            if i > pre.len() {
                assert(data[i] == comments[0][i - pre.len() - 1]);
                assert(comments[0].contains(data[i]));
            }
        }
        lemma_find(data, NEWLINE, pre.len() as int, end as int);
    }
}

proof fn lemma_word_end(s: Seq<char>, i: int, end: int)
    requires
        0 <= i <= end <= s.len(),
        forall|j: int| i <= j < end ==> !is_space(#[trigger] s[j]),
        end < s.len() ==> is_space(s[end]),
    ensures
        word_end(s, i) == end,
    decreases end - i,
{
    if i < end {
        lemma_word_end(s, i + 1, end);
    }
}

proof fn lemma_ascii(c: char)
    requires
        is_digit(c) || c == ' ',
    ensures
        '\0' <= c <= '\u{7f}',
{
}

proof fn lemma_dimensions(width: u32, height: u32)
    ensures
        dimensions(ascii(dimension_text(width, height))) == Ok::<(u32, u32), PpmError>(
            (width, height),
        ),
        !ascii(dimension_text(width, height)).contains(NEWLINE),
        ascii(dimension_text(width, height)).len() > 0,
        ascii(dimension_text(width, height))[0] != HASH,
{
    let a = decimal(width as nat);
    let b = decimal(height as nat);
    let text = dimension_text(width, height);
    let line = ascii(text);
    decimal_is_digits(width as nat);
    decimal_is_digits(height as nat);
    decimal_reads_back(width);
    decimal_reads_back(height);
    assert forall|i: int| 0 <= i < text.len() implies (is_digit(#[trigger] text[i]) || text[i]
        == ' ') by {
        if i < a.len() {
            assert(is_digit(a[i]));
        } else if i > a.len() {
            assert(is_digit(b[i - a.len() - 1]));
        }
    }
    assert(is_ascii_chars(text)) by {
        assert forall|i: int| 0 <= i < text.len() implies '\0' <= #[trigger] text[i]
            <= '\u{7f}' by {
            assert(is_digit(text[i]) || text[i] == ' ');
            lemma_ascii(text[i]);
        }
    }
    is_ascii_chars_encode_utf8(text);
    assert(encode_utf8(text) =~= line);
    encode_utf8_valid_utf8(text);
    encode_utf8_decode_utf8(text);
    // The first word ends before the space.
    assert(is_digit(a[0]) && text[0] == a[0]);
    let n = a.len() as int;
    assert(text[n] == ' ');
    assert forall|j: int| 0 <= j < n implies !is_space(#[trigger] text[j]) by {
        assert(is_digit(a[j]));
    }
    lemma_word_end(text, 0, n);
    assert(text.subrange(0, n) =~= a);
    // The second word reaches to the end.
    assert(is_digit(b[0]) && text[n + 1] == b[0]);
    assert(word_start(text, n + 1) == n + 1);
    assert(word_start(text, n) == n + 1);
    assert forall|j: int| n + 1 <= j < text.len() implies !is_space(#[trigger] text[j]) by {
        assert(is_digit(b[j - n - 1]));
    }
    lemma_word_end(text, n + 1, text.len() as int);
    assert(text.subrange(n + 1, text.len() as int) =~= b);
    assert forall|i: int| 0 <= i < line.len() implies line[i] != NEWLINE by {
        assert(is_digit(text[i]) || text[i] == ' ');
    }
}

/// An image that was written is read back: the header gives the dimensions, whatever comments stand
/// before them, and the pixels follow it.
pub proof fn ppm_reads_back(comments: Seq<Seq<u8>>, width: u32, height: u32, rgb: Seq<u8>)
    requires
        forall|i: int| 0 <= i < comments.len() ==> !(#[trigger] comments[i]).contains(NEWLINE),
    ensures
        ({
            let data = ppm_file(comments, width, height, rgb);
            &&& header(data) matches Ok(h)
            &&& h.width == width
            &&& h.height == height
            &&& data.skip(h.pixels) == rgb
        }),
{
    let magic = seq![0x50u8, 0x36u8, NEWLINE];
    let block = comment_lines(comments);
    let line = ascii(dimension_text(width, height));
    let tail = seq![NEWLINE, 0x32u8, 0x35u8, 0x35u8, NEWLINE];
    let data = ppm_file(comments, width, height, rgb);
    lemma_dimensions(width, height);
    lemma_find(data, NEWLINE, 0, 2);
    let rest = line + tail + rgb;
    assert(data =~= magic + block + rest);
    lemma_comments(magic, comments, rest);
    let start = (3 + block.len()) as int;
    let end = start + line.len();
    assert forall|i: int| start <= i < end implies data[i] != NEWLINE by {
        assert(data[i] == line[i - start]);
        assert(line.contains(data[i]));
    }
    lemma_find(data, NEWLINE, start, end);
    assert(data.subrange(start, end) =~= line);
    lemma_find(data, NEWLINE, end + 1, end + 4);
    assert(data.skip(end + 5) =~= rgb);
}

/// Cutting a region out of a captured image gives back its colours, each pixel opaque: what was
/// turned from red, green, blue into blue, green, red, alpha is turned back.
pub proof fn crop_gives_back_colours(
    rgb: Seq<u8>,
    shot: Seq<u8>,
    width: int,
    height: int,
    x: int,
    y: int,
    w: int,
    h: int,
    k: int,
)
    requires
        rgb.len() == width * height * 3,
        shot.len() == width * height * 4,
        forall|j: int| 0 <= j < shot.len() ==> shot[j] == #[trigger] bgra_byte(rgb, j),
        0 <= x,
        0 < w,
        x + w <= width,
        0 <= y,
        0 < h,
        y + h <= height,
        0 <= k < w * h * 4,
    ensures
        crop_byte(shot, width * 4, x, y, w, k) == (if k % 4 == 3 {
            255
        } else {
            rgb[((y + row_of(k, w)) * width + x + column_of(k, w)) * 3 + k % 4]
        }),
{
    let q = k / 4;
    let row = row_of(k, w);
    let col = column_of(k, w);
    lemma_fundamental_div_mod(q, w);
    lemma_mod_bound(q, w);
    assert(0 <= row < h) by (nonlinear_arith)
        requires
            q == w * row + col,
            0 <= col < w,
            0 <= q < w * h,
            0 < w,
    ;
    let p = (y + row) * width + x + col;
    assert((y + row) * (width * 4) + (x + col) * 4 == p * 4) by (nonlinear_arith)
        requires
            p == (y + row) * width + x + col,
    ;
    assert(0 <= p && p + 1 <= width * height) by (nonlinear_arith)
        requires
            p == (y + row) * width + x + col,
            0 <= y + row < height,
            0 <= x + col < width,
    ;
    assert(shot[p * 4] == bgra_byte(rgb, p * 4));
    assert(shot[p * 4 + 1] == bgra_byte(rgb, p * 4 + 1));
    assert(shot[p * 4 + 2] == bgra_byte(rgb, p * 4 + 2));
    assert(shot[p * 4 + 3] == bgra_byte(rgb, p * 4 + 3));
}

// ── Headers and pixels in detail ─────────────────────────────────

/// A byte is found at its first place at or after the start, and not at all if it is not there.
pub proof fn finds_in_detail(data: Seq<u8>, byte: u8, start: int, p: int)
    requires
        0 <= start <= p <= data.len(),
        forall|i: int| start <= i < p ==> data[i] != byte,
        p < data.len() ==> data[p] == byte,
    ensures
        p < data.len() ==> find_from(data, byte, start) == Some(p),
        p == data.len() ==> find_from(data, byte, start) is None,
    decreases p - start,
{
    if start < p {
        finds_in_detail(data, byte, start + 1, p);
    }
}

/// A line that starts with a hash sign is skipped with its end; any other line is not. There is
/// nothing behind a comment without an end.
pub proof fn comments_in_detail(data: Seq<u8>, pos: int, end: int)
    requires
        0 <= pos <= end <= data.len(),
        forall|i: int| pos <= i < end ==> data[i] != 0x0a,
        end < data.len() ==> data[end] == 0x0a,
    ensures
        pos < data.len() && data[pos] == 0x23 && end < data.len() ==> after_comments(data, pos)
            == after_comments(data, end + 1),
        pos < data.len() && data[pos] == 0x23 && end == data.len() ==> after_comments(data, pos) is None,
        pos < data.len() && data[pos] != 0x23 ==> after_comments(data, pos) == Some(pos),
        pos == data.len() ==> after_comments(data, pos) == Some(pos),
{
    finds_in_detail(data, 0x0a, pos, end);
}

/// The first word of a line of dimensions is the width and the second the height, each a number below
/// 2^32. What stands behind them does not matter. The error tells which of the words is missing or no
/// number; the width is looked at first.
pub proof fn dimensions_in_detail(text: Seq<char>, a: int, b: int, c: int, d: int)
    requires
        0 <= a < b <= text.len(),
        forall|j: int| 0 <= j < a ==> is_space(#[trigger] text[j]),
        forall|j: int| a <= j < b ==> !is_space(#[trigger] text[j]),
        b < text.len() ==> is_space(text[b]),
        b <= c <= d <= text.len(),
        forall|j: int| b <= j < c ==> is_space(#[trigger] text[j]),
        forall|j: int| c <= j < d ==> !is_space(#[trigger] text[j]),
        d < text.len() ==> is_space(text[d]),
        c == d ==> d == text.len(),
    ensures
        ({
            let line = encode_utf8(text);
            let (width, height) = (
                parsed_u32(text.subrange(a, b)),
                parsed_u32(text.subrange(c, d)),
            );
            &&& width is None ==> dimensions(line) == Err::<(u32, u32), PpmError>(
                PpmError::BadWidth,
            )
            &&& width is Some && c == d ==> dimensions(line) == Err::<(u32, u32), PpmError>(
                PpmError::NoHeight,
            )
            &&& width is Some && c < d && height is None ==> dimensions(line) == Err::<
                (u32, u32),
                PpmError,
            >(PpmError::BadHeight)
            &&& width is Some && c < d && height is Some ==> dimensions(line) == Ok::<
                (u32, u32),
                PpmError,
            >((width->0, height->0))
        }),
{
    encode_utf8_valid_utf8(text);
    encode_utf8_decode_utf8(text);
    words_in_detail(text, 0, a, b);
    words_in_detail(text, b, c, d);
}

/// A blank line has no width, and one that is not UTF-8 no dimensions.
pub proof fn dimensions_without_words(text: Seq<char>, line: Seq<u8>)
    requires
        forall|j: int| 0 <= j < text.len() ==> is_space(#[trigger] text[j]),
    ensures
        dimensions(encode_utf8(text)) == Err::<(u32, u32), PpmError>(PpmError::NoWidth),
        !valid_utf8(line) ==> dimensions(line) == Err::<(u32, u32), PpmError>(
            PpmError::InvalidDimensions,
        ),
{
    encode_utf8_valid_utf8(text);
    encode_utf8_decode_utf8(text);
    let n = text.len() as int;
    words_in_detail(text, 0, n, n);
}

/// A header is the rest of a line that starts with `P6`, comments, a line of dimensions that starts
/// at `start` and ends at `end`, and a line that ends at `last`; the pixels come behind it. Each of
/// these lines has to have its end.
pub proof fn headers_in_detail(data: Seq<u8>, magic_end: int, start: int, end: int, last: int)
    requires
        2 <= magic_end <= data.len(),
        data[0] == 0x50 && data[1] == 0x36,
        forall|i: int| 0 <= i < magic_end ==> data[i] != 0x0a,
        magic_end < data.len() ==> data[magic_end] == 0x0a,
        magic_end < data.len() && after_comments(data, magic_end + 1) is Some ==> {
            &&& after_comments(data, magic_end + 1) == Some(start)
            &&& 0 <= start <= end <= data.len()
            &&& forall|i: int| start <= i < end ==> data[i] != 0x0a
            &&& end < data.len() ==> data[end] == 0x0a
            &&& end < data.len() ==> end + 1 <= last <= data.len()
            &&& forall|i: int| end < i < last ==> data[i] != 0x0a
            &&& last < data.len() ==> data[last] == 0x0a
        },
    ensures
        magic_end == data.len() ==> header(data) == Err::<Header, PpmError>(PpmError::UnexpectedEnd),
        magic_end < data.len() && after_comments(data, magic_end + 1) is None ==> header(data)
            == Err::<Header, PpmError>(PpmError::UnexpectedEnd),
        magic_end < data.len() && after_comments(data, magic_end + 1) is Some && end == data.len()
            ==> header(data) == Err::<Header, PpmError>(PpmError::UnexpectedEnd),
        magic_end < data.len() && after_comments(data, magic_end + 1) is Some && end < data.len()
            ==> {
            &&& dimensions(data.subrange(start, end)) matches Err(e) ==> header(data) == Err::<
                Header,
                PpmError,
            >(e)
            &&& dimensions(data.subrange(start, end)) matches Ok(d) ==> {
                &&& last == data.len() ==> header(data) == Err::<Header, PpmError>(
                    PpmError::UnexpectedEnd,
                )
                &&& last < data.len() ==> header(data) == Ok::<Header, PpmError>(
                    Header { width: d.0, height: d.1, pixels: last + 1 },
                )
            }
        },
{
    finds_in_detail(data, 0x0a, 0, magic_end);
    if magic_end < data.len() && after_comments(data, magic_end + 1) is Some {
        finds_in_detail(data, 0x0a, start, end);
        if end < data.len() {
            finds_in_detail(data, 0x0a, end + 1, last);
        }
    }
}

/// What does not start with `P6` is no image.
pub proof fn other_data_is_no_image(data: Seq<u8>)
    requires
        data.len() < 2 || data[0] != 0x50 || data[1] != 0x36,
    ensures
        header(data) == Err::<Header, PpmError>(PpmError::NotP6),
{
}

/// Pixel `i` has blue, green, red and full alpha, from the three bytes of the image that are its red,
/// green and blue; it is zero if the image ends before it does.
pub proof fn pixels_in_detail(rgb: Seq<u8>, i: int)
    requires
        0 <= i,
    ensures
        i * 3 + 2 < rgb.len() ==> {
            &&& bgra_byte(rgb, i * 4) == rgb[i * 3 + 2]
            &&& bgra_byte(rgb, i * 4 + 1) == rgb[i * 3 + 1]
            &&& bgra_byte(rgb, i * 4 + 2) == rgb[i * 3]
            &&& bgra_byte(rgb, i * 4 + 3) == 255
        },
        i * 3 + 2 >= rgb.len() ==> {
            &&& bgra_byte(rgb, i * 4) == 0
            &&& bgra_byte(rgb, i * 4 + 1) == 0
            &&& bgra_byte(rgb, i * 4 + 2) == 0
            &&& bgra_byte(rgb, i * 4 + 3) == 0
        },
{
}

/// An image is too large to count only if the bytes of a row or the pixels are 2^32 or more, or all
/// bytes more than memory can hold.
pub proof fn sizes_in_detail(width: u32, height: u32)
    ensures
        countable(width, height) <==> width * 4 < 0x1_0000_0000 && width * height < 0x1_0000_0000
            && width * height * 4 <= usize::MAX,
{
}

/// An image that was written is read back pixel by pixel, whatever comments stand in it: pixel `i` has
/// the blue, green and red that were written for it and is opaque, and rows follow one another
/// without gaps. An image that is too large to count is refused.
pub proof fn written_images_are_read_back(
    comments: Seq<Seq<u8>>,
    width: u32,
    height: u32,
    rgb: Seq<u8>,
    r: Result<(Vec<u8>, u32, u32, u32), PpmError>,
    i: int,
)
    requires
        forall|j: int| 0 <= j < comments.len() ==> !(#[trigger] comments[j]).contains(NEWLINE),
        rgb.len() == width * height * 3,
        is_reading(ppm_file(comments, width, height, rgb), r),
        0 <= i < width * height,
    ensures
        width * 4 < 0x1_0000_0000 && width * height < 0x1_0000_0000 && width * height * 4
            <= usize::MAX ==> {
            &&& r matches Ok((bgra, w, h, stride))
            &&& w == width && h == height && stride == width * 4
            &&& bgra@.len() == width * height * 4
            &&& bgra@[i * 4] == rgb[i * 3 + 2]
            &&& bgra@[i * 4 + 1] == rgb[i * 3 + 1]
            &&& bgra@[i * 4 + 2] == rgb[i * 3]
            &&& bgra@[i * 4 + 3] == 255
        },
        width * 4 >= 0x1_0000_0000 || width * height >= 0x1_0000_0000 || width * height * 4
            > usize::MAX ==> r == Err::<(Vec<u8>, u32, u32, u32), PpmError>(PpmError::TooLarge),
{
    ppm_reads_back(comments, width, height, rgb);
    pixels_in_detail(rgb, i);
}

/// What cannot be read for its header gives the header's error, and what is no image is refused.
pub proof fn faulty_images_are_refused(
    data: Seq<u8>,
    r: Result<(Vec<u8>, u32, u32, u32), PpmError>,
)
    requires
        is_reading(data, r),
    ensures
        header(data) matches Err(e) ==> r == Err::<(Vec<u8>, u32, u32, u32), PpmError>(e),
        data.len() < 2 || data[0] != 0x50 || data[1] != 0x36 ==> r == Err::<
            (Vec<u8>, u32, u32, u32),
            PpmError,
        >(PpmError::NotP6),
{
}

} // verus!
