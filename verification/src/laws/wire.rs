//! Laws of the bytes themselves: which byte of a chunk and of a header says
//! what, in numbers.
use vstd::prelude::*;

use crate::decoder;
use crate::encoder;
use crate::error;
use crate::error::{ErrorView, QoiError};
use crate::image::{QoiChannels, QoiColorspace, QoiHeader};
use crate::laws::files;
use crate::model;
use crate::model::Pixel;
use crate::ops;
use crate::ops::QoiOp;
use crate::text;

verus! {

/// A pixel's slot: three times red, five times green, seven times blue and
/// eleven times alpha, modulo 64.
pub proof fn law_slot_of_pixel(p: Pixel)
    ensures
        0 <= p.slot() < 64,
        (3 * p.r + 5 * p.g + 7 * p.b + 11 * p.a - p.slot()) % 64 == 0,
{
}

/// Raw colours follow their tag in the order red, green, blue, alpha.
pub proof fn law_bytes_of_raw_colours(r: u8, g: u8, b: u8, a: u8)
    ensures
        (QoiOp::Rgb { r, g, b }).bytes() == seq![0xFEu8, r, g, b],
        (QoiOp::Rgba { r, g, b, a }).bytes() == seq![0xFFu8, r, g, b, a],
{
    assert((QoiOp::Rgb { r, g, b }).bytes() =~= seq![0xFEu8, r, g, b]);
    assert((QoiOp::Rgba { r, g, b, a }).bytes() =~= seq![0xFFu8, r, g, b, a]);
}

/// A slot is a byte: the slot number modulo 64.
pub proof fn law_bytes_of_index(index: u8, low: int)
    requires
        0 <= low < 64,
        (index - low) % 64 == 0,
    ensures
        (QoiOp::Index { index }).bytes() == seq![low as u8],
{
    assert((QoiOp::Index { index }).bytes() =~= seq![low as u8]);
}

/// Small deltas are a byte: 64, and the deltas biased by 2 and modulo 4, red
/// highest and blue lowest.
pub proof fn law_bytes_of_diff(dr: i8, dg: i8, db: i8, r: int, g: int, b: int)
    requires
        0 <= r < 4,
        0 <= g < 4,
        0 <= b < 4,
        (dr + 2 - r) % 4 == 0,
        (dg + 2 - g) % 4 == 0,
        (db + 2 - b) % 4 == 0,
    ensures
        (QoiOp::Diff { dr, dg, db }).bytes() == seq![(64 + 16 * r + 4 * g + b) as u8],
{
    assert((dr + 2) % 4 == r);
    assert((dg + 2) % 4 == g);
    assert((db + 2) % 4 == b);
    assert((QoiOp::Diff { dr, dg, db }).bytes() =~= seq![(64 + 16 * r + 4 * g + b) as u8]);
}

/// Green-relative deltas are two bytes: 128 and the green delta biased by 32
/// and modulo 64, then the red and the blue delta relative to green, biased by
/// 8 and modulo 16, red in the high half.
pub proof fn law_bytes_of_luma(dg: i8, dr_dg: i8, db_dg: i8, g: int, r: int, b: int)
    requires
        0 <= g < 64,
        0 <= r < 16,
        0 <= b < 16,
        (dg + 32 - g) % 64 == 0,
        (dr_dg + 8 - r) % 16 == 0,
        (db_dg + 8 - b) % 16 == 0,
    ensures
        (QoiOp::Luma { dg, dr_dg, db_dg }).bytes() == seq![(128 + g) as u8, (16 * r + b) as u8],
{
    assert((dg + 32) % 64 == g);
    assert((dr_dg + 8) % 16 == r);
    assert((db_dg + 8) % 16 == b);
    assert((QoiOp::Luma { dg, dr_dg, db_dg }).bytes() =~= seq![
        (128 + g) as u8,
        (16 * r + b) as u8,
    ]);
}

/// A run is a byte: 192 and its length less one, modulo 64.
pub proof fn law_bytes_of_run(length: u8, n: int)
    requires
        0 <= n < 64,
        (length - 1 - n) % 64 == 0,
    ensures
        (QoiOp::Run { length }).bytes() == seq![(192 + n) as u8],
{
    assert((QoiOp::Run { length }).bytes() =~= seq![(192 + n) as u8]);
}

/// A chunk that was cut short is written as its leading byte alone.
pub proof fn law_bytes_of_truncated(tag: u8, missing_body_bytes: u8)
    ensures
        (QoiOp::Truncated { tag, missing_body_bytes }).bytes() == seq![tag],
{
    assert((QoiOp::Truncated { tag, missing_body_bytes }).bytes() =~= seq![tag]);
}

/// Chunks are written one behind the other.
pub proof fn law_write_appends(ops: Seq<QoiOp>, op: QoiOp)
    ensures
        model::stream_bytes(Seq::empty()) == Seq::<u8>::empty(),
        model::stream_bytes(ops.push(op)) == model::stream_bytes(ops) + op.bytes(),
{
    assert(ops.push(op) =~= ops + seq![op]);
    model::lemma_stream_bytes_add(ops, seq![op]);
    model::lemma_stream_bytes_one(op);
}

/// A chunk is read off the front, and the walk goes on behind it.
proof fn lemma_walk_step(op: QoiOp, rest: Seq<u8>)
    requires
        op.in_range(),
    ensures
        model::walk(op.bytes() + rest) == seq![op] + model::walk(rest),
{
    let s = op.bytes() + rest;
    model::lemma_first_op_of_bytes(op, rest);
    assert(s.skip(op.bytes().len() as int) =~= rest);
}

/// Nothing is walked to nothing.
pub proof fn law_walk_of_nothing()
    ensures
        model::walk(Seq::empty()) == Seq::<QoiOp>::empty(),
{
}

/// Byte 254 and three more are a raw colour; byte 255 and four more are one with alpha.
pub proof fn law_walk_reads_raw_colours(r: u8, g: u8, b: u8, a: u8, rest: Seq<u8>)
    ensures
        model::walk(seq![0xFEu8, r, g, b] + rest) == seq![QoiOp::Rgb { r, g, b }] + model::walk(
            rest,
        ),
        model::walk(seq![0xFFu8, r, g, b, a] + rest) == seq![QoiOp::Rgba { r, g, b, a }]
            + model::walk(rest),
{
    law_bytes_of_raw_colours(r, g, b, a);
    lemma_walk_step(QoiOp::Rgb { r, g, b }, rest);
    lemma_walk_step(QoiOp::Rgba { r, g, b, a }, rest);
}

/// A byte below 64 is a slot.
pub proof fn law_walk_reads_index(index: u8, rest: Seq<u8>)
    requires
        index < 64,
    ensures
        model::walk(seq![index] + rest) == seq![QoiOp::Index { index }] + model::walk(rest),
{
    law_bytes_of_index(index, index as int);
    lemma_walk_step(QoiOp::Index { index }, rest);
}

/// A byte from 64 to 127 is three deltas from -2 to 1.
pub proof fn law_walk_reads_diff(dr: i8, dg: i8, db: i8, rest: Seq<u8>)
    requires
        -2 <= dr <= 1,
        -2 <= dg <= 1,
        -2 <= db <= 1,
    ensures
        model::walk(seq![(64 + 16 * (dr + 2) + 4 * (dg + 2) + (db + 2)) as u8] + rest) == seq![
            QoiOp::Diff { dr, dg, db },
        ] + model::walk(rest),
{
    law_bytes_of_diff(dr, dg, db, dr + 2, dg + 2, db + 2);
    lemma_walk_step(QoiOp::Diff { dr, dg, db }, rest);
}

/// A byte from 128 to 191 and one more are a green delta from -32 to 31 and
/// two deltas from -8 to 7 relative to it.
pub proof fn law_walk_reads_luma(dg: i8, dr_dg: i8, db_dg: i8, rest: Seq<u8>)
    requires
        -32 <= dg <= 31,
        -8 <= dr_dg <= 7,
        -8 <= db_dg <= 7,
    ensures
        model::walk(
            seq![(128 + dg + 32) as u8, (16 * (dr_dg + 8) + (db_dg + 8)) as u8] + rest,
        ) == seq![QoiOp::Luma { dg, dr_dg, db_dg }] + model::walk(rest),
{
    law_bytes_of_luma(dg, dr_dg, db_dg, dg + 32, dr_dg + 8, db_dg + 8);
    lemma_walk_step(QoiOp::Luma { dg, dr_dg, db_dg }, rest);
}

/// A byte from 192 to 253 is a run of 1 to 62.
pub proof fn law_walk_reads_run(length: u8, rest: Seq<u8>)
    requires
        1 <= length <= 62,
    ensures
        model::walk(seq![(192 + length - 1) as u8] + rest) == seq![QoiOp::Run { length }]
            + model::walk(rest),
{
    law_bytes_of_run(length, length - 1);
    lemma_walk_step(QoiOp::Run { length }, rest);
}

/// A section that ends inside a chunk ends the walk there, with the chunk's
/// leading byte and the number of bytes that are missing.
pub proof fn law_walk_of_cut_chunk(part: Seq<u8>, tag: u8)
    ensures
        part.len() < 3 ==> model::walk(seq![0xFEu8] + part) == seq![
            QoiOp::Truncated { tag: 0xFE, missing_body_bytes: (3 - part.len()) as u8 },
        ],
        part.len() < 4 ==> model::walk(seq![0xFFu8] + part) == seq![
            QoiOp::Truncated { tag: 0xFF, missing_body_bytes: (4 - part.len()) as u8 },
        ],
        128 <= tag < 192 ==> model::walk(seq![tag]) == seq![
            QoiOp::Truncated { tag, missing_body_bytes: 1 },
        ],
{
    let rgb = seq![0xFEu8] + part;
    let rgba = seq![0xFFu8] + part;
    assert(rgb[0] == 0xFE && rgba[0] == 0xFF);
}

/// What makes the first bytes of a file a header, and what that header says.
pub proof fn law_header_in_numbers(input: Seq<u8>)
    ensures
        decoder::header_of(input) is Ok <==> {
            &&& input.len() >= 14
            &&& input[0] == 113 && input[1] == 111 && input[2] == 105 && input[3] == 102
            &&& input[12] == 3 || input[12] == 4
            &&& input[13] == 0 || input[13] == 1
            &&& input[4] != 0 || input[5] != 0 || input[6] != 0 || input[7] != 0
            &&& input[8] != 0 || input[9] != 0 || input[10] != 0 || input[11] != 0
        },
        decoder::header_of(input) matches Ok(header) ==> {
            &&& header.width == input[4] * 16777216 + input[5] * 65536 + input[6] * 256 + input[7]
            &&& header.height == input[8] * 16777216 + input[9] * 65536 + input[10] * 256
                + input[11]
            &&& header.channels == if input[12] == 3 {
                QoiChannels::Rgb
            } else {
                QoiChannels::Rgba
            }
            &&& header.colorspace == if input[13] == 0 {
                QoiColorspace::SrgbWithLinearAlpha
            } else {
                QoiColorspace::AllLinear
            }
        },
{
    if input.len() >= 14 {
        let magic = seq![113u8, 111, 105, 102];
        assert(crate::MAGIC@ =~= magic);
        assert(input.take(4) == magic <==> input[0] == 113 && input[1] == 111 && input[2] == 105
            && input[3] == 102) by {
            let head = input.take(4);
            assert(head[0] == input[0] && head[1] == input[1] && head[2] == input[2] && head[3]
                == input[3]);
            if input[0] == 113 && input[1] == 111 && input[2] == 105 && input[3] == 102 {
                assert(head =~= magic);
            }
        }
    }
}

/// Why a header is refused, in the order in which its faults are looked for.
pub proof fn law_header_refusals(input: Seq<u8>)
    ensures
        ({
            let magic = input[0] == 113 && input[1] == 111 && input[2] == 105 && input[3] == 102;
            let channels = input[12] == 3 || input[12] == 4;
            let colorspace = input[13] == 0 || input[13] == 1;
            let empty = (input[4] == 0 && input[5] == 0 && input[6] == 0 && input[7] == 0) || (
            input[8] == 0 && input[9] == 0 && input[10] == 0 && input[11] == 0);
            let got = decoder::header_of(input);
            &&& input.len() < 14 ==> got == Err::<QoiHeader, ErrorView>(
                ErrorView::InvalidData("QOI: input shorter than 14-byte header"@),
            )
            &&& input.len() >= 14 && !magic ==> got == Err::<QoiHeader, ErrorView>(
                ErrorView::InvalidData("QOI: missing 'qoif' magic"@),
            )
            &&& input.len() >= 14 && magic && !channels ==> got == Err::<QoiHeader, ErrorView>(
                ErrorView::InvalidData(
                    "QOI: header.channels = "@ + text::decimal_text(input[12] as nat)
                        + " (must be 3 or 4)"@,
                ),
            )
            &&& input.len() >= 14 && magic && channels && !colorspace ==> got == Err::<
                QoiHeader,
                ErrorView,
            >(
                ErrorView::InvalidData(
                    "QOI: header.colorspace = "@ + text::decimal_text(input[13] as nat)
                        + " (must be 0 or 1)"@,
                ),
            )
            &&& input.len() >= 14 && magic && channels && colorspace && empty ==> got == Err::<
                QoiHeader,
                ErrorView,
            >(ErrorView::InvalidData("QOI: zero dimension in header"@))
        }),
{
    law_header_in_numbers(input);
    if input.len() >= 14 {
        let head = input.take(4);
        let magic = seq![113u8, 111, 105, 102];
        assert(crate::MAGIC@ =~= magic);
        assert(head[0] == input[0] && head[1] == input[1] && head[2] == input[2] && head[3]
            == input[3]);
        if input[0] == 113 && input[1] == 111 && input[2] == 105 && input[3] == 102 {
            assert(head =~= magic);
        }
    }
}

/// The bytes of a file outside its chunks, in numbers.
pub proof fn law_file_in_numbers(
    width: u32,
    height: u32,
    channels: u8,
    colorspace: u8,
    pixels: Seq<u8>,
)
    ensures
        ({
            let f = encoder::encoded(width, height, channels, colorspace, pixels);
            let n = f.len() as int;
            &&& n >= 22
            &&& f[0] == 113 && f[1] == 111 && f[2] == 105 && f[3] == 102
            &&& f[4] * 16777216 + f[5] * 65536 + f[6] * 256 + f[7] == width
            &&& f[8] * 16777216 + f[9] * 65536 + f[10] * 256 + f[11] == height
            &&& f[12] == channels
            &&& f[13] == colorspace
            &&& f[n - 8] == 0 && f[n - 7] == 0 && f[n - 6] == 0 && f[n - 5] == 0
            &&& f[n - 4] == 0 && f[n - 3] == 0 && f[n - 2] == 0 && f[n - 1] == 1
        }),
{
    let f = encoder::encoded(width, height, channels, colorspace, pixels);
    files::law_file_framing(width, height, channels, colorspace, pixels);
    let m = f.take(4);
    assert(m[0] == f[0] && m[1] == f[1] && m[2] == f[2] && m[3] == f[3]);
    lemma_big_endian(f, 4, width);
    lemma_big_endian(f, 8, height);
    lemma_end_marker(f);
}

/// Big-endian bytes add up to their number.
proof fn lemma_big_endian(f: Seq<u8>, at: int, n: u32)
    requires
        0 <= at,
        at + 4 <= f.len(),
        f.subrange(at, at + 4) == encoder::be_bytes(n),
    ensures
        f[at] * 16777216 + f[at + 1] * 65536 + f[at + 2] * 256 + f[at + 3] == n,
{
    let b = f.subrange(at, at + 4);
    assert(b[0] == f[at] && b[1] == f[at + 1] && b[2] == f[at + 2] && b[3] == f[at + 3]);
}

/// The numeric value of a digit character: `0` to `9`, then `a` to `f`.
pub open spec fn digit_value(c: char) -> int {
    if c <= '9' {
        c as int - 48
    } else {
        c as int - 87
    }
}

/// The number that decimal digits spell.
pub open spec fn spelled(t: Seq<char>) -> int
    decreases t.len(),
{
    if t.len() == 0 {
        0
    } else {
        10 * spelled(t.drop_last()) + digit_value(t.last())
    }
}

/// A digit's text is one character, and its value is the digit.
proof fn lemma_digit(d: int)
    requires
        0 <= d < 16,
    ensures
        text::digit_text(d).len() == 1,
        digit_value(text::digit_text(d)[0]) == d,
        d < 10 <==> '0' <= text::digit_text(d)[0] <= '9',
        d >= 10 <==> 'a' <= text::digit_text(d)[0] <= 'f',
{
    reveal_strlit("0123456789abcdef");
    let all = "0123456789abcdef"@;
    assert(text::digit_text(d)[0] == all[d]);
}

/// Decimal text spells its number, in decimal digits and without leading zeros.
pub proof fn law_decimal_text(n: nat)
    ensures
        spelled(text::decimal_text(n)) == n,
        text::decimal_text(n).len() > 0,
        text::decimal_text(n).len() > 1 ==> text::decimal_text(n)[0] != '0',
        forall|i: int|
            0 <= i < text::decimal_text(n).len() ==> '0' <= #[trigger] text::decimal_text(n)[i]
                <= '9',
    decreases n,
{
    let t = text::decimal_text(n);
    if n < 10 {
        lemma_digit(n as int);
        assert(t.drop_last() =~= Seq::empty());
        assert(spelled(t.drop_last()) == 0);
    } else {
        let front = text::decimal_text(n / 10);
        let d = (n % 10) as int;
        law_decimal_text(n / 10);
        lemma_digit(d);
        assert(t.drop_last() =~= front);
        assert(t.last() == text::digit_text(d)[0]);
        assert(t[0] == front[0]);
        if front.len() == 1 {
            assert(front.drop_last() =~= Seq::empty());
            assert(spelled(front.drop_last()) == 0);
            assert(front.last() == front[0]);
        }
        assert forall|i: int| 0 <= i < t.len() implies '0' <= #[trigger] t[i] <= '9' by {
            if i < front.len() {
                assert(t[i] == front[i]);
            }
        }
    }
}

/// Hexadecimal text is two digits that spell the byte.
pub proof fn law_hex_text(b: u8)
    ensures
        text::hex_text(b).len() == 2,
        16 * digit_value(text::hex_text(b)[0]) + digit_value(text::hex_text(b)[1]) == b,
        forall|i: int|
            0 <= i < 2 ==> ('0' <= #[trigger] text::hex_text(b)[i] <= '9') || ('a'
                <= text::hex_text(b)[i] <= 'f'),
{
    let t = text::hex_text(b);
    lemma_digit(b as int / 16);
    lemma_digit(b as int % 16);
    assert(t[0] == text::digit_text(b as int / 16)[0]);
    assert(t[1] == text::digit_text(b as int % 16)[0]);
}

/// The text of an error names its kind in front of the message.
pub proof fn law_error_text(msg: Seq<char>)
    ensures
        (ErrorView::InvalidData(msg)).text() == "invalid data: "@ + msg,
        (ErrorView::Unsupported(msg)).text() == "unsupported: "@ + msg,
{
}

/// Why a file's chunks cannot be walked, and that they can be otherwise.
pub proof fn law_opening_in_numbers(input: Seq<u8>)
    ensures
        ({
            let n = input.len() as int;
            let marker = input[n - 8] == 0 && input[n - 7] == 0 && input[n - 6] == 0 && input[n
                - 5] == 0 && input[n - 4] == 0 && input[n - 3] == 0 && input[n - 2] == 0
                && input[n - 1] == 1;
            let header = decoder::header_of(input);
            let got = ops::opened(input);
            &&& n < 22 ==> got == Err::<QoiHeader, ErrorView>(
                ErrorView::InvalidData("QOI: input shorter than header + end marker"@),
            )
            &&& n >= 22 && header is Err ==> got == header
            &&& n >= 22 && header is Ok && !marker ==> got == Err::<QoiHeader, ErrorView>(
                ErrorView::InvalidData("QOI: missing or invalid end marker"@),
            )
            &&& n >= 22 && header is Ok && marker ==> got == header
        }),
{
    if input.len() >= 22 {
        lemma_end_marker(input);
    }
}

/// The end marker is seven bytes 0 and a byte 1.
pub proof fn lemma_end_marker(input: Seq<u8>)
    requires
        input.len() >= 22,
    ensures
        ({
            let n = input.len() as int;
            decoder::trailer(input) == crate::END_MARKER@ <==> input[n - 8] == 0 && input[n - 7]
                == 0 && input[n - 6] == 0 && input[n - 5] == 0 && input[n - 4] == 0 && input[n - 3]
                == 0 && input[n - 2] == 0 && input[n - 1] == 1
        }),
{
    let n = input.len() as int;
    let e = decoder::trailer(input);
    let marker = seq![0u8, 0, 0, 0, 0, 0, 0, 1];
    assert(crate::END_MARKER@ =~= marker);
    assert(e[0] == input[n - 8] && e[1] == input[n - 7] && e[2] == input[n - 6] && e[3] == input[n
        - 5]);
    assert(e[4] == input[n - 4] && e[5] == input[n - 3] && e[6] == input[n - 2] && e[7] == input[n
        - 1]);
    if input[n - 8] == 0 && input[n - 7] == 0 && input[n - 6] == 0 && input[n - 5] == 0 && input[n
        - 4] == 0 && input[n - 3] == 0 && input[n - 2] == 0 && input[n - 1] == 1 {
        assert(e =~= marker);
    }
}

/// The field ranges of the chunks that a stream can carry.
pub proof fn law_ranges(op: QoiOp)
    ensures
        op.in_range() <==> match op {
            QoiOp::Rgb { .. } => true,
            QoiOp::Rgba { .. } => true,
            QoiOp::Index { index } => index < 64,
            QoiOp::Diff { dr, dg, db } => -2 <= dr <= 1 && -2 <= dg <= 1 && -2 <= db <= 1,
            QoiOp::Luma { dg, dr_dg, db_dg } => -32 <= dg <= 31 && -8 <= dr_dg <= 7 && -8 <= db_dg
                <= 7,
            QoiOp::Run { length } => 1 <= length <= 62,
            QoiOp::Truncated { .. } => false,
        },
{
}

/// What a leading byte announces.
pub proof fn law_kinds_of_chunk(tag: u8)
    ensures
        decoder::Chunk::of_tag(tag) is Index <==> tag < 64,
        decoder::Chunk::of_tag(tag) is Diff <==> 64 <= tag < 128,
        decoder::Chunk::of_tag(tag) is Luma <==> 128 <= tag < 192,
        decoder::Chunk::of_tag(tag) is Run <==> 192 <= tag < 254,
        decoder::Chunk::of_tag(tag) is Rgb <==> tag == 254,
        decoder::Chunk::of_tag(tag) is Rgba <==> tag == 255,
{
}

/// Where a file's parts are: 14 bytes of header, 8 bytes of end marker, and
/// the chunks between them.
pub proof fn law_parts_of_file(input: Seq<u8>)
    ensures
        decoder::chunk_section(input) == input.subrange(14, input.len() - 8),
        decoder::trailer(input) == input.skip(input.len() - 8),
{
}

/// How many bytes pixels take, and how many an image has.
pub proof fn law_sizes(header: QoiHeader, n: nat)
    ensures
        QoiChannels::Rgb.bytes_for(n) == 3 * n,
        QoiChannels::Rgba.bytes_for(n) == 4 * n,
        header.pixel_count() == header.width * header.height,
        header.byte_count() == if header.channels is Rgb {
            3 * (header.width * header.height)
        } else {
            4 * (header.width * header.height)
        },
{
}

/// What a strict walk says of a chunk that is cut short.
pub proof fn law_truncation_text(tag: u8, missing: u8)
    ensures
        ops::truncation_text(tag, missing) == "QOI: chunk byte 0x"@ + text::hex_text(tag)
            + " truncated, "@ + text::decimal_text(missing as nat) + " body byte(s) missing"@,
{
}

/// An error is seen by its variant and its message, a result by its value or its error.
pub proof fn law_errors_are_seen_whole(msg: String, value: QoiHeader)
    ensures
        QoiError::InvalidData(msg)@ == ErrorView::InvalidData(msg@),
        QoiError::Unsupported(msg)@ == ErrorView::Unsupported(msg@),
        error::outcome(Ok::<QoiHeader, QoiError>(value)) == Ok::<QoiHeader, ErrorView>(value),
        error::outcome(Err::<QoiHeader, QoiError>(QoiError::InvalidData(msg))) == Err::<
            QoiHeader,
            ErrorView,
        >(ErrorView::InvalidData(msg@)),
        error::outcome(Err::<QoiHeader, QoiError>(QoiError::Unsupported(msg))) == Err::<
            QoiHeader,
            ErrorView,
        >(ErrorView::Unsupported(msg@)),
{
}

/// The fixed numbers and names of the format.
pub proof fn law_constants()
    ensures
        crate::HEADER_SIZE == 14,
        crate::OP_INDEX == 0,
        crate::OP_DIFF == 64,
        crate::OP_LUMA == 128,
        crate::OP_RUN == 192,
        crate::OP_RGB == 254,
        crate::OP_RGBA == 255,
        crate::MAGIC@ == seq![113u8, 111, 105, 102],
        crate::END_MARKER@ == seq![0u8, 0, 0, 0, 0, 0, 0, 1],
        crate::CODEC_ID_STR@ == "qoi"@,
        crate::options::COLORSPACE_OPTION@ == "colorspace"@,
{
    assert(crate::MAGIC@ =~= seq![113u8, 111, 105, 102]);
    assert(crate::END_MARKER@ =~= seq![0u8, 0, 0, 0, 0, 0, 0, 1]);
}

} // verus!
