//! Byte-stream decoder.
use vstd::prelude::*;
use vstd::slice::*;
use vstd::string::*;

use crate::error;
use crate::error::{invalid_data, over_limit, ErrorView, Result};
use crate::image::{QoiChannels, QoiColorspace, QoiHeader, QoiImage};
use crate::model;
use crate::model::{CodecState, Pixel};
use crate::ops::{qoi_hash, QoiOp};
use crate::text;
use crate::text::decimal;
use crate::{END_MARKER, HEADER_SIZE, MAGIC, OP_DIFF, OP_LUMA, OP_RGB, OP_RGBA, OP_RUN};

verus! {

/// The number that four big-endian bytes spell.
pub open spec fn be_u32(b0: u8, b1: u8, b2: u8, b3: u8) -> u32 {
    (b0 * 0x1000000 + b1 * 0x10000 + b2 * 0x100 + b3) as u32
}

/// What the first 14 bytes of a file say, or why they say nothing.
pub open spec fn header_of(input: Seq<u8>) -> core::result::Result<QoiHeader, ErrorView> {
    if input.len() < HEADER_SIZE {
        Err(ErrorView::InvalidData("QOI: input shorter than 14-byte header"@))
    } else if input.take(4) != MAGIC@ {
        Err(ErrorView::InvalidData("QOI: missing 'qoif' magic"@))
    } else if input[12] != 3 && input[12] != 4 {
        Err(
            ErrorView::InvalidData(
                "QOI: header.channels = "@ + text::decimal_text(input[12] as nat)
                    + " (must be 3 or 4)"@,
            ),
        )
    } else if input[13] != 0 && input[13] != 1 {
        Err(
            ErrorView::InvalidData(
                "QOI: header.colorspace = "@ + text::decimal_text(input[13] as nat)
                    + " (must be 0 or 1)"@,
            ),
        )
    } else {
        let header = QoiHeader {
            width: be_u32(input[4], input[5], input[6], input[7]),
            height: be_u32(input[8], input[9], input[10], input[11]),
            channels: if input[12] == 3 {
                QoiChannels::Rgb
            } else {
                QoiChannels::Rgba
            },
            colorspace: if input[13] == 0 {
                QoiColorspace::SrgbWithLinearAlpha
            } else {
                QoiColorspace::AllLinear
            },
        };
        if header.width == 0 || header.height == 0 {
            Err(ErrorView::InvalidData("QOI: zero dimension in header"@))
        } else {
            Ok(header)
        }
    }
}

/// The bytes between header and end marker.
pub open spec fn chunk_section(input: Seq<u8>) -> Seq<u8> {
    input.subrange(HEADER_SIZE as int, input.len() - 8)
}

/// The last 8 bytes.
pub open spec fn trailer(input: Seq<u8>) -> Seq<u8> {
    input.skip(input.len() - 8)
}

/// Read the header of a file, without looking at anything behind it.
///
/// Accepts inputs as short as the 14 header bytes.
pub fn parse_qoi_header(input: &[u8]) -> (r: Result<QoiHeader>)
    ensures
        error::outcome(r) == header_of(input@),
        r matches Ok(header) ==> {
            &&& header.width == input@[4] * 16777216 + input@[5] * 65536 + input@[6] * 256
                + input@[7]
            &&& header.height == input@[8] * 16777216 + input@[9] * 65536 + input@[10] * 256
                + input@[11]
        },
{
    parse_header_only(input)
}

/// Decode a whole file into an image.
pub fn parse_qoi(input: &[u8]) -> (r: Result<QoiImage>)
    ensures
        match r {
            Ok(image) => decode(input@) == Ok::<(QoiHeader, Seq<u8>), ErrorView>(
                (image.header(), image.pixels@),
            ) && image.pts is None && (decode(input@) matches Ok((header, _)) && image.width
                == header.width && image.height == header.height && image.channels
                == header.channels && image.colorspace == header.colorspace),
            Err(e) => decode(input@) == Err::<(QoiHeader, Seq<u8>), ErrorView>(e@),
        },
{
    let mut pixels: Vec<u8> = Vec::new();
    match parse_qoi_into(input, &mut pixels) {
        Ok(header) => Ok(
            QoiImage {
                width: header.width,
                height: header.height,
                channels: header.channels,
                colorspace: header.colorspace,
                pixels,
                pts: None,
            },
        ),
        Err(e) => Err(e),
    }
}

/// Decode a whole file into a buffer of the caller's, and return its header.
///
/// What the buffer held before is dropped; its allocation is kept and used
/// again. Whatever the header announces, the buffer is filled only as far as
/// the chunk bytes can reach: 62 pixels of 4 bytes for each. After an error
/// nothing more is promised of what the buffer holds.
pub fn parse_qoi_into(input: &[u8], pixels: &mut Vec<u8>) -> (r: Result<QoiHeader>)
    ensures
        final(pixels)@.len() <= 248 * (if input@.len() >= HEADER_SIZE + 8 {
            input@.len() - HEADER_SIZE - 8
        } else {
            0
        }),
        match r {
            Ok(header) => decode(input@) == Ok::<(QoiHeader, Seq<u8>), ErrorView>(
                (header, final(pixels)@),
            ),
            Err(e) => decode(input@) == Err::<(QoiHeader, Seq<u8>), ErrorView>(e@),
        },
{
    pixels.clear();
    if input.len() < HEADER_SIZE + END_MARKER.len() {
        return Err(invalid_data("QOI: input shorter than header + end marker"));
    }
    let header = match parse_header_only(input) {
        Ok(header) => header,
        Err(e) => return Err(e),
    };
    proof {
        lemma_pixel_count_bound(header.width, header.height);
    }
    let count: u64 = header.width as u64 * header.height as u64;
    let bpp: u64 = header.channels.to_byte() as u64;
    proof {
        match header.channels {
            QoiChannels::Rgb => assert(count * bpp == 3 * count) by (nonlinear_arith)
                requires
                    bpp == 3,
            ,
            QoiChannels::Rgba => assert(count * bpp == 4 * count) by (nonlinear_arith)
                requires
                    bpp == 4,
            ,
        }
        assert(count * bpp == header.byte_count());
    }
    let total: u64 = match count.checked_mul(bpp) {
        Some(total) => total,
        None => return Err(over_limit("QOI: width*height*channels overflows u64")),
    };
    // `usize` is at most 64 bits wide, so its maximum is a `u64`.
    if total > usize::MAX as u64 {
        return Err(over_limit("QOI: total pixel bytes overflows usize"));
    }
    let end: usize = input.len() - END_MARKER.len();
    let tail = slice_subrange(input, end, input.len());
    assert(tail@ =~= trailer(input@));
    if !bytes_equal(tail, END_MARKER) {
        return Err(invalid_data("QOI: missing or invalid end marker"));
    }
    let chunks = slice_subrange(input, HEADER_SIZE, end);
    // A chunk byte stands for at most 62 pixels, so a longer image cannot be
    // complete. Finding that out here keeps the buffer in proportion to the input.
    let count: usize = count as usize;
    let out_of_reach: bool = match chunks.len().checked_mul(62) {
        Some(most) => count > most,
        None => false,
    };
    if out_of_reach {
        return Err(invalid_data("QOI: chunk stream truncated mid-image"));
    }
    pixels.resize(total as usize, 0);
    match decode_section(chunks, header.channels, count, pixels) {
        Ok(()) => Ok(header),
        Err(e) => Err(e),
    }
}

/// The number of pixels of an image is a 64-bit number.
pub proof fn lemma_pixel_count_bound(w: u32, h: u32)
    ensures
        0 <= w * h <= u64::MAX,
{
    assert(0 <= w * h <= 0xffff_ffff * 0xffff_ffff) by (nonlinear_arith)
        requires
            0 <= w <= 0xffff_ffff,
            0 <= h <= 0xffff_ffff,
    ;
}

/// The header parser behind every entry point that reads a header.
fn parse_header_only(input: &[u8]) -> (r: Result<QoiHeader>)
    ensures
        error::outcome(r) == header_of(input@),
{
    if input.len() < HEADER_SIZE {
        return Err(invalid_data("QOI: input shorter than 14-byte header"));
    }
    if !bytes_equal(slice_subrange(input, 0, 4), MAGIC) {
        return Err(invalid_data("QOI: missing 'qoif' magic"));
    }
    let width: u32 = read_be_u32(input[4], input[5], input[6], input[7]);
    let height: u32 = read_be_u32(input[8], input[9], input[10], input[11]);
    let channels = match input[12] {
        3 => QoiChannels::Rgb,
        4 => QoiChannels::Rgba,
        other => {
            let msg = String::from_str("QOI: header.channels = ").concat(
                decimal(other).as_str(),
            ).concat(" (must be 3 or 4)");
            return Err(invalid_data(msg.as_str()));
        },
    };
    let colorspace = match input[13] {
        0 => QoiColorspace::SrgbWithLinearAlpha,
        1 => QoiColorspace::AllLinear,
        other => {
            let msg = String::from_str("QOI: header.colorspace = ").concat(
                decimal(other).as_str(),
            ).concat(" (must be 0 or 1)");
            return Err(invalid_data(msg.as_str()));
        },
    };
    if width == 0 || height == 0 {
        return Err(invalid_data("QOI: zero dimension in header"));
    }
    Ok(QoiHeader { width, height, channels, colorspace })
}

/// Whether two byte slices hold the same bytes.
pub(crate) fn bytes_equal(a: &[u8], b: &[u8]) -> (same: bool)
    ensures
        same == (a@ == b@),
{
    if a.len() != b.len() {
        return false;
    }
    let mut i: usize = 0;
    while i < a.len()
        invariant
            i <= a@.len(),
            a@.len() == b@.len(),
            forall|j: int| 0 <= j < i ==> a@[j] == b@[j],
        decreases a@.len() - i,
    {
        if a[i] != b[i] {
            return false;
        }
        i += 1;
    }
    assert(a@ =~= b@);
    true
}

/// Assemble a big-endian number.
fn read_be_u32(b0: u8, b1: u8, b2: u8, b3: u8) -> (n: u32)
    ensures
        n == be_u32(b0, b1, b2, b3),
{
    b0 as u32 * 0x1000000 + b1 as u32 * 0x10000 + b2 as u32 * 0x100 + b3 as u32
}

/// The six kinds of chunk, told apart by the leading byte.
///
/// The 8-bit tags take precedence over the 2-bit tag `11`, which is why a run
/// is at most 62 pixels long.
#[derive(Debug, Clone, Copy, PartialEq, Eq, Structural)]
pub enum Chunk {
    Rgb,
    Rgba,
    Index,
    Diff,
    Luma,
    Run,
}

impl Chunk {
    /// The kind of chunk that a leading byte announces.
    pub open spec fn of_tag(tag: u8) -> Chunk {
        if tag == OP_RGBA {
            Chunk::Rgba
        } else if tag == OP_RGB {
            Chunk::Rgb
        } else if tag < OP_DIFF {
            Chunk::Index
        } else if tag < OP_LUMA {
            Chunk::Diff
        } else if tag < OP_RUN {
            Chunk::Luma
        } else {
            Chunk::Run
        }
    }

    /// Dispatch on the leading byte.
    pub fn from_tag(tag: u8) -> (c: Self)
        ensures
            c == Chunk::of_tag(tag),
    {
        if tag == OP_RGBA {
            Chunk::Rgba
        } else if tag == OP_RGB {
            Chunk::Rgb
        } else {
            match tag / 64 {
                0 => Chunk::Index,
                1 => Chunk::Diff,
                2 => Chunk::Luma,
                _ => Chunk::Run,
            }
        }
    }
}

/// Read the chunk that starts at `pos`.
pub(crate) fn read_chunk(chunks: &[u8], pos: usize) -> (op: QoiOp)
    requires
        pos < chunks@.len(),
    ensures
        op == model::first_op(chunks@.skip(pos as int)),
{
    let tag: u8 = chunks[pos];
    let present: usize = chunks.len() - pos - 1;
    match Chunk::from_tag(tag) {
        Chunk::Rgb => {
            if present < 3 {
                QoiOp::Truncated { tag, missing_body_bytes: (3 - present) as u8 }
            } else {
                QoiOp::Rgb { r: chunks[pos + 1], g: chunks[pos + 2], b: chunks[pos + 3] }
            }
        },
        Chunk::Rgba => {
            if present < 4 {
                QoiOp::Truncated { tag, missing_body_bytes: (4 - present) as u8 }
            } else {
                QoiOp::Rgba {
                    r: chunks[pos + 1],
                    g: chunks[pos + 2],
                    b: chunks[pos + 3],
                    a: chunks[pos + 4],
                }
            }
        },
        Chunk::Index => QoiOp::Index { index: tag % 64 },
        Chunk::Diff => QoiOp::Diff {
            dr: (tag / 16 % 4) as i8 - 2,
            dg: (tag / 4 % 4) as i8 - 2,
            db: (tag % 4) as i8 - 2,
        },
        Chunk::Luma => {
            if present < 1 {
                QoiOp::Truncated { tag, missing_body_bytes: 1 }
            } else {
                let body: u8 = chunks[pos + 1];
                QoiOp::Luma {
                    dg: (tag % 64) as i8 - 32,
                    dr_dg: (body / 16) as i8 - 8,
                    db_dg: (body % 16) as i8 - 8,
                }
            }
        },
        Chunk::Run => QoiOp::Run { length: tag % 64 + 1 },
    }
}

/// The running pixel array's bucket selector.
pub fn hash(p: [u8; 4]) -> (slot: u8)
    ensures
        slot == (3 * p@[0] + 5 * p@[1] + 7 * p@[2] + 11 * p@[3]) % 64,
        slot == (Pixel { r: p@[0], g: p@[1], b: p@[2], a: p@[3] }).slot(),
{
    qoi_hash(p)
}

/// Why a chunk section does not hold an image of the announced size.
pub enum StreamFault {
    /// The section ends before the image is complete.
    Exhausted,
    /// The section ends inside a chunk with this leading byte.
    CutShort { tag: u8 },
    /// A run reaches past the end of the image.
    Overshoot,
    /// Chunk bytes are left over once the image is complete.
    Trailing,
}

impl StreamFault {
    /// The message that reports this fault.
    pub open spec fn text(self) -> Seq<char> {
        match self {
            StreamFault::Exhausted => "QOI: chunk stream truncated mid-image"@,
            StreamFault::CutShort { tag } => match Chunk::of_tag(tag) {
                Chunk::Rgb => "QOI: QOI_OP_RGB truncated"@,
                Chunk::Rgba => "QOI: QOI_OP_RGBA truncated"@,
                _ => "QOI: QOI_OP_LUMA truncated"@,
            },
            StreamFault::Overshoot => "QOI: run overshoots image size"@,
            StreamFault::Trailing => "QOI: trailing bytes between last chunk and end marker"@,
        }
    }
}

/// The first fault that a decoder meets when `ops` should make up exactly `need` pixels.
pub open spec fn stream_fault(ops: Seq<QoiOp>, need: nat) -> Option<StreamFault>
    decreases ops.len(),
{
    if need == 0 {
        if ops.len() == 0 {
            None
        } else {
            Some(StreamFault::Trailing)
        }
    } else if ops.len() == 0 {
        Some(StreamFault::Exhausted)
    } else {
        match ops[0] {
            QoiOp::Truncated { tag, .. } => Some(StreamFault::CutShort { tag }),
            op => if model::pixel_count(op) > need {
                Some(StreamFault::Overshoot)
            } else {
                stream_fault(ops.skip(1), (need - model::pixel_count(op)) as nat)
            },
        }
    }
}

/// What a whole file decodes to: its header and its pixel bytes, or the
/// reason why it is refused.
pub open spec fn decode(input: Seq<u8>) -> core::result::Result<(QoiHeader, Seq<u8>), ErrorView> {
    if input.len() < HEADER_SIZE + 8 {
        Err(ErrorView::InvalidData("QOI: input shorter than header + end marker"@))
    } else {
        match header_of(input) {
            Err(refusal) => Err(refusal),
            Ok(header) => {
                let ops = model::walk(chunk_section(input));
                if header.byte_count() > u64::MAX {
                    Err(ErrorView::Unsupported("QOI: width*height*channels overflows u64"@))
                } else if header.byte_count() > usize::MAX {
                    Err(ErrorView::Unsupported("QOI: total pixel bytes overflows usize"@))
                } else if trailer(input) != END_MARKER@ {
                    Err(ErrorView::InvalidData("QOI: missing or invalid end marker"@))
                } else if header.pixel_count() > 62 * chunk_section(input).len() {
                    Err(ErrorView::InvalidData(StreamFault::Exhausted.text()))
                } else {
                    match stream_fault(ops, header.pixel_count()) {
                        Some(fault) => Err(ErrorView::InvalidData(fault.text())),
                        None => Ok(
                            (
                                header,
                                model::image_bytes(
                                    model::render(CodecState::start(), ops),
                                    header.channels,
                                ),
                            ),
                        ),
                    }
                }
            },
        }
    }
}

/// Put a pixel into the buffer at byte offset `out_pos`.
fn write_pixel(out: &mut [u8], out_pos: usize, channels: QoiChannels, p: Pixel)
    requires
        out_pos + channels.width() <= old(out)@.len(),
    ensures
        final(out)@ == model::overwritten(old(out)@, out_pos as int, p.bytes(channels)),
{
    out[out_pos] = p.r;
    out[out_pos + 1] = p.g;
    out[out_pos + 2] = p.b;
    if let QoiChannels::Rgba = channels {
        out[out_pos + 3] = p.a;
    }
    assert(out@ =~= model::overwritten(old(out)@, out_pos as int, p.bytes(channels)));
}

/// Put `count` copies of a pixel into the buffer from byte offset `out_pos` on.
fn fill_run(out: &mut [u8], out_pos: usize, count: usize, channels: QoiChannels, p: Pixel)
    requires
        out_pos + channels.bytes_for(count as nat) <= old(out)@.len(),
    ensures
        final(out)@ == model::overwritten(
            old(out)@,
            out_pos as int,
            model::image_bytes(model::copies(p, count as nat), channels),
        ),
{
    let step: usize = channels.to_byte() as usize;
    let mut at: usize = out_pos;
    let mut i: usize = 0;
    let len: usize = out.len();
    proof {
        assert(out@ =~= model::overwritten(
            old(out)@,
            out_pos as int,
            model::image_bytes(model::copies(p, 0), channels),
        ));
    }
    while i < count
        invariant
            i <= count,
            step == channels.width(),
            at == out_pos + channels.bytes_for(i as nat),
            out_pos + channels.bytes_for(count as nat) <= len,
            old(out)@.len() == len,
            out@.len() == len,
            out@ == model::overwritten(
                old(out)@,
                out_pos as int,
                model::image_bytes(model::copies(p, i as nat), channels),
            ),
        decreases count - i,
    {
        let ghost part = model::copies(p, i as nat);
        proof {
            model::lemma_image_bytes_push(part, p, channels);
            model::lemma_image_bytes_len(part, channels);
            model::lemma_overwritten_twice(
                old(out)@,
                out_pos as int,
                model::image_bytes(part, channels),
                p.bytes(channels),
            );
            assert(part.push(p) =~= model::copies(p, (i + 1) as nat));
        }
        write_pixel(out, at, channels, p);
        at += step;
        i += 1;
    }
}

/// A channel value with a signed delta added, modulo 256.
fn shifted(v: u8, d: i8) -> (w: u8)
    ensures
        w == (v + d) % 256,
{
    v.wrapping_add_signed(d)
}

/// The pixel that a chunk denotes, given the previous pixel and the running pixel array.
fn resolve(prev: Pixel, slots: &[Pixel; 64], op: QoiOp) -> (p: Pixel)
    requires
        op.in_range(),
    ensures
        p == (CodecState { prev, slots: slots@ }).pixel(op),
{
    match op {
        QoiOp::Rgb { r, g, b } => Pixel { r, g, b, a: prev.a },
        QoiOp::Rgba { r, g, b, a } => Pixel { r, g, b, a },
        QoiOp::Index { index } => slots[index as usize],
        QoiOp::Diff { dr, dg, db } => Pixel {
            r: shifted(prev.r, dr),
            g: shifted(prev.g, dg),
            b: shifted(prev.b, db),
            a: prev.a,
        },
        QoiOp::Luma { dg, dr_dg, db_dg } => Pixel {
            r: shifted(prev.r, dr_dg + dg),
            g: shifted(prev.g, dg),
            b: shifted(prev.b, db_dg + dg),
            a: prev.a,
        },
        QoiOp::Run { .. } => prev,
        QoiOp::Truncated { .. } => prev,
    }
}

/// Decode a chunk section into a buffer that has the size of the image.
fn decode_section(chunks: &[u8], channels: QoiChannels, count: usize, pixels: &mut Vec<u8>) -> (r:
    Result<()>)
    requires
        channels.bytes_for(count as nat) <= usize::MAX,
        old(pixels)@.len() == channels.bytes_for(count as nat),
    ensures
        final(pixels)@.len() == old(pixels)@.len(),
        match stream_fault(model::walk(chunks@), count as nat) {
            Some(fault) => error::outcome(r) == Err::<(), ErrorView>(
                ErrorView::InvalidData(fault.text()),
            ),
            None => r is Ok && final(pixels)@ == model::image_bytes(
                model::render(CodecState::start(), model::walk(chunks@)),
                channels,
            ),
        },
{
    let bpp: usize = channels.to_byte() as usize;
    let total: usize = pixels.len();
    let mut prev: Pixel = Pixel { r: 0, g: 0, b: 0, a: 255 };
    let mut slots: [Pixel; 64] = [Pixel { r: 0, g: 0, b: 0, a: 0 };64];
    let mut pos: usize = 0;
    let mut out_pos: usize = 0;

    let ghost ops = model::walk(chunks@);
    let ghost image = model::render(CodecState::start(), ops);
    let ghost mut done = Seq::<Pixel>::empty();
    proof {
        assert(slots@ =~= CodecState::start().slots);
        assert(chunks@.skip(0) =~= chunks@);
        assert(done + image =~= image);
        assert(pixels@.take(0) =~= Seq::empty());
    }
    while out_pos < total
        invariant
            pos <= chunks@.len(),
            bpp == channels.width(),
            total == channels.bytes_for(count as nat),
            pixels@.len() == total,
            total == old(pixels)@.len(),
            done.len() <= count,
            out_pos == channels.bytes_for(done.len()),
            pixels@.take(out_pos as int) == model::image_bytes(done, channels),
            done + model::render(
                CodecState { prev, slots: slots@ },
                model::walk(chunks@.skip(pos as int)),
            ) == image,
            stream_fault(
                model::walk(chunks@.skip(pos as int)),
                (count - done.len()) as nat,
            ) == stream_fault(ops, count as nat),
            ops == model::walk(chunks@),
            image == model::render(CodecState::start(), ops),
        decreases chunks@.len() - pos,
    {
        let ghost rest = chunks@.skip(pos as int);
        let ghost state = CodecState { prev, slots: slots@ };
        if pos >= chunks.len() {
            return Err(invalid_data("QOI: chunk stream truncated mid-image"));
        }
        let op = read_chunk(chunks, pos);
        proof {
            model::lemma_first_op(rest);
        }
        if let QoiOp::Truncated { tag, .. } = op {
            return match Chunk::from_tag(tag) {
                Chunk::Rgb => Err(invalid_data("QOI: QOI_OP_RGB truncated")),
                Chunk::Rgba => Err(invalid_data("QOI: QOI_OP_RGBA truncated")),
                _ => Err(invalid_data("QOI: QOI_OP_LUMA truncated")),
            };
        }
        proof {
            let len = op.bytes().len() as int;
            assert(rest.skip(len) =~= chunks@.skip(pos + len));
            assert(model::walk(rest).skip(1) =~= model::walk(rest.skip(len)));
        }
        pos = pos + op.encoded_len();
        let p: Pixel = resolve(prev, &slots, op);
        let run: usize = match op {
            QoiOp::Run { length } => length as usize,
            _ => 1,
        };
        let ghost added = model::copies(p, run as nat);
        let ghost before = pixels@;
        proof {
            model::lemma_image_bytes_len(added, channels);
        }
        if run * bpp > total - out_pos {
            return Err(invalid_data("QOI: run overshoots image size"));
        }
        fill_run(pixels, out_pos, run, channels, p);
        out_pos = out_pos + run * bpp;
        proof {
            model::lemma_image_bytes_add(done, added, channels);
            assert(pixels@.take(out_pos as int) =~= before.take(out_pos - run * bpp)
                + model::image_bytes(added, channels));
            let tail = model::render(state.after(op), model::walk(chunks@.skip(pos as int)));
            assert(done + added + tail =~= done + (added + tail));
            done = done + added;
        }
        prev = p;
        slots[hash([p.r, p.g, p.b, p.a]) as usize] = p;
        assert(CodecState { prev, slots: slots@ } =~= state.after(op));
    }
    if pos != chunks.len() {
        return Err(invalid_data("QOI: trailing bytes between last chunk and end marker"));
    }
    proof {
        assert(done =~= image);
        assert(pixels@.take(out_pos as int) =~= pixels@);
    }
    Ok(())
}

} // verus!
