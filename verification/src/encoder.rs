//! Byte-stream encoder.
//!
//! Every pixel becomes the first chunk that can carry it, in this order: a run
//! of the previous pixel, a slot of the running pixel array, small channel
//! deltas, deltas relative to green, the raw colour, the raw colour with alpha.
use vstd::prelude::*;

use crate::decoder::hash;
use crate::image::QoiChannels;
use crate::laws::{canonical, chunks};
use crate::model;
use crate::model::{CodecState, Pixel};
use crate::ops::QoiOp;
use crate::{END_MARKER, HEADER_SIZE, MAGIC};

verus! {

/// The delta from one channel value to another, as the signed byte that wraps there.
pub open spec fn delta(from: u8, to: u8) -> int {
    let d = (to - from) % 256;
    if d < 128 {
        d
    } else {
        d - 256
    }
}

/// The chunk for a pixel that differs from the previous one.
pub open spec fn chosen(state: CodecState, cur: Pixel) -> QoiOp {
    let dr = delta(state.prev.r, cur.r);
    let dg = delta(state.prev.g, cur.g);
    let db = delta(state.prev.b, cur.b);
    if state.slots[cur.slot()] == cur {
        QoiOp::Index { index: cur.slot() as u8 }
    } else if cur.a != state.prev.a {
        QoiOp::Rgba { r: cur.r, g: cur.g, b: cur.b, a: cur.a }
    } else if -2 <= dr <= 1 && -2 <= dg <= 1 && -2 <= db <= 1 {
        QoiOp::Diff { dr: dr as i8, dg: dg as i8, db: db as i8 }
    } else if -32 <= dg <= 31 && -8 <= dr - dg <= 7 && -8 <= db - dg <= 7 {
        QoiOp::Luma { dg: dg as i8, dr_dg: (dr - dg) as i8, db_dg: (db - dg) as i8 }
    } else {
        QoiOp::Rgb { r: cur.r, g: cur.g, b: cur.b }
    }
}

/// How many pixels at the front of a sequence equal `p`.
pub open spec fn run_length(pixels: Seq<Pixel>, p: Pixel) -> nat
    decreases pixels.len(),
{
    if pixels.len() > 0 && pixels[0] == p {
        1 + run_length(pixels.skip(1), p)
    } else {
        0
    }
}

/// The chunks for a run of `n` pixels: as many runs of 62 as fit, then the rest.
pub open spec fn run_ops(n: nat) -> Seq<QoiOp>
    decreases n,
{
    if n == 0 {
        Seq::empty()
    } else if n < 62 {
        seq![QoiOp::Run { length: n as u8 }]
    } else {
        seq![QoiOp::Run { length: 62 }] + run_ops((n - 62) as nat)
    }
}

/// The chunks for a sequence of pixels, from a given state on.
pub open spec fn encode_ops(state: CodecState, pixels: Seq<Pixel>) -> Seq<QoiOp>
    decreases pixels.len(),
{
    if pixels.len() == 0 {
        Seq::empty()
    } else if pixels[0] == state.prev {
        let n = run_length(pixels, state.prev);
        proof {
            lemma_run_length(pixels, state.prev);
        }
        run_ops(n) + encode_ops(state.saw(state.prev), pixels.skip(n as int))
    } else {
        seq![chosen(state, pixels[0])] + encode_ops(state.saw(pixels[0]), pixels.skip(1))
    }
}

/// A run is a prefix of equal pixels that cannot be made longer.
pub proof fn lemma_run_length(pixels: Seq<Pixel>, p: Pixel)
    ensures
        run_length(pixels, p) <= pixels.len(),
        pixels.take(run_length(pixels, p) as int) == model::copies(p, run_length(pixels, p)),
        run_length(pixels, p) < pixels.len() ==> pixels[run_length(pixels, p) as int] != p,
        pixels.len() > 0 && pixels[0] == p ==> run_length(pixels, p) > 0,
    decreases pixels.len(),
{
    let n = run_length(pixels, p);
    if pixels.len() > 0 && pixels[0] == p {
        let rest = pixels.skip(1);
        lemma_run_length(rest, p);
        assert forall|i: int| 0 <= i < n implies pixels[i] == p by {
            if i > 0 {
                assert(rest.take(n - 1)[i - 1] == model::copies(p, (n - 1) as nat)[i - 1]);
            }
        }
    }
    assert(pixels.take(n as int) =~= model::copies(p, n));
}

/// Channel layout for a channel count of 3 or 4.
pub open spec fn layout(channels: u8) -> QoiChannels {
    if channels == 3 {
        QoiChannels::Rgb
    } else {
        QoiChannels::Rgba
    }
}

/// The four big-endian bytes of a number.
pub open spec fn be_bytes(n: u32) -> Seq<u8> {
    seq![
        (n / 0x1000000) as u8,
        (n / 0x10000 % 0x100) as u8,
        (n / 0x100 % 0x100) as u8,
        (n % 0x100) as u8,
    ]
}

/// The 14 header bytes.
pub open spec fn header_bytes(width: u32, height: u32, channels: u8, colorspace: u8) -> Seq<u8> {
    MAGIC@ + be_bytes(width) + be_bytes(height) + seq![channels, colorspace]
}

/// Which arguments can be encoded: 3 or 4 channels, a known colorspace, and
/// exactly the bytes of a `width * height` image, small enough that the
/// longest possible file can be allocated.
pub open spec fn encodable(
    width: u32,
    height: u32,
    channels: u8,
    colorspace: u8,
    pixels: Seq<u8>,
) -> bool {
    &&& channels == 3 || channels == 4
    &&& colorspace <= 1
    &&& pixels.len() == layout(channels).bytes_for((width * height) as nat)
    &&& HEADER_SIZE + 5 * (width * height) + 8 <= isize::MAX
}

/// The chunks of an image's file.
pub open spec fn image_ops(width: u32, height: u32, channels: u8, pixels: Seq<u8>) -> Seq<QoiOp> {
    encode_ops(
        CodecState::start(),
        model::pixels_of(pixels, layout(channels), (width * height) as nat),
    )
}

/// An image's file: header, chunks, end marker.
pub open spec fn encoded(
    width: u32,
    height: u32,
    channels: u8,
    colorspace: u8,
    pixels: Seq<u8>,
) -> Seq<u8> {
    header_bytes(width, height, channels, colorspace) + model::stream_bytes(
        image_ops(width, height, channels, pixels),
    ) + END_MARKER@
}

/// Encode tightly packed RGB or RGBA bytes into a file, with colorspace byte 0.
///
/// Every image can be encoded: there is no error to report. Arguments that do
/// not describe an image are the caller's mistake, see [`encodable`].
pub fn encode_qoi(width: u32, height: u32, channels: u8, pixels: &[u8]) -> (file: Vec<u8>)
    requires
        encodable(width, height, channels, 0, pixels@),
    ensures
        file@ == encoded(width, height, channels, 0, pixels@),
{
    encode_qoi_full(width, height, channels, 0, pixels)
}

/// Encode tightly packed RGB or RGBA bytes into a file, with a colorspace byte.
pub fn encode_qoi_full(
    width: u32,
    height: u32,
    channels: u8,
    colorspace: u8,
    pixels: &[u8],
) -> (file: Vec<u8>)
    requires
        encodable(width, height, channels, colorspace, pixels@),
    ensures
        file@ == encoded(width, height, channels, colorspace, pixels@),
{
    let mut buf: Vec<u8> = Vec::new();
    encode_qoi_full_into(&mut buf, width, height, channels, colorspace, pixels);
    buf
}

/// Encode into a buffer of the caller's, with colorspace byte 0.
///
/// What the buffer held before is dropped; its allocation is kept and used again.
pub fn encode_qoi_into(buf: &mut Vec<u8>, width: u32, height: u32, channels: u8, pixels: &[u8])
    requires
        encodable(width, height, channels, 0, pixels@),
    ensures
        final(buf)@ == encoded(width, height, channels, 0, pixels@),
{
    encode_qoi_full_into(buf, width, height, channels, 0, pixels);
}

/// Encode into a buffer of the caller's, with a colorspace byte.
///
/// What the buffer held before is dropped; its allocation is kept and used
/// again. Room for the longest file that an image of this size can have is
/// set aside at the start, so the buffer grows at most once.
pub fn encode_qoi_full_into(
    buf: &mut Vec<u8>,
    width: u32,
    height: u32,
    channels: u8,
    colorspace: u8,
    pixels: &[u8],
)
    requires
        encodable(width, height, channels, colorspace, pixels@),
    ensures
        final(buf)@ == encoded(width, height, channels, colorspace, pixels@),
{
    let count: usize = width as usize * height as usize;
    buf.clear();
    buf.reserve(HEADER_SIZE + count * 5 + END_MARKER.len());
    buf.extend_from_slice(MAGIC);
    push_be_u32(buf, width);
    push_be_u32(buf, height);
    buf.push(channels);
    buf.push(colorspace);
    assert(buf@ =~= header_bytes(width, height, channels, colorspace));
    if channels == 4 {
        encode_inner(buf, pixels, QoiChannels::Rgba, count);
    } else {
        encode_inner(buf, pixels, QoiChannels::Rgb, count);
    }
    buf.extend_from_slice(END_MARKER);
}

/// Append the four big-endian bytes of a number.
fn push_be_u32(buf: &mut Vec<u8>, n: u32)
    ensures
        final(buf)@ == old(buf)@ + be_bytes(n),
{
    buf.push((n / 0x1000000) as u8);
    buf.push((n / 0x10000 % 0x100) as u8);
    buf.push((n / 0x100 % 0x100) as u8);
    buf.push((n % 0x100) as u8);
    assert(buf@ =~= old(buf)@ + be_bytes(n));
}

/// Append the chunks of an image of `count` pixels, and nothing else: what the
/// buffer holds stays in front of them. They take at most 5 bytes a pixel.
pub fn encode_inner(buf: &mut Vec<u8>, pixels: &[u8], channels: QoiChannels, count: usize)
    requires
        pixels@.len() == channels.bytes_for(count as nat),
        old(buf)@.len() + 5 * count <= isize::MAX,
    ensures
        final(buf)@ == old(buf)@ + model::stream_bytes(
            encode_ops(
                CodecState::start(),
                model::pixels_of(pixels@, channels, count as nat),
            ),
        ),
        old(buf)@.len() <= final(buf)@.len() <= old(buf)@.len() + 5 * count,
{
    let mut prev: Pixel = Pixel { r: 0, g: 0, b: 0, a: 255 };
    let mut slots: [Pixel; 64] = [Pixel { r: 0, g: 0, b: 0, a: 0 };64];
    let mut i: usize = 0;

    let ghost image = model::pixels_of(pixels@, channels, count as nat);
    let ghost ops = encode_ops(CodecState::start(), image);
    let ghost mut done = Seq::<QoiOp>::empty();
    proof {
        assert(slots@ =~= CodecState::start().slots);
        assert(image.skip(0) =~= image);
        assert(done + ops =~= ops);
        assert(buf@ =~= old(buf)@ + model::stream_bytes(done));
    }
    while i < count
        invariant
            i <= count,
            pixels@.len() == channels.bytes_for(count as nat),
            image == model::pixels_of(pixels@, channels, count as nat),
            ops == encode_ops(CodecState::start(), image),
            done + encode_ops(CodecState { prev, slots: slots@ }, image.skip(i as int)) == ops,
            buf@ == old(buf)@ + model::stream_bytes(done),
        decreases count - i,
    {
        let ghost state = CodecState { prev, slots: slots@ };
        let ghost rest = image.skip(i as int);
        let cur: Pixel = load_pixel(pixels, channels, i);
        assert(rest[0] == cur);
        let slot: usize = hash([cur.r, cur.g, cur.b, cur.a]) as usize;
        if cur == prev {
            let n: usize = scan_run(pixels, channels, count, i, cur);
            proof {
                lemma_run_length(rest, cur);
            }
            let ghost added = run_ops(n as nat);
            emit_run(buf, n);
            slots[slot] = cur;
            i = i + n;
            proof {
                model::lemma_stream_bytes_add(done, added);
                assert(rest.skip(n as int) =~= image.skip(i as int));
                let tail = encode_ops(state.saw(cur), image.skip(i as int));
                assert(done + added + tail =~= done + (added + tail));
                done = done + added;
                assert(CodecState { prev, slots: slots@ } =~= state.saw(cur));
            }
        } else {
            let op = choose_op(prev, &slots, cur);
            let ghost added = seq![op];
            op.write_to(buf);
            slots[slot] = cur;
            prev = cur;
            i = i + 1;
            proof {
                model::lemma_stream_bytes_add(done, added);
                model::lemma_stream_bytes_one(op);
                assert(rest.skip(1) =~= image.skip(i as int));
                let tail = encode_ops(state.saw(cur), image.skip(i as int));
                assert(done + added + tail =~= done + (added + tail));
                done = done + added;
                assert(CodecState { prev, slots: slots@ } =~= state.saw(cur));
            }
        }
    }
    proof {
        assert(done =~= ops);
        canonical::law_encoding_is_lossless(CodecState::start(), image);
        canonical::law_bytes_per_pixel(ops);
        chunks::law_render_length(CodecState::start(), ops);
    }
}

/// The `i`-th pixel of a buffer.
fn load_pixel(pixels: &[u8], channels: QoiChannels, i: usize) -> (p: Pixel)
    requires
        channels.bytes_for((i + 1) as nat) <= pixels@.len(),
    ensures
        p == model::pixel_at(pixels@, channels, i as int),
{
    assert(pixels.len() <= usize::MAX);
    match channels {
        QoiChannels::Rgb => {
            let at: usize = 3 * i;
            Pixel { r: pixels[at], g: pixels[at + 1], b: pixels[at + 2], a: 0xff }
        },
        QoiChannels::Rgba => {
            let at: usize = 4 * i;
            Pixel { r: pixels[at], g: pixels[at + 1], b: pixels[at + 2], a: pixels[at + 3] }
        },
    }
}

/// How many pixels from the `start`-th on equal `p`.
fn scan_run(
    pixels: &[u8],
    channels: QoiChannels,
    count: usize,
    start: usize,
    p: Pixel,
) -> (n: usize)
    requires
        start <= count,
        pixels@.len() == channels.bytes_for(count as nat),
    ensures
        n == run_length(
            model::pixels_of(pixels@, channels, count as nat).skip(start as int),
            p,
        ),
        start + n <= count,
{
    let ghost image = model::pixels_of(pixels@, channels, count as nat);
    let mut j: usize = start;
    assert(image.skip(j as int).len() == count - j);
    while j < count && load_pixel(pixels, channels, j) == p
        invariant
            start <= j <= count,
            pixels@.len() == channels.bytes_for(count as nat),
            image == model::pixels_of(pixels@, channels, count as nat),
            run_length(image.skip(start as int), p) == (j - start) + run_length(
                image.skip(j as int),
                p,
            ),
        decreases count - j,
    {
        assert(image.skip(j as int).skip(1) =~= image.skip(j + 1));
        j += 1;
    }
    j - start
}

/// Append the chunks for a run of `n` pixels.
fn emit_run(buf: &mut Vec<u8>, n: usize)
    ensures
        final(buf)@ == old(buf)@ + model::stream_bytes(run_ops(n as nat)),
{
    let ghost ops = run_ops(n as nat);
    let ghost mut done = Seq::<QoiOp>::empty();
    let mut left: usize = n;
    proof {
        assert(done + ops =~= ops);
        assert(buf@ =~= old(buf)@ + model::stream_bytes(done));
    }
    while left >= 62
        invariant
            done + run_ops(left as nat) == ops,
            buf@ == old(buf)@ + model::stream_bytes(done),
        decreases left,
    {
        let op = QoiOp::Run { length: 62 };
        op.write_to(buf);
        proof {
            let added = seq![op];
            model::lemma_stream_bytes_add(done, added);
            model::lemma_stream_bytes_one(op);
            let tail = run_ops((left - 62) as nat);
            assert(done + added + tail =~= done + (added + tail));
            done = done + added;
        }
        left -= 62;
    }
    if left > 0 {
        let op = QoiOp::Run { length: left as u8 };
        op.write_to(buf);
        proof {
            model::lemma_stream_bytes_add(done, seq![op]);
            model::lemma_stream_bytes_one(op);
        }
    } else {
        assert(done =~= ops);
    }
}

/// The delta from one channel value to another.
fn channel_delta(from: u8, to: u8) -> (d: i8)
    ensures
        d == delta(from, to),
{
    let w: u8 = to.wrapping_sub(from);
    assert(w < 128 ==> w as i8 == w) by (bit_vector);
    assert(w >= 128 ==> w as i8 == w - 256) by (bit_vector);
    w as i8
}

/// The chunk for a pixel that differs from the previous one.
fn choose_op(prev: Pixel, slots: &[Pixel; 64], cur: Pixel) -> (op: QoiOp)
    ensures
        op == chosen(CodecState { prev, slots: slots@ }, cur),
{
    let slot: u8 = hash([cur.r, cur.g, cur.b, cur.a]);
    if slots[slot as usize] == cur {
        return QoiOp::Index { index: slot };
    }
    if cur.a != prev.a {
        return QoiOp::Rgba { r: cur.r, g: cur.g, b: cur.b, a: cur.a };
    }
    let dr: i8 = channel_delta(prev.r, cur.r);
    let dg: i8 = channel_delta(prev.g, cur.g);
    let db: i8 = channel_delta(prev.b, cur.b);
    if -2 <= dr && dr <= 1 && -2 <= dg && dg <= 1 && -2 <= db && db <= 1 {
        return QoiOp::Diff { dr, dg, db };
    }
    let dr_dg: i16 = dr as i16 - dg as i16;
    let db_dg: i16 = db as i16 - dg as i16;
    if -32 <= dg && dg <= 31 && -8 <= dr_dg && dr_dg <= 7 && -8 <= db_dg && db_dg <= 7 {
        return QoiOp::Luma { dg, dr_dg: dr_dg as i8, db_dg: db_dg as i8 };
    }
    QoiOp::Rgb { r: cur.r, g: cur.g, b: cur.b }
}

} // verus!
