//! The mathematical model of the format: pixels, the state shared by both
//! directions, chunk streams, and what a stream of chunks denotes.
use vstd::prelude::*;

use crate::image::QoiChannels;
use crate::ops::QoiOp;
use crate::{OP_DIFF, OP_LUMA, OP_RGB, OP_RGBA, OP_RUN};

verus! {

/// One pixel, with its alpha.
#[derive(Debug, Clone, Copy, PartialEq, Eq, Structural)]
pub struct Pixel {
    /// Red.
    pub r: u8,
    /// Green.
    pub g: u8,
    /// Blue.
    pub b: u8,
    /// Alpha.
    pub a: u8,
}

impl Pixel {
    /// The slot of the running pixel array where this pixel is kept.
    pub open spec fn slot(self) -> int {
        (self.r * 3 + self.g * 5 + self.b * 7 + self.a * 11) % 64
    }

    /// The pixel's bytes in a channel layout.
    pub open spec fn bytes(self, channels: QoiChannels) -> Seq<u8> {
        match channels {
            QoiChannels::Rgb => seq![self.r, self.g, self.b],
            QoiChannels::Rgba => seq![self.r, self.g, self.b, self.a],
        }
    }

    /// The pixel with signed deltas added to its colour channels, modulo 256.
    pub open spec fn shifted(self, dr: int, dg: int, db: int) -> Pixel {
        Pixel {
            r: ((self.r + dr) % 256) as u8,
            g: ((self.g + dg) % 256) as u8,
            b: ((self.b + db) % 256) as u8,
            a: self.a,
        }
    }
}

/// The flat buffer that holds `pixels` in a channel layout.
pub open spec fn image_bytes(pixels: Seq<Pixel>, channels: QoiChannels) -> Seq<u8>
    decreases pixels.len(),
{
    if pixels.len() == 0 {
        Seq::empty()
    } else {
        image_bytes(pixels.drop_last(), channels) + pixels.last().bytes(channels)
    }
}

/// The `i`-th pixel of a flat buffer. Without an alpha byte, alpha is 255.
pub open spec fn pixel_at(buffer: Seq<u8>, channels: QoiChannels, i: int) -> Pixel {
    match channels {
        QoiChannels::Rgb => Pixel {
            r: buffer[3 * i],
            g: buffer[3 * i + 1],
            b: buffer[3 * i + 2],
            a: 255,
        },
        QoiChannels::Rgba => Pixel {
            r: buffer[4 * i],
            g: buffer[4 * i + 1],
            b: buffer[4 * i + 2],
            a: buffer[4 * i + 3],
        },
    }
}

/// The first `count` pixels of a flat buffer.
pub open spec fn pixels_of(buffer: Seq<u8>, channels: QoiChannels, count: nat) -> Seq<Pixel> {
    Seq::new(count, |i: int| pixel_at(buffer, channels, i))
}

/// What encoder and decoder both remember: the previous pixel, and 64 slots
/// of pixels seen before.
#[verifier::ext_equal]
pub struct CodecState {
    pub prev: Pixel,
    pub slots: Seq<Pixel>,
}

impl CodecState {
    /// The state before the first chunk: opaque black, and every slot transparent black.
    pub open spec fn start() -> CodecState {
        CodecState {
            prev: Pixel { r: 0, g: 0, b: 0, a: 255 },
            slots: Seq::new(64, |i: int| Pixel { r: 0, g: 0, b: 0, a: 0 }),
        }
    }

    /// There are 64 slots.
    pub open spec fn valid(self) -> bool {
        self.slots.len() == 64
    }

    /// The state once `p` has been seen: it is the previous pixel, and it is in its slot.
    pub open spec fn saw(self, p: Pixel) -> CodecState {
        CodecState { prev: p, slots: self.slots.update(p.slot(), p) }
    }

    /// The pixel that a chunk denotes in this state.
    pub open spec fn pixel(self, op: QoiOp) -> Pixel {
        match op {
            QoiOp::Rgb { r, g, b } => Pixel { r, g, b, a: self.prev.a },
            QoiOp::Rgba { r, g, b, a } => Pixel { r, g, b, a },
            QoiOp::Index { index } => self.slots[index as int],
            QoiOp::Diff { dr, dg, db } => self.prev.shifted(dr as int, dg as int, db as int),
            QoiOp::Luma { dg, dr_dg, db_dg } => self.prev.shifted(
                dg + dr_dg,
                dg as int,
                dg + db_dg,
            ),
            QoiOp::Run { .. } => self.prev,
            QoiOp::Truncated { .. } => self.prev,
        }
    }

    /// The state after a chunk.
    pub open spec fn after(self, op: QoiOp) -> CodecState {
        self.saw(self.pixel(op))
    }
}

/// How many pixels a chunk stands for.
pub open spec fn pixel_count(op: QoiOp) -> nat {
    match op {
        QoiOp::Run { length } => length as nat,
        QoiOp::Truncated { .. } => 0,
        _ => 1,
    }
}

/// `n` copies of a pixel.
pub open spec fn copies(p: Pixel, n: nat) -> Seq<Pixel> {
    Seq::new(n, |i: int| p)
}

/// The pixels that a sequence of chunks denotes, from a given state on.
pub open spec fn render(state: CodecState, ops: Seq<QoiOp>) -> Seq<Pixel>
    decreases ops.len(),
{
    if ops.len() == 0 {
        Seq::empty()
    } else {
        copies(state.pixel(ops[0]), pixel_count(ops[0])) + render(state.after(ops[0]), ops.skip(1))
    }
}

/// How many pixels a sequence of chunks stands for.
pub open spec fn total_pixels(ops: Seq<QoiOp>) -> nat
    decreases ops.len(),
{
    if ops.len() == 0 {
        0
    } else {
        pixel_count(ops[0]) + total_pixels(ops.skip(1))
    }
}

/// The bytes of a sequence of chunks, one after the other.
pub open spec fn stream_bytes(ops: Seq<QoiOp>) -> Seq<u8>
    decreases ops.len(),
{
    if ops.len() == 0 {
        Seq::empty()
    } else {
        ops[0].bytes() + stream_bytes(ops.skip(1))
    }
}

/// The chunk at the head of a non-empty chunk section.
///
/// The 8-bit tags come before the 2-bit tag `11`, whose two highest values
/// they take away. A chunk whose body is cut off by the end of the section is
/// `Truncated`.
pub open spec fn first_op(s: Seq<u8>) -> QoiOp {
    let tag = s[0];
    if tag == OP_RGBA {
        if s.len() < 5 {
            QoiOp::Truncated { tag, missing_body_bytes: (5 - s.len()) as u8 }
        } else {
            QoiOp::Rgba { r: s[1], g: s[2], b: s[3], a: s[4] }
        }
    } else if tag == OP_RGB {
        if s.len() < 4 {
            QoiOp::Truncated { tag, missing_body_bytes: (4 - s.len()) as u8 }
        } else {
            QoiOp::Rgb { r: s[1], g: s[2], b: s[3] }
        }
    } else if tag < OP_DIFF {
        QoiOp::Index { index: tag }
    } else if tag < OP_LUMA {
        QoiOp::Diff {
            dr: ((tag as int / 16) % 4 - 2) as i8,
            dg: ((tag as int / 4) % 4 - 2) as i8,
            db: (tag as int % 4 - 2) as i8,
        }
    } else if tag < OP_RUN {
        if s.len() < 2 {
            QoiOp::Truncated { tag, missing_body_bytes: 1 }
        } else {
            QoiOp::Luma {
                dg: (tag as int % 64 - 32) as i8,
                dr_dg: (s[1] as int / 16 - 8) as i8,
                db_dg: (s[1] as int % 16 - 8) as i8,
            }
        }
    } else {
        QoiOp::Run { length: (tag as int % 64 + 1) as u8 }
    }
}

/// The chunks of a chunk section, in order. The walk stops after a `Truncated`.
pub open spec fn walk(s: Seq<u8>) -> Seq<QoiOp>
    decreases s.len(),
{
    if s.len() == 0 {
        Seq::empty()
    } else if first_op(s) is Truncated {
        seq![first_op(s)]
    } else {
        seq![first_op(s)] + walk(s.skip(first_op(s).bytes().len() as int))
    }
}

/// No chunk of the sequence is `Truncated`.
pub open spec fn complete(ops: Seq<QoiOp>) -> bool {
    forall|i: int| 0 <= i < ops.len() ==> !(#[trigger] ops[i] is Truncated)
}

/// Every chunk of the sequence can stand in a stream.
pub open spec fn all_in_range(ops: Seq<QoiOp>) -> bool {
    forall|i: int| 0 <= i < ops.len() ==> (#[trigger] ops[i]).in_range()
}

/// The head of a chunk section says what its leading bytes are.
pub proof fn lemma_first_op(s: Seq<u8>)
    requires
        s.len() > 0,
    ensures
        first_op(s).tag_byte() == s[0],
        first_op(s) matches QoiOp::Truncated { tag, missing_body_bytes } ==> tag == s[0] && 1
            <= missing_body_bytes <= 4,
        !(first_op(s) is Truncated) ==> {
            &&& first_op(s).in_range()
            &&& first_op(s).bytes().len() <= s.len()
            &&& first_op(s).bytes() == s.take(first_op(s).bytes().len() as int)
        },
{
    let op = first_op(s);
    lemma_first_op_tag(s);
    if !(op is Truncated) {
        if op is Luma {
            let low = s[1];
            assert(low == (low as int / 16) * 16 + low as int % 16);
            assert(op.body()[0] == low);
        }
        assert(op.bytes() =~= s.take(op.bytes().len() as int));
    }
}

/// The leading byte of a section is the tag of its first chunk.
proof fn lemma_first_op_tag(s: Seq<u8>)
    requires
        s.len() > 0,
    ensures
        first_op(s).tag_byte() == s[0],
        !(first_op(s) is Truncated) ==> first_op(s).in_range(),
{
    let t = s[0];
    if OP_DIFF <= t < OP_LUMA {
        assert(t == 64 + ((t / 16) % 4) * 16 + ((t / 4) % 4) * 4 + t % 4) by (bit_vector)
            requires
                64 <= t < 128,
        ;
        let op = first_op(s);
        assert(op is Diff);
        let r = (t as int / 16) % 4;
        let g = (t as int / 4) % 4;
        let b = t as int % 4;
        assert(op == QoiOp::Diff { dr: (r - 2) as i8, dg: (g - 2) as i8, db: (b - 2) as i8 });
        assert(((r - 2) as i8 + 2) % 4 == r);
        assert(((g - 2) as i8 + 2) % 4 == g);
        assert(((b - 2) as i8 + 2) % 4 == b);
    }
}

/// A chunk that can stand in a stream is read back from the front of any
/// section that starts with its bytes.
pub proof fn lemma_first_op_of_bytes(op: QoiOp, rest: Seq<u8>)
    requires
        op.in_range(),
    ensures
        first_op(op.bytes() + rest) == op,
{
    let s = op.bytes() + rest;
    assert(s[0] == op.tag_byte());
    match op {
        QoiOp::Rgb { .. } => {
            assert(s[1] == op.body()[0] && s[2] == op.body()[1] && s[3] == op.body()[2]);
        },
        QoiOp::Rgba { .. } => {
            assert(s[1] == op.body()[0] && s[2] == op.body()[1] && s[3] == op.body()[2] && s[4]
                == op.body()[3]);
        },
        QoiOp::Luma { .. } => {
            assert(s[1] == op.body()[0]);
        },
        _ => {},
    }
}

/// Only the last chunk of a walk can be `Truncated`.
pub proof fn lemma_truncated_is_last(s: Seq<u8>, i: int)
    requires
        0 <= i < walk(s).len(),
        walk(s)[i] is Truncated,
    ensures
        i == walk(s).len() - 1,
    decreases s.len(),
{
    lemma_first_op(s);
    if !(first_op(s) is Truncated) {
        lemma_truncated_is_last(s.skip(first_op(s).bytes().len() as int), i - 1);
    }
}

/// `s` with the bytes from `at` on replaced by `bytes`.
pub open spec fn overwritten(s: Seq<u8>, at: int, bytes: Seq<u8>) -> Seq<u8> {
    s.take(at) + bytes + s.skip(at + bytes.len())
}

/// Two replacements one behind the other are one replacement.
pub proof fn lemma_overwritten_twice(s: Seq<u8>, at: int, a: Seq<u8>, b: Seq<u8>)
    requires
        0 <= at,
        at + a.len() + b.len() <= s.len(),
    ensures
        overwritten(overwritten(s, at, a), at + a.len(), b) == overwritten(s, at, a + b),
        overwritten(s, at, a).len() == s.len(),
{
    assert(overwritten(overwritten(s, at, a), at + a.len(), b) =~= overwritten(s, at, a + b));
}

/// Appending a pixel appends its bytes.
pub proof fn lemma_image_bytes_push(pixels: Seq<Pixel>, p: Pixel, channels: QoiChannels)
    ensures
        image_bytes(pixels.push(p), channels) == image_bytes(pixels, channels) + p.bytes(channels),
{
    assert(pixels.push(p).drop_last() =~= pixels);
}

/// A buffer of `n` pixels takes as many bytes as `n` pixels take.
pub proof fn lemma_image_bytes_len(pixels: Seq<Pixel>, channels: QoiChannels)
    ensures
        image_bytes(pixels, channels).len() == channels.bytes_for(pixels.len()),
    decreases pixels.len(),
{
    if pixels.len() > 0 {
        lemma_image_bytes_len(pixels.drop_last(), channels);
    }
}

/// The bytes of two stretches of pixels stand one behind the other.
pub proof fn lemma_image_bytes_add(a: Seq<Pixel>, b: Seq<Pixel>, channels: QoiChannels)
    ensures
        image_bytes(a + b, channels) == image_bytes(a, channels) + image_bytes(b, channels),
    decreases b.len(),
{
    if b.len() == 0 {
        assert(a + b =~= a);
        assert(image_bytes(a, channels) + image_bytes(b, channels) =~= image_bytes(a, channels));
    } else {
        lemma_image_bytes_add(a, b.drop_last(), channels);
        assert((a + b).drop_last() =~= a + b.drop_last());
        assert((a + b).last() == b.last());
        assert(image_bytes(a + b, channels) =~= image_bytes(a, channels) + image_bytes(b, channels));
    }
}

/// The bytes of two stretches of chunks stand one behind the other.
pub proof fn lemma_stream_bytes_add(a: Seq<QoiOp>, b: Seq<QoiOp>)
    ensures
        stream_bytes(a + b) == stream_bytes(a) + stream_bytes(b),
    decreases a.len(),
{
    if a.len() == 0 {
        assert(a + b =~= b);
        assert(stream_bytes(a) + stream_bytes(b) =~= stream_bytes(b));
    } else {
        lemma_stream_bytes_add(a.skip(1), b);
        assert((a + b).skip(1) =~= a.skip(1) + b);
        assert(stream_bytes(a + b) =~= stream_bytes(a) + stream_bytes(b));
    }
}

/// The stream of a single chunk is that chunk's bytes.
pub proof fn lemma_stream_bytes_one(op: QoiOp)
    ensures
        stream_bytes(seq![op]) == op.bytes(),
{
    let ops = seq![op];
    assert(ops.skip(1) =~= Seq::empty());
    assert(stream_bytes(ops.skip(1)) =~= Seq::<u8>::empty());
    assert(stream_bytes(ops) =~= op.bytes());
}

} // verus!
