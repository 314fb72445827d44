//! Typed chunks, their on-wire form, and the chunk-stream iterator.
use vstd::prelude::*;
use vstd::slice::*;
use vstd::string::*;

use crate::decoder;
use crate::decoder::{bytes_equal, parse_qoi_header, read_chunk};
use crate::error::{invalid_data, ErrorView, Result};
use crate::image::QoiHeader;
use crate::model;
use crate::model::Pixel;
use crate::text;
use crate::text::{decimal, hex};
use crate::{END_MARKER, HEADER_SIZE, OP_DIFF, OP_INDEX, OP_LUMA, OP_RGB, OP_RGBA, OP_RUN};

verus! {

/// The slot of the running pixel array for an `[r, g, b, a]` pixel:
/// `(r * 3 + g * 5 + b * 7 + a * 11) % 64`, computed without wrapping.
pub fn qoi_hash(p: [u8; 4]) -> (slot: u8)
    ensures
        slot == (3 * p@[0] + 5 * p@[1] + 7 * p@[2] + 11 * p@[3]) % 64,
        slot == (Pixel { r: p@[0], g: p@[1], b: p@[2], a: p@[3] }).slot(),
        slot < 64,
{
    let r = p[0] as u32;
    let g = p[1] as u32;
    let b = p[2] as u32;
    let a = p[3] as u32;
    ((r * 3 + g * 5 + b * 7 + a * 11) % 64) as u8
}

/// One chunk of the stream, with the raw numbers it carries.
///
/// Deltas are the un-biased signed values a decoder applies to the previous
/// pixel. The fields are public, so values outside the ranges given here can
/// be built; [`QoiOp::in_range`] names the ones that a stream can carry.
#[derive(Debug, Clone, Copy, PartialEq, Eq, Structural)]
pub enum QoiOp {
    /// Tag `0xFE` and 3 raw bytes; alpha unchanged from the previous pixel.
    Rgb {
        /// Red byte.
        r: u8,
        /// Green byte.
        g: u8,
        /// Blue byte.
        b: u8,
    },
    /// Tag `0xFF` and 4 raw bytes.
    Rgba {
        /// Red byte.
        r: u8,
        /// Green byte.
        g: u8,
        /// Blue byte.
        b: u8,
        /// Alpha byte.
        a: u8,
    },
    /// Tag `00`: a slot of the running pixel array.
    Index {
        /// Slot number, `0..=63`.
        index: u8,
    },
    /// Tag `01`: three small channel deltas.
    Diff {
        /// Red delta, `-2..=1`.
        dr: i8,
        /// Green delta, `-2..=1`.
        dg: i8,
        /// Blue delta, `-2..=1`.
        db: i8,
    },
    /// Tag `10`: a green delta and the red and blue deltas relative to it.
    Luma {
        /// Green delta, `-32..=31`.
        dg: i8,
        /// Red delta minus green delta, `-8..=7`.
        dr_dg: i8,
        /// Blue delta minus green delta, `-8..=7`.
        db_dg: i8,
    },
    /// Tag `11`: the previous pixel again, `length` times.
    Run {
        /// Run length, `1..=62`.
        length: u8,
    },
    /// The stream ended inside a chunk. Always the last item of a walk.
    Truncated {
        /// The leading byte of the chunk that could not be finished.
        tag: u8,
        /// How many more bytes the chunk would have needed, `1..=4`.
        missing_body_bytes: u8,
    },
}

impl QoiOp {
    /// The field ranges that a complete chunk of a stream can carry.
    pub open spec fn in_range(self) -> bool {
        match self {
            QoiOp::Rgb { .. } => true,
            QoiOp::Rgba { .. } => true,
            QoiOp::Index { index } => index <= 63,
            QoiOp::Diff { dr, dg, db } => -2 <= dr <= 1 && -2 <= dg <= 1 && -2 <= db <= 1,
            QoiOp::Luma { dg, dr_dg, db_dg } => -32 <= dg <= 31 && -8 <= dr_dg <= 7 && -8 <= db_dg
                <= 7,
            QoiOp::Run { length } => 1 <= length <= 62,
            QoiOp::Truncated { .. } => false,
        }
    }

    /// The leading byte: the tag with each field reduced to its bit width.
    pub open spec fn tag_byte(self) -> u8 {
        match self {
            QoiOp::Rgb { .. } => OP_RGB,
            QoiOp::Rgba { .. } => OP_RGBA,
            QoiOp::Index { index } => (OP_INDEX + (index as int) % 64) as u8,
            QoiOp::Diff { dr, dg, db } => (OP_DIFF + ((dr + 2) % 4) * 16 + ((dg + 2) % 4) * 4 + (db
                + 2) % 4) as u8,
            QoiOp::Luma { dg, .. } => (OP_LUMA + (dg + 32) % 64) as u8,
            QoiOp::Run { length } => (OP_RUN + (length - 1) % 64) as u8,
            QoiOp::Truncated { tag, .. } => tag,
        }
    }

    /// The bytes that follow the leading byte.
    pub open spec fn body(self) -> Seq<u8> {
        match self {
            QoiOp::Rgb { r, g, b } => seq![r, g, b],
            QoiOp::Rgba { r, g, b, a } => seq![r, g, b, a],
            QoiOp::Luma { dr_dg, db_dg, .. } => seq![
                (((dr_dg + 8) % 16) * 16 + (db_dg + 8) % 16) as u8,
            ],
            _ => Seq::empty(),
        }
    }

    /// The chunk as it stands in a stream.
    pub open spec fn bytes(self) -> Seq<u8> {
        seq![self.tag_byte()] + self.body()
    }

    /// The leading byte of this chunk.
    ///
    /// Total over the public field space: a field outside its range is reduced
    /// to the bits that the tag has room for. `Truncated` gives back the byte it holds.
    pub fn tag(&self) -> (b: u8)
        ensures
            b == self.bytes()[0],
            b == self.tag_byte(),
    {
        match *self {
            QoiOp::Rgb { .. } => OP_RGB,
            QoiOp::Rgba { .. } => OP_RGBA,
            QoiOp::Index { index } => OP_INDEX + index % 64,
            QoiOp::Diff { dr, dg, db } => {
                OP_DIFF + two_bits(dr) * 16 + two_bits(dg) * 4 + two_bits(db)
            },
            QoiOp::Luma { dg, .. } => OP_LUMA + six_bits(dg),
            QoiOp::Run { length } => OP_RUN + length.wrapping_sub(1) % 64,
            QoiOp::Truncated { tag, .. } => tag,
        }
    }

    /// Number of bytes that follow the leading byte: 4, 3, 1 or 0.
    ///
    /// `Truncated` counts 0: the body it was waiting for never arrived.
    pub fn body_len(&self) -> (n: usize)
        ensures
            n == match *self {
                QoiOp::Rgba { .. } => 4int,
                QoiOp::Rgb { .. } => 3,
                QoiOp::Luma { .. } => 1,
                _ => 0,
            },
            n == self.body().len(),
    {
        match *self {
            QoiOp::Rgba { .. } => 4,
            QoiOp::Rgb { .. } => 3,
            QoiOp::Luma { .. } => 1,
            QoiOp::Index { .. } => 0,
            QoiOp::Diff { .. } => 0,
            QoiOp::Run { .. } => 0,
            QoiOp::Truncated { .. } => 0,
        }
    }

    /// Number of bytes of the whole chunk: 5, 4, 2 or 1.
    pub fn encoded_len(&self) -> (n: usize)
        ensures
            n == match *self {
                QoiOp::Rgba { .. } => 5int,
                QoiOp::Rgb { .. } => 4,
                QoiOp::Luma { .. } => 2,
                _ => 1,
            },
            n == self.bytes().len(),
            n == 1 + self.body().len(),
    {
        1 + self.body_len()
    }

    /// Whether this is the [`QoiOp::Truncated`] sentinel.
    pub fn is_truncated(&self) -> (b: bool)
        ensures
            b == (self is Truncated),
    {
        match self {
            QoiOp::Truncated { .. } => true,
            _ => false,
        }
    }

    /// Append the whole chunk to `out`: its leading byte and its body.
    ///
    /// Total over the public field space, like [`QoiOp::tag`]. `Truncated`
    /// appends only the leading byte it holds.
    pub fn write_to(&self, out: &mut Vec<u8>)
        ensures
            final(out)@ == old(out)@ + self.bytes(),
    {
        out.push(self.tag());
        match *self {
            QoiOp::Rgb { r, g, b } => {
                out.push(r);
                out.push(g);
                out.push(b);
            },
            QoiOp::Rgba { r, g, b, a } => {
                out.push(r);
                out.push(g);
                out.push(b);
                out.push(a);
            },
            QoiOp::Luma { dr_dg, db_dg, .. } => {
                out.push(four_bits(dr_dg) * 16 + four_bits(db_dg));
            },
            _ => {},
        }
        assert(out@ =~= old(out)@ + self.bytes());
    }
}

/// The two's-complement byte of a signed delta.
fn twos_complement(d: i8) -> (b: u8)
    ensures
        b == (d as int) % 256,
{
    assert(d >= 0 ==> d as u8 == d) by (bit_vector);
    assert(d < 0 ==> d as u8 == d + 256) by (bit_vector);
    d as u8
}

/// A `Diff` delta, biased by 2 and reduced to two bits.
fn two_bits(d: i8) -> (b: u8)
    ensures
        b == (d + 2) % 4,
{
    twos_complement(d).wrapping_add(2) % 4
}

/// A `Luma` relative delta, biased by 8 and reduced to four bits.
fn four_bits(d: i8) -> (b: u8)
    ensures
        b == (d + 8) % 16,
{
    twos_complement(d).wrapping_add(8) % 16
}

/// A `Luma` green delta, biased by 32 and reduced to six bits.
fn six_bits(d: i8) -> (b: u8)
    ensures
        b == (d + 32) % 64,
{
    twos_complement(d).wrapping_add(32) % 64
}

/// Walks the chunk section of a file, one [`QoiOp`] per chunk.
///
/// The walk keeps no pixel state: it reports the chunks and does not apply
/// them. Its view is the sequence of chunks still to come.
pub struct QoiOpIter<'a> {
    chunks: &'a [u8],
    pos: usize,
    done: bool,
}

impl<'a> View for QoiOpIter<'a> {
    type V = Seq<QoiOp>;

    closed spec fn view(&self) -> Seq<QoiOp> {
        if self.done {
            Seq::empty()
        } else {
            model::walk(self.chunks@.skip(self.pos as int))
        }
    }
}

impl<'a> QoiOpIter<'a> {
    #[verifier::type_invariant]
    closed spec fn inv(self) -> bool {
        self.pos <= self.chunks@.len()
    }

    /// The next chunk, or `None` at the end of the section.
    ///
    /// A chunk that the section cuts short comes out as
    /// [`QoiOp::Truncated`], and nothing comes after it.
    pub fn next(&mut self) -> (r: Option<QoiOp>)
        ensures
            match r {
                Some(op) => old(self)@.len() > 0 && op == old(self)@[0] && final(self)@
                    == old(self)@.skip(1),
                None => old(self)@.len() == 0 && final(self)@ == old(self)@,
            },
    {
        proof {
            use_type_invariant(&*self);
        }
        if self.done || self.pos >= self.chunks.len() {
            return None;
        }
        let ghost rest = self.chunks@.skip(self.pos as int);
        let op = read_chunk(self.chunks, self.pos);
        proof {
            model::lemma_first_op(rest);
        }
        if op.is_truncated() {
            self.done = true;
            assert(old(self)@.skip(1) =~= Seq::<QoiOp>::empty());
        } else {
            let len = op.encoded_len();
            self.pos = self.pos + len;
            assert(rest.skip(len as int) =~= self.chunks@.skip(self.pos as int));
            assert(old(self)@.skip(1) =~= model::walk(rest.skip(len as int)));
        }
        Some(op)
    }
}

/// What opening a file's chunk section yields: the header, or the reason why
/// the file is refused.
pub open spec fn opened(input: Seq<u8>) -> core::result::Result<QoiHeader, ErrorView> {
    if input.len() < HEADER_SIZE + 8 {
        Err(ErrorView::InvalidData("QOI: input shorter than header + end marker"@))
    } else if decoder::header_of(input) is Err {
        decoder::header_of(input)
    } else if decoder::trailer(input) != END_MARKER@ {
        Err(ErrorView::InvalidData("QOI: missing or invalid end marker"@))
    } else {
        decoder::header_of(input)
    }
}

/// Open the chunk section of a file for walking.
///
/// Header and end marker are validated; the chunks are not looked at yet.
pub fn iter_ops(input: &[u8]) -> (r: Result<(QoiHeader, QoiOpIter<'_>)>)
    ensures
        match r {
            Ok((header, ops)) => opened(input@) == Ok::<QoiHeader, ErrorView>(header) && ops@
                == model::walk(decoder::chunk_section(input@)),
            Err(e) => opened(input@) == Err::<QoiHeader, ErrorView>(e@),
        },
{
    if input.len() < HEADER_SIZE + END_MARKER.len() {
        return Err(invalid_data("QOI: input shorter than header + end marker"));
    }
    let header = match parse_qoi_header(input) {
        Ok(header) => header,
        Err(e) => return Err(e),
    };
    let end: usize = input.len() - END_MARKER.len();
    let tail = slice_subrange(input, end, input.len());
    assert(tail@ =~= decoder::trailer(input@));
    if !bytes_equal(tail, END_MARKER) {
        return Err(invalid_data("QOI: missing or invalid end marker"));
    }
    let chunks = slice_subrange(input, HEADER_SIZE, end);
    assert(chunks@.skip(0) =~= decoder::chunk_section(input@));
    Ok((header, QoiOpIter { chunks, pos: 0, done: false }))
}

/// The message for a chunk that its section cuts short.
pub open spec fn truncation_text(tag: u8, missing: u8) -> Seq<char> {
    "QOI: chunk byte 0x"@ + text::hex_text(tag) + " truncated, "@ + text::decimal_text(missing as nat)
        + " body byte(s) missing"@
}

/// Walk a whole file and collect its chunks.
///
/// Where [`iter_ops`] would end with [`QoiOp::Truncated`], this is an error.
pub fn iter_ops_strict(input: &[u8]) -> (r: Result<(QoiHeader, Vec<QoiOp>)>)
    ensures
        match r {
            Ok((header, ops)) => {
                &&& opened(input@) == Ok::<QoiHeader, ErrorView>(header)
                &&& ops@ == model::walk(decoder::chunk_section(input@))
                &&& model::complete(ops@)
            },
            Err(e) => match opened(input@) {
                Err(refusal) => e@ == refusal,
                Ok(_) => {
                    let ops = model::walk(decoder::chunk_section(input@));
                    ops.len() > 0 && (ops.last() matches QoiOp::Truncated {
                        tag,
                        missing_body_bytes,
                    } && e@ == ErrorView::InvalidData(truncation_text(tag, missing_body_bytes)))
                },
            },
        },
{
    let (header, mut ops) = match iter_ops(input) {
        Ok(opened) => opened,
        Err(e) => return Err(e),
    };
    let ghost all = ops@;
    let mut out: Vec<QoiOp> = Vec::new();
    loop
        invariant
            all == model::walk(decoder::chunk_section(input@)),
            opened(input@) == Ok::<QoiHeader, ErrorView>(header),
            out@ + ops@ == all,
            model::complete(out@),
        ensures
            out@ == all,
            model::complete(out@),
        decreases ops@.len(),
    {
        let ghost before = ops@;
        match ops.next() {
            None => {
                assert(out@ =~= all);
                break;
            },
            Some(op) => {
                if let QoiOp::Truncated { tag, missing_body_bytes } = op {
                    proof {
                        assert(all[out@.len() as int] == op);
                        model::lemma_truncated_is_last(decoder::chunk_section(input@), out@.len() as int);
                    }
                    let msg = String::from_str("QOI: chunk byte 0x").concat(
                        hex(tag).as_str(),
                    ).concat(" truncated, ").concat(decimal(missing_body_bytes).as_str()).concat(
                        " body byte(s) missing",
                    );
                    return Err(invalid_data(msg.as_str()));
                }
                assert(out@.push(op) + before.skip(1) =~= out@ + before);
                out.push(op);
            },
        }
    }
    Ok((header, out))
}

} // verus!
