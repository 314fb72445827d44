//! Laws of chunk sections: walking and writing undo each other.
use vstd::prelude::*;

use crate::decoder;
use crate::decoder::StreamFault;
use crate::model;
use crate::model::CodecState;
use crate::ops::QoiOp;

verus! {

/// The widths of a sequence of chunks, added up.
pub open spec fn total_width(ops: Seq<QoiOp>) -> nat
    decreases ops.len(),
{
    if ops.len() == 0 {
        0
    } else {
        ops[0].bytes().len() + total_width(ops.skip(1))
    }
}

/// Writing appends as many bytes as the chunks' widths add up to.
pub proof fn law_stream_length_is_total_width(ops: Seq<QoiOp>)
    ensures
        model::stream_bytes(ops).len() == total_width(ops),
    decreases ops.len(),
{
    if ops.len() > 0 {
        law_stream_length_is_total_width(ops.skip(1));
    }
}

/// Every complete chunk of a walk has its fields in range. In particular no
/// run is longer than 62, because the two highest run tags mean something else.
pub proof fn law_walk_is_in_range(s: Seq<u8>)
    ensures
        forall|i: int|
            0 <= i < model::walk(s).len() && !(model::walk(s)[i] is Truncated)
                ==> (#[trigger] model::walk(s)[i]).in_range(),
    decreases s.len(),
{
    if s.len() > 0 {
        model::lemma_first_op(s);
        if !(model::first_op(s) is Truncated) {
            let rest = s.skip(model::first_op(s).bytes().len() as int);
            law_walk_is_in_range(rest);
            assert forall|i: int|
                0 <= i < model::walk(s).len() && !(model::walk(s)[i] is Truncated) implies (
            #[trigger] model::walk(s)[i]).in_range() by {
                if i > 0 {
                    assert(model::walk(s)[i] == model::walk(rest)[i - 1]);
                }
            }
        }
    }
}

/// `Truncated` comes at most once in a walk, as its last item: a walk is
/// complete exactly when it does not end with `Truncated`.
pub proof fn law_truncated_comes_last(s: Seq<u8>)
    ensures
        forall|i: int|
            0 <= i < model::walk(s).len() && (#[trigger] model::walk(s)[i] is Truncated) ==> i
                == model::walk(s).len() - 1,
        model::complete(model::walk(s)) <==> !(model::walk(s).len() > 0
            && model::walk(s).last() is Truncated),
{
    assert forall|i: int|
        0 <= i < model::walk(s).len() && (#[trigger] model::walk(s)[i] is Truncated) implies i
        == model::walk(s).len() - 1 by {
        model::lemma_truncated_is_last(s, i);
    }
}

/// Writing the chunks of a complete walk gives back the section, byte for byte.
pub proof fn law_write_inverts_complete_walk(s: Seq<u8>)
    requires
        model::complete(model::walk(s)),
    ensures
        model::stream_bytes(model::walk(s)) == s,
    decreases s.len(),
{
    if s.len() > 0 {
        let op = model::first_op(s);
        let ops = model::walk(s);
        assert(ops[0] == op);
        model::lemma_first_op(s);
        let rest = s.skip(op.bytes().len() as int);
        assert(ops.skip(1) =~= model::walk(rest));
        assert forall|i: int| 0 <= i < model::walk(rest).len() implies !(#[trigger] model::walk(
            rest,
        )[i] is Truncated) by {
            assert(ops[i + 1] == model::walk(rest)[i]);
        }
        law_write_inverts_complete_walk(rest);
        assert(op.bytes() + rest =~= s);
    } else {
        assert(model::stream_bytes(model::walk(s)) =~= s);
    }
}

/// Walking what was written gives back the chunks, where each can stand in a stream.
pub proof fn law_walk_inverts_write(ops: Seq<QoiOp>)
    requires
        model::all_in_range(ops),
    ensures
        model::walk(model::stream_bytes(ops)) == ops,
    decreases ops.len(),
{
    if ops.len() > 0 {
        let rest = model::stream_bytes(ops.skip(1));
        let s = model::stream_bytes(ops);
        assert(ops[0].in_range());
        model::lemma_first_op_of_bytes(ops[0], rest);
        assert(s.skip(ops[0].bytes().len() as int) =~= rest);
        assert forall|i: int| 0 <= i < ops.skip(1).len() implies (#[trigger] ops.skip(
            1,
        )[i]).in_range() by {
            assert(ops.skip(1)[i] == ops[i + 1]);
        }
        law_walk_inverts_write(ops.skip(1));
        assert(model::walk(s) =~= ops);
    }
}

/// Walk, write, walk: a complete walk comes out again, and so does the section.
pub proof fn law_walk_write_walk(s: Seq<u8>)
    requires
        model::complete(model::walk(s)),
    ensures
        model::stream_bytes(model::walk(s)) == s,
        model::walk(model::stream_bytes(model::walk(s))) == model::walk(s),
{
    law_write_inverts_complete_walk(s);
}

/// Where a walk ends with `Truncated`, what is written is a prefix of the
/// section, and walking it gives the same complete chunks and then a
/// `Truncated` with the same leading byte.
pub proof fn law_truncated_walk_writes_prefix(s: Seq<u8>)
    requires
        !model::complete(model::walk(s)),
    ensures
        ({
            let ops = model::walk(s);
            let written = model::stream_bytes(ops);
            let again = model::walk(written);
            &&& written.len() <= s.len()
            &&& written == s.take(written.len() as int)
            &&& again.len() == ops.len()
            &&& again.drop_last() == ops.drop_last()
            &&& again.last() is Truncated
            &&& again.last().tag_byte() == ops.last().tag_byte()
        }),
    decreases s.len(),
{
    let ops = model::walk(s);
    let written = model::stream_bytes(ops);
    let again = model::walk(written);
    let op = model::first_op(s);
    assert(s.len() > 0);
    model::lemma_first_op(s);
    if op is Truncated {
        model::lemma_stream_bytes_one(op);
        assert(op.bytes() =~= seq![op.tag_byte()]);
        assert(written =~= s.take(1));
        assert(model::first_op(written) is Truncated);
        assert(again =~= seq![model::first_op(written)]);
        model::lemma_first_op(written);
        assert(again.drop_last() =~= ops.drop_last());
    } else {
        let rest = s.skip(op.bytes().len() as int);
        let tail = model::walk(rest);
        assert(ops.skip(1) =~= tail);
        assert(!model::complete(tail)) by {
            let i = choose|i: int| 0 <= i < ops.len() && (#[trigger] ops[i] is Truncated);
            assert(tail[i - 1] == ops[i]);
        }
        law_truncated_walk_writes_prefix(rest);
        let tail_written = model::stream_bytes(tail);
        assert(written == op.bytes() + tail_written);
        assert(written =~= s.take(written.len() as int));
        model::lemma_first_op_of_bytes(op, tail_written);
        assert(written.skip(op.bytes().len() as int) =~= tail_written);
        assert(again =~= seq![op] + model::walk(tail_written));
        assert(again.drop_last() =~= seq![op] + model::walk(tail_written).drop_last());
        assert(ops.drop_last() =~= seq![op] + tail.drop_last());
    }
}

/// The widths of the chunks in front of `Truncated` do not reach the end of the section.
pub proof fn law_truncated_walk_stops_early(s: Seq<u8>)
    requires
        !model::complete(model::walk(s)),
    ensures
        total_width(model::walk(s).drop_last()) < s.len(),
{
    let ops = model::walk(s);
    law_truncated_walk_writes_prefix(s);
    law_truncated_comes_last(s);
    assert(ops =~= ops.drop_last() + seq![ops.last()]);
    model::lemma_stream_bytes_add(ops.drop_last(), seq![ops.last()]);
    model::lemma_stream_bytes_one(ops.last());
    law_stream_length_is_total_width(ops.drop_last());
}

/// The widths of a complete walk add up to the length of the section.
pub proof fn law_complete_walk_covers_section(s: Seq<u8>)
    requires
        model::complete(model::walk(s)),
    ensures
        total_width(model::walk(s)) == s.len(),
{
    law_write_inverts_complete_walk(s);
    law_stream_length_is_total_width(model::walk(s));
}

/// The tag of every chunk of a walk is the byte of the section where the chunk starts.
pub proof fn law_tag_is_leading_byte(s: Seq<u8>, i: int)
    requires
        0 <= i < model::walk(s).len(),
    ensures
        total_width(model::walk(s).take(i)) < s.len(),
        model::walk(s)[i].tag_byte() == s[total_width(model::walk(s).take(i)) as int],
    decreases s.len(),
{
    let ops = model::walk(s);
    model::lemma_first_op(s);
    if i > 0 {
        let op = model::first_op(s);
        let width = op.bytes().len() as int;
        law_tag_is_leading_byte(s.skip(width), i - 1);
        assert(ops.skip(1) =~= model::walk(s.skip(width)));
        assert(ops.take(i).skip(1) =~= model::walk(s.skip(width)).take(i - 1));
    } else {
        assert(total_width(ops.take(0)) == 0);
    }
}

/// Rendering gives as many pixels as the chunks stand for.
pub proof fn law_render_length(state: CodecState, ops: Seq<QoiOp>)
    ensures
        model::render(state, ops).len() == model::total_pixels(ops),
    decreases ops.len(),
{
    if ops.len() > 0 {
        law_render_length(state.after(ops[0]), ops.skip(1));
    }
}

/// A chunk byte stands for at most 62 pixels.
pub proof fn law_pixels_per_byte(ops: Seq<QoiOp>)
    requires
        forall|i: int|
            0 <= i < ops.len() && !(ops[i] is Truncated) ==> (#[trigger] ops[i]).in_range(),
    ensures
        model::total_pixels(ops) <= 62 * model::stream_bytes(ops).len(),
    decreases ops.len(),
{
    if ops.len() > 0 {
        assert(ops[0] is Truncated || ops[0].in_range());
        assert forall|i: int|
            0 <= i < ops.skip(1).len() && !(ops.skip(1)[i] is Truncated) implies (
        #[trigger] ops.skip(1)[i]).in_range() by {
            assert(ops.skip(1)[i] == ops[i + 1]);
        }
        law_pixels_per_byte(ops.skip(1));
    }
}

/// A chunk section is accepted for `n` pixels exactly when it is complete and
/// its chunks stand for `n` pixels.
pub proof fn law_accepted_when_exact(s: Seq<u8>, n: nat)
    ensures
        decoder::stream_fault(model::walk(s), n) is None <==> model::complete(model::walk(s))
            && model::total_pixels(model::walk(s)) == n,
    decreases s.len(),
{
    let ops = model::walk(s);
    if s.len() > 0 {
        let op = model::first_op(s);
        model::lemma_first_op(s);
        assert(ops[0] == op);
        if !(op is Truncated) {
            let rest = s.skip(op.bytes().len() as int);
            assert(ops.skip(1) =~= model::walk(rest));
            assert(model::complete(ops) <==> model::complete(model::walk(rest))) by {
                assert forall|i: int|
                    0 <= i < model::walk(rest).len() && model::complete(ops) implies !(
                #[trigger] model::walk(rest)[i] is Truncated) by {
                    assert(ops[i + 1] == model::walk(rest)[i]);
                }
                assert forall|i: int|
                    0 <= i < ops.len() && model::complete(model::walk(rest)) implies !(
                #[trigger] ops[i] is Truncated) by {
                    if i > 0 {
                        assert(ops[i] == model::walk(rest)[i - 1]);
                    }
                }
            }
            if n > 0 && model::pixel_count(op) <= n {
                law_accepted_when_exact(rest, (n - model::pixel_count(op)) as nat);
            }
        }
    }
}

/// A section that is too short for its image at 62 pixels a byte has a fault:
/// refusing it unread refuses nothing that could be decoded.
pub proof fn law_short_section_is_faulty(s: Seq<u8>, n: nat)
    requires
        n > 62 * s.len(),
    ensures
        decoder::stream_fault(model::walk(s), n) is Some,
{
    if decoder::stream_fault(model::walk(s), n) is None {
        law_accepted_when_exact(s, n);
        law_walk_is_in_range(s);
        law_write_inverts_complete_walk(s);
        law_pixels_per_byte(model::walk(s));
    }
}

/// An accepted section with any chunk bytes added behind it is refused.
pub proof fn law_trailing_bytes_are_refused(s: Seq<u8>, extra: Seq<u8>, n: nat)
    requires
        decoder::stream_fault(model::walk(s), n) is None,
        extra.len() > 0,
    ensures
        decoder::stream_fault(model::walk(s + extra), n) == Some(StreamFault::Trailing),
    decreases s.len(),
{
    if s.len() == 0 {
        assert(s + extra =~= extra);
        law_accepted_when_exact(s, n);
        assert(model::walk(extra).len() > 0);
    } else {
        let op = model::first_op(s);
        model::lemma_first_op(s);
        let width = op.bytes().len() as int;
        let rest = s.skip(width);
        assert(model::walk(s)[0] == op);
        assert(model::walk(s).skip(1) =~= model::walk(rest));
        law_trailing_bytes_are_refused(rest, extra, (n - model::pixel_count(op)) as nat);
        let longer = s + extra;
        assert(op.bytes() + (rest + extra) =~= longer);
        model::lemma_first_op_of_bytes(op, rest + extra);
        assert(longer.skip(width) =~= rest + extra);
        assert(model::walk(longer).skip(1) =~= model::walk(rest + extra));
    }
}

/// An accepted section with any bytes cut off its end is refused.
pub proof fn law_cut_section_is_refused(s: Seq<u8>, k: int, n: nat)
    requires
        decoder::stream_fault(model::walk(s), n) is None,
        0 <= k < s.len(),
    ensures
        decoder::stream_fault(model::walk(s.take(k)), n) is Some,
{
    if decoder::stream_fault(model::walk(s.take(k)), n) is None {
        assert(s.take(k) + s.skip(k) =~= s);
        law_trailing_bytes_are_refused(s.take(k), s.skip(k), n);
    }
}

/// Where the fields are in range, nothing of them is lost in the leading byte:
/// it is the tag plus the biased fields.
pub proof fn law_tag_of_fields_in_range(op: QoiOp)
    requires
        op.in_range(),
    ensures
        match op {
            QoiOp::Rgb { .. } => op.tag_byte() == 0xFE,
            QoiOp::Rgba { .. } => op.tag_byte() == 0xFF,
            QoiOp::Index { index } => op.tag_byte() == index,
            QoiOp::Diff { dr, dg, db } => op.tag_byte() == 0x40 + (dr + 2) * 16 + (dg + 2) * 4 + (db
                + 2),
            QoiOp::Luma { dg, dr_dg, db_dg } => op.tag_byte() == 0x80 + (dg + 32) && op.body()
                == seq![((dr_dg + 8) * 16 + (db_dg + 8)) as u8],
            QoiOp::Run { length } => op.tag_byte() == 0xC0 + (length - 1),
            QoiOp::Truncated { .. } => true,
        },
{
}

} // verus!
