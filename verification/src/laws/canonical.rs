//! Laws of the encoder's choice of chunks: it loses nothing, and it is canonical.
use vstd::prelude::*;

use crate::encoder;
use crate::model;
use crate::model::{CodecState, Pixel};
use crate::ops::QoiOp;

verus! {

/// The state after a sequence of chunks.
pub open spec fn state_after(state: CodecState, ops: Seq<QoiOp>) -> CodecState
    decreases ops.len(),
{
    if ops.len() == 0 {
        state
    } else {
        state_after(state.after(ops[0]), ops.skip(1))
    }
}

/// Seeing a pixel keeps the 64 slots.
proof fn lemma_saw_is_valid(state: CodecState, p: Pixel)
    requires
        state.valid(),
    ensures
        state.saw(p).valid(),
        0 <= p.slot() < 64,
        state.saw(p).saw(p) == state.saw(p),
{
    assert(state.saw(p).saw(p) =~= state.saw(p));
}

/// Adding the delta between two channel values leads from one to the other.
proof fn lemma_delta(from: u8, to: u8)
    ensures
        -128 <= encoder::delta(from, to) <= 127,
        (from + encoder::delta(from, to)) % 256 == to,
{
}

/// The chunk chosen for a pixel denotes that pixel, and can stand in a stream.
pub proof fn law_chosen_denotes_pixel(state: CodecState, cur: Pixel)
    requires
        state.valid(),
    ensures
        state.pixel(encoder::chosen(state, cur)) == cur,
        encoder::chosen(state, cur).in_range(),
        model::pixel_count(encoder::chosen(state, cur)) == 1,
{
    lemma_delta(state.prev.r, cur.r);
    lemma_delta(state.prev.g, cur.g);
    lemma_delta(state.prev.b, cur.b);
}

/// The chunks of a run denote the run, and leave the state as one sight of its pixel does.
proof fn lemma_run_renders(state: CodecState, n: nat, rest: Seq<QoiOp>)
    requires
        state.valid(),
        n > 0,
    ensures
        model::render(state, encoder::run_ops(n) + rest) == model::copies(state.prev, n)
            + model::render(state.saw(state.prev), rest),
        model::all_in_range(encoder::run_ops(n)),
        encoder::run_ops(n).len() > 0,
    decreases n,
{
    let ops = encoder::run_ops(n) + rest;
    let seen = state.saw(state.prev);
    lemma_saw_is_valid(state, state.prev);
    if n <= 62 {
        assert(encoder::run_ops(0) =~= Seq::empty());
        assert(encoder::run_ops(n) =~= seq![QoiOp::Run { length: n as u8 }]);
        assert(ops.skip(1) =~= rest);
        assert(model::copies(state.prev, n) + model::render(seen, rest) =~= model::render(
            state,
            ops,
        ));
    } else {
        let left = (n - 62) as nat;
        lemma_run_renders(seen, left, rest);
        assert(ops.skip(1) =~= encoder::run_ops(left) + rest);
        assert(model::copies(state.prev, 62) + (model::copies(state.prev, left) + model::render(
            seen,
            rest,
        )) =~= model::copies(state.prev, n) + model::render(seen, rest));
        assert(model::render(state, ops) =~= model::copies(state.prev, n) + model::render(
            seen,
            rest,
        ));
    }
}

/// The chunks of an image denote the image: encoding loses nothing.
pub proof fn law_encoding_is_lossless(state: CodecState, pixels: Seq<Pixel>)
    requires
        state.valid(),
    ensures
        model::render(state, encoder::encode_ops(state, pixels)) == pixels,
        model::all_in_range(encoder::encode_ops(state, pixels)),
    decreases pixels.len(),
{
    let ops = encoder::encode_ops(state, pixels);
    if pixels.len() == 0 {
        assert(model::render(state, ops) =~= pixels);
    } else if pixels[0] == state.prev {
        let n = encoder::run_length(pixels, state.prev);
        encoder::lemma_run_length(pixels, state.prev);
        let seen = state.saw(state.prev);
        let rest = pixels.skip(n as int);
        lemma_saw_is_valid(state, state.prev);
        law_encoding_is_lossless(seen, rest);
        lemma_run_renders(state, n, encoder::encode_ops(seen, rest));
        assert(pixels.take(n as int) + rest =~= pixels);
    } else {
        let cur = pixels[0];
        let rest = pixels.skip(1);
        lemma_saw_is_valid(state, cur);
        law_chosen_denotes_pixel(state, cur);
        law_encoding_is_lossless(state.saw(cur), rest);
        assert(ops.skip(1) =~= encoder::encode_ops(state.saw(cur), rest));
        assert(model::copies(cur, 1) + rest =~= pixels);
        assert(ops[0] == encoder::chosen(state, cur));
        assert(model::render(state, ops) =~= pixels);
    }
}

/// Whether the first chunk of a sequence is the one that the priority order
/// asks for: a run whenever the pixel repeats, and as long a run as possible;
/// otherwise the slot, the small deltas, the green-relative deltas, the raw
/// colour, or the raw colour with alpha, whichever applies first.
pub open spec fn canonical_head(state: CodecState, ops: Seq<QoiOp>) -> bool {
    match ops[0] {
        QoiOp::Run { length } => {
            &&& 1 <= length <= 62
            &&& ops.len() > 1 && length < 62 ==> state.after(ops[0]).pixel(ops[1]) != state.prev
        },
        op => {
            &&& state.pixel(op) != state.prev
            &&& op == encoder::chosen(state, state.pixel(op))
        },
    }
}

/// Whether every chunk of a sequence is the one that the priority order asks for.
pub open spec fn canonical(state: CodecState, ops: Seq<QoiOp>) -> bool
    decreases ops.len(),
{
    ops.len() > 0 ==> canonical_head(state, ops) && canonical(state.after(ops[0]), ops.skip(1))
}

/// The chunks of a run are canonical where what follows is, and does not repeat the pixel.
proof fn lemma_run_is_canonical(state: CodecState, n: nat, rest: Seq<QoiOp>)
    requires
        state.valid(),
        n > 0,
        canonical(state.saw(state.prev), rest),
        rest.len() > 0 ==> state.saw(state.prev).pixel(rest[0]) != state.prev,
    ensures
        canonical(state, encoder::run_ops(n) + rest),
    decreases n,
{
    let ops = encoder::run_ops(n) + rest;
    let seen = state.saw(state.prev);
    lemma_saw_is_valid(state, state.prev);
    if n <= 62 {
        assert(encoder::run_ops(0) =~= Seq::empty());
        assert(encoder::run_ops(n) =~= seq![QoiOp::Run { length: n as u8 }]);
        assert(ops.skip(1) =~= rest);
        if ops.len() > 1 {
            assert(ops[1] == rest[0]);
        }
    } else {
        let left = (n - 62) as nat;
        lemma_run_is_canonical(seen, left, rest);
        assert(ops.skip(1) =~= encoder::run_ops(left) + rest);
        assert(ops[0] == QoiOp::Run { length: 62 });
    }
}

/// The encoder's chunks are canonical.
pub proof fn law_encoder_is_canonical(state: CodecState, pixels: Seq<Pixel>)
    requires
        state.valid(),
    ensures
        canonical(state, encoder::encode_ops(state, pixels)),
    decreases pixels.len(),
{
    let ops = encoder::encode_ops(state, pixels);
    if pixels.len() == 0 {
    } else if pixels[0] == state.prev {
        let n = encoder::run_length(pixels, state.prev);
        encoder::lemma_run_length(pixels, state.prev);
        let seen = state.saw(state.prev);
        let rest = pixels.skip(n as int);
        let tail = encoder::encode_ops(seen, rest);
        lemma_saw_is_valid(state, state.prev);
        law_encoder_is_canonical(seen, rest);
        if rest.len() > 0 {
            assert(rest[0] != state.prev);
            law_chosen_denotes_pixel(seen, rest[0]);
            assert(tail[0] == encoder::chosen(seen, rest[0]));
        }
        lemma_run_is_canonical(state, n, tail);
    } else {
        let cur = pixels[0];
        lemma_saw_is_valid(state, cur);
        law_chosen_denotes_pixel(state, cur);
        law_encoder_is_canonical(state.saw(cur), pixels.skip(1));
        assert(ops[0] == encoder::chosen(state, cur));
        assert(ops.skip(1) =~= encoder::encode_ops(state.saw(cur), pixels.skip(1)));
    }
}

/// In a canonical sequence the chunk at any position is the one that the
/// priority order asks for in the state that the chunks before it leave.
pub proof fn law_canonical_at_every_position(state: CodecState, ops: Seq<QoiOp>, i: int)
    requires
        canonical(state, ops),
        0 <= i < ops.len(),
    ensures
        canonical_head(state_after(state, ops.take(i)), ops.skip(i)),
    decreases ops.len(),
{
    if i == 0 {
        assert(ops.skip(0) =~= ops);
    } else {
        law_canonical_at_every_position(state.after(ops[0]), ops.skip(1), i - 1);
        assert(ops.take(i).skip(1) =~= ops.skip(1).take(i - 1));
        assert(ops.skip(1).skip(i - 1) =~= ops.skip(i));
    }
}

/// A canonical sequence never names the same slot twice in a row.
pub proof fn law_no_repeated_index(state: CodecState, ops: Seq<QoiOp>, i: int)
    requires
        state.valid(),
        canonical(state, ops),
        0 <= i < ops.len() - 1,
    ensures
        !(ops[i] is Index && ops[i] == ops[i + 1]),
{
    let before = state_after(state, ops.take(i));
    lemma_state_after_is_valid(state, ops.take(i));
    law_canonical_at_every_position(state, ops, i);
    law_canonical_at_every_position(state, ops, i + 1);
    assert(ops.skip(i)[0] == ops[i]);
    assert(ops.skip(i + 1)[0] == ops[i + 1]);
    lemma_state_after_push(state, ops.take(i), ops[i]);
    assert(ops.take(i).push(ops[i]) =~= ops.take(i + 1));
    if ops[i] is Index && ops[i] == ops[i + 1] {
        let p = before.pixel(ops[i]);
        lemma_saw_is_valid(before, p);
        assert(before.saw(p).slots[ops[i]->Index_index as int] == p);
    }
}

/// A canonical sequence has two runs in a row only where the first is full.
pub proof fn law_only_full_runs_continue(state: CodecState, ops: Seq<QoiOp>, i: int)
    requires
        canonical(state, ops),
        0 <= i < ops.len() - 1,
        ops[i] is Run,
        ops[i + 1] is Run,
    ensures
        ops[i] == (QoiOp::Run { length: 62 }),
{
    law_canonical_at_every_position(state, ops, i);
    let rest = ops.skip(i);
    assert(rest[0] == ops[i]);
    assert(rest[1] == ops[i + 1]);
}

/// One more chunk is one more step.
pub proof fn lemma_state_after_push(state: CodecState, ops: Seq<QoiOp>, op: QoiOp)
    ensures
        state_after(state, ops.push(op)) == state_after(state, ops).after(op),
    decreases ops.len(),
{
    if ops.len() == 0 {
        assert(ops.push(op).skip(1) =~= Seq::empty());
        assert(ops.push(op)[0] == op);
        reveal_with_fuel(state_after, 2);
    } else {
        lemma_state_after_push(state.after(ops[0]), ops.skip(1), op);
        assert(ops.push(op).skip(1) =~= ops.skip(1).push(op));
        assert(ops.push(op)[0] == ops[0]);
    }
}

/// Chunks keep the 64 slots.
proof fn lemma_state_after_is_valid(state: CodecState, ops: Seq<QoiOp>)
    requires
        state.valid(),
    ensures
        state_after(state, ops).valid(),
    decreases ops.len(),
{
    if ops.len() > 0 {
        lemma_saw_is_valid(state, state.pixel(ops[0]));
        lemma_state_after_is_valid(state.after(ops[0]), ops.skip(1));
    }
}

/// Transparent black, which fills the slots at the start.
pub open spec fn transparent() -> Pixel {
    Pixel { r: 0, g: 0, b: 0, a: 0 }
}

/// Every slot holds a pixel that belongs there, or transparent black.
pub open spec fn slots_in_order(state: CodecState) -> bool {
    state.valid() && forall|k: int|
        0 <= k < 64 ==> #[trigger] state.slots[k] == transparent() || state.slots[k].slot() == k
}

/// Whatever chunks have gone by, every slot holds a pixel that belongs there,
/// or the transparent black it started with.
pub proof fn law_slots_are_in_order(ops: Seq<QoiOp>)
    ensures
        slots_in_order(state_after(CodecState::start(), ops)),
{
    lemma_slots_stay_in_order(CodecState::start(), ops);
}

/// Chunks keep the slots in order.
proof fn lemma_slots_stay_in_order(state: CodecState, ops: Seq<QoiOp>)
    requires
        slots_in_order(state),
    ensures
        slots_in_order(state_after(state, ops)),
    decreases ops.len(),
{
    if ops.len() > 0 {
        let p = state.pixel(ops[0]);
        lemma_saw_is_valid(state, p);
        lemma_slots_stay_in_order(state.after(ops[0]), ops.skip(1));
    }
}

/// For a pixel that differs from the previous one, no chunk that denotes it
/// is smaller than the chosen chunk.
///
/// One corner is left out. Transparent black also sits in every slot that was
/// never used; where its own slot has been taken over, naming one of those
/// others would be smaller than a raw colour, and the encoder does not look there.
pub proof fn law_chosen_is_smallest(state: CodecState, cur: Pixel, op: QoiOp)
    requires
        slots_in_order(state),
        cur != state.prev,
        op.in_range(),
        state.pixel(op) == cur,
        cur == transparent() && op is Index ==> state.slots[0] == cur || encoder::chosen(
            state,
            cur,
        ) is Diff,
    ensures
        encoder::chosen(state, cur).bytes().len() <= op.bytes().len(),
{
    let prev = state.prev;
    match op {
        QoiOp::Index { index } => {
            assert(state.slots[index as int] == cur);
        },
        QoiOp::Diff { dr, dg, db } => {
            lemma_delta_is_unique(prev.r, cur.r, dr as int);
            lemma_delta_is_unique(prev.g, cur.g, dg as int);
            lemma_delta_is_unique(prev.b, cur.b, db as int);
        },
        QoiOp::Luma { dg, dr_dg, db_dg } => {
            lemma_delta_is_unique(prev.r, cur.r, dg + dr_dg);
            lemma_delta_is_unique(prev.g, cur.g, dg as int);
            lemma_delta_is_unique(prev.b, cur.b, dg + db_dg);
        },
        _ => {},
    }
}

/// Only one signed byte leads from one channel value to another.
pub proof fn lemma_delta_is_unique(from: u8, to: u8, d: int)
    requires
        -128 <= d <= 127,
        (from + d) % 256 == to,
    ensures
        encoder::delta(from, to) == d,
{
}

/// For a pixel that repeats the previous one the encoder opens with a run
/// chunk, and no chunk is smaller than that.
pub proof fn law_run_is_smallest(state: CodecState, pixels: Seq<Pixel>, op: QoiOp)
    requires
        pixels.len() > 0,
        pixels[0] == state.prev,
    ensures
        encoder::encode_ops(state, pixels).len() > 0,
        encoder::encode_ops(state, pixels)[0] is Run,
        encoder::encode_ops(state, pixels)[0].bytes().len() <= op.bytes().len(),
{
    encoder::lemma_run_length(pixels, state.prev);
}

/// An opaque image is encoded without a single chunk that carries alpha.
pub proof fn law_opaque_image_has_no_rgba(state: CodecState, pixels: Seq<Pixel>)
    requires
        state.prev.a == 255,
        forall|i: int| 0 <= i < pixels.len() ==> (#[trigger] pixels[i]).a == 255,
    ensures
        forall|i: int|
            0 <= i < encoder::encode_ops(state, pixels).len() ==> !(#[trigger] encoder::encode_ops(
                state,
                pixels,
            )[i] is Rgba),
    decreases pixels.len(),
{
    let ops = encoder::encode_ops(state, pixels);
    if pixels.len() == 0 {
    } else if pixels[0] == state.prev {
        let n = encoder::run_length(pixels, state.prev);
        encoder::lemma_run_length(pixels, state.prev);
        lemma_run_ops_are_runs(n);
        law_opaque_image_has_no_rgba(state.saw(state.prev), pixels.skip(n as int));
    } else {
        law_opaque_image_has_no_rgba(state.saw(pixels[0]), pixels.skip(1));
    }
}

/// A run of `n` pixels takes one chunk, and one byte, for each 62 pixels begun.
proof fn lemma_run_ops_are_runs(n: nat)
    ensures
        encoder::run_ops(n).len() == (n + 61) / 62,
        model::stream_bytes(encoder::run_ops(n)).len() == (n + 61) / 62,
        forall|i: int| 0 <= i < encoder::run_ops(n).len() ==> #[trigger] encoder::run_ops(n)[i] is Run,
    decreases n,
{
    let ops = encoder::run_ops(n);
    if n == 0 {
    } else if n < 62 {
        model::lemma_stream_bytes_one(ops[0]);
    } else {
        lemma_run_ops_are_runs((n - 62) as nat);
        assert(ops.skip(1) =~= encoder::run_ops((n - 62) as nat));
    }
}

/// No chunk takes more than 5 bytes for each pixel it stands for.
pub proof fn law_bytes_per_pixel(ops: Seq<QoiOp>)
    requires
        model::all_in_range(ops),
    ensures
        model::stream_bytes(ops).len() <= 5 * model::total_pixels(ops),
    decreases ops.len(),
{
    if ops.len() > 0 {
        assert(ops[0].in_range());
        assert forall|i: int| 0 <= i < ops.skip(1).len() implies (#[trigger] ops.skip(
            1,
        )[i]).in_range() by {
            assert(ops.skip(1)[i] == ops[i + 1]);
        }
        law_bytes_per_pixel(ops.skip(1));
    }
}

/// An image of `n` equal pixels takes at most one chunk for the first of them
/// and one byte for each 62 pixels begun.
pub proof fn law_solid_fill_is_compact(state: CodecState, p: Pixel, n: nat)
    requires
        state.valid(),
    ensures
        model::stream_bytes(encoder::encode_ops(state, model::copies(p, n))).len() <= 5 + (n + 61)
            / 62,
{
    let pixels = model::copies(p, n);
    let ops = encoder::encode_ops(state, pixels);
    if n == 0 {
    } else if p == state.prev {
        lemma_solid_run(state, n);
    } else {
        let rest = pixels.skip(1);
        let tail = encoder::encode_ops(state.saw(p), rest);
        assert(rest =~= model::copies(p, (n - 1) as nat));
        lemma_solid_run(state.saw(p), (n - 1) as nat);
        assert(ops.skip(1) =~= tail);
        assert(model::stream_bytes(ops).len() == ops[0].bytes().len() + model::stream_bytes(
            tail,
        ).len());
    }
}

/// Repeating the previous pixel `n` times takes one byte for each 62 pixels begun.
proof fn lemma_solid_run(state: CodecState, n: nat)
    ensures
        model::stream_bytes(encoder::encode_ops(state, model::copies(state.prev, n))).len() == (n
            + 61) / 62,
{
    let pixels = model::copies(state.prev, n);
    if n > 0 {
        encoder::lemma_run_length(pixels, state.prev);
        let k = encoder::run_length(pixels, state.prev);
        if k < n {
            assert(pixels[k as int] == state.prev);
        }
        let rest = pixels.skip(k as int);
        assert(encoder::encode_ops(state.saw(state.prev), rest) =~= Seq::empty());
        assert(encoder::encode_ops(state, pixels) =~= encoder::run_ops(n));
        lemma_run_ops_are_runs(n);
    }
}

} // verus!
