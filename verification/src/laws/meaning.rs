//! Laws of what chunks mean, in terms of the pixels alone: what a chunk adds
//! to the pixels in front of it, and which chunk stands for the next pixel.
use vstd::prelude::*;

use crate::decoder;
use crate::encoder;
use crate::error::ErrorView;
use crate::image::{QoiChannels, QoiHeader};
use crate::laws::canonical;
use crate::laws::chunks;
use crate::laws::files;
use crate::laws::wire;
use crate::model;
use crate::model::{CodecState, Pixel};
use crate::ops::QoiOp;

verus! {

/// Whether a pixel belongs in a slot.
pub open spec fn belongs(p: Pixel, slot: int) -> bool {
    (3 * p.r + 5 * p.g + 7 * p.b + 11 * p.a) % 64 == slot
}

/// Whether `p` is what a slot holds once `seen` has gone by: the latest pixel
/// that belongs there, or transparent black where there was none.
pub open spec fn held(seen: Seq<Pixel>, slot: int, p: Pixel) -> bool {
    ||| exists|j: int|
        0 <= j < seen.len() && #[trigger] seen[j] == p && belongs(seen[j], slot) && (forall|m: int|
            j < m < seen.len() ==> !belongs(#[trigger] seen[m], slot))
    ||| p == (Pixel { r: 0, g: 0, b: 0, a: 0 }) && forall|m: int|
        0 <= m < seen.len() ==> !belongs(#[trigger] seen[m], slot)
}

/// The latest pixel, or opaque black before the first.
pub open spec fn latest(seen: Seq<Pixel>) -> Pixel {
    if seen.len() == 0 {
        Pixel { r: 0, g: 0, b: 0, a: 255 }
    } else {
        seen[seen.len() - 1]
    }
}

/// A slot holds one pixel.
proof fn lemma_held_is_unique(seen: Seq<Pixel>, slot: int, p: Pixel, q: Pixel)
    requires
        held(seen, slot, p),
        held(seen, slot, q),
    ensures
        p == q,
{
    if exists|j: int|
        0 <= j < seen.len() && #[trigger] seen[j] == p && belongs(seen[j], slot) && (forall|m: int|
            j < m < seen.len() ==> !belongs(#[trigger] seen[m], slot)) {
        let j = choose|j: int|
            0 <= j < seen.len() && #[trigger] seen[j] == p && belongs(seen[j], slot) && (forall|
                m: int,
            |
                j < m < seen.len() ==> !belongs(#[trigger] seen[m], slot));
        if exists|i: int|
            0 <= i < seen.len() && #[trigger] seen[i] == q && belongs(seen[i], slot) && (forall|
                m: int,
            |
                i < m < seen.len() ==> !belongs(#[trigger] seen[m], slot)) {
            let i = choose|i: int|
                0 <= i < seen.len() && #[trigger] seen[i] == q && belongs(seen[i], slot) && (
                forall|m: int| i < m < seen.len() ==> !belongs(#[trigger] seen[m], slot));
            assert(i == j);
        }
    }
}

/// More copies of a pixel take over its own slot and leave the others.
proof fn lemma_held_after_copies(seen: Seq<Pixel>, p: Pixel, n: nat, slot: int, q: Pixel)
    requires
        n > 0,
        held(seen, slot, q),
    ensures
        held(
            seen + model::copies(p, n),
            slot,
            if belongs(p, slot) {
                p
            } else {
                q
            },
        ),
{
    let all = seen + model::copies(p, n);
    let top = all.len() - 1;
    assert forall|m: int| seen.len() <= m < all.len() implies #[trigger] all[m] == p by {}
    assert forall|m: int| 0 <= m < seen.len() implies #[trigger] all[m] == seen[m] by {}
    if belongs(p, slot) {
        assert(all[top] == p);
    } else if exists|j: int|
        0 <= j < seen.len() && #[trigger] seen[j] == q && belongs(seen[j], slot) && (forall|m: int|
            j < m < seen.len() ==> !belongs(#[trigger] seen[m], slot)) {
        let j = choose|j: int|
            0 <= j < seen.len() && #[trigger] seen[j] == q && belongs(seen[j], slot) && (forall|
                m: int,
            |
                j < m < seen.len() ==> !belongs(#[trigger] seen[m], slot));
        assert(all[j] == q);
        assert forall|m: int| j < m < all.len() implies !belongs(#[trigger] all[m], slot) by {
            if m < seen.len() {
                assert(!belongs(seen[m], slot));
            }
        }
    } else {
        assert forall|m: int| 0 <= m < all.len() implies !belongs(#[trigger] all[m], slot) by {
            if m < seen.len() {
                assert(!belongs(seen[m], slot));
            }
        }
    }
}

/// Rendering goes on where it stopped.
proof fn lemma_render_add(state: CodecState, a: Seq<QoiOp>, b: Seq<QoiOp>)
    ensures
        model::render(state, a + b) == model::render(state, a) + model::render(
            canonical::state_after(state, a),
            b,
        ),
    decreases a.len(),
{
    if a.len() == 0 {
        assert(a + b =~= b);
        assert(model::render(state, a) + model::render(state, b) =~= model::render(state, b));
    } else {
        lemma_render_add(state.after(a[0]), a.skip(1), b);
        assert((a + b).skip(1) =~= a.skip(1) + b);
        assert((a + b)[0] == a[0]);
        assert(model::render(state, a + b) =~= model::render(state, a) + model::render(
            canonical::state_after(state, a),
            b,
        ));
    }
}

/// One more chunk adds its pixels.
proof fn lemma_render_push(state: CodecState, ops: Seq<QoiOp>, op: QoiOp)
    ensures
        model::render(state, ops.push(op)) == model::render(state, ops) + model::copies(
            canonical::state_after(state, ops).pixel(op),
            model::pixel_count(op),
        ),
{
    let one = seq![op];
    let after = canonical::state_after(state, ops);
    assert(ops.push(op) =~= ops + one);
    lemma_render_add(state, ops, one);
    assert(one.skip(1) =~= Seq::empty());
    assert(model::render(after.after(op), one.skip(1)) =~= Seq::empty());
    assert(model::render(after, one) =~= model::copies(after.pixel(op), model::pixel_count(op)));
}

/// The state after chunks, in terms of the pixels that they denote.
proof fn lemma_state_of_pixels(ops: Seq<QoiOp>)
    requires
        model::all_in_range(ops),
    ensures
        ({
            let state = canonical::state_after(CodecState::start(), ops);
            let seen = model::render(CodecState::start(), ops);
            &&& state.valid()
            &&& state.prev == latest(seen)
            &&& forall|k: int| 0 <= k < 64 ==> held(seen, k, #[trigger] state.slots[k])
        }),
    decreases ops.len(),
{
    let start = CodecState::start();
    if ops.len() == 0 {
        assert(model::render(start, ops) =~= Seq::empty());
    } else {
        let front = ops.drop_last();
        let op = ops.last();
        assert(front.push(op) =~= ops);
        assert(op.in_range());
        assert forall|i: int| 0 <= i < front.len() implies (#[trigger] front[i]).in_range() by {
            assert(front[i] == ops[i]);
        }
        lemma_state_of_pixels(front);
        canonical::lemma_state_after_push(start, front, op);
        lemma_render_push(start, front, op);
        let before = canonical::state_after(start, front);
        let state = canonical::state_after(start, ops);
        let seen = model::render(start, front);
        let p = before.pixel(op);
        let n = model::pixel_count(op);
        wire::law_slot_of_pixel(p);
        assert forall|k: int| 0 <= k < 64 implies held(
            seen + model::copies(p, n),
            k,
            #[trigger] state.slots[k],
        ) by {
            assert(held(seen, k, before.slots[k]));
            lemma_held_after_copies(seen, p, n, k, before.slots[k]);
            assert(belongs(p, k) <==> p.slot() == k);
        }
    }
}

/// A channel and its shifted value differ by the delta, modulo 256.
proof fn lemma_shift(v: u8, d: int)
    ensures
        (((v + d) % 256) as u8 - v - d) % 256 == 0,
{
}

/// Only one channel value differs from another by a delta, modulo 256.
proof fn lemma_shift_back(v: u8, w: u8, d: int)
    requires
        (w - v - d) % 256 == 0,
    ensures
        (v + d) % 256 == w,
{
}

/// The pixel that a chunk of deltas denotes, by what it differs from the latest one.
proof fn lemma_pixel_of_deltas(state: CodecState, op: QoiOp)
    ensures
        ({
            let p = state.pixel(op);
            let last = state.prev;
            &&& op matches QoiOp::Diff { dr, dg, db } ==> {
                &&& (p.r - last.r - dr) % 256 == 0
                &&& (p.g - last.g - dg) % 256 == 0
                &&& (p.b - last.b - db) % 256 == 0
                &&& p.a == last.a
            }
            &&& op matches QoiOp::Luma { dg, dr_dg, db_dg } ==> {
                &&& (p.r - last.r - dg - dr_dg) % 256 == 0
                &&& (p.g - last.g - dg) % 256 == 0
                &&& (p.b - last.b - dg - db_dg) % 256 == 0
                &&& p.a == last.a
            }
        }),
{
    let last = state.prev;
    match op {
        QoiOp::Diff { dr, dg, db } => {
            lemma_shift(last.r, dr as int);
            lemma_shift(last.g, dg as int);
            lemma_shift(last.b, db as int);
        },
        QoiOp::Luma { dg, dr_dg, db_dg } => {
            lemma_shift(last.r, dg + dr_dg);
            lemma_shift(last.g, dg as int);
            lemma_shift(last.b, dg + db_dg);
        },
        _ => {},
    }
}

/// The chosen chunk, by the deltas to the latest pixel.
proof fn lemma_chosen_by_deltas(state: CodecState, cur: Pixel, dr: int, dg: int, db: int)
    requires
        -128 <= dr <= 127 && (cur.r - state.prev.r - dr) % 256 == 0,
        -128 <= dg <= 127 && (cur.g - state.prev.g - dg) % 256 == 0,
        -128 <= db <= 127 && (cur.b - state.prev.b - db) % 256 == 0,
        state.slots[cur.slot()] != cur,
    ensures
        encoder::chosen(state, cur) == if cur.a != state.prev.a {
            QoiOp::Rgba { r: cur.r, g: cur.g, b: cur.b, a: cur.a }
        } else if -2 <= dr <= 1 && -2 <= dg <= 1 && -2 <= db <= 1 {
            QoiOp::Diff { dr: dr as i8, dg: dg as i8, db: db as i8 }
        } else if -32 <= dg <= 31 && -8 <= dr - dg <= 7 && -8 <= db - dg <= 7 {
            QoiOp::Luma { dg: dg as i8, dr_dg: (dr - dg) as i8, db_dg: (db - dg) as i8 }
        } else {
            QoiOp::Rgb { r: cur.r, g: cur.g, b: cur.b }
        },
{
    let last = state.prev;
    lemma_shift_back(last.r, cur.r, dr);
    lemma_shift_back(last.g, cur.g, dg);
    lemma_shift_back(last.b, cur.b, db);
    canonical::lemma_delta_is_unique(last.r, cur.r, dr);
    canonical::lemma_delta_is_unique(last.g, cur.g, dg);
    canonical::lemma_delta_is_unique(last.b, cur.b, db);
}

/// What a chunk adds to the pixels in front of it. A raw colour stands for
/// itself, with the alpha of the latest pixel if it brings none. Deltas are
/// added to the latest pixel modulo 256, channel by channel, and keep its
/// alpha. A run repeats the latest pixel. A slot number stands for the latest
/// pixel that belongs in that slot. Before the first pixel, the latest is opaque black.
pub proof fn law_meaning_of_chunk(ops: Seq<QoiOp>, op: QoiOp)
    requires
        model::all_in_range(ops),
        op.in_range(),
    ensures
        ({
            let seen = model::render(CodecState::start(), ops);
            let all = model::render(CodecState::start(), ops.push(op));
            let last = latest(seen);
            let n = seen.len() as int;
            let p = all[n];
            &&& all.take(n) == seen
            &&& !(op is Run) ==> all.len() == n + 1
            &&& match op {
                QoiOp::Rgb { r, g, b } => p.r == r && p.g == g && p.b == b && p.a == last.a,
                QoiOp::Rgba { r, g, b, a } => p.r == r && p.g == g && p.b == b && p.a == a,
                QoiOp::Index { index } => held(seen, index as int, p),
                QoiOp::Diff { dr, dg, db } => {
                    &&& (p.r - last.r - dr) % 256 == 0
                    &&& (p.g - last.g - dg) % 256 == 0
                    &&& (p.b - last.b - db) % 256 == 0
                    &&& p.a == last.a
                },
                QoiOp::Luma { dg, dr_dg, db_dg } => {
                    &&& (p.r - last.r - dg - dr_dg) % 256 == 0
                    &&& (p.g - last.g - dg) % 256 == 0
                    &&& (p.b - last.b - dg - db_dg) % 256 == 0
                    &&& p.a == last.a
                },
                QoiOp::Run { length } => {
                    &&& all.len() == n + length
                    &&& forall|i: int| n <= i < n + length ==> #[trigger] all[i] == last
                },
                QoiOp::Truncated { .. } => true,
            }
        }),
{
    let start = CodecState::start();
    let seen = model::render(start, ops);
    let all = model::render(start, ops.push(op));
    lemma_state_of_pixels(ops);
    lemma_render_push(start, ops, op);
    let state = canonical::state_after(start, ops);
    let n = seen.len() as int;
    let p = state.pixel(op);
    assert(all == seen + model::copies(p, model::pixel_count(op)));
    assert(all.take(n) =~= seen);
    lemma_pixel_of_deltas(state, op);
    assert(state.prev == latest(seen));
    match op {
        QoiOp::Run { length } => {
            assert(p == latest(seen));
        },
        QoiOp::Index { index } => {
            assert(held(seen, index as int, state.slots[index as int]));
            assert(all[n] == p);
        },
        _ => {
            assert(all[n] == p);
        },
    }
}

/// No chunks denote no pixels.
pub proof fn law_meaning_of_nothing()
    ensures
        model::render(CodecState::start(), Seq::empty()) == Seq::<Pixel>::empty(),
{
}

/// Which chunk stands for the next pixel of an image. It is a run exactly
/// where the pixel repeats the latest one, of 62 or up to where the pixels
/// change. Otherwise it is the pixel's slot, if that holds the pixel; the raw
/// colour with alpha, if alpha changes; the channel deltas, if each is from -2
/// to 1; the deltas relative to green, if the green delta is from -32 to 31
/// and the others are from -8 to 7; the raw colour, if nothing else applies.
pub proof fn law_choice_of_chunk(pixels: Seq<Pixel>, i: int, dr: int, dg: int, db: int)
    requires
        ({
            let ops = encoder::encode_ops(CodecState::start(), pixels);
            let seen = model::render(CodecState::start(), ops.take(i));
            let last = latest(seen);
            let cur = pixels[seen.len() as int];
            &&& 0 <= i < ops.len()
            &&& -128 <= dr <= 127 && (cur.r - last.r - dr) % 256 == 0
            &&& -128 <= dg <= 127 && (cur.g - last.g - dg) % 256 == 0
            &&& -128 <= db <= 127 && (cur.b - last.b - db) % 256 == 0
        }),
    ensures
        ({
            let ops = encoder::encode_ops(CodecState::start(), pixels);
            let op = ops[i];
            let seen = model::render(CodecState::start(), ops.take(i));
            let n = seen.len() as int;
            let last = latest(seen);
            let cur = pixels[n];
            let slot = (3 * cur.r + 5 * cur.g + 7 * cur.b + 11 * cur.a) % 64;
            &&& n < pixels.len()
            &&& seen == pixels.take(n)
            &&& op is Run <==> cur == last
            &&& if cur == last {
                &&& op matches QoiOp::Run { length } && 1 <= length <= 62 && n + length
                    <= pixels.len() && (forall|j: int|
                    n <= j < n + length ==> #[trigger] pixels[j] == last) && (length == 62 || n
                    + length == pixels.len() || pixels[n + length] != last)
            } else if held(seen, slot, cur) {
                op == (QoiOp::Index { index: slot as u8 })
            } else if cur.a != last.a {
                op == (QoiOp::Rgba { r: cur.r, g: cur.g, b: cur.b, a: cur.a })
            } else if -2 <= dr <= 1 && -2 <= dg <= 1 && -2 <= db <= 1 {
                op == (QoiOp::Diff { dr: dr as i8, dg: dg as i8, db: db as i8 })
            } else if -32 <= dg <= 31 && -8 <= dr - dg <= 7 && -8 <= db - dg <= 7 {
                op == (QoiOp::Luma { dg: dg as i8, dr_dg: (dr - dg) as i8, db_dg: (db - dg) as i8 })
            } else {
                op == (QoiOp::Rgb { r: cur.r, g: cur.g, b: cur.b })
            }
        }),
{
    let start = CodecState::start();
    let ops = encoder::encode_ops(start, pixels);
    let front = ops.take(i);
    let rest = ops.skip(i);
    let op = ops[i];
    let seen = model::render(start, front);
    let n = seen.len() as int;
    let state = canonical::state_after(start, front);
    let cur = pixels[n];
    let last = latest(seen);
    canonical::law_encoding_is_lossless(start, pixels);
    canonical::law_encoder_is_canonical(start, pixels);
    canonical::law_canonical_at_every_position(start, ops, i);
    assert forall|j: int| 0 <= j < front.len() implies (#[trigger] front[j]).in_range() by {
        assert(front[j] == ops[j]);
    }
    lemma_state_of_pixels(front);
    assert(front + rest =~= ops);
    lemma_render_add(start, front, rest);
    let shown = model::render(state, rest);
    assert(seen + shown == pixels);
    assert(rest[0] == op);
    assert(op.in_range());
    let count = model::pixel_count(op);
    let p = state.pixel(op);
    let tail = model::render(state.after(op), rest.skip(1));
    assert(shown == model::copies(p, count) + tail);
    assert(shown[0] == p);
    assert(pixels[n] == shown[0]);
    assert(seen =~= pixels.take(n));
    if op is Run {
        let length = op->length;
        assert forall|j: int| n <= j < n + length implies #[trigger] pixels[j] == last by {
            assert(pixels[j] == shown[j - n]);
        }
        if length < 62 && n + length < pixels.len() {
            assert(tail.len() > 0);
            assert(rest.len() > 1) by {
                if rest.len() == 1 {
                    assert(rest.skip(1).len() == 0);
                }
            }
            let next = rest[1];
            assert(rest.skip(1)[0] == next);
            assert(next == ops[i + 1]);
            assert(next.in_range());
            assert(tail[0] == state.after(op).pixel(next));
            assert(pixels[n + length] == shown[length as int]);
            assert(shown[length as int] == tail[0]);
        }
    } else {
        assert(cur == p);
        wire::law_slot_of_pixel(cur);
        let slot = cur.slot();
        assert(slot == (3 * cur.r + 5 * cur.g + 7 * cur.b + 11 * cur.a) % 64);
        assert(held(seen, slot, state.slots[slot]));
        if held(seen, slot, cur) {
            lemma_held_is_unique(seen, slot, cur, state.slots[slot]);
        } else {
            lemma_chosen_by_deltas(state, cur, dr, dg, db);
        }
    }
}

/// Where an encoder writes deltas, their bytes say by how much the next pixel
/// differs from the latest one, modulo 256: each channel biased by 2 in a
/// small-delta chunk; green biased by 32, then red and blue relative to green
/// and biased by 8, in the other.
pub proof fn law_bytes_of_deltas(pixels: Seq<Pixel>, i: int, dr: int, dg: int, db: int)
    requires
        ({
            let ops = encoder::encode_ops(CodecState::start(), pixels);
            let seen = model::render(CodecState::start(), ops.take(i));
            let last = latest(seen);
            let cur = pixels[seen.len() as int];
            &&& 0 <= i < ops.len()
            &&& -128 <= dr <= 127 && (cur.r - last.r - dr) % 256 == 0
            &&& -128 <= dg <= 127 && (cur.g - last.g - dg) % 256 == 0
            &&& -128 <= db <= 127 && (cur.b - last.b - db) % 256 == 0
        }),
    ensures
        ({
            let op = encoder::encode_ops(CodecState::start(), pixels)[i];
            &&& op is Diff ==> op.bytes() == seq![
                (64 + 16 * (dr + 2) + 4 * (dg + 2) + (db + 2)) as u8,
            ]
            &&& op is Luma ==> op.bytes() == seq![
                (128 + (dg + 32)) as u8,
                (16 * (dr - dg + 8) + (db - dg + 8)) as u8,
            ]
        }),
{
    let op = encoder::encode_ops(CodecState::start(), pixels)[i];
    law_choice_of_chunk(pixels, i, dr, dg, db);
    match op {
        QoiOp::Diff { dr: r, dg: g, db: b } => {
            assert(r == dr && g == dg && b == db);
            wire::law_bytes_of_diff(r, g, b, dr + 2, dg + 2, db + 2);
        },
        QoiOp::Luma { dg: g, dr_dg: r, db_dg: b } => {
            assert(g == dg && r == dr - dg && b == db - dg);
            wire::law_bytes_of_luma(g, r, b, dg + 32, dr - dg + 8, db - dg + 8);
        },
        _ => {},
    }
}

/// Where the channels of a pixel stand in a flat buffer: pixel by pixel, in
/// the order red, green, blue, and alpha if there is one.
pub proof fn law_layout_of_pixels(pixels: Seq<Pixel>, i: int)
    requires
        0 <= i < pixels.len(),
    ensures
        ({
            let rgb = model::image_bytes(pixels, QoiChannels::Rgb);
            let p = pixels[i];
            &&& rgb.len() == 3 * pixels.len()
            &&& rgb[3 * i] == p.r && rgb[3 * i + 1] == p.g && rgb[3 * i + 2] == p.b
        }),
        ({
            let rgba = model::image_bytes(pixels, QoiChannels::Rgba);
            let p = pixels[i];
            &&& rgba.len() == 4 * pixels.len()
            &&& rgba[4 * i] == p.r && rgba[4 * i + 1] == p.g && rgba[4 * i + 2] == p.b
            &&& rgba[4 * i + 3] == p.a
        }),
    decreases pixels.len(),
{
    let front = pixels.drop_last();
    model::lemma_image_bytes_len(pixels, QoiChannels::Rgb);
    model::lemma_image_bytes_len(pixels, QoiChannels::Rgba);
    model::lemma_image_bytes_len(front, QoiChannels::Rgb);
    model::lemma_image_bytes_len(front, QoiChannels::Rgba);
    if i < pixels.len() - 1 {
        law_layout_of_pixels(front, i);
        assert(front[i] == pixels[i]);
    }
}

/// The pixels of a flat buffer, by the bytes that make them up. Without an
/// alpha byte, alpha is 255.
pub proof fn law_pixels_of_buffer(buffer: Seq<u8>, n: nat)
    ensures
        model::pixels_of(buffer, QoiChannels::Rgb, n) == Seq::new(
            n,
            |i: int|
                Pixel { r: buffer[3 * i], g: buffer[3 * i + 1], b: buffer[3 * i + 2], a: 255 },
        ),
        model::pixels_of(buffer, QoiChannels::Rgba, n) == Seq::new(
            n,
            |i: int|
                Pixel {
                    r: buffer[4 * i],
                    g: buffer[4 * i + 1],
                    b: buffer[4 * i + 2],
                    a: buffer[4 * i + 3],
                },
        ),
{
    assert(model::pixels_of(buffer, QoiChannels::Rgb, n) =~= Seq::new(
        n,
        |i: int| Pixel { r: buffer[3 * i], g: buffer[3 * i + 1], b: buffer[3 * i + 2], a: 255 },
    ));
    assert(model::pixels_of(buffer, QoiChannels::Rgba, n) =~= Seq::new(
        n,
        |i: int|
            Pixel {
                r: buffer[4 * i],
                g: buffer[4 * i + 1],
                b: buffer[4 * i + 2],
                a: buffer[4 * i + 3],
            },
    ));
}

/// The chunks of a file are those of its pixels, from byte 14 up to the last
/// 8 bytes, and they walk as they were chosen.
pub proof fn law_chunks_of_file(
    width: u32,
    height: u32,
    channels: u8,
    colorspace: u8,
    buffer: Seq<u8>,
)
    requires
        channels == 3 || channels == 4,
        buffer.len() == channels * (width * height),
    ensures
        ({
            let file = encoder::encoded(width, height, channels, colorspace, buffer);
            let section = file.subrange(14, file.len() - 8);
            let pixels = model::pixels_of(
                buffer,
                if channels == 3 {
                    QoiChannels::Rgb
                } else {
                    QoiChannels::Rgba
                },
                (width * height) as nat,
            );
            let ops = encoder::encode_ops(CodecState::start(), pixels);
            &&& section == model::stream_bytes(ops)
            &&& model::walk(section) == ops
            &&& model::render(CodecState::start(), ops) == pixels
        }),
{
    let ops = encoder::image_ops(width, height, channels, buffer);
    assert(width * height >= 0) by (nonlinear_arith);
    files::law_file_framing(width, height, channels, colorspace, buffer);
    canonical::law_encoding_is_lossless(
        CodecState::start(),
        model::pixels_of(buffer, encoder::layout(channels), (width * height) as nat),
    );
    chunks::law_walk_inverts_write(ops);
}

/// What can be encoded: 3 or 4 channels, colorspace 0 or 1, exactly the bytes
/// of the image, and at most the address space for the longest possible file.
pub proof fn law_encodable_in_numbers(
    width: u32,
    height: u32,
    channels: u8,
    colorspace: u8,
    pixels: Seq<u8>,
)
    ensures
        encoder::encodable(width, height, channels, colorspace, pixels) <==> {
            &&& channels == 3 || channels == 4
            &&& colorspace == 0 || colorspace == 1
            &&& pixels.len() == channels * (width * height)
            &&& 22 + 5 * (width * height) <= isize::MAX
        },
{
    let n = width * height;
    assert(n >= 0) by (nonlinear_arith)
        requires
            n == width * height,
    ;
}

/// What makes a file decode, and what it then decodes to: the header and the
/// end marker are good, the image can be measured, and the chunks are complete
/// and denote exactly as many pixels as the header announces. The bytes are
/// those pixels', in the announced layout.
pub proof fn law_decode_in_numbers(input: Seq<u8>)
    ensures
        ({
            let n = input.len() as int;
            let section = input.subrange(14, n - 8);
            let ops = model::walk(section);
            let image = model::render(CodecState::start(), ops);
            let w = input[4] * 16777216 + input[5] * 65536 + input[6] * 256 + input[7];
            let h = input[8] * 16777216 + input[9] * 65536 + input[10] * 256 + input[11];
            &&& decoder::decode(input) is Ok <==> {
                &&& n >= 22
                &&& decoder::header_of(input) is Ok
                &&& input[n - 8] == 0 && input[n - 7] == 0 && input[n - 6] == 0 && input[n - 5]
                    == 0
                &&& input[n - 4] == 0 && input[n - 3] == 0 && input[n - 2] == 0 && input[n - 1]
                    == 1
                &&& input[12] * (w * h) <= usize::MAX
                &&& forall|i: int| 0 <= i < ops.len() ==> !(#[trigger] ops[i] is Truncated)
                &&& image.len() == w * h
            }
            &&& decoder::decode(input) matches Ok((header, pixels)) ==> {
                &&& decoder::header_of(input) == Ok::<QoiHeader, ErrorView>(header)
                &&& pixels.len() == input[12] * (w * h)
                &&& forall|i: int|
                    0 <= i < image.len() ==> {
                        let p = #[trigger] image[i];
                        if input[12] == 3 {
                            &&& pixels[3 * i] == p.r
                            &&& pixels[3 * i + 1] == p.g
                            &&& pixels[3 * i + 2] == p.b
                        } else {
                            &&& pixels[4 * i] == p.r
                            &&& pixels[4 * i + 1] == p.g
                            &&& pixels[4 * i + 2] == p.b
                            &&& pixels[4 * i + 3] == p.a
                        }
                    }
            }
        }),
{
    let n = input.len() as int;
    wire::law_header_in_numbers(input);
    if n >= 22 && decoder::header_of(input) is Ok {
        let header = decoder::header_of(input)->Ok_0;
        let section = input.subrange(14, n - 8);
        assert(section == decoder::chunk_section(input));
        let ops = model::walk(section);
        let image = model::render(CodecState::start(), ops);
        let count = header.pixel_count();
        wire::lemma_end_marker(input);
        chunks::law_accepted_when_exact(section, count);
        chunks::law_render_length(CodecState::start(), ops);
        if count > 62 * section.len() {
            chunks::law_short_section_is_faulty(section, count);
        }
        let wh = header.width * header.height;
        assert(wh >= 0) by (nonlinear_arith)
            requires
                wh == header.width * header.height,
        ;
        assert(count == wh);
        let c = input[12];
        assert(header.byte_count() == c * wh) by {
            assert(c == 3 || c == 4);
            if c == 3 {
                assert(c * wh == 3 * wh) by (nonlinear_arith)
                    requires
                        c == 3,
                ;
            } else {
                assert(c * wh == 4 * wh) by (nonlinear_arith)
                    requires
                        c == 4,
                ;
            }
        }
        model::lemma_image_bytes_len(image, header.channels);
        if decoder::decode(input) is Ok {
            assert forall|i: int| 0 <= i < image.len() implies {
                let pixels = (decoder::decode(input)->Ok_0).1;
                let p = #[trigger] image[i];
                if input[12] == 3 {
                    &&& pixels[3 * i] == p.r
                    &&& pixels[3 * i + 1] == p.g
                    &&& pixels[3 * i + 2] == p.b
                } else {
                    &&& pixels[4 * i] == p.r
                    &&& pixels[4 * i + 1] == p.g
                    &&& pixels[4 * i + 2] == p.b
                    &&& pixels[4 * i + 3] == p.a
                }
            } by {
                law_layout_of_pixels(image, i);
            }
        }
    }
}

/// Past complete chunks that do not reach the end of the image, a decoder is
/// where it would be if it started there with the rest of the image to go.
proof fn lemma_fault_behind(ops: Seq<QoiOp>, i: int, n: nat)
    requires
        0 <= i <= ops.len(),
        forall|j: int| 0 <= j < i ==> (#[trigger] ops[j]).in_range(),
        model::total_pixels(ops.take(i)) <= n,
    ensures
        decoder::stream_fault(ops, n) == decoder::stream_fault(
            ops.skip(i),
            (n - model::total_pixels(ops.take(i))) as nat,
        ),
    decreases i,
{
    if i == 0 {
        assert(ops.skip(0) =~= ops);
        assert(ops.take(0).len() == 0);
    } else {
        let front = ops.take(i);
        let rest = ops.skip(1);
        assert(front[0] == ops[0]);
        assert(ops[0].in_range());
        assert(front.skip(1) =~= rest.take(i - 1));
        assert forall|j: int| 0 <= j < i - 1 implies (#[trigger] rest[j]).in_range() by {
            assert(rest[j] == ops[j + 1]);
        }
        lemma_fault_behind(rest, i - 1, (n - model::pixel_count(ops[0])) as nat);
        assert(rest.skip(i - 1) =~= ops.skip(i));
    }
}

/// Why a file with a good header is refused, in the order in which its faults
/// are looked for. Of the chunks, the first that cannot be used decides: `i`
/// is its position, and the chunks in front of it are complete.
pub proof fn law_decode_refusals(input: Seq<u8>, i: int)
    requires
        input.len() >= 22 ==> 0 <= i <= model::walk(input.subrange(14, input.len() - 8)).len(),
    ensures
        ({
            let n = input.len() as int;
            let w = input[4] * 16777216 + input[5] * 65536 + input[6] * 256 + input[7];
            let h = input[8] * 16777216 + input[9] * 65536 + input[10] * 256 + input[11];
            let marker = input[n - 8] == 0 && input[n - 7] == 0 && input[n - 6] == 0 && input[n
                - 5] == 0 && input[n - 4] == 0 && input[n - 3] == 0 && input[n - 2] == 0
                && input[n - 1] == 1;
            let bytes = input[12] * (w * h);
            let good = n >= 22 && decoder::header_of(input) is Ok;
            let section = input.subrange(14, n - 8);
            let ops = model::walk(section);
            let done = model::render(CodecState::start(), ops.take(i)).len();
            let started = good && bytes <= usize::MAX && marker && w * h <= 62 * section.len() && (
            forall|j: int| 0 <= j < i ==> !(#[trigger] ops[j] is Truncated));
            let got = decoder::decode(input);
            &&& n < 22 ==> got == refused("QOI: input shorter than header + end marker"@)
            &&& good && bytes > u64::MAX ==> got == Err::<(QoiHeader, Seq<u8>), ErrorView>(
                ErrorView::Unsupported("QOI: width*height*channels overflows u64"@),
            )
            &&& good && bytes <= u64::MAX && bytes > usize::MAX ==> got == Err::<
                (QoiHeader, Seq<u8>),
                ErrorView,
            >(ErrorView::Unsupported("QOI: total pixel bytes overflows usize"@))
            &&& good && bytes <= usize::MAX && !marker ==> got == refused(
                "QOI: missing or invalid end marker"@,
            )
            &&& good && bytes <= usize::MAX && marker && w * h > 62 * section.len() ==> got
                == refused("QOI: chunk stream truncated mid-image"@)
            &&& started && done < w * h && i == ops.len() ==> got == refused(
                "QOI: chunk stream truncated mid-image"@,
            )
            &&& started && done < w * h && i < ops.len() ==> (ops[i] matches QoiOp::Truncated {
                tag,
                ..
            } ==> got == refused(
                if tag == 254 {
                    "QOI: QOI_OP_RGB truncated"@
                } else if tag == 255 {
                    "QOI: QOI_OP_RGBA truncated"@
                } else {
                    "QOI: QOI_OP_LUMA truncated"@
                },
            ))
            &&& started && done < w * h && i < ops.len() ==> (ops[i] matches QoiOp::Run { length }
                ==> (done + length > w * h ==> got == refused("QOI: run overshoots image size"@)))
            &&& started && done == w * h && i < ops.len() ==> got == refused(
                "QOI: trailing bytes between last chunk and end marker"@,
            )
        }),
{
    let n = input.len() as int;
    wire::law_header_in_numbers(input);
    if n >= 22 && decoder::header_of(input) is Ok {
        let header = decoder::header_of(input)->Ok_0;
        let section = input.subrange(14, n - 8);
        assert(section == decoder::chunk_section(input));
        let ops = model::walk(section);
        let count = header.pixel_count();
        wire::lemma_end_marker(input);
        let wh = header.width * header.height;
        assert(wh >= 0) by (nonlinear_arith)
            requires
                wh == header.width * header.height,
        ;
        assert(count == wh);
        let c = input[12];
        assert(header.byte_count() == c * wh) by {
            assert(c == 3 || c == 4);
            if c == 3 {
                assert(c * wh == 3 * wh) by (nonlinear_arith)
                    requires
                        c == 3,
                ;
            } else {
                assert(c * wh == 4 * wh) by (nonlinear_arith)
                    requires
                        c == 4,
                ;
            }
        }
        let front = ops.take(i);
        chunks::law_render_length(CodecState::start(), front);
        if (forall|j: int| 0 <= j < i ==> !(#[trigger] ops[j] is Truncated))
            && model::total_pixels(front) <= count {
            chunks::law_walk_is_in_range(section);
            assert forall|j: int| 0 <= j < i implies (#[trigger] ops[j]).in_range() by {
                assert(!(ops[j] is Truncated));
            }
            lemma_fault_behind(ops, i, count);
            let rest = ops.skip(i);
            if i < ops.len() {
                assert(rest[0] == ops[i]);
                if ops[i] is Truncated {
                    lemma_truncated_tag(section, i);
                }
            }
        }
    }
}

/// A refusal of malformed bytes.
pub open spec fn refused(msg: Seq<char>) -> core::result::Result<(QoiHeader, Seq<u8>), ErrorView> {
    Err(ErrorView::InvalidData(msg))
}

/// Only raw colours and green-relative deltas can be cut short.
proof fn lemma_truncated_tag(s: Seq<u8>, i: int)
    requires
        0 <= i < model::walk(s).len(),
    ensures
        model::walk(s)[i] matches QoiOp::Truncated { tag, .. } ==> tag == 254 || tag == 255 || 128
            <= tag < 192,
    decreases s.len(),
{
    let op = model::first_op(s);
    model::lemma_first_op(s);
    if i > 0 {
        lemma_truncated_tag(s.skip(op.bytes().len() as int), i - 1);
    }
}

} // verus!
