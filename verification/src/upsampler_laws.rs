//! What a resampling stage makes of its source: the shapes of its phases, and that they are
//! a convolution over a source that is zero between its frames.
use vstd::arithmetic::div_mod::lemma_mod_multiples_vanish;
use vstd::prelude::*;

use crate::element::{
    element, element_of, lemma_factor_places, lemma_four_single_parts, lemma_places2, lemma_places3,
    lemma_places4, lemma_three_parts, lemma_two_parts, Element,
};
use crate::layers::weight_key;
use crate::shape::{
    axis_total, concat_shape, lemma_one_matrix, lemma_volume2, lemma_volume3, lemma_volume4,
    reshape_shape, slice_shape, valid,
};
use crate::signal::has_shape;
use crate::tensor::{
    concat2, concat3, concat4, evaluated, matmul, reshape, reverse_axes, shapes_of, slice, zeros,
    Outcome, Tensor,
};
use crate::upsampler::{
    head_matrix, matrices_fault, part, spread_source, tail_matrix, tap, ResampleUpsampler,
    HEAD_TAPS, SOURCE_CHANNELS, TAIL_TAPS, TAPS,
};
use crate::weights::{stored, ArrayRef, Entries};

verus! {

/// The shapes of the matrices of a source convolution.
pub proof fn lemma_matrices(w: Tensor, channels: i32)
    requires
        0 <= channels <= SOURCE_CHANNELS,
        head_matrix(w, channels) is Ok,
        tail_matrix(w, channels) is Ok,
    ensures
        has_shape(
            head_matrix(w, channels),
            seq![SOURCE_CHANNELS, (HEAD_TAPS * channels) as i32],
        ),
        has_shape(
            tail_matrix(w, channels),
            seq![SOURCE_CHANNELS, (TAIL_TAPS * channels) as i32],
        ),
{
    reveal(head_matrix);
    reveal(tail_matrix);
    reveal(reshape_shape);
}

/// The shape of a tap.
proof fn lemma_tap(w: Tensor, channels: i32, i: int)
    requires
        w.shape == seq![channels, TAPS, SOURCE_CHANNELS],
        0 <= i < TAPS,
    ensures
        has_shape(tap(w, i), seq![channels, 1, SOURCE_CHANNELS]),
{
    reveal(slice_shape);
    assert(tap(w, i)->Ok_0.shape =~= seq![channels, 1, SOURCE_CHANNELS]);
}

/// The taps of the head matrix, side by side.
pub open spec fn head_taps(w: Tensor) -> Outcome {
    concat4(tap(w, 3), tap(w, 2), tap(w, 1), tap(w, 0), 1)
}

/// The taps of the tail matrix, side by side.
pub open spec fn tail_taps(w: Tensor) -> Outcome {
    concat3(tap(w, 6), tap(w, 5), tap(w, 4), 1)
}

/// The shape of [`head_taps`].
proof fn lemma_head_taps(w: Tensor, channels: i32)
    requires
        w.shape == seq![channels, TAPS, SOURCE_CHANNELS],
    ensures
        has_shape(head_taps(w), seq![channels, HEAD_TAPS, SOURCE_CHANNELS]),
{
    lemma_tap(w, channels, 0);
    lemma_tap(w, channels, 1);
    lemma_tap(w, channels, 2);
    lemma_tap(w, channels, 3);
    reveal(concat_shape);
    let parts = seq![tap(w, 3)->Ok_0, tap(w, 2)->Ok_0, tap(w, 1)->Ok_0, tap(w, 0)->Ok_0];
    let shapes = shapes_of(parts);
    reveal_with_fuel(axis_total, 5);
    assert(shapes.drop_last().drop_last().drop_last().drop_last() =~= Seq::<Seq<i32>>::empty());
    assert(axis_total(shapes, 1) == HEAD_TAPS);
    assert(head_taps(w)->Ok_0.shape =~= seq![channels, HEAD_TAPS, SOURCE_CHANNELS]);
}

/// The shape of [`tail_taps`].
proof fn lemma_tail_taps(w: Tensor, channels: i32)
    requires
        w.shape == seq![channels, TAPS, SOURCE_CHANNELS],
    ensures
        has_shape(tail_taps(w), seq![channels, TAIL_TAPS, SOURCE_CHANNELS]),
{
    lemma_tap(w, channels, 4);
    lemma_tap(w, channels, 5);
    lemma_tap(w, channels, 6);
    reveal(concat_shape);
    let parts = seq![tap(w, 6)->Ok_0, tap(w, 5)->Ok_0, tap(w, 4)->Ok_0];
    let shapes = shapes_of(parts);
    reveal_with_fuel(axis_total, 4);
    assert(shapes.drop_last().drop_last().drop_last() =~= Seq::<Seq<i32>>::empty());
    assert(axis_total(shapes, 1) == TAIL_TAPS);
    assert(tail_taps(w)->Ok_0.shape =~= seq![channels, TAIL_TAPS, SOURCE_CHANNELS]);
}

/// A source convolution with a weight for each channel, tap and source channel can be
/// prepared.
pub proof fn lemma_can_prepare(w: Tensor, channels: i32)
    requires
        0 <= channels <= SOURCE_CHANNELS,
        w.shape == seq![channels, TAPS, SOURCE_CHANNELS],
    ensures
        matrices_fault(Some(w), channels) is None,
{
    reveal(head_matrix);
    reveal(tail_matrix);
    reveal(reshape_shape);
    let (c, s) = (channels, SOURCE_CHANNELS);
    lemma_head_taps(w, channels);
    lemma_volume3(s, HEAD_TAPS, c);
    lemma_volume2(s, (HEAD_TAPS * c) as i32);
    lemma_tail_taps(w, channels);
    lemma_volume3(s, TAIL_TAPS, c);
    lemma_volume2(s, (TAIL_TAPS * c) as i32);
}

/// The phases that a matrix gives for each frame.
pub proof fn lemma_phases(x: Outcome, w: Tensor, batch: i32, frames: i32, taps: i32, channels: i32)
    requires
        has_shape(x, seq![batch, frames, SOURCE_CHANNELS]),
        w.shape == seq![SOURCE_CHANNELS, (taps * channels) as i32],
        0 <= batch,
        0 <= frames,
        0 <= taps <= TAPS,
        0 <= channels <= SOURCE_CHANNELS,
        batch * frames * taps * channels <= i32::MAX,
    ensures
        has_shape(
            reshape(matmul(x, Ok(w)), seq![batch, frames, taps, channels]),
            seq![batch, frames, taps, channels],
        ),
{
    reveal(reshape_shape);
    let (b, f, t, c) = (batch as int, frames as int, taps as int, channels as int);
    assert(0 <= t * c <= 7 * 1536) by (nonlinear_arith)
        requires
            0 <= t <= 7,
            0 <= c <= 1536,
    ;
    let y = matmul(x, Ok(w));
    lemma_one_matrix(x->Ok_0.shape, w.shape);
    assert(y->Ok_0.shape =~= seq![batch, frames, (taps * channels) as i32]);
    lemma_volume3(batch, frames, (taps * channels) as i32);
    lemma_volume4(batch, frames, taps, channels);
    assert(b * f * (t * c) == b * f * t * c) by (nonlinear_arith);
}

/// The source without its first frame, and a frame of zeros behind the last.
pub open spec fn next_frames(source: Tensor) -> Outcome {
    concat2(
        slice(Ok(source), 1, 1, source.shape[1] as int),
        zeros(seq![source.shape[0], 1, SOURCE_CHANNELS]),
        1,
    )
}

/// The shape of [`next_frames`].
pub proof fn lemma_next_frames(source: Tensor)
    requires
        source.shape.len() == 3,
        0 <= source.shape[0],
        1 <= source.shape[1],
        source.shape[2] == SOURCE_CHANNELS,
    ensures
        has_shape(next_frames(source), source.shape),
        has_shape(
            slice(Ok(source), 1, 1, source.shape[1] as int),
            seq![source.shape[0], (source.shape[1] - 1) as i32, SOURCE_CHANNELS],
        ),
        has_shape(
            zeros(seq![source.shape[0], 1, SOURCE_CHANNELS]),
            seq![source.shape[0], 1, SOURCE_CHANNELS],
        ),
{
    reveal(slice_shape);
    reveal(concat_shape);
    let (batch, frames) = (source.shape[0], source.shape[1]);
    let next = slice(Ok(source), 1, 1, frames as int);
    assert(next->Ok_0.shape =~= seq![batch, (frames - 1) as i32, SOURCE_CHANNELS]);
    let last = zeros(seq![batch, 1, SOURCE_CHANNELS]);
    assert(valid(seq![batch, 1i32, SOURCE_CHANNELS]));
    let shapes = shapes_of(seq![next->Ok_0, last->Ok_0]);
    reveal_with_fuel(axis_total, 3);
    assert(shapes.drop_last().drop_last() =~= Seq::<Seq<i32>>::empty());
    assert(axis_total(shapes, 1) == frames);
    assert(next_frames(source)->Ok_0.shape =~= source.shape);
}

/// The spread source has a step for each output step.
pub proof fn lemma_spread_source(
    source: Tensor,
    head_weight: Tensor,
    tail_weight: Tensor,
    total: int,
    channels: i32,
)
    requires
        source.shape.len() == 3,
        0 <= source.shape[0],
        1 <= source.shape[1],
        source.shape[2] == SOURCE_CHANNELS,
        head_weight.shape == seq![SOURCE_CHANNELS, (HEAD_TAPS * channels) as i32],
        tail_weight.shape == seq![SOURCE_CHANNELS, (TAIL_TAPS * channels) as i32],
        TAPS <= total <= 512,
        1 <= channels <= SOURCE_CHANNELS,
        source.shape[1] * total <= i32::MAX,
        source.shape[0] * source.shape[1] * total * channels <= i32::MAX,
    ensures
        has_shape(
            spread_source(source, head_weight, tail_weight, total, channels),
            seq![source.shape[0], (source.shape[1] * total) as i32, channels],
        ),
{
    reveal(spread_source);
    let (batch, frames) = (source.shape[0], source.shape[1]);
    let (b, f, c) = (batch as int, frames as int, channels as int);
    assert(0 <= b * f) by (nonlinear_arith)
        requires
            0 <= b,
            1 <= f,
    ;
    let n = b * f;
    assert(n * 4 * c <= n * total * c && n * 3 * c <= n * total * c && 0 <= n * total * c)
        by (nonlinear_arith)
        requires
            0 <= n,
            7 <= total,
            1 <= c,
    ;
    assert(source.shape =~= seq![batch, frames, SOURCE_CHANNELS]);
    lemma_phases(Ok(source), head_weight, batch, frames, HEAD_TAPS, channels);
    let head = reshape(
        matmul(Ok(source), Ok(head_weight)),
        seq![batch, frames, HEAD_TAPS, channels],
    );
    lemma_next_frames(source);
    let shifted = next_frames(source);
    lemma_phases(shifted, tail_weight, batch, frames, TAIL_TAPS, channels);
    let tail = reshape(
        matmul(shifted, Ok(tail_weight)),
        seq![batch, frames, TAIL_TAPS, channels],
    );
    lemma_joined_phases(head, tail, batch, frames, total, channels);
}

/// The phases of a frame, joined: those of the head, zeros, and those of the tail.
proof fn lemma_frame_parts(
    head: Outcome,
    tail: Outcome,
    batch: i32,
    frames: i32,
    total: int,
    channels: i32,
)
    requires
        has_shape(head, seq![batch, frames, HEAD_TAPS, channels]),
        has_shape(tail, seq![batch, frames, TAIL_TAPS, channels]),
        0 <= batch,
        0 <= frames,
        0 <= channels,
        TAPS <= total <= 512,
    ensures
        has_shape(
            concat3(
                head,
                zeros(seq![batch, frames, (total - TAPS) as i32, channels]),
                tail,
                2,
            ),
            seq![batch, frames, total as i32, channels],
        ),
{
    reveal(concat_shape);
    let rest = (total - TAPS) as i32;
    let empty = zeros(seq![batch, frames, rest, channels]);
    assert(valid(seq![batch, frames, rest, channels]));
    let shapes = shapes_of(seq![head->Ok_0, empty->Ok_0, tail->Ok_0]);
    reveal_with_fuel(axis_total, 4);
    assert(shapes.drop_last().drop_last().drop_last() =~= Seq::<Seq<i32>>::empty());
    assert(axis_total(shapes, 2) == total);
    let phases = concat3(head, empty, tail, 2);
    assert(phases->Ok_0.shape =~= seq![batch, frames, total as i32, channels]);
}

/// The phases of each frame one after the other.
pub proof fn lemma_joined_phases(
    head: Outcome,
    tail: Outcome,
    batch: i32,
    frames: i32,
    total: int,
    channels: i32,
)
    requires
        has_shape(head, seq![batch, frames, HEAD_TAPS, channels]),
        has_shape(tail, seq![batch, frames, TAIL_TAPS, channels]),
        0 <= batch,
        1 <= frames,
        1 <= channels,
        TAPS <= total <= 512,
        frames * total <= i32::MAX,
        0 <= batch * frames * total * channels <= i32::MAX,
    ensures
        has_shape(
            reshape(
                concat3(
                    head,
                    zeros(seq![batch, frames, (total - TAPS) as i32, channels]),
                    tail,
                    2,
                ),
                seq![batch, (frames * total) as i32, channels],
            ),
            seq![batch, (frames * total) as i32, channels],
        ),
{
    reveal(reshape_shape);
    lemma_frame_parts(head, tail, batch, frames, total, channels);
    lemma_volume4(batch, frames, total as i32, channels);
    lemma_volume3(batch, (frames * total) as i32, channels);
    let (b, f, c) = (batch as int, frames as int, channels as int);
    assert(b * (f * total) * c == b * f * total * c) by (nonlinear_arith);
    assert(0 <= f * total) by (nonlinear_arith)
        requires
            1 <= f,
            7 <= total,
    ;
}

/// The elements of a tap are those of the weight.
proof fn lemma_tap_element(w: Tensor, channels: i32, i: int, o: int, s: int)
    requires
        w.shape == seq![channels, TAPS, SOURCE_CHANNELS],
        0 <= i < TAPS,
    ensures
        element_of(tap(w, i), seq![o, 0, s]) == element(w, seq![o, i, s]),
{
    lemma_tap(w, channels, i);
    reveal_with_fuel(element, 2);
    let at = seq![o, 0, s];
    assert(at.update(1, at[1] + i) =~= seq![o, i, s]);
}

/// Taps with their axes turned stand side by side in the rows of a matrix.
proof fn lemma_turned_element(
    taps: Outcome,
    count: i32,
    channels: i32,
    s: int,
    phase: int,
    o: int,
)
    requires
        has_shape(taps, seq![channels, count, SOURCE_CHANNELS]),
        0 <= count <= TAPS,
        0 <= channels <= SOURCE_CHANNELS,
        0 <= s < SOURCE_CHANNELS,
        0 <= phase < count,
        0 <= o < channels,
        reshape(reverse_axes(taps), seq![SOURCE_CHANNELS, (count * channels) as i32]) is Ok,
    ensures
        element_of(
            reshape(reverse_axes(taps), seq![SOURCE_CHANNELS, (count * channels) as i32]),
            seq![s, phase * channels + o],
        ) == element_of(taps, seq![o, phase, s]),
{
    reveal(reshape_shape);
    let turned = reverse_axes(taps)->Ok_0;
    assert(turned.shape =~= seq![SOURCE_CHANNELS, count, channels]);
    let (n, c) = (count as int, channels as int);
    assert(0 <= n * c <= 7 * 1536) by (nonlinear_arith)
        requires
            0 <= n <= 7,
            0 <= c <= 1536,
    ;
    let width = (count * channels) as i32;
    let column = phase * channels + o;
    assert(0 <= column < n * c) by (nonlinear_arith)
        requires
            column == phase * c + o,
            0 <= phase,
            phase + 1 <= n,
            0 <= o < c,
    ;
    lemma_places2(SOURCE_CHANNELS, width, s, column);
    lemma_places3(SOURCE_CHANNELS, count, channels, s, phase, o);
    assert(s * (n * c) + (phase * c + o) == (s * n + phase) * c + o) by (nonlinear_arith);
    reveal_with_fuel(element, 3);
}

/// Row `s` of the head matrix holds, for each of the four phases from the start of a frame
/// on, the weights from source channel `s`: those of the tap that reaches back to the start.
pub proof fn lemma_head_element(w: Tensor, channels: i32, s: int, phase: int, o: int)
    requires
        w.shape == seq![channels, TAPS, SOURCE_CHANNELS],
        0 <= channels <= SOURCE_CHANNELS,
        0 <= s < SOURCE_CHANNELS,
        0 <= phase < HEAD_TAPS,
        0 <= o < channels,
    ensures
        element_of(head_matrix(w, channels), seq![s, phase * channels + o]) == element(
            w,
            seq![o, 3 - phase, s],
        ),
{
    lemma_can_prepare(w, channels);
    let taps = head_taps(w);
    lemma_head_taps(w, channels);
    lemma_tap(w, channels, 0);
    lemma_tap(w, channels, 1);
    lemma_tap(w, channels, 2);
    lemma_tap(w, channels, 3);
    let parts = seq![tap(w, 3)->Ok_0, tap(w, 2)->Ok_0, tap(w, 1)->Ok_0, tap(w, 0)->Ok_0];
    assert(head_matrix(w, channels) == reshape(
        reverse_axes(taps),
        seq![SOURCE_CHANNELS, (HEAD_TAPS * channels) as i32],
    )) by {
        reveal(head_matrix);
    }
    lemma_turned_element(taps, HEAD_TAPS, channels, s, phase, o);
    lemma_four_single_parts(parts, 1, phase);
    assert(parts[phase] == tap(w, 3 - phase)->Ok_0);
    assert(seq![o, phase, s].update(1, 0) =~= seq![o, 0, s]);
    assert(element_of(taps, seq![o, phase, s]) == element(parts[phase], seq![o, 0, s]));
    lemma_tap_element(w, channels, 3 - phase, o, s);
}

/// Row `s` of the tail matrix holds, for each of the three phases before the end of a frame,
/// the weights from source channel `s`: those of the tap that reaches forward to the next
/// frame.
pub proof fn lemma_tail_element(w: Tensor, channels: i32, s: int, phase: int, o: int)
    requires
        w.shape == seq![channels, TAPS, SOURCE_CHANNELS],
        0 <= channels <= SOURCE_CHANNELS,
        0 <= s < SOURCE_CHANNELS,
        0 <= phase < TAIL_TAPS,
        0 <= o < channels,
    ensures
        element_of(tail_matrix(w, channels), seq![s, phase * channels + o]) == element(
            w,
            seq![o, 6 - phase, s],
        ),
{
    lemma_can_prepare(w, channels);
    let taps = tail_taps(w);
    lemma_tail_taps(w, channels);
    lemma_tap(w, channels, 4);
    lemma_tap(w, channels, 5);
    lemma_tap(w, channels, 6);
    let parts = seq![tap(w, 6)->Ok_0, tap(w, 5)->Ok_0, tap(w, 4)->Ok_0];
    assert(tail_matrix(w, channels) == reshape(
        reverse_axes(taps),
        seq![SOURCE_CHANNELS, (TAIL_TAPS * channels) as i32],
    )) by {
        reveal(tail_matrix);
    }
    lemma_turned_element(taps, TAIL_TAPS, channels, s, phase, o);
    lemma_three_parts(parts[0], parts[1], parts[2], 1, phase);
    assert(parts[phase] == tap(w, 6 - phase)->Ok_0);
    assert(seq![o, phase, s].update(1, 0) =~= seq![o, 0, s]);
    assert(element_of(taps, seq![o, phase, s]) == element(parts[phase], seq![o, 0, s]));
    lemma_tap_element(w, channels, 6 - phase, o, s);
}

/// Frame `f` of [`next_frames`] is frame `f + 1` of the source, or zero behind the last.
pub proof fn lemma_next_frame_element(source: Tensor, b: int, f: int, s: int)
    requires
        source.shape.len() == 3,
        0 <= source.shape[0],
        source.shape[2] == SOURCE_CHANNELS,
        0 <= f < source.shape[1],
    ensures
        element_of(next_frames(source), seq![b, f, s]) == if f + 1 < source.shape[1] {
            element(source, seq![b, f + 1, s])
        } else {
            Element::Zero
        },
{
    lemma_next_frames(source);
    let next = slice(Ok(source), 1, 1, source.shape[1] as int)->Ok_0;
    let last = zeros(seq![source.shape[0], 1, SOURCE_CHANNELS])->Ok_0;
    lemma_two_parts(next, last, 1, f);
    reveal_with_fuel(element, 3);
    let i = seq![b, f, s];
    if f + 1 < source.shape[1] {
        assert(i.update(1, f) =~= i);
        assert(i.update(1, i[1] + 1) =~= seq![b, f + 1, s]);
    }
}

/// The phases that a matrix gives for each frame stand side by side in its product.
proof fn lemma_phase_element(
    x: Outcome,
    w: Tensor,
    batch: i32,
    frames: i32,
    taps: i32,
    channels: i32,
    b: int,
    f: int,
    phase: int,
    c: int,
)
    requires
        has_shape(x, seq![batch, frames, SOURCE_CHANNELS]),
        w.shape == seq![SOURCE_CHANNELS, (taps * channels) as i32],
        0 <= taps <= TAPS,
        0 <= channels <= SOURCE_CHANNELS,
        batch * frames * taps * channels <= i32::MAX,
        0 <= b < batch,
        0 <= f < frames,
        0 <= phase < taps,
        0 <= c < channels,
    ensures
        element_of(
            reshape(matmul(x, Ok(w)), seq![batch, frames, taps, channels]),
            seq![b, f, phase, c],
        ) == element_of(matmul(x, Ok(w)), seq![b, f, phase * channels + c]),
{
    lemma_one_matrix(x->Ok_0.shape, w.shape);
    lemma_phases(x, w, batch, frames, taps, channels);
    let (t, n) = (taps as int, channels as int);
    assert(0 <= t * n <= 7 * 1536) by (nonlinear_arith)
        requires
            0 <= t <= 7,
            0 <= n <= 1536,
    ;
    let width = (taps * channels) as i32;
    let y = matmul(x, Ok(w))->Ok_0;
    assert(y.shape =~= seq![batch, frames, width]);
    let column = phase * channels + c;
    assert(0 <= column < t * n) by (nonlinear_arith)
        requires
            column == phase * n + c,
            0 <= phase,
            phase + 1 <= t,
            0 <= c < n,
    ;
    lemma_places4(batch, frames, taps, channels, b, f, phase, c);
    lemma_places3(batch, frames, width, b, f, column);
    let row = b * frames + f;
    assert((row * t + phase) * n + c == row * (t * n) + (phase * n + c)) by (nonlinear_arith);
    reveal_with_fuel(element, 2);
}

/// The elements of the phases of a frame: those of the head, zeros, and those of the tail.
proof fn lemma_joined_element(
    head: Outcome,
    tail: Outcome,
    batch: i32,
    frames: i32,
    total: int,
    channels: i32,
    b: int,
    f: int,
    p: int,
    c: int,
)
    requires
        has_shape(head, seq![batch, frames, HEAD_TAPS, channels]),
        has_shape(tail, seq![batch, frames, TAIL_TAPS, channels]),
        1 <= channels,
        TAPS <= total <= 512,
        frames * total <= i32::MAX,
        0 <= batch * frames * total * channels <= i32::MAX,
        0 <= b < batch,
        0 <= f < frames,
        0 <= p < total,
        0 <= c < channels,
    ensures
        element_of(
            reshape(
                concat3(
                    head,
                    zeros(seq![batch, frames, (total - TAPS) as i32, channels]),
                    tail,
                    2,
                ),
                seq![batch, (frames * total) as i32, channels],
            ),
            seq![b, f * total + p, c],
        ) == if p < HEAD_TAPS {
            element_of(head, seq![b, f, p, c])
        } else if p < total - TAIL_TAPS {
            Element::Zero
        } else {
            element_of(tail, seq![b, f, p - (total - TAIL_TAPS), c])
        },
{
    lemma_joined_phases(head, tail, batch, frames, total, channels);
    let rest = (total - TAPS) as i32;
    let empty = zeros(seq![batch, frames, rest, channels]);
    assert(valid(seq![batch, frames, rest, channels]));
    let phases = concat3(head, empty, tail, 2);
    lemma_frame_parts(head, tail, batch, frames, total, channels);
    let length = (frames * total) as i32;
    let step = f * total + p;
    assert(0 <= step < frames * total) by (nonlinear_arith)
        requires
            step == f * total + p,
            0 <= f,
            f + 1 <= frames,
            0 <= p < total,
    ;
    lemma_places3(batch, length, channels, b, step, c);
    lemma_places4(batch, frames, total as i32, channels, b, f, p, c);
    assert(b * (frames * total) + (f * total + p) == (b * frames + f) * total + p)
        by (nonlinear_arith);
    let at = seq![b, f, p, c];
    assert(element_of(
        reshape(phases, seq![batch, length, channels]),
        seq![b, step, c],
    ) == element_of(phases, at)) by {
        reveal(reshape_shape);
    }
    lemma_three_parts(head->Ok_0, empty->Ok_0, tail->Ok_0, 2, p);
    if p < HEAD_TAPS {
        assert(at.update(2, p) =~= at);
    } else if p >= total - TAIL_TAPS {
        let q = p - (total - TAIL_TAPS);
        assert(at.update(2, q) =~= seq![b, f, q, c]);
    } else {
        reveal_with_fuel(element, 2);
    }
}

/// Phase `p` of frame `f` of the spread source: one of the four phases of the product of the
/// frame with the head matrix, or one of the three phases of the product of the next frame
/// with the tail matrix, or zero.
pub proof fn lemma_spread_element(
    source: Tensor,
    head_weight: Tensor,
    tail_weight: Tensor,
    total: int,
    channels: i32,
    b: int,
    f: int,
    p: int,
    c: int,
)
    requires
        source.shape.len() == 3,
        source.shape[2] == SOURCE_CHANNELS,
        head_weight.shape == seq![SOURCE_CHANNELS, (HEAD_TAPS * channels) as i32],
        tail_weight.shape == seq![SOURCE_CHANNELS, (TAIL_TAPS * channels) as i32],
        TAPS <= total <= 512,
        1 <= channels <= SOURCE_CHANNELS,
        source.shape[1] * total <= i32::MAX,
        source.shape[0] * source.shape[1] * total * channels <= i32::MAX,
        0 <= b < source.shape[0],
        0 <= f < source.shape[1],
        0 <= p < total,
        0 <= c < channels,
    ensures
        element_of(
            spread_source(source, head_weight, tail_weight, total, channels),
            seq![b, f * total + p, c],
        ) == if p < HEAD_TAPS {
            element_of(matmul(Ok(source), Ok(head_weight)), seq![b, f, p * channels + c])
        } else if p < total - TAIL_TAPS {
            Element::Zero
        } else {
            element_of(
                matmul(next_frames(source), Ok(tail_weight)),
                seq![b, f, (p - (total - TAIL_TAPS)) * channels + c],
            )
        },
{
    let (batch, frames) = (source.shape[0], source.shape[1]);
    let n = batch * frames;
    let ch = channels as int;
    assert(0 <= n) by (nonlinear_arith)
        requires
            n == batch * frames,
            0 <= batch,
            0 <= frames,
    ;
    assert(n * 4 * ch <= n * total * ch && n * 3 * ch <= n * total * ch && 0 <= n * total * ch)
        by (nonlinear_arith)
        requires
            0 <= n,
            7 <= total,
            1 <= ch,
    ;
    assert(source.shape =~= seq![batch, frames, SOURCE_CHANNELS]);
    let head = reshape(
        matmul(Ok(source), Ok(head_weight)),
        seq![batch, frames, HEAD_TAPS, channels],
    );
    lemma_phases(Ok(source), head_weight, batch, frames, HEAD_TAPS, channels);
    lemma_next_frames(source);
    let next = next_frames(source);
    let tail = reshape(matmul(next, Ok(tail_weight)), seq![batch, frames, TAIL_TAPS, channels]);
    lemma_phases(next, tail_weight, batch, frames, TAIL_TAPS, channels);
    lemma_joined_element(head, tail, batch, frames, total, channels, b, f, p, c);
    assert(spread_source(source, head_weight, tail_weight, total, channels) == reshape(
        concat3(
            head,
            zeros(seq![batch, frames, (total - TAPS) as i32, channels]),
            tail,
            2,
        ),
        seq![batch, (frames * total) as i32, channels],
    )) by {
        reveal(spread_source);
    }
    if p < HEAD_TAPS {
        lemma_phase_element(
            Ok(source),
            head_weight,
            batch,
            frames,
            HEAD_TAPS,
            channels,
            b,
            f,
            p,
            c,
        );
    } else if p >= total - TAIL_TAPS {
        lemma_phase_element(
            next,
            tail_weight,
            batch,
            frames,
            TAIL_TAPS,
            channels,
            b,
            f,
            p - (total - TAIL_TAPS),
            c,
        );
    }
}

/// A convolution of seven taps over a source that is zero between its frames, `total` steps
/// apart, reads at phase `p` of a frame with tap `j` a frame of the source in these cases
/// only: the frame itself, with tap `3 - p` in the first four phases; and the next frame,
/// with tap `total + 3 - p` in the last three.
pub proof fn lemma_phase_tap(total: int, p: int, j: int)
    requires
        TAPS <= total,
        0 <= p < total,
        0 <= j < TAPS,
    ensures
        ({
            let distance = p + j - 3;
            &&& distance == 0 <==> p < HEAD_TAPS && j == 3 - p
            &&& distance == total <==> p >= total - TAIL_TAPS && j == total + 3 - p
            &&& distance % total == 0 ==> distance == 0 || distance == total
        }),
{
    let distance = p + j - 3;
    assert(distance % total == 0 ==> distance == 0 || distance == total) by (nonlinear_arith)
        requires
            -total < distance < 2 * total,
            total > 0,
    ;
}

/// Channel `s` of a source that is zero between its frames, `total` steps apart, at step `m`,
/// and zero before its start and behind its end.
pub open spec fn zero_stuffed(source: Tensor, total: int, b: int, m: int, s: int) -> Element {
    if 0 <= m < source.shape[1] * total && m % total == 0 {
        element(source, seq![b, m / total, s])
    } else {
        Element::Zero
    }
}

/// The products that tap `j` of a convolution with padding three over the zero-stuffed source
/// adds to channel `c` at step `n`.
pub open spec fn tap_products(
    source: Tensor,
    w: Tensor,
    total: int,
    b: int,
    n: int,
    c: int,
    j: int,
) -> Seq<(Element, Element)> {
    Seq::new(
        SOURCE_CHANNELS as nat,
        |s: int| (zero_stuffed(source, total, b, n + j - 3, s), element(w, seq![c, j, s])),
    )
}

/// The products of the first `taps` taps of that convolution.
pub open spec fn convolution_products(
    source: Tensor,
    w: Tensor,
    total: int,
    b: int,
    n: int,
    c: int,
    taps: nat,
) -> Seq<(Element, Element)>
    decreases taps,
{
    if taps == 0 {
        Seq::empty()
    } else {
        convolution_products(source, w, total, b, n, c, (taps - 1) as nat) + tap_products(
            source,
            w,
            total,
            b,
            n,
            c,
            taps - 1,
        )
    }
}

/// The products that an element is the sum of: none where it is zero.
pub open spec fn products(e: Element) -> Seq<(Element, Element)> {
    match e {
        Element::Zero => Seq::empty(),
        Element::Dot(pairs) => pairs,
        _ => seq![(e, Element::Number(1))],
    }
}

/// The products that do not vanish because their first factor is the number zero.
pub open spec fn nonzero(pairs: Seq<(Element, Element)>) -> Seq<(Element, Element)> {
    pairs.filter(|pair: (Element, Element)| pair.0 != Element::Zero)
}

/// Where every first factor is zero, nothing is left.
proof fn lemma_all_zero(pairs: Seq<(Element, Element)>)
    requires
        forall|i: int| 0 <= i < pairs.len() ==> (#[trigger] pairs[i]).0 == Element::Zero,
    ensures
        nonzero(pairs) == Seq::<(Element, Element)>::empty(),
    decreases pairs.len(),
{
    reveal(Seq::filter);
    if pairs.len() > 0 {
        let front = pairs.drop_last();
        assert forall|i: int| 0 <= i < front.len() implies (#[trigger] front[i]).0
            == Element::Zero by {
            assert(front[i] == pairs[i]);
        }
        lemma_all_zero(front);
    }
}

/// Where only tap `active` reads a frame, the convolution has the products of that tap.
proof fn lemma_active_tap(
    source: Tensor,
    w: Tensor,
    total: int,
    b: int,
    n: int,
    c: int,
    active: int,
    taps: nat,
)
    requires
        0 <= active,
        forall|j: int, s: int|
            0 <= j < taps && j != active ==> #[trigger] zero_stuffed(
                source,
                total,
                b,
                n + j - 3,
                s,
            ) == Element::Zero,
    ensures
        nonzero(convolution_products(source, w, total, b, n, c, taps)) == if active < taps {
            nonzero(tap_products(source, w, total, b, n, c, active))
        } else {
            Seq::empty()
        },
    decreases taps,
{
    if taps == 0 {
        lemma_all_zero(convolution_products(source, w, total, b, n, c, taps));
    } else {
        let j = taps - 1;
        lemma_active_tap(source, w, total, b, n, c, active, j as nat);
        let before = convolution_products(source, w, total, b, n, c, j as nat);
        let here = tap_products(source, w, total, b, n, c, j);
        Seq::filter_distributes_over_add(
            before,
            here,
            |pair: (Element, Element)| pair.0 != Element::Zero,
        );
        if j != active {
            assert forall|s: int| 0 <= s < here.len() implies (#[trigger] here[s]).0
                == Element::Zero by {
                assert(here[s].0 == zero_stuffed(source, total, b, n + j - 3, s));
            }
            lemma_all_zero(here);
        }
        assert(nonzero(before + here) =~= nonzero(before) + nonzero(here));
    }
}

/// What the zero-stuffed source holds under tap `j` at phase `p` of frame `f`.
proof fn lemma_under_tap(source: Tensor, total: int, b: int, f: int, p: int, j: int, s: int)
    requires
        source.shape.len() == 3,
        TAPS <= total,
        0 <= f < source.shape[1],
        0 <= p < total,
        0 <= j < TAPS,
    ensures
        zero_stuffed(source, total, b, f * total + p + j - 3, s) == if p < HEAD_TAPS && j == 3 - p {
            element(source, seq![b, f, s])
        } else if p >= total - TAIL_TAPS && j == total + 3 - p && f + 1 < source.shape[1] {
            element(source, seq![b, f + 1, s])
        } else {
            Element::Zero
        },
{
    lemma_phase_tap(total, p, j);
    let frames = source.shape[1] as int;
    let distance = p + j - 3;
    let m = f * total + distance;
    assert(m == f * total + p + j - 3);
    lemma_mod_multiples_vanish(f, distance, total);
    assert(total * f == f * total) by (nonlinear_arith);
    assert(distance == 0 ==> m / total == f && m % total == 0 && 0 <= m < frames * total)
        by (nonlinear_arith)
        requires
            m == f * total + distance,
            total > 0,
            0 <= f < frames,
    ;
    assert(distance == total ==> m / total == f + 1 && m % total == 0 && 0 <= m && (m < frames
        * total <==> f + 1 < frames)) by (nonlinear_arith)
        requires
            m == f * total + distance,
            total > 0,
            0 <= f < frames,
    ;
}

/// The products behind a phase at the head of a frame.
proof fn lemma_head_products(
    source: Tensor,
    w: Tensor,
    channels: i32,
    b: int,
    f: int,
    phase: int,
    c: int,
)
    requires
        source.shape.len() == 3,
        source.shape[2] == SOURCE_CHANNELS,
        w.shape == seq![channels, TAPS, SOURCE_CHANNELS],
        1 <= channels <= SOURCE_CHANNELS,
        0 <= b < source.shape[0],
        0 <= phase < HEAD_TAPS,
        0 <= c < channels,
    ensures
        ({
            let x = matmul(Ok(source), evaluated(head_matrix(w, channels)));
            products(element_of(x, seq![b, f, phase * channels + c])) == Seq::new(
                SOURCE_CHANNELS as nat,
                |s: int| (element(source, seq![b, f, s]), element(w, seq![c, 3 - phase, s])),
            )
        }),
{
    lemma_can_prepare(w, channels);
    lemma_matrices(w, channels);
    let matrix = evaluated(head_matrix(w, channels));
    let at = seq![b, f, phase * channels + c];
    let x = matmul(Ok(source), matrix);
    lemma_one_matrix(source.shape, matrix->Ok_0.shape);
    let pairs = products(element_of(x, at));
    let expected = Seq::new(
        SOURCE_CHANNELS as nat,
        |s: int| (element(source, seq![b, f, s]), element(w, seq![c, 3 - phase, s])),
    );
    assert forall|s: int| 0 <= s < SOURCE_CHANNELS implies #[trigger] pairs[s] == expected[s] by {
        lemma_factor_places(source.shape, matrix->Ok_0.shape, b, f, at[2], s);
        lemma_head_element(w, channels, s, phase, c);
        assert(element_of(matrix, seq![s, at.last()]) == element_of(
            head_matrix(w, channels),
            seq![s, at.last()],
        ));
    }
    assert(pairs =~= expected);
}

/// The products behind a phase at the tail of a frame.
proof fn lemma_tail_products(
    source: Tensor,
    w: Tensor,
    channels: i32,
    b: int,
    f: int,
    phase: int,
    c: int,
)
    requires
        source.shape.len() == 3,
        source.shape[2] == SOURCE_CHANNELS,
        w.shape == seq![channels, TAPS, SOURCE_CHANNELS],
        1 <= channels <= SOURCE_CHANNELS,
        0 <= b < source.shape[0],
        0 <= f < source.shape[1],
        0 <= phase < TAIL_TAPS,
        0 <= c < channels,
    ensures
        ({
            let x = matmul(next_frames(source), evaluated(tail_matrix(w, channels)));
            products(element_of(x, seq![b, f, phase * channels + c])) == Seq::new(
                SOURCE_CHANNELS as nat,
                |s: int|
                    (
                        if f + 1 < source.shape[1] {
                            element(source, seq![b, f + 1, s])
                        } else {
                            Element::Zero
                        },
                        element(w, seq![c, 6 - phase, s]),
                    ),
            )
        }),
{
    lemma_can_prepare(w, channels);
    lemma_matrices(w, channels);
    lemma_next_frames(source);
    let matrix = evaluated(tail_matrix(w, channels));
    let at = seq![b, f, phase * channels + c];
    let x = matmul(next_frames(source), matrix);
    lemma_one_matrix(source.shape, matrix->Ok_0.shape);
    let pairs = products(element_of(x, at));
    let expected = Seq::new(
        SOURCE_CHANNELS as nat,
        |s: int|
            (
                if f + 1 < source.shape[1] {
                    element(source, seq![b, f + 1, s])
                } else {
                    Element::Zero
                },
                element(w, seq![c, 6 - phase, s]),
            ),
    );
    assert forall|s: int| 0 <= s < SOURCE_CHANNELS implies #[trigger] pairs[s] == expected[s] by {
        lemma_factor_places(source.shape, matrix->Ok_0.shape, b, f, at[2], s);
        lemma_next_frame_element(source, b, f, s);
        lemma_tail_element(w, channels, s, phase, c);
        assert(element_of(matrix, seq![s, at.last()]) == element_of(
            tail_matrix(w, channels),
            seq![s, at.last()],
        ));
    }
    assert(pairs =~= expected);
}

/// The source convolved at the higher rate is a convolution of seven taps with padding three
/// over the source with zeros between its frames: every element is the sum of the same
/// products, but for those with such a zero.
pub proof fn lemma_convolution(
    source: Tensor,
    w: Tensor,
    total: int,
    channels: i32,
    b: int,
    n: int,
    c: int,
)
    requires
        source.shape.len() == 3,
        source.shape[2] == SOURCE_CHANNELS,
        w.shape == seq![channels, TAPS, SOURCE_CHANNELS],
        TAPS <= total <= 512,
        1 <= channels <= SOURCE_CHANNELS,
        source.shape[1] * total <= i32::MAX,
        source.shape[0] * source.shape[1] * total * channels <= i32::MAX,
        0 <= b < source.shape[0],
        0 <= n < source.shape[1] * total,
        0 <= c < channels,
    ensures
        evaluated(head_matrix(w, channels)) is Ok,
        evaluated(tail_matrix(w, channels)) is Ok,
        ({
            let head_weight = evaluated(head_matrix(w, channels))->Ok_0;
            let tail_weight = evaluated(tail_matrix(w, channels))->Ok_0;
            nonzero(
                products(
                    element_of(
                        spread_source(source, head_weight, tail_weight, total, channels),
                        seq![b, n, c],
                    ),
                ),
            ) == nonzero(convolution_products(source, w, total, b, n, c, TAPS as nat))
        }),
{
    lemma_can_prepare(w, channels);
    lemma_matrices(w, channels);
    let head_weight = evaluated(head_matrix(w, channels))->Ok_0;
    let tail_weight = evaluated(tail_matrix(w, channels))->Ok_0;
    let (f, p) = (n / total, n % total);
    let frames = source.shape[1] as int;
    assert(n == f * total + p && 0 <= p < total && 0 <= f < frames) by (nonlinear_arith)
        requires
            f == n / total,
            p == n % total,
            total > 0,
            0 <= n < frames * total,
    ;
    lemma_spread_element(source, head_weight, tail_weight, total, channels, b, f, p, c);
    let spread = element_of(
        spread_source(source, head_weight, tail_weight, total, channels),
        seq![b, n, c],
    );
    let active = if p < HEAD_TAPS {
        3 - p
    } else if p >= total - TAIL_TAPS {
        total + 3 - p
    } else {
        TAPS as int
    };
    assert forall|j: int, s: int| 0 <= j < TAPS && j != active implies #[trigger] zero_stuffed(
        source,
        total,
        b,
        n + j - 3,
        s,
    ) == Element::Zero by {
        lemma_under_tap(source, total, b, f, p, j, s);
    }
    lemma_active_tap(source, w, total, b, n, c, active, TAPS as nat);
    if active < TAPS {
        let pairs = tap_products(source, w, total, b, n, c, active);
        if p < HEAD_TAPS {
            lemma_head_products(source, w, channels, b, f, p, c);
        } else {
            lemma_tail_products(source, w, channels, b, f, p - (total - TAIL_TAPS), c);
        }
        assert forall|s: int| 0 <= s < SOURCE_CHANNELS implies #[trigger] pairs[s] == products(
            spread,
        )[s] by {
            lemma_under_tap(source, total, b, f, p, active, s);
        }
        assert(products(spread) =~= pairs);
    } else {
        lemma_all_zero(products(spread));
    }
}

/// What an array of a preparation that gave `prepared` holds.
pub open spec fn held(a: ArrayRef, prepared: Seq<Tensor>) -> Tensor {
    prepared[a.source->Prepared_0 as int]
}

impl ResampleUpsampler {
    /// What [`lemma_convolution`] says, of the matrices that the preparation of a model gives
    /// to its upsampler: the convolution is that of the stored weight.
    pub proof fn lemma_prepared_convolution(
        self,
        entries: Entries,
        prepared: Seq<Tensor>,
        index: nat,
        source: Tensor,
        b: int,
        n: int,
        c: int,
    )
        requires
            self.reads(entries, prepared, index),
            stored(entries, weight_key(part(index, ".convolution_noise"@)))->0.shape == seq![
                self.channels,
                TAPS,
                SOURCE_CHANNELS,
            ],
            1 <= self.channels <= SOURCE_CHANNELS,
            source.shape.len() == 3,
            source.shape[2] == SOURCE_CHANNELS,
            source.shape[1] * self.total_scale_factor <= i32::MAX,
            source.shape[0] * source.shape[1] * self.total_scale_factor * self.channels
                <= i32::MAX,
            0 <= b < source.shape[0],
            0 <= n < source.shape[1] * self.total_scale_factor,
            0 <= c < self.channels,
        ensures
            ({
                let w = stored(entries, weight_key(part(index, ".convolution_noise"@)))->0;
                let total = self.total_scale_factor as int;
                let spread = spread_source(
                    source,
                    held(self.source_head_weight, prepared),
                    held(self.source_tail_weight, prepared),
                    total,
                    self.channels,
                );
                nonzero(products(element_of(spread, seq![b, n, c]))) == nonzero(
                    convolution_products(source, w, total, b, n, c, TAPS as nat),
                )
            }),
    {
        lemma_convolution(
            source,
            stored(entries, weight_key(part(index, ".convolution_noise"@)))->0,
            self.total_scale_factor as int,
            self.channels,
            b,
            n,
            c,
        );
    }
}

} // verus!
