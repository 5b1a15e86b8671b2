//! Pitch contours: how the estimator is set up, and how its frames are aligned with the
//! frames of a mel spectrogram.
use vstd::prelude::*;

use crate::element::{
    element, element_of, lemma_binary_element, lemma_constant_element, lemma_places2,
    lemma_row_element, lemma_two_parts, unravel, unstretched, within, Element,
};
use crate::program::{operand, operands, Plan, Program};
use crate::shape::{
    axis_total, broadcast, concat_shape, extent, lemma_volume1, lemma_volume2, pick_shape,
    reshape_shape, slice_shape, stretch_shape, valid, volume,
};
use crate::signal::{has_shape, lemma_same_shape, lemma_with_constant};
use crate::tensor::{
    after, binary, concat2, constant, leaf, minus, pick, plus, range, reshape, shapes_of, slice,
    stretch, times, unary, BinaryOp, Outcome, PlanError, Scalar, Source, Tensor, UnaryOp,
};

verus! {

/// Samples per second of the waveform that the estimator reads.
pub const FCPE_SAMPLE_RATE: usize = 16_000;

/// Samples of that waveform per pitch frame.
pub const FCPE_HOP_SIZE: usize = 160;

/// How the pitch estimator is set up.
#[derive(Clone, Copy, Debug, PartialEq, Eq)]
pub struct FcpeEstimator {
    /// Samples per second of the waveform that it reads.
    pub sample_rate: usize,
    /// Points of one spectrum, and of the window before it.
    pub fft_size: i32,
    /// Bands of its mel basis.
    pub mel_bins: i32,
    /// The range of the mel basis, in hertz.
    pub low: i32,
    pub high: i32,
    /// How a pitch is read off its output.
    pub decoder: &'static str,
    /// The confidence below which a frame has no pitch.
    pub threshold: Scalar,
    /// Whether frames without a pitch are filled in from their neighbours.
    pub interpolate: bool,
}

/// How many mel frames get an interpolated pitch.
pub open spec fn interpolated_frames(available: int, target: int) -> int {
    if target < available {
        target
    } else {
        available
    }
}

/// How many of them there are in the plan: none where the number is negative.
pub open spec fn planned_frames(count: int) -> int {
    if count < 0 {
        0
    } else {
        count
    }
}

/// The places of the first `count` mel frames among the pitch frames.
pub open spec fn positions(count: int) -> Outcome {
    times(range(0, count), constant(Scalar::FrameStep))
}

/// The pitch frame before each place.
pub open spec fn frames_before(places: Outcome) -> Outcome {
    unary(UnaryOp::ToInt32, unary(UnaryOp::Floor, places))
}

/// The pitch frame after each place, or the last one.
pub open spec fn frames_after(left: Outcome, source_frames: i32) -> Outcome {
    binary(
        BinaryOp::Minimum,
        plus(left, constant(Scalar::Int(1))),
        constant(Scalar::Int((source_frames - 1) as i32)),
    )
}

/// How far each place lies from the frame before it to the frame after it.
pub open spec fn fractions(places: Outcome, left: Outcome) -> Outcome {
    minus(places, unary(UnaryOp::ToFloat32, left))
}

/// The values of a contour at the frames `index`.
pub open spec fn values_at(contour: Outcome, index: Outcome, row: Seq<i32>) -> Outcome {
    pick(contour, reshape(index, row), 1)
}

/// The values of a contour on the lines from the frames `left` to the frames `right`.
pub open spec fn mixed(
    contour: Outcome,
    left: Outcome,
    right: Outcome,
    fraction: Outcome,
    row: Seq<i32>,
) -> Outcome {
    let start = values_at(contour, left, row);
    let rise = minus(values_at(contour, right, row), start);
    plus(start, times(rise, reshape(fraction, row)))
}

/// The pitch at the first `count` mel frames, on the line between the pitch frames before
/// and after each.
#[verifier::opaque]
pub open spec fn interpolated(f0: Tensor, count: int) -> Outcome {
    let source_frames = f0.shape[1];
    let places = positions(count);
    let left = frames_before(places);
    let right = frames_after(left, source_frames);
    let fraction = fractions(places, left);
    let contour = reshape(Ok(f0), seq![1i32, source_frames]);
    let row = seq![1i32, planned_frames(count) as i32];
    after(right, after(fraction, mixed(contour, left, right, fraction, row)))
}

/// The last value of a contour, `count` times.
pub open spec fn held(contour: Outcome, length: int, count: int) -> Outcome {
    stretch(
        reshape(slice(contour, 1, -1, length), seq![1i32, 1]),
        seq![1i32, count as i32],
    )
}

/// The pitch contour at `target` mel frames, when `available` of them lie inside the contour:
/// those are interpolated, and the others hold the last value.
pub open spec fn aligned(f0: Tensor, available: int, target: int) -> Outcome {
    let count = interpolated_frames(available, target);
    let inside = interpolated(f0, count);
    if count == target {
        inside
    } else {
        concat2(inside, held(inside, planned_frames(count), target - count), 1)
    }
}

/// The pitch contour given to an alignment.
pub open spec fn contour_input(shape: Seq<i32>) -> Tensor {
    leaf(Source::Input(0), shape)
}

/// Adds [`positions`] to a program.
fn add_positions(p: &mut Program, count: i32) -> (r: Result<usize, PlanError>)
    requires
        old(p).wf(),
    ensures
        final(p).yields(old(p)@, r, positions(count as int)),
{
    let numbers = p.range(0, count)?;
    let step = p.constant(Scalar::FrameStep);
    p.binary(BinaryOp::Multiply, numbers, step)
}

/// Adds [`fractions`] to a program.
fn add_fractions(p: &mut Program, places: usize, left: usize) -> (r: Result<usize, PlanError>)
    requires
        old(p).wf(),
        places < old(p)@.len(),
        left < old(p)@.len(),
    ensures
        final(p).yields(
            old(p)@,
            r,
            fractions(operand(old(p)@, places), operand(old(p)@, left)),
        ),
{
    let whole = p.unary(UnaryOp::ToFloat32, left);
    p.binary(BinaryOp::Subtract, places, whole)
}

/// Adds [`frames_after`] to a program.
fn add_frames_after(p: &mut Program, left: usize, source_frames: i32) -> (r: Result<
    usize,
    PlanError,
>)
    requires
        old(p).wf(),
        left < old(p)@.len(),
        0 <= source_frames,
    ensures
        final(p).yields(old(p)@, r, frames_after(operand(old(p)@, left), source_frames)),
{
    let one = p.constant(Scalar::Int(1));
    let next = p.binary(BinaryOp::Add, left, one)?;
    let last = p.constant(Scalar::Int(source_frames - 1));
    p.binary(BinaryOp::Minimum, next, last)
}

/// Adds [`values_at`] to a program, for a row of `length` frames.
fn add_values_at(p: &mut Program, contour: usize, index: usize, length: i32) -> (r: Result<
    usize,
    PlanError,
>)
    requires
        old(p).wf(),
        contour < old(p)@.len(),
        index < old(p)@.len(),
    ensures
        final(p).yields(
            old(p)@,
            r,
            values_at(operand(old(p)@, contour), operand(old(p)@, index), seq![1i32, length]),
        ),
{
    let dims: Vec<i32> = vec![1, length];
    assert(dims@ =~= seq![1i32, length]);
    let index = p.reshape(index, dims)?;
    p.pick(contour, index, 1)
}

/// Adds [`mixed`] to a program, for a row of `length` frames.
fn add_mixed(
    p: &mut Program,
    contour: usize,
    left: usize,
    right: usize,
    fraction: usize,
    length: i32,
) -> (r: Result<usize, PlanError>)
    requires
        old(p).wf(),
        contour < old(p)@.len(),
        left < old(p)@.len(),
        right < old(p)@.len(),
        fraction < old(p)@.len(),
    ensures
        final(p).yields(
            old(p)@,
            r,
            mixed(
                operand(old(p)@, contour),
                operand(old(p)@, left),
                operand(old(p)@, right),
                operand(old(p)@, fraction),
                seq![1i32, length],
            ),
        ),
{
    let start = add_values_at(p, contour, left, length)?;
    let end = add_values_at(p, contour, right, length)?;
    let rise = p.binary(BinaryOp::Subtract, end, start)?;
    let dims: Vec<i32> = vec![1, length];
    assert(dims@ =~= seq![1i32, length]);
    let fraction = p.reshape(fraction, dims)?;
    let rise = p.binary(BinaryOp::Multiply, rise, fraction)?;
    p.binary(BinaryOp::Add, start, rise)
}

/// Adds [`interpolated`] to a program.
fn add_interpolated(p: &mut Program, f0: usize, count: i32) -> (r: Result<usize, PlanError>)
    requires
        old(p).wf(),
        f0 < old(p)@.len(),
        old(p)@[f0 as int].shape.len() >= 2,
    ensures
        final(p).yields(old(p)@, r, interpolated(old(p)@[f0 as int], count as int)),
{
    proof {
        reveal(interpolated);
        p.lemma_valid(f0 as int);
    }
    let ghost x = p@[f0 as int];
    let source_frames: i32 = p.shape(f0)[1];
    let length: i32 = if count < 0 {
        0
    } else {
        count
    };
    let places = add_positions(p, count)?;
    let left = p.unary(UnaryOp::Floor, places);
    let left = p.unary(UnaryOp::ToInt32, left);
    let right = add_frames_after(p, left, source_frames)?;
    let fraction = add_fractions(p, places, left)?;
    let dims: Vec<i32> = vec![1, source_frames];
    assert(dims@ =~= seq![1i32, x.shape[1]]);
    let contour = p.reshape(f0, dims)?;
    add_mixed(p, contour, left, right, fraction, length)
}

impl FcpeEstimator {
    /// The setup of the estimator.
    pub fn load() -> (r: FcpeEstimator)
        ensures
            r.sample_rate == FCPE_SAMPLE_RATE,
            r.fft_size == 1_024,
            r.mel_bins == 128,
            r.low == 0,
            r.high == 8_000,
            r.decoder@ == "local_argmax"@,
            r.threshold == (Scalar::Ratio { num: 6, den: 1_000 }),
            r.interpolate,
    {
        FcpeEstimator {
            sample_rate: FCPE_SAMPLE_RATE,
            fft_size: 1_024,
            mel_bins: 128,
            low: 0,
            high: 8_000,
            decoder: "local_argmax",
            threshold: Scalar::Ratio { num: 6, den: 1_000 },
            interpolate: true,
        }
    }

    /// Plans the alignment of a pitch contour of this shape with `target_frames` mel frames,
    /// when `available_frames` of them lie inside the contour.
    pub fn estimate(&self, f0_shape: &Vec<i32>, available_frames: i32, target_frames: i32) -> (r:
        Result<Plan, PlanError>)
        requires
            valid(f0_shape@),
            f0_shape@.len() >= 2,
            0 <= available_frames,
        ensures
            ({
                let o = aligned(
                    contour_input(f0_shape@),
                    available_frames as int,
                    target_frames as int,
                );
                match r {
                    Ok(plan) => plan.computes(o),
                    Err(e) => o == Err::<Tensor, PlanError>(e),
                }
            }),
    {
        let mut p = Program::new();
        let f0 = p.leaf(Source::Input(0), f0_shape);
        let count: i32 = if target_frames < available_frames {
            target_frames
        } else {
            available_frames
        };
        let inside = add_interpolated(&mut p, f0, count)?;
        if count == target_frames {
            return Ok(Plan { program: p, output: inside });
        }
        let last = p.slice(inside, 1, -1, count)?;
        let dims: Vec<i32> = vec![1, 1];
        assert(dims@ =~= seq![1i32, 1]);
        let last = p.reshape(last, dims)?;
        let rest: i32 = target_frames - count;
        let dims: Vec<i32> = vec![1, rest];
        assert(dims@ =~= seq![1i32, (target_frames - count) as i32]);
        let tail = p.stretch(last, dims)?;
        let parts: Vec<usize> = vec![inside, tail];
        assert(operands(p@, parts@) =~= seq![p@[inside as int], p@[tail as int]]);
        let output = p.concat(parts, 1)?;
        Ok(Plan { program: p, output })
    }
}

/// The interpolated part of a contour has a value for each of its frames.
proof fn lemma_interpolated(f0: Tensor, count: int)
    requires
        f0.shape.len() >= 2,
        0 <= f0.shape[1],
        volume(f0.shape) == f0.shape[1],
        0 <= count <= i32::MAX,
        count > 0 ==> f0.shape[1] > 0,
    ensures
        has_shape(interpolated(f0, count), seq![1i32, count as i32]),
{
    reveal(interpolated);
    reveal(reshape_shape);
    reveal(pick_shape);
    let n = count as i32;
    let source_frames = f0.shape[1];
    let row = seq![1i32, n];
    lemma_volume1(n);
    lemma_volume2(1, n);
    lemma_volume2(1, source_frames);
    let numbers = range(0, count);
    assert(numbers->Ok_0.shape =~= seq![n]);
    let places = positions(count);
    lemma_with_constant(BinaryOp::Multiply, numbers, Scalar::FrameStep);
    let left = frames_before(places);
    lemma_with_constant(BinaryOp::Add, left, Scalar::Int(1));
    lemma_with_constant(
        BinaryOp::Minimum,
        plus(left, constant(Scalar::Int(1))),
        Scalar::Int((source_frames - 1) as i32),
    );
    let right = frames_after(left, source_frames);
    let fraction = fractions(places, left);
    lemma_same_shape(BinaryOp::Subtract, places, unary(UnaryOp::ToFloat32, left));
    let contour = reshape(Ok(f0), seq![1i32, source_frames]);
    let start = values_at(contour, left, row);
    let end = values_at(contour, right, row);
    assert(start is Ok && end is Ok);
    lemma_same_shape(BinaryOp::Subtract, end, start);
    let rise = minus(end, start);
    lemma_same_shape(BinaryOp::Multiply, rise, reshape(fraction, row));
    lemma_same_shape(BinaryOp::Add, start, times(rise, reshape(fraction, row)));
}

/// An aligned contour has one value for each mel frame, provided that one of them lies inside
/// the contour.
pub proof fn lemma_aligned(f0: Tensor, available: int, target: int)
    requires
        f0.shape.len() >= 2,
        0 <= f0.shape[1],
        volume(f0.shape) == f0.shape[1],
        0 <= available,
        0 <= target <= i32::MAX,
        target > 0 ==> available > 0 && f0.shape[1] > 0,
    ensures
        has_shape(aligned(f0, available, target), seq![1i32, target as i32]),
{
    let count = interpolated_frames(available, target);
    lemma_interpolated(f0, count);
    let inside = interpolated(f0, count);
    if count != target {
        reveal(slice_shape);
        reveal(reshape_shape);
        reveal(stretch_shape);
        reveal(concat_shape);
        reveal(broadcast);
        let last = slice(inside, 1, -1, count);
        assert(last->Ok_0.shape =~= seq![1i32, 1]);
        lemma_volume2(1, 1);
        let single = reshape(last, seq![1i32, 1]);
        let rest = (target - count) as i32;
        let (s, dims) = (seq![1i32, 1], seq![1i32, rest]);
        assert forall|i: int| 0 <= i < 2 implies extent(s, 2, i) == s[i] && extent(dims, 2, i)
            == dims[i] by {}
        assert(broadcast(s, dims)->0 =~= dims);
        let tail = held(inside, planned_frames(count), target - count);
        assert(has_shape(tail, dims));
        let shapes = shapes_of(seq![inside->Ok_0, tail->Ok_0]);
        reveal_with_fuel(axis_total, 3);
        assert(shapes.drop_last().drop_last() =~= Seq::<Seq<i32>>::empty());
        assert(axis_total(shapes, 1) == target);
        assert(concat_shape(shapes, 1)->0 =~= seq![1i32, target as i32]);
    }
}

/// The place of mel frame `t` among the pitch frames.
pub open spec fn place(t: int) -> Element {
    Element::Binary(
        BinaryOp::Multiply,
        Box::new(Element::Number(t)),
        Box::new(Element::Constant(Scalar::FrameStep)),
    )
}

/// The pitch frame before mel frame `t`.
pub open spec fn frame_before(t: int) -> Element {
    let floor = Element::Unary(UnaryOp::Floor, Box::new(place(t)));
    Element::Unary(UnaryOp::ToInt32, Box::new(floor))
}

/// The pitch frame after mel frame `t`, or the last one.
pub open spec fn frame_after(source_frames: i32, t: int) -> Element {
    let next = Element::Binary(
        BinaryOp::Add,
        Box::new(frame_before(t)),
        Box::new(Element::Constant(Scalar::Int(1))),
    );
    let last = Element::Constant(Scalar::Int((source_frames - 1) as i32));
    Element::Binary(BinaryOp::Minimum, Box::new(next), Box::new(last))
}

/// How far mel frame `t` lies from the pitch frame before it to the one after it.
pub open spec fn fraction_at(t: int) -> Element {
    let start = Element::Unary(UnaryOp::ToFloat32, Box::new(frame_before(t)));
    Element::Binary(BinaryOp::Subtract, Box::new(place(t)), Box::new(start))
}

/// The value of a contour at the frame that an element gives.
pub open spec fn value_at(f0: Tensor, frame: Element) -> Element {
    Element::Picked(
        Seq::new(f0.shape[1] as nat, |k: int| element(f0, unravel(f0.shape, k))),
        Box::new(frame),
    )
}

/// The pitch at mel frame `t`, on the line between the pitch frames before and after it.
pub open spec fn pitch_at(f0: Tensor, t: int) -> Element {
    let start = value_at(f0, frame_before(t));
    let end = value_at(f0, frame_after(f0.shape[1], t));
    let rise = Element::Binary(BinaryOp::Subtract, Box::new(end), Box::new(start));
    let part = Element::Binary(BinaryOp::Multiply, Box::new(rise), Box::new(fraction_at(t)));
    Element::Binary(BinaryOp::Add, Box::new(start), Box::new(part))
}

/// The places of mel frames, and the pitch frames around them.
proof fn lemma_place_elements(source_frames: i32, count: int, t: int)
    requires
        0 <= t < count <= i32::MAX,
    ensures
        ({
            let places = positions(count);
            let left = frames_before(places);
            let right = frames_after(left, source_frames);
            let fraction = fractions(places, left);
            let line = seq![count as i32];
            &&& has_shape(left, line)
            &&& has_shape(right, line)
            &&& has_shape(fraction, line)
            &&& element_of(left, seq![t]) == frame_before(t)
            &&& element_of(right, seq![t]) == frame_after(source_frames, t)
            &&& element_of(fraction, seq![t]) == fraction_at(t)
        }),
{
    let n = count as i32;
    let at = seq![t];
    let last = Scalar::Int((source_frames - 1) as i32);
    let numbers = range(0, count);
    assert(numbers->Ok_0.shape =~= seq![n]);
    lemma_with_constant(BinaryOp::Multiply, numbers, Scalar::FrameStep);
    lemma_constant_element(BinaryOp::Multiply, numbers, Scalar::FrameStep, at);
    let places = positions(count);
    assert(element_of(places, at) == place(t));
    let floor = unary(UnaryOp::Floor, places);
    assert(element_of(floor, at) == Element::Unary(UnaryOp::Floor, Box::new(place(t))));
    let left = frames_before(places);
    assert(element_of(left, at) == frame_before(t));
    lemma_with_constant(BinaryOp::Add, left, Scalar::Int(1));
    lemma_constant_element(BinaryOp::Add, left, Scalar::Int(1), at);
    let next = plus(left, constant(Scalar::Int(1)));
    lemma_with_constant(BinaryOp::Minimum, next, last);
    lemma_constant_element(BinaryOp::Minimum, next, last, at);
    let start = unary(UnaryOp::ToFloat32, left);
    lemma_same_shape(BinaryOp::Subtract, places, start);
    lemma_binary_element(BinaryOp::Subtract, places, start, at);
}

/// The values of a contour at the frames `index`.
proof fn lemma_value_element(f0: Tensor, index: Outcome, count: i32, t: int)
    requires
        f0.shape.len() >= 2,
        0 < f0.shape[1],
        volume(f0.shape) == f0.shape[1],
        has_shape(index, seq![count]),
        0 <= t < count,
    ensures
        ({
            let row = seq![1i32, count];
            let values = values_at(reshape(Ok(f0), seq![1i32, f0.shape[1]]), index, row);
            &&& has_shape(values, row)
            &&& element_of(values, seq![0, t]) == value_at(f0, element_of(index, seq![t]))
        }),
{
    lemma_row_element(index, count, t);
    reveal(reshape_shape);
    reveal(pick_shape);
    lemma_volume2(1, f0.shape[1]);
    let row = seq![1i32, count];
    let contour = reshape(Ok(f0), seq![1i32, f0.shape[1]]);
    let values = values_at(contour, index, row);
    assert(has_shape(values, row));
    let picked = element_of(values, seq![0, t]);
    let expected = value_at(f0, element_of(index, seq![t]));
    assert forall|k: int| 0 <= k < f0.shape[1] implies #[trigger] picked->Picked_0[k]
        == expected->Picked_0[k] by {
        assert(seq![0, t].update(1, k) =~= seq![0, k]);
        lemma_places2(1, f0.shape[1], 0, k);
        assert(element_of(contour, seq![0, k]) == element(f0, unravel(f0.shape, k)));
    }
    assert(picked->Picked_0 =~= expected->Picked_0);
}

/// The interpolated pitch at a mel frame does not depend on how many are asked for.
proof fn lemma_interpolated_element(f0: Tensor, count: int, t: int)
    requires
        f0.shape.len() >= 2,
        0 < f0.shape[1],
        volume(f0.shape) == f0.shape[1],
        0 <= t < count <= i32::MAX,
    ensures
        element_of(interpolated(f0, count), seq![0, t]) == pitch_at(f0, t),
{
    reveal(interpolated);
    let n = count as i32;
    let source_frames = f0.shape[1];
    let (at, row) = (seq![0, t], seq![1i32, n]);
    let places = positions(count);
    let left = frames_before(places);
    let right = frames_after(left, source_frames);
    let fraction = fractions(places, left);
    lemma_place_elements(source_frames, count, t);
    lemma_row_element(fraction, n, t);
    lemma_value_element(f0, left, n, t);
    lemma_value_element(f0, right, n, t);
    let contour = reshape(Ok(f0), seq![1i32, source_frames]);
    let start = values_at(contour, left, row);
    let end = values_at(contour, right, row);
    let part = reshape(fraction, row);
    assert(has_shape(part, row)) by {
        reveal(reshape_shape);
    }
    assert(within(row, at));
    lemma_same_shape(BinaryOp::Subtract, end, start);
    lemma_binary_element(BinaryOp::Subtract, end, start, at);
    let rise = minus(end, start);
    lemma_same_shape(BinaryOp::Multiply, rise, part);
    lemma_binary_element(BinaryOp::Multiply, rise, part, at);
    lemma_same_shape(BinaryOp::Add, start, times(rise, part));
    lemma_binary_element(BinaryOp::Add, start, times(rise, part), at);
}

/// The value of an aligned contour at mel frame `t`: the interpolated one inside the contour,
/// and the last of these behind it.
pub proof fn lemma_aligned_element(f0: Tensor, available: int, target: int, t: int)
    requires
        f0.shape.len() >= 2,
        0 < f0.shape[1],
        volume(f0.shape) == f0.shape[1],
        0 < available,
        0 <= t < target <= i32::MAX,
    ensures
        element_of(aligned(f0, available, target), seq![0, t]) == pitch_at(
            f0,
            if t < available {
                t
            } else {
                available - 1
            },
        ),
{
    let count = interpolated_frames(available, target);
    lemma_interpolated(f0, count);
    lemma_interpolated_element(
        f0,
        count,
        if t < count {
            t
        } else {
            count - 1
        },
    );
    lemma_aligned(f0, available, target);
    let inside = interpolated(f0, count);
    if count != target {
        let tail = held(inside, planned_frames(count), target - count);
        assert(tail->Ok_0.shape[1] == target - count) by {
            reveal(stretch_shape);
        }
        lemma_two_parts(inside->Ok_0, tail->Ok_0, 1, t);
        let at = seq![0, t];
        if t < count {
            assert(at.update(1, t) =~= at);
        } else {
            assert(at.update(1, t - count) =~= seq![0, t - count]);
            lemma_held_element(inside, count, (target - count) as i32, t - count);
        }
    }
}

/// Every value of the tail is the last value of the contour.
proof fn lemma_held_element(contour: Outcome, count: int, rest: i32, q: int)
    requires
        has_shape(contour, seq![1i32, count as i32]),
        1 <= count <= i32::MAX,
        0 <= q < rest,
        held(contour, count, rest as int) is Ok,
    ensures
        element_of(held(contour, count, rest as int), seq![0, q]) == element_of(
            contour,
            seq![0, count - 1],
        ),
{
    reveal(slice_shape);
    reveal(reshape_shape);
    reveal(stretch_shape);
    let last = slice(contour, 1, -1, count);
    assert(last->Ok_0.shape =~= seq![1i32, 1]);
    lemma_places2(1, 1, 0, 0);
    let start = seq![0, 0];
    assert(unstretched(seq![1i32, 1], seq![0, q]) =~= start);
    assert(start.update(1, start[1] + (count - 1)) =~= seq![0, count - 1]);
    let single = reshape(last, seq![1i32, 1]);
    assert(element_of(held(contour, count, rest as int), seq![0, q]) == element_of(single, start));
    assert(element_of(single, start) == element_of(last, start));
}

/// Asking for fewer mel frames gives the first values of the longer contour: the time axis is
/// never stretched to fit.
pub proof fn lemma_prefix(f0: Tensor, available: int, short: int, long: int, t: int)
    requires
        f0.shape.len() >= 2,
        0 < f0.shape[1],
        volume(f0.shape) == f0.shape[1],
        0 < available,
        0 <= t < short <= long <= i32::MAX,
    ensures
        has_shape(aligned(f0, available, short), seq![1i32, short as i32]),
        has_shape(aligned(f0, available, long), seq![1i32, long as i32]),
        element_of(aligned(f0, available, short), seq![0, t]) == element_of(
            aligned(f0, available, long),
            seq![0, t],
        ),
{
    lemma_aligned(f0, available, short);
    lemma_aligned(f0, available, long);
    lemma_aligned_element(f0, available, short, t);
    lemma_aligned_element(f0, available, long, t);
}

} // verus!
