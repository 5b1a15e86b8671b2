//! The harmonic source: a sine whose phase follows the pitch without a break.
use vstd::prelude::*;

use crate::element::{
    element, element_of, lemma_binary_element, lemma_constant_element, lemma_places1, lemma_places2,
    lemma_places3, lemma_stretched_element, Element,
};
use crate::program::{operand, Program};
use crate::shape::{
    lemma_volume1, lemma_volume2, lemma_volume3, pad_shape, reshape_shape, slice_shape,
};
use crate::signal::{has_shape, is_signal, lemma_broadcast3, lemma_same_shape, lemma_with_constant};
use crate::tensor::{
    after, binary, constant, cumsum, minus, modulo, over, pad, plus, range, reshape, slice, times,
    unary, BinaryOp, Outcome, PlanError, Scalar, Tensor, UnaryOp,
};

verus! {

/// Source samples per frame.
pub const SOURCE_UPSAMPLE: i32 = 64;

/// The whole number `n`.
pub open spec fn whole(n: i32) -> Outcome {
    constant(Scalar::Ratio { num: n, den: 1 })
}

/// One half.
pub open spec fn half() -> Outcome {
    constant(Scalar::Ratio { num: 1, den: 2 })
}

/// Source samples per second.
pub open spec fn source_sample_rate() -> Scalar {
    Scalar::Ratio { num: 11_025, den: 2 }
}

/// The numbers of the samples of a frame, from one.
pub open spec fn sample_numbers() -> Outcome {
    reshape(range(1, SOURCE_UPSAMPLE + 1), seq![1i32, 1, SOURCE_UPSAMPLE])
}

/// Turns per source sample at the start of each frame.
pub open spec fn turns(f0: Tensor, frames: i32) -> Outcome {
    over(reshape(Ok(f0), seq![f0.shape[0], frames, 1]), constant(source_sample_rate()))
}

/// How much the turns per sample change until the next frame; nothing after the last.
pub open spec fn turn_changes(s0: Outcome, frames: i32) -> Outcome {
    pad(minus(slice(s0, 1, 1, frames as int), slice(s0, 1, 0, -1)), 1, 0, 1)
}

/// The phase inside each frame, in turns, when the pitch moves linearly to the next.
pub open spec fn frame_phase(s0: Outcome, ds0: Outcome, n: Outcome) -> Outcome {
    plus(
        times(s0, n),
        over(times(times(times(ds0, half()), n), minus(n, whole(1))), whole(SOURCE_UPSAMPLE)),
    )
}

/// The phase at which each frame ends, in turns modulo one: what the frames until then add.
pub open spec fn end_phase(rad: Outcome) -> Outcome {
    let last = slice(rad, 2, -1, SOURCE_UPSAMPLE as int);
    let wrapped = minus(modulo(plus(last, half()), whole(1)), half());
    modulo(cumsum(wrapped, 1), whole(1))
}

/// The phase at which each frame starts: that at which the frame before it ends.
pub open spec fn start_phase(rad: Outcome) -> Outcome {
    pad(slice(end_phase(rad), 1, 0, -1), 1, 1, 0)
}

/// The phase of every source sample, by frame.
pub open spec fn phase(f0: Tensor, frames: i32) -> Outcome {
    let n = sample_numbers();
    let s0 = turns(f0, frames);
    let rad = frame_phase(s0, turn_changes(s0, frames), n);
    after(n, plus(rad, start_phase(rad)))
}

/// The source of a pitch contour of `frames` frames.
#[verifier::opaque]
pub open spec fn harmonic_source(f0: Tensor, frames: i32) -> Outcome {
    if frames * SOURCE_UPSAMPLE > i32::MAX {
        Err(PlanError::Refused)
    } else {
        unary(
            UnaryOp::Sin,
            times(
                reshape(
                    phase(f0, frames),
                    seq![f0.shape[0], (frames * SOURCE_UPSAMPLE) as i32, 1],
                ),
                constant(Scalar::TwoPi),
            ),
        )
    }
}

/// Adds the numbers of the samples of a frame to a program.
fn add_sample_numbers(p: &mut Program) -> (r: Result<usize, PlanError>)
    requires
        old(p).wf(),
    ensures
        final(p).yields(old(p)@, r, sample_numbers()),
{
    let n = p.range(1, SOURCE_UPSAMPLE + 1)?;
    let dims: Vec<i32> = vec![1, 1, SOURCE_UPSAMPLE];
    assert(dims@ =~= seq![1i32, 1, SOURCE_UPSAMPLE]);
    p.reshape(n, dims)
}

/// Adds [`turns`] to a program.
fn add_turns(p: &mut Program, f0: usize, frames: i32) -> (r: Result<usize, PlanError>)
    requires
        old(p).wf(),
        f0 < old(p)@.len(),
        old(p)@[f0 as int].shape.len() >= 1,
    ensures
        final(p).yields(old(p)@, r, turns(old(p)@[f0 as int], frames)),
{
    let batch: i32 = p.shape(f0)[0];
    let dims: Vec<i32> = vec![batch, frames, 1];
    assert(dims@ =~= seq![p@[f0 as int].shape[0], frames, 1]);
    let pitch = p.reshape(f0, dims)?;
    let rate = p.constant(Scalar::Ratio { num: 11_025, den: 2 });
    p.binary(BinaryOp::Divide, pitch, rate)
}

/// Adds [`turn_changes`] to a program.
fn add_turn_changes(p: &mut Program, s0: usize, frames: i32) -> (r: Result<usize, PlanError>)
    requires
        old(p).wf(),
        s0 < old(p)@.len(),
    ensures
        final(p).yields(old(p)@, r, turn_changes(operand(old(p)@, s0), frames)),
{
    let next = p.slice(s0, 1, 1, frames)?;
    let this = p.slice(s0, 1, 0, -1)?;
    let difference = p.binary(BinaryOp::Subtract, next, this)?;
    p.pad(difference, 1, 0, 1)
}

/// Adds [`frame_phase`] to a program.
fn add_frame_phase(p: &mut Program, s0: usize, ds0: usize, n: usize) -> (r: Result<
    usize,
    PlanError,
>)
    requires
        old(p).wf(),
        s0 < old(p)@.len(),
        ds0 < old(p)@.len(),
        n < old(p)@.len(),
    ensures
        final(p).yields(
            old(p)@,
            r,
            frame_phase(operand(old(p)@, s0), operand(old(p)@, ds0), operand(old(p)@, n)),
        ),
{
    let steady = p.binary(BinaryOp::Multiply, s0, n)?;
    let half = p.constant(Scalar::Ratio { num: 1, den: 2 });
    let change = p.binary(BinaryOp::Multiply, ds0, half)?;
    let change = p.binary(BinaryOp::Multiply, change, n)?;
    let one = p.constant(Scalar::Ratio { num: 1, den: 1 });
    let before = p.binary(BinaryOp::Subtract, n, one)?;
    let change = p.binary(BinaryOp::Multiply, change, before)?;
    let samples = p.constant(Scalar::Ratio { num: SOURCE_UPSAMPLE, den: 1 });
    let change = p.binary(BinaryOp::Divide, change, samples)?;
    p.binary(BinaryOp::Add, steady, change)
}

/// Adds [`end_phase`] to a program.
fn add_end_phase(p: &mut Program, rad: usize) -> (r: Result<usize, PlanError>)
    requires
        old(p).wf(),
        rad < old(p)@.len(),
    ensures
        final(p).yields(old(p)@, r, end_phase(operand(old(p)@, rad))),
{
    let last = p.slice(rad, 2, -1, SOURCE_UPSAMPLE)?;
    let half = p.constant(Scalar::Ratio { num: 1, den: 2 });
    let one = p.constant(Scalar::Ratio { num: 1, den: 1 });
    let shifted = p.binary(BinaryOp::Add, last, half)?;
    let wrapped = p.binary(BinaryOp::Remainder, shifted, one)?;
    let wrapped = p.binary(BinaryOp::Subtract, wrapped, half)?;
    let sums = p.cumsum(wrapped, 1)?;
    p.binary(BinaryOp::Remainder, sums, one)
}

/// Adds [`start_phase`] to a program.
fn add_start_phase(p: &mut Program, rad: usize) -> (r: Result<usize, PlanError>)
    requires
        old(p).wf(),
        rad < old(p)@.len(),
    ensures
        final(p).yields(old(p)@, r, start_phase(operand(old(p)@, rad))),
{
    let end = add_end_phase(p, rad)?;
    let before = p.slice(end, 1, 0, -1)?;
    p.pad(before, 1, 1, 0)
}

/// Adds [`phase`] to a program.
fn add_phase(p: &mut Program, f0: usize, frames: i32) -> (r: Result<usize, PlanError>)
    requires
        old(p).wf(),
        f0 < old(p)@.len(),
        old(p)@[f0 as int].shape.len() >= 1,
    ensures
        final(p).yields(old(p)@, r, phase(old(p)@[f0 as int], frames)),
{
    let n = add_sample_numbers(p)?;
    let s0 = add_turns(p, f0, frames)?;
    let ds0 = add_turn_changes(p, s0, frames)?;
    let rad = add_frame_phase(p, s0, ds0, n)?;
    let start = add_start_phase(p, rad)?;
    p.binary(BinaryOp::Add, rad, start)
}

/// Adds the source of the pitch contour `f0` to a program.
pub fn add_source(p: &mut Program, f0: usize, frames: i32) -> (r: Result<usize, PlanError>)
    requires
        old(p).wf(),
        f0 < old(p)@.len(),
        old(p)@[f0 as int].shape.len() >= 1,
        0 <= frames,
    ensures
        final(p).yields(old(p)@, r, harmonic_source(old(p)@[f0 as int], frames)),
{
    proof {
        reveal(harmonic_source);
    }
    if frames > i32::MAX / SOURCE_UPSAMPLE {
        return Err(PlanError::Refused);
    }
    let batch: i32 = p.shape(f0)[0];
    let dims: Vec<i32> = vec![batch, frames * SOURCE_UPSAMPLE, 1];
    assert(dims@ =~= seq![
        p@[f0 as int].shape[0],
        (frames * SOURCE_UPSAMPLE) as i32,
        1,
    ]);
    let phase = add_phase(p, f0, frames)?;
    let flat = p.reshape(phase, dims)?;
    let turn = p.constant(Scalar::TwoPi);
    let angle = p.binary(BinaryOp::Multiply, flat, turn)?;
    Ok(p.unary(UnaryOp::Sin, angle))
}

/// An operation on an array and one that is stretched to it.
proof fn lemma_stretched(op: BinaryOp, x: Outcome, y: Outcome)
    requires
        x is Ok,
        y is Ok,
        x->Ok_0.shape.len() == 3,
        y->Ok_0.shape.len() == 3,
        y->Ok_0.shape[0] == x->Ok_0.shape[0] || y->Ok_0.shape[0] == 1 || x->Ok_0.shape[0] == 1,
        y->Ok_0.shape[1] == x->Ok_0.shape[1] || y->Ok_0.shape[1] == 1 || x->Ok_0.shape[1] == 1,
        y->Ok_0.shape[2] == x->Ok_0.shape[2] || y->Ok_0.shape[2] == 1 || x->Ok_0.shape[2] == 1,
    ensures
        ({
            let (s, t) = (x->Ok_0.shape, y->Ok_0.shape);
            is_signal(
                binary(op, x, y),
                if s[0] == 1 {
                    t[0] as int
                } else {
                    s[0] as int
                },
                if s[1] == 1 {
                    t[1] as int
                } else {
                    s[1] as int
                },
                if s[2] == 1 {
                    t[2] as int
                } else {
                    s[2] as int
                },
            )
        }),
{
    lemma_broadcast3(x->Ok_0.shape, y->Ok_0.shape);
}

/// The changes of the turns have a value for each frame.
proof fn lemma_turn_changes(s0: Outcome, batch: int, frames: i32)
    requires
        is_signal(s0, batch, frames as int, 1),
        1 <= frames,
    ensures
        is_signal(turn_changes(s0, frames), batch, frames as int, 1),
{
    reveal(slice_shape);
    reveal(pad_shape);
    let next = slice(s0, 1, 1, frames as int);
    let this = slice(s0, 1, 0, -1);
    assert(next->Ok_0.shape =~= this->Ok_0.shape);
    lemma_same_shape(BinaryOp::Subtract, next, this);
}

/// The phase inside each frame has a value for each sample.
proof fn lemma_frame_phase(s0: Outcome, ds0: Outcome, n: Outcome, batch: int, frames: int)
    requires
        is_signal(s0, batch, frames, 1),
        is_signal(ds0, batch, frames, 1),
        is_signal(n, 1, 1, SOURCE_UPSAMPLE as int),
    ensures
        is_signal(frame_phase(s0, ds0, n), batch, frames, SOURCE_UPSAMPLE as int),
{
    let steady = times(s0, n);
    lemma_stretched(BinaryOp::Multiply, s0, n);
    let halves = times(ds0, half());
    lemma_with_constant(BinaryOp::Multiply, ds0, Scalar::Ratio { num: 1, den: 2 });
    let change = times(halves, n);
    lemma_stretched(BinaryOp::Multiply, halves, n);
    let before = minus(n, whole(1));
    lemma_with_constant(BinaryOp::Subtract, n, Scalar::Ratio { num: 1, den: 1 });
    let product = times(change, before);
    lemma_stretched(BinaryOp::Multiply, change, before);
    lemma_with_constant(
        BinaryOp::Divide,
        product,
        Scalar::Ratio { num: SOURCE_UPSAMPLE, den: 1 },
    );
    let scaled = over(product, whole(SOURCE_UPSAMPLE));
    lemma_stretched(BinaryOp::Add, steady, scaled);
}

/// The phase at which frames start has a value for each frame.
proof fn lemma_start_phase(rad: Outcome, batch: int, frames: int)
    requires
        is_signal(rad, batch, frames, SOURCE_UPSAMPLE as int),
        1 <= frames,
    ensures
        is_signal(end_phase(rad), batch, frames, 1),
        is_signal(start_phase(rad), batch, frames, 1),
{
    reveal(slice_shape);
    reveal(pad_shape);
    let last = slice(rad, 2, -1, SOURCE_UPSAMPLE as int);
    assert(is_signal(last, batch, frames, 1));
    let one = Scalar::Ratio { num: 1, den: 1 };
    let one_half = Scalar::Ratio { num: 1, den: 2 };
    lemma_with_constant(BinaryOp::Add, last, one_half);
    let shifted = plus(last, half());
    lemma_with_constant(BinaryOp::Remainder, shifted, one);
    let turned = modulo(shifted, whole(1));
    lemma_with_constant(BinaryOp::Subtract, turned, one_half);
    let wrapped = minus(turned, half());
    lemma_with_constant(BinaryOp::Remainder, cumsum(wrapped, 1), one);
}

/// The source of a pitch contour has [`SOURCE_UPSAMPLE`] samples for each frame.
pub proof fn lemma_source(f0: Tensor, frames: i32)
    requires
        f0.shape.len() == 2,
        0 <= f0.shape[0],
        f0.shape[1] == frames,
        1 <= frames,
        frames * SOURCE_UPSAMPLE <= i32::MAX,
    ensures
        is_signal(
            harmonic_source(f0, frames),
            f0.shape[0] as int,
            frames * SOURCE_UPSAMPLE,
            1,
        ),
{
    reveal(harmonic_source);
    reveal(reshape_shape);
    let batch = f0.shape[0];
    let n = sample_numbers();
    lemma_volume1(SOURCE_UPSAMPLE);
    lemma_volume3(1, 1, SOURCE_UPSAMPLE);
    assert(range(1, SOURCE_UPSAMPLE + 1)->Ok_0.shape =~= seq![SOURCE_UPSAMPLE]);
    assert(is_signal(n, 1, 1, SOURCE_UPSAMPLE as int));
    assert(f0.shape =~= seq![batch, frames]);
    lemma_volume2(batch, frames);
    lemma_volume3(batch, frames, 1);
    let (b, f) = (batch as int, frames as int);
    assert(0 <= b * f <= 0x7fff_ffff * 0x7fff_ffff && b * f * 1 == b * f) by (nonlinear_arith)
        requires
            0 <= b <= 0x7fff_ffff,
            0 <= f <= 0x7fff_ffff,
    ;
    let pitch = reshape(Ok(f0), seq![batch, frames, 1]);
    lemma_with_constant(BinaryOp::Divide, pitch, source_sample_rate());
    let s0 = turns(f0, frames);
    assert(is_signal(s0, b, f, 1));
    let ds0 = turn_changes(s0, frames);
    lemma_turn_changes(s0, b, frames);
    let rad = frame_phase(s0, ds0, n);
    lemma_frame_phase(s0, ds0, n, b, f);
    lemma_start_phase(rad, b, f);
    lemma_stretched(BinaryOp::Add, rad, start_phase(rad));
    let by_frame = phase(f0, frames);
    assert(is_signal(by_frame, b, f, SOURCE_UPSAMPLE as int));
    assert(by_frame->Ok_0.shape =~= seq![batch, frames, SOURCE_UPSAMPLE]);
    let samples = (frames * SOURCE_UPSAMPLE) as i32;
    lemma_volume3(batch, frames, SOURCE_UPSAMPLE);
    lemma_volume3(batch, samples, 1);
    assert(b * f * 64 == b * (f * 64) * 1) by (nonlinear_arith);
    assert(0 <= b * (f * 64) <= 0x7fff_ffff * 0x7fff_ffff) by (nonlinear_arith)
        requires
            0 <= b <= 0x7fff_ffff,
            0 <= f * 64 <= 0x7fff_ffff,
    ;
    let flat = reshape(by_frame, seq![batch, samples, 1]);
    lemma_with_constant(BinaryOp::Multiply, flat, Scalar::TwoPi);
}

/// The first frame starts at phase zero, and every other one where the frame before it ends.
pub proof fn lemma_start_phase_element(rad: Outcome, batch: int, frames: int, b: int, f: int)
    requires
        is_signal(rad, batch, frames, SOURCE_UPSAMPLE as int),
        0 <= f < frames,
    ensures
        element_of(start_phase(rad), seq![b, f, 0]) == if f == 0 {
            Element::Zero
        } else {
            element_of(end_phase(rad), seq![b, f - 1, 0])
        },
{
    reveal(slice_shape);
    lemma_start_phase(rad, batch, frames);
    let at = seq![b, f, 0];
    let before = at.update(1, f - 1);
    assert(before.update(1, before[1] + 0) =~= seq![b, f - 1, 0]);
    reveal(pad_shape);
    let kept = slice(end_phase(rad), 1, 0, -1);
    if f > 0 {
        assert(element_of(start_phase(rad), at) == element_of(kept, before));
        assert(element_of(kept, before) == element_of(end_phase(rad), seq![b, f - 1, 0]));
    }
}

/// The pitch of a frame changes to that of the next frame, and that of the last frame stays.
pub proof fn lemma_turn_change_element(s0: Outcome, batch: int, frames: i32, b: int, f: int)
    requires
        is_signal(s0, batch, frames as int, 1),
        0 <= b < batch,
        0 <= f < frames,
    ensures
        element_of(turn_changes(s0, frames), seq![b, f, 0]) == if f == frames - 1 {
            Element::Zero
        } else {
            Element::Binary(
                BinaryOp::Subtract,
                Box::new(element_of(s0, seq![b, f + 1, 0])),
                Box::new(element_of(s0, seq![b, f, 0])),
            )
        },
{
    reveal(slice_shape);
    reveal(pad_shape);
    lemma_turn_changes(s0, batch, frames);
    let next = slice(s0, 1, 1, frames as int);
    let this = slice(s0, 1, 0, -1);
    assert(next->Ok_0.shape =~= this->Ok_0.shape);
    lemma_same_shape(BinaryOp::Subtract, next, this);
    let at = seq![b, f, 0];
    assert(at.update(1, at[1] + 1) =~= seq![b, f + 1, 0]);
    assert(at.update(1, at[1] + 0) =~= at);
    assert(at.update(1, at[1] - 0) =~= at);
    let change = minus(next, this);
    if f < frames - 1 {
        assert(element_of(turn_changes(s0, frames), at) == element_of(change, at));
        lemma_binary_element(BinaryOp::Subtract, next, this, at);
        assert(element_of(next, at) == element_of(s0, seq![b, f + 1, 0]));
        assert(element_of(this, at) == element_of(s0, at));
    }
}

/// Sample `j` of frame `f` follows the samples of the frames before it.
pub proof fn lemma_sample_element(
    by_frame: Outcome,
    batch: i32,
    frames: i32,
    b: int,
    f: int,
    j: int,
)
    requires
        has_shape(by_frame, seq![batch, frames, SOURCE_UPSAMPLE]),
        frames * SOURCE_UPSAMPLE <= i32::MAX,
        0 <= b < batch,
        0 <= f < frames,
        0 <= j < SOURCE_UPSAMPLE,
    ensures
        element_of(
            reshape(by_frame, seq![batch, (frames * SOURCE_UPSAMPLE) as i32, 1]),
            seq![b, f * SOURCE_UPSAMPLE + j, 0],
        ) == element_of(by_frame, seq![b, f, j]),
{
    reveal(reshape_shape);
    let samples = (frames * SOURCE_UPSAMPLE) as i32;
    lemma_volume3(batch, frames, SOURCE_UPSAMPLE);
    lemma_volume3(batch, samples, 1);
    let (n, m) = (batch as int, frames as int);
    assert(n * m * 64 == n * (m * 64) * 1) by (nonlinear_arith);
    assert(0 <= n * (m * 64) <= 0x7fff_ffff * 0x7fff_ffff) by (nonlinear_arith)
        requires
            0 <= n <= 0x7fff_ffff,
            0 <= m * 64 <= 0x7fff_ffff,
    ;
    lemma_places3(batch, samples, 1, b, f * SOURCE_UPSAMPLE + j, 0);
    lemma_places3(batch, frames, SOURCE_UPSAMPLE, b, f, j);
    assert((b * (m * 64) + (f * 64 + j)) * 1 + 0 == (b * m + f) * 64 + j) by (nonlinear_arith);
}

/// Turns per source sample at the start of frame `f` of row `b`.
pub open spec fn turn_at(f0: Tensor, b: int, f: int) -> Element {
    Element::Binary(
        BinaryOp::Divide,
        Box::new(element(f0, seq![b, f])),
        Box::new(Element::Constant(source_sample_rate())),
    )
}

/// How much the turns per sample change from frame `f` to the next; nothing after the last.
pub open spec fn turn_change_at(f0: Tensor, frames: i32, b: int, f: int) -> Element {
    if f == frames - 1 {
        Element::Zero
    } else {
        Element::Binary(
            BinaryOp::Subtract,
            Box::new(turn_at(f0, b, f + 1)),
            Box::new(turn_at(f0, b, f)),
        )
    }
}

/// The whole number `n` as an element.
pub open spec fn whole_element(n: i32) -> Element {
    Element::Constant(Scalar::Ratio { num: n, den: 1 })
}

/// One half as an element.
pub open spec fn half_element() -> Element {
    Element::Constant(Scalar::Ratio { num: 1, den: 2 })
}

/// The turns from the start of a frame to its sample `j`, counted from zero, when the turns
/// per sample are `turn` at its start and change by `change` until the next frame.
pub open spec fn turns_inside(turn: Element, change: Element, j: int) -> Element {
    let n = Element::Number(j + 1);
    let steady = Element::Binary(BinaryOp::Multiply, Box::new(turn), Box::new(n));
    let halves = Element::Binary(
        BinaryOp::Multiply,
        Box::new(change),
        Box::new(half_element()),
    );
    let rising = Element::Binary(BinaryOp::Multiply, Box::new(halves), Box::new(n));
    let before = Element::Binary(BinaryOp::Subtract, Box::new(n), Box::new(whole_element(1)));
    let product = Element::Binary(BinaryOp::Multiply, Box::new(rising), Box::new(before));
    let bend = Element::Binary(
        BinaryOp::Divide,
        Box::new(product),
        Box::new(whole_element(SOURCE_UPSAMPLE)),
    );
    Element::Binary(BinaryOp::Add, Box::new(steady), Box::new(bend))
}

/// The turns from the start of frame `f` of row `b` to its sample `j`.
pub open spec fn turns_at(f0: Tensor, frames: i32, b: int, f: int, j: int) -> Element {
    turns_inside(turn_at(f0, b, f), turn_change_at(f0, frames, b, f), j)
}

/// A number of turns, brought to between minus one half and one half.
pub open spec fn wrapped(turns: Element) -> Element {
    let shifted = Element::Binary(BinaryOp::Add, Box::new(turns), Box::new(half_element()));
    let turned = Element::Binary(
        BinaryOp::Remainder,
        Box::new(shifted),
        Box::new(whole_element(1)),
    );
    Element::Binary(BinaryOp::Subtract, Box::new(turned), Box::new(half_element()))
}

/// The wrapped turns at the ends of the first `frames_before` frames of row `b`.
pub open spec fn ends_before(f0: Tensor, frames: i32, b: int, frames_before: int) -> Seq<Element> {
    Seq::new(
        frames_before as nat,
        |k: int| wrapped(turns_at(f0, frames, b, k, SOURCE_UPSAMPLE - 1)),
    )
}

/// The phase at which frame `f` of row `b` starts, in turns: zero for the first frame, and
/// for the others what the frames before them add up to, modulo one.
pub open spec fn start_at(f0: Tensor, frames: i32, b: int, f: int) -> Element {
    if f == 0 {
        Element::Zero
    } else {
        Element::Binary(
            BinaryOp::Remainder,
            Box::new(Element::Sum(ends_before(f0, frames, b, f))),
            Box::new(whole_element(1)),
        )
    }
}

/// Sample `j` of frame `f` of row `b`: the sine of its phase.
pub open spec fn sample_at(f0: Tensor, frames: i32, b: int, f: int, j: int) -> Element {
    let phase = Element::Binary(
        BinaryOp::Add,
        Box::new(turns_at(f0, frames, b, f, j)),
        Box::new(start_at(f0, frames, b, f)),
    );
    let angle = Element::Binary(
        BinaryOp::Multiply,
        Box::new(phase),
        Box::new(Element::Constant(Scalar::TwoPi)),
    );
    Element::Unary(UnaryOp::Sin, Box::new(angle))
}

/// The elements of [`sample_numbers`].
proof fn lemma_number_element(j: int)
    requires
        0 <= j < SOURCE_UPSAMPLE,
    ensures
        has_shape(sample_numbers(), seq![1i32, 1, SOURCE_UPSAMPLE]),
        element_of(sample_numbers(), seq![0, 0, j]) == Element::Number(j + 1),
{
    reveal(reshape_shape);
    lemma_volume1(SOURCE_UPSAMPLE);
    lemma_volume3(1, 1, SOURCE_UPSAMPLE);
    let numbers = range(1, SOURCE_UPSAMPLE + 1);
    assert(numbers->Ok_0.shape =~= seq![SOURCE_UPSAMPLE]);
    lemma_places3(1, 1, SOURCE_UPSAMPLE, 0, 0, j);
    lemma_places1(SOURCE_UPSAMPLE, j);
    assert(element_of(sample_numbers(), seq![0, 0, j]) == element_of(numbers, seq![j]));
}

/// The elements of [`turns`].
proof fn lemma_turn_element(f0: Tensor, frames: i32, b: int, f: int)
    requires
        f0.shape.len() == 2,
        f0.shape[1] == frames,
        0 <= b < f0.shape[0],
        0 <= f < frames,
    ensures
        is_signal(turns(f0, frames), f0.shape[0] as int, frames as int, 1),
        element_of(turns(f0, frames), seq![b, f, 0]) == turn_at(f0, b, f),
{
    reveal(reshape_shape);
    let batch = f0.shape[0];
    assert(f0.shape =~= seq![batch, frames]);
    lemma_volume2(batch, frames);
    lemma_volume3(batch, frames, 1);
    let (n, m) = (batch as int, frames as int);
    assert(0 <= n * m <= 0x7fff_ffff * 0x7fff_ffff && n * m * 1 == n * m) by (nonlinear_arith)
        requires
            0 <= n <= 0x7fff_ffff,
            0 <= m <= 0x7fff_ffff,
    ;
    let pitch = reshape(Ok(f0), seq![batch, frames, 1]);
    lemma_with_constant(BinaryOp::Divide, pitch, source_sample_rate());
    lemma_places3(batch, frames, 1, b, f, 0);
    lemma_places2(batch, frames, b, f);
    assert((b * m + f) * 1 + 0 == b * m + f) by (nonlinear_arith);
    assert(element_of(pitch, seq![b, f, 0]) == element(f0, seq![b, f]));
    lemma_constant_element(BinaryOp::Divide, pitch, source_sample_rate(), seq![b, f, 0]);
}

/// The elements of [`frame_phase`].
proof fn lemma_frame_phase_element(
    s0: Outcome,
    ds0: Outcome,
    batch: int,
    frames: int,
    b: int,
    f: int,
    j: int,
)
    requires
        is_signal(s0, batch, frames, 1),
        is_signal(ds0, batch, frames, 1),
        0 <= b < batch,
        0 <= f < frames,
        0 <= j < SOURCE_UPSAMPLE,
    ensures
        element_of(frame_phase(s0, ds0, sample_numbers()), seq![b, f, j]) == turns_inside(
            element_of(s0, seq![b, f, 0]),
            element_of(ds0, seq![b, f, 0]),
            j,
        ),
{
    let n = sample_numbers();
    lemma_number_element(j);
    let (at, start, number) = (seq![b, f, j], seq![b, f, 0], seq![0, 0, j]);
    let one = Scalar::Ratio { num: 1, den: 1 };
    let samples = Scalar::Ratio { num: SOURCE_UPSAMPLE, den: 1 };
    let one_half = Scalar::Ratio { num: 1, den: 2 };
    let steady = times(s0, n);
    lemma_stretched(BinaryOp::Multiply, s0, n);
    lemma_stretched_element(BinaryOp::Multiply, s0, n, at, start, number);
    let halves = times(ds0, half());
    lemma_with_constant(BinaryOp::Multiply, ds0, one_half);
    lemma_constant_element(BinaryOp::Multiply, ds0, one_half, start);
    let change = times(halves, n);
    lemma_stretched(BinaryOp::Multiply, halves, n);
    lemma_stretched_element(BinaryOp::Multiply, halves, n, at, start, number);
    let before = minus(n, whole(1));
    lemma_with_constant(BinaryOp::Subtract, n, one);
    lemma_constant_element(BinaryOp::Subtract, n, one, number);
    let product = times(change, before);
    lemma_stretched(BinaryOp::Multiply, change, before);
    lemma_stretched_element(BinaryOp::Multiply, change, before, at, at, number);
    let bend = over(product, whole(SOURCE_UPSAMPLE));
    lemma_with_constant(BinaryOp::Divide, product, samples);
    lemma_constant_element(BinaryOp::Divide, product, samples, at);
    lemma_stretched(BinaryOp::Add, steady, bend);
    lemma_stretched_element(BinaryOp::Add, steady, bend, at, at, at);
}

/// The elements of [`end_phase`].
proof fn lemma_end_phase_element(
    rad: Outcome,
    batch: int,
    frames: int,
    b: int,
    f: int,
    ends: Seq<Element>,
)
    requires
        is_signal(rad, batch, frames, SOURCE_UPSAMPLE as int),
        0 <= b < batch,
        0 <= f < frames,
        ends.len() == f + 1,
        forall|k: int|
            0 <= k <= f ==> #[trigger] ends[k] == wrapped(
                element_of(rad, seq![b, k, SOURCE_UPSAMPLE - 1]),
            ),
    ensures
        element_of(end_phase(rad), seq![b, f, 0]) == Element::Binary(
            BinaryOp::Remainder,
            Box::new(Element::Sum(ends)),
            Box::new(whole_element(1)),
        ),
{
    reveal(slice_shape);
    let one = Scalar::Ratio { num: 1, den: 1 };
    let one_half = Scalar::Ratio { num: 1, den: 2 };
    let last = slice(rad, 2, -1, SOURCE_UPSAMPLE as int);
    assert(is_signal(last, batch, frames, 1));
    let shifted = plus(last, half());
    lemma_with_constant(BinaryOp::Add, last, one_half);
    let turned = modulo(shifted, whole(1));
    lemma_with_constant(BinaryOp::Remainder, shifted, one);
    let short = minus(turned, half());
    lemma_with_constant(BinaryOp::Subtract, turned, one_half);
    let summed = cumsum(short, 1);
    lemma_with_constant(BinaryOp::Remainder, summed, one);
    let at = seq![b, f, 0];
    let sums = element_of(summed, at)->Sum_0;
    assert forall|k: int| 0 <= k <= f implies #[trigger] sums[k] == ends[k] by {
        let place = seq![b, k, 0];
        assert(at.update(1, k) =~= place);
        assert(place.update(2, place[2] + 63) =~= seq![b, k, SOURCE_UPSAMPLE - 1]);
        assert(element_of(last, place) == element_of(rad, seq![b, k, SOURCE_UPSAMPLE - 1]));
        lemma_constant_element(BinaryOp::Add, last, one_half, place);
        lemma_constant_element(BinaryOp::Remainder, shifted, one, place);
        lemma_constant_element(BinaryOp::Subtract, turned, one_half, place);
    }
    assert(sums =~= ends);
    lemma_constant_element(BinaryOp::Remainder, summed, one, at);
}

/// The elements of the phase inside each frame.
proof fn lemma_frame_turns(f0: Tensor, frames: i32, b: int, f: int, j: int)
    requires
        f0.shape.len() == 2,
        f0.shape[1] == frames,
        0 <= b < f0.shape[0],
        0 <= f < frames,
        0 <= j < SOURCE_UPSAMPLE,
    ensures
        ({
            let s0 = turns(f0, frames);
            let rad = frame_phase(s0, turn_changes(s0, frames), sample_numbers());
            element_of(rad, seq![b, f, j]) == turns_at(f0, frames, b, f, j)
        }),
{
    let batch = f0.shape[0] as int;
    let s0 = turns(f0, frames);
    let ds0 = turn_changes(s0, frames);
    lemma_turn_element(f0, frames, b, f);
    if f + 1 < frames {
        lemma_turn_element(f0, frames, b, f + 1);
    }
    lemma_turn_changes(s0, batch, frames);
    lemma_turn_change_element(s0, batch, frames, b, f);
    lemma_frame_phase_element(s0, ds0, batch, frames as int, b, f, j);
}

/// Every sample of the source is the sine of two pi times its phase: the turns from the start
/// of its frame, while the pitch moves linearly to that of the next frame, and the phase at
/// which the frame starts, which is the running sum of what the frames before it add.
pub proof fn lemma_source_element(f0: Tensor, frames: i32, b: int, f: int, j: int)
    requires
        f0.shape.len() == 2,
        f0.shape[1] == frames,
        frames * SOURCE_UPSAMPLE <= i32::MAX,
        0 <= b < f0.shape[0],
        0 <= f < frames,
        0 <= j < SOURCE_UPSAMPLE,
    ensures
        element_of(harmonic_source(f0, frames), seq![b, f * SOURCE_UPSAMPLE + j, 0])
            == sample_at(f0, frames, b, f, j),
{
    let batch = f0.shape[0];
    let (n, m) = (batch as int, frames as int);
    let numbers = sample_numbers();
    let s0 = turns(f0, frames);
    let ds0 = turn_changes(s0, frames);
    let rad = frame_phase(s0, ds0, numbers);
    lemma_number_element(j);
    lemma_turn_element(f0, frames, b, f);
    lemma_turn_changes(s0, n, frames);
    lemma_frame_phase(s0, ds0, numbers, n, m);
    lemma_start_phase(rad, n, m);
    lemma_frame_turns(f0, frames, b, f, j);
    lemma_start_phase_element(rad, n, m, b, f);
    if f > 0 {
        let ends = ends_before(f0, frames, b, f);
        assert forall|k: int| 0 <= k <= f - 1 implies #[trigger] ends[k] == wrapped(
            element_of(rad, seq![b, k, SOURCE_UPSAMPLE - 1]),
        ) by {
            lemma_frame_turns(f0, frames, b, k, SOURCE_UPSAMPLE - 1);
        }
        lemma_end_phase_element(rad, n, m, b, f - 1, ends);
    }
    let start = start_phase(rad);
    assert(element_of(start, seq![b, f, 0]) == start_at(f0, frames, b, f));
    lemma_stretched(BinaryOp::Add, rad, start);
    let at = seq![b, f, j];
    lemma_stretched_element(BinaryOp::Add, rad, start, at, at, seq![b, f, 0]);
    let by_frame = phase(f0, frames);
    assert(by_frame->Ok_0.shape =~= seq![batch, frames, SOURCE_UPSAMPLE]);
    lemma_sample_element(by_frame, batch, frames, b, f, j);
    lemma_source(f0, frames);
    let samples = (frames * SOURCE_UPSAMPLE) as i32;
    let flat = reshape(by_frame, seq![batch, samples, 1]);
    assert(has_shape(flat, seq![batch, samples, 1])) by {
        reveal(harmonic_source);
        reveal(reshape_shape);
    }
    let place = seq![b, f * SOURCE_UPSAMPLE + j, 0];
    lemma_with_constant(BinaryOp::Multiply, flat, Scalar::TwoPi);
    lemma_constant_element(BinaryOp::Multiply, flat, Scalar::TwoPi, place);
    reveal(harmonic_source);
}

} // verus!
