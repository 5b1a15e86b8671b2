//! Aligned pitch contours in exact arithmetic: lines between the pitch frames, read at the
//! times of the mel frames.
use vstd::prelude::*;

use crate::element::{element, unravel, Element};
use crate::f0::{
    aligned, fraction_at, frame_after, frame_before, lemma_aligned_element, place, value_at,
};
use crate::numbers::Numbers;
use crate::shape::volume;
use crate::tensor::{BinaryOp, Scalar, Tensor, UnaryOp};

verus! {

impl Numbers {
    /// The place of a mel frame, and the pitch frames around it.
    proof fn lemma_place(self, source_frames: i32, t: int)
        requires
            0 <= t,
            0 < source_frames,
        ensures
            ({
                let p = t as real * (512 as real) / (441 as real);
                let k = p.floor();
                &&& 0 <= k
                &&& self.value(place(t)) == p
                &&& self.value(frame_before(t)) == k as real
                &&& self.value(frame_after(source_frames, t)) == (if k + 1 < source_frames {
                    k + 1
                } else {
                    source_frames - 1
                }) as real
                &&& self.value(fraction_at(t)) == p - k as real
            }),
    {
        self.lemma_ends_of_expressions();
        let number = Element::Number(t);
        let step = Element::Constant(Scalar::FrameStep);
        self.lemma_binary_value(BinaryOp::Multiply, number, step);
        let p = t as real * (512 as real) / (441 as real);
        assert((512 as real / (44_100 as real)) / (160 as real / (16_000 as real)) == 512 as real
            / (441 as real));
        assert(self.value(step) == 512 as real / (441 as real));
        assert(t as real * (512 as real / (441 as real)) == p) by (nonlinear_arith)
            requires
                p == t as real * (512 as real) / (441 as real),
        ;
        let k = p.floor();
        let floor = Element::Unary(UnaryOp::Floor, Box::new(place(t)));
        self.lemma_unary_value(UnaryOp::Floor, place(t));
        self.lemma_unary_value(UnaryOp::ToInt32, floor);
        assert(0 as real <= p);
        assert((k as real).floor() == k);
        let one = Element::Constant(Scalar::Int(1));
        let next = Element::Binary(BinaryOp::Add, Box::new(frame_before(t)), Box::new(one));
        self.lemma_binary_value(BinaryOp::Add, frame_before(t), one);
        assert(self.value(one) == 1 as real);
        let last = Element::Constant(Scalar::Int((source_frames - 1) as i32));
        assert(self.value(last) == (source_frames - 1) as real);
        self.lemma_binary_value(BinaryOp::Minimum, next, last);
        let start = Element::Unary(UnaryOp::ToFloat32, Box::new(frame_before(t)));
        self.lemma_unary_value(UnaryOp::ToFloat32, frame_before(t));
        self.lemma_binary_value(BinaryOp::Subtract, place(t), start);
    }

    /// The value of a contour at a frame.
    proof fn lemma_picked(self, f0: Tensor, frame: Element, k: int)
        requires
            0 <= k < f0.shape[1],
            self.value(frame) == k as real,
        ensures
            self.value(value_at(f0, frame)) == self.at(f0, unravel(f0.shape, k)),
    {
        let choices = Seq::new(f0.shape[1] as nat, |n: int| element(f0, unravel(f0.shape, n)));
        assert(value_at(f0, frame) == Element::Picked(choices, Box::new(frame)));
        self.lemma_picked_value(choices, frame, k);
    }
}

/// The aligned contour at mel frame `t`: the value on the line between the pitch frames around
/// its time, or around that of the last mel frame inside the contour. A mel frame lasts
/// 512 / 44100 seconds, and a pitch frame 160 / 16000.
pub proof fn lemma_aligned_value(
    numbers: Numbers,
    f0: Tensor,
    available: int,
    target: int,
    t: int,
)
    requires
        f0.shape.len() >= 2,
        0 < f0.shape[1],
        volume(f0.shape) == f0.shape[1],
        0 < available,
        0 <= t < target <= i32::MAX,
        (if t < available {
            t
        } else {
            available - 1
        }) * 512 < f0.shape[1] * 441,
    ensures
        ({
            let p = (if t < available {
                t
            } else {
                available - 1
            }) as real * (512 as real / (44_100 as real)) / (160 as real / (16_000 as real));
            let k = p.floor();
            let next = if k + 1 < f0.shape[1] {
                k + 1
            } else {
                f0.shape[1] - 1
            };
            let a = numbers.at(f0, unravel(f0.shape, k));
            let b = numbers.at(f0, unravel(f0.shape, next));
            &&& 0 <= k < f0.shape[1]
            &&& numbers.of(aligned(f0, available, target), seq![0, t]) == a + (b - a) * (p
                - k as real)
        }),
{
    let s = if t < available {
        t
    } else {
        available - 1
    };
    lemma_aligned_element(f0, available, target, t);
    let p = s as real * (512 as real) / (441 as real);
    assert(s as real * (512 as real / (44_100 as real)) / (160 as real / (16_000 as real)) == p);
    let k = p.floor();
    numbers.lemma_place(f0.shape[1], s);
    assert((s * 512) as real == s as real * (512 as real));
    assert((f0.shape[1] * 441) as real == f0.shape[1] as int as real * (441 as real));
    assert(p < f0.shape[1] as int as real);
    let next = if k + 1 < f0.shape[1] {
        k + 1
    } else {
        f0.shape[1] - 1
    };
    let (before, after) = (frame_before(s), frame_after(f0.shape[1], s));
    numbers.lemma_picked(f0, before, k);
    numbers.lemma_picked(f0, after, next);
    let (start, end) = (value_at(f0, before), value_at(f0, after));
    let rise = Element::Binary(BinaryOp::Subtract, Box::new(end), Box::new(start));
    numbers.lemma_binary_value(BinaryOp::Subtract, end, start);
    let part = Element::Binary(BinaryOp::Multiply, Box::new(rise), Box::new(fraction_at(s)));
    numbers.lemma_binary_value(BinaryOp::Multiply, rise, fraction_at(s));
    numbers.lemma_binary_value(BinaryOp::Add, start, part);
}

/// A contour that rises by the same amount from each pitch frame to the next rises evenly in
/// time: at a mel frame inside it, it has risen in proportion to the time until then.
pub proof fn lemma_aligned_glide(
    numbers: Numbers,
    f0: Tensor,
    available: int,
    target: int,
    t: int,
    first: real,
    rise: real,
)
    requires
        f0.shape.len() >= 2,
        0 < f0.shape[1],
        volume(f0.shape) == f0.shape[1],
        0 <= t < available,
        t < target <= i32::MAX,
        t * 512 <= (f0.shape[1] - 1) * 441,
        forall|k: int|
            0 <= k < f0.shape[1] ==> numbers.at(f0, #[trigger] unravel(f0.shape, k)) == first + rise
                * (k as real),
    ensures
        numbers.of(aligned(f0, available, target), seq![0, t]) == first + rise * (t as real * (
        512 as real / (44_100 as real)) / (160 as real / (16_000 as real))),
{
    lemma_aligned_value(numbers, f0, available, target, t);
    let p = t as real * (512 as real / (44_100 as real)) / (160 as real / (16_000 as real));
    assert(p == t as real * (512 as real) / (441 as real));
    let k = p.floor();
    let x = k as real;
    let a = numbers.at(f0, unravel(f0.shape, k));
    assert(a == first + rise * x);
    if k + 1 < f0.shape[1] {
        let b = numbers.at(f0, unravel(f0.shape, k + 1));
        assert(b == first + rise * ((k + 1) as real));
        assert((k + 1) as real == x + 1 as real);
        assert(first + rise * x + ((first + rise * (x + 1 as real)) - (first + rise * x)) * (p - x)
            == first + rise * p) by (nonlinear_arith);
    } else {
        assert((t * 512) as real == t as real * (512 as real));
        assert(((f0.shape[1] - 1) * 441) as real == (f0.shape[1] - 1) as real * (441 as real));
        assert(p == x);
        assert((a - a) * (p - x) == 0 as real) by (nonlinear_arith);
    }
}

} // verus!
