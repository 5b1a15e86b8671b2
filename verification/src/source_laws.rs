//! The harmonic source in exact arithmetic: a wave whose phase is the sum of the pitch.
use vstd::prelude::*;

use crate::element::{element, Element};
use crate::exact::lemma_over_one;
use crate::numbers::{lemma_sum, sum, Numbers};
use crate::source::{
    ends_before, half_element, harmonic_source, lemma_source_element, source_sample_rate, start_at,
    turn_at, turn_change_at, turns_at, turns_inside, whole_element, wrapped, SOURCE_UPSAMPLE,
};
use crate::tensor::{BinaryOp, Scalar, Tensor, UnaryOp};

verus! {

/// `x` and `z` whole turns.
pub open spec fn turned(x: real, z: int) -> real {
    x + z as real
}

impl Numbers {
    /// The wave at `x` turns.
    pub open spec fn wave(self, x: real) -> real {
        (self.sine)(x * ((2 as real) * self.pi))
    }

    /// Whole turns do not change the wave.
    pub open spec fn is_periodic(self) -> bool {
        forall|x: real, z: int| self.wave(#[trigger] turned(x, z)) == self.wave(x)
    }
}

/// The sum of a line: `n` numbers from `turn` on, each larger by `change` over 64.
proof fn lemma_line(start: nat, n: nat, turn: real, change: real, p: spec_fn(int) -> real)
    requires
        forall|i: int|
            0 <= i < n ==> #[trigger] p(start + i) == turn + change * (i as real) / (64 as real),
    ensures
        sum(start + n, p) == sum(start, p) + turn * (n as int as real) + change * ((n * (n
            - 1)) as real) / (128 as real),
    decreases n,
{
    if n > 0 {
        let m = (n - 1) as nat;
        lemma_line(start, m, turn, change, p);
        assert(p(start as int + m as int) == turn + change * (m as int as real) / (64 as real));
        let (x, y, k) = (turn, change, m as int as real);
        assert(n as int as real == k + 1 as real);
        assert(((m * (m - 1)) as real) == k * (k - 1 as real)) by {
            lemma_product(m as int, m - 1);
        }
        assert(((n * (n - 1)) as real) == (k + 1 as real) * k) by {
            lemma_product(n as int, n - 1);
        }
        assert(x * k + y * (k * (k - 1 as real)) / (128 as real) + (x + y * k / (64 as real)) == x
            * (k + 1 as real) + y * ((k + 1 as real) * k) / (128 as real)) by (nonlinear_arith);
    } else {
        assert(turn * (0 as real) == 0 as real) by (nonlinear_arith);
        assert(change * (0 as real) == 0 as real) by (nonlinear_arith);
    }
}

/// A product of integers, as a real number.
proof fn lemma_product(a: int, b: int)
    ensures
        (a * b) as real == a as real * b as real,
{
    assert((a * b) as real == a as real * b as real) by (nonlinear_arith);
}

impl Numbers {
    /// The pitch of frame `f` of row `b`.
    spec fn pitch(self, f0: Tensor, b: int, f: int) -> real {
        self.at(f0, seq![b, f])
    }

    /// The pitch of the frame after frame `f`, or of the last frame.
    spec fn next_pitch(self, f0: Tensor, frames: i32, b: int, f: int) -> real {
        if f + 1 < frames {
            self.pitch(f0, b, f + 1)
        } else {
            self.pitch(f0, b, f)
        }
    }

    /// The turns of sample `m`.
    spec fn turns_of(self, f0: Tensor, frames: i32, b: int) -> spec_fn(int) -> real {
        |m: int|
            {
                let g = self.pitch(f0, b, m / 64);
                let h = self.next_pitch(f0, frames, b, m / 64);
                (g + (h - g) * ((m % 64) as real) / (64 as real)) / (11_025 as real / (2 as real))
            }
    }

    /// The turns inside a frame.
    proof fn lemma_turns(self, f0: Tensor, frames: i32, b: int, f: int, j: int)
        requires
            0 <= f < frames,
            0 <= j < SOURCE_UPSAMPLE,
        ensures
            ({
                let rate = 11_025 as real / (2 as real);
                let turn = self.pitch(f0, b, f) / rate;
                let change = (self.next_pitch(f0, frames, b, f) - self.pitch(f0, b, f)) / rate;
                self.value(turns_at(f0, frames, b, f, j)) == turn * ((j + 1) as real) + change * (((
                j + 1) * j) as real) / (128 as real)
            }),
    {
        let rate = 11_025 as real / (2 as real);
        let g = self.pitch(f0, b, f);
        let h = self.next_pitch(f0, frames, b, f);
        assert(self.constant(source_sample_rate()) == rate);
        self.lemma_turn(f0, b, f);
        if f + 1 < frames {
            self.lemma_turn(f0, b, f + 1);
        }
        let (turn, change) = (turn_at(f0, b, f), turn_change_at(f0, frames, b, f));
        self.lemma_ends_of_expressions();
        self.lemma_binary_value(BinaryOp::Subtract, turn_at(f0, b, f + 1), turn);
        assert(self.value(turn) == g / rate);
        assert(self.value(change) == (h - g) / rate);
        self.lemma_turns_inside(turn, change, j);
    }

    /// The turns per sample at the start of a frame.
    proof fn lemma_turn(self, f0: Tensor, b: int, f: int)
        ensures
            self.value(turn_at(f0, b, f)) == self.pitch(f0, b, f) / (11_025 as real / (2 as real)),
    {
        self.lemma_ends_of_expressions();
        let rate = Element::Constant(source_sample_rate());
        assert(self.value(rate) == 11_025 as real / (2 as real));
        self.lemma_binary_value(BinaryOp::Divide, element(f0, seq![b, f]), rate);
    }

    /// The turns inside a frame, of which the turns per sample change.
    proof fn lemma_turns_inside(self, turn: Element, change: Element, j: int)
        ensures
            self.value(turns_inside(turn, change, j)) == self.value(turn) * ((j + 1) as real)
                + self.value(change) * (((j + 1) * j) as real) / (128 as real),
    {
        self.lemma_ends_of_expressions();
        self.lemma_whole(1);
        self.lemma_whole(SOURCE_UPSAMPLE);
        let (x, y) = (self.value(turn), self.value(change));
        let n = Element::Number(j + 1);
        let steady = Element::Binary(BinaryOp::Multiply, Box::new(turn), Box::new(n));
        self.lemma_binary_value(BinaryOp::Multiply, turn, n);
        let halves = Element::Binary(
            BinaryOp::Multiply,
            Box::new(change),
            Box::new(half_element()),
        );
        self.lemma_binary_value(BinaryOp::Multiply, change, half_element());
        let rising = Element::Binary(BinaryOp::Multiply, Box::new(halves), Box::new(n));
        self.lemma_binary_value(BinaryOp::Multiply, halves, n);
        let before = Element::Binary(BinaryOp::Subtract, Box::new(n), Box::new(whole_element(1)));
        self.lemma_binary_value(BinaryOp::Subtract, n, whole_element(1));
        let product = Element::Binary(BinaryOp::Multiply, Box::new(rising), Box::new(before));
        self.lemma_binary_value(BinaryOp::Multiply, rising, before);
        let bend = Element::Binary(
            BinaryOp::Divide,
            Box::new(product),
            Box::new(whole_element(SOURCE_UPSAMPLE)),
        );
        self.lemma_binary_value(BinaryOp::Divide, product, whole_element(SOURCE_UPSAMPLE));
        self.lemma_binary_value(BinaryOp::Add, steady, bend);
        assert(self.value(n) == (j + 1) as real);
        assert(self.value(half_element()) == 1 as real / (2 as real));
        assert(self.value(whole_element(1)) == 1 as real);
        assert(self.value(whole_element(SOURCE_UPSAMPLE)) == 64 as real);
        let (m, k) = ((j + 1) as real, j as real);
        assert(m - 1 as real == k);
        lemma_product(j + 1, j);
        assert(y * (1 as real / (2 as real)) * m * k / (64 as real) == y * (m * k) / (128 as real))
            by (nonlinear_arith);
    }

    /// What the frames before frame `f` add, but for whole turns.
    proof fn lemma_ends(self, f0: Tensor, frames: i32, b: int, f: int) -> (z: int)
        requires
            0 <= f <= frames,
        ensures
            sum(f as nat, self.end_values(f0, frames, b)) == turned(
                sum((f * 64) as nat, self.turns_of(f0, frames, b)),
                z,
            ),
        decreases f,
    {
        if f == 0 {
            0
        } else {
            let before = self.lemma_ends(f0, frames, b, f - 1);
            let last = SOURCE_UPSAMPLE - 1;
            self.lemma_turns(f0, frames, b, f - 1, last);
            self.lemma_frame_sum(f0, frames, b, f - 1, 64);
            let turns = turns_at(f0, frames, b, f - 1, last);
            let wraps = self.lemma_wrapped(turns);
            assert((f * 64) as nat == ((f - 1) * 64) as nat + 64nat);
            before + wraps
        }
    }

    /// The wrapped turns at the end of each frame.
    spec fn end_values(self, f0: Tensor, frames: i32, b: int) -> spec_fn(int) -> real {
        |k: int| self.value(wrapped(turns_at(f0, frames, b, k, SOURCE_UPSAMPLE - 1)))
    }

    /// Wrapping takes away whole turns.
    proof fn lemma_wrapped(self, turns: Element) -> (z: int)
        ensures
            self.value(wrapped(turns)) == turned(self.value(turns), z),
    {
        self.lemma_ends_of_expressions();
        self.lemma_whole(1);
        let shifted = Element::Binary(BinaryOp::Add, Box::new(turns), Box::new(half_element()));
        let rest = Element::Binary(
            BinaryOp::Remainder,
            Box::new(shifted),
            Box::new(whole_element(1)),
        );
        self.lemma_binary_value(BinaryOp::Add, turns, half_element());
        self.lemma_binary_value(BinaryOp::Remainder, shifted, whole_element(1));
        self.lemma_binary_value(BinaryOp::Subtract, rest, half_element());
        assert(self.value(half_element()) == 1 as real / (2 as real));
        assert(self.value(whole_element(1)) == 1 as real);
        let x = self.value(shifted);
        lemma_over_one(x, self.value(whole_element(1)));
        let z = x.floor();
        assert(z as real * self.value(whole_element(1)) == z as real) by (nonlinear_arith)
            requires
                self.value(whole_element(1)) == 1 as real,
        ;
        -z
    }

    /// The turns of the first `n` samples of a frame.
    proof fn lemma_frame_sum(self, f0: Tensor, frames: i32, b: int, f: int, n: nat)
        requires
            0 <= f < frames,
            n <= 64,
        ensures
            ({
                let p = self.turns_of(f0, frames, b);
                let rate = 11_025 as real / (2 as real);
                let turn = self.pitch(f0, b, f) / rate;
                let change = (self.next_pitch(f0, frames, b, f) - self.pitch(f0, b, f)) / rate;
                sum((f * 64) as nat + n, p) == sum((f * 64) as nat, p) + turn * (n as int as real)
                    + change * ((n * (n - 1)) as real) / (128 as real)
            }),
    {
        let p = self.turns_of(f0, frames, b);
        let rate = 11_025 as real / (2 as real);
        let g = self.pitch(f0, b, f);
        let h = self.next_pitch(f0, frames, b, f);
        let (turn, change) = (g / rate, (h - g) / rate);
        let start = (f * 64) as nat;
        assert forall|i: int| 0 <= i < n implies #[trigger] p(start + i) == turn + change * (
        i as real) / (64 as real) by {
            let m = start + i;
            assert(m / 64 == f && m % 64 == i);
            let (d, k) = (h - g, i as real);
            assert((g + d * k / (64 as real)) / rate == g / rate + d / rate * k / (64 as real))
                by (nonlinear_arith)
                requires
                    rate == 11_025 as real / (2 as real),
            ;
        }
        lemma_line(start, n, turn, change, p);
    }

    /// The phase at which a frame starts, but for whole turns.
    proof fn lemma_start(self, f0: Tensor, frames: i32, b: int, f: int) -> (z: int)
        requires
            0 <= f < frames,
        ensures
            self.value(start_at(f0, frames, b, f)) == turned(
                sum((f * 64) as nat, self.turns_of(f0, frames, b)),
                z,
            ),
    {
        self.lemma_ends_of_expressions();
        if f == 0 {
            0
        } else {
        self.lemma_whole(1);
            let z = self.lemma_ends(f0, frames, b, f);
            let ends = ends_before(f0, frames, b, f);
            let added = Element::Sum(ends);
            self.lemma_binary_value(BinaryOp::Remainder, added, whole_element(1));
            self.lemma_sum_value(ends, self.end_values(f0, frames, b));
            let x = self.value(added);
            assert(self.value(whole_element(1)) == 1 as real);
            lemma_over_one(x, self.value(whole_element(1)));
            let w = x.floor();
            assert(w as real * self.value(whole_element(1)) == w as real) by (nonlinear_arith)
                requires
                    self.value(whole_element(1)) == 1 as real,
            ;
            z - w
        }
    }
}

/// The source is a wave whose phase at sample `n` is the sum of the pitch over all samples
/// until then, in turns: the pitch divided by the 5512.5 samples per second, where it moves on
/// a line from each frame to the next, and stays at that of the last.
pub proof fn lemma_source_phase(numbers: Numbers, f0: Tensor, frames: i32, b: int, n: int)
    requires
        numbers.is_periodic(),
        f0.shape.len() == 2,
        f0.shape[1] == frames,
        frames * SOURCE_UPSAMPLE <= i32::MAX,
        0 <= b < f0.shape[0],
        0 <= n < frames * 64,
    ensures
        numbers.of(harmonic_source(f0, frames), seq![b, n, 0]) == (numbers.sine)(
            sum(
                (n + 1) as nat,
                |m: int|
                    {
                        let g = numbers.at(f0, seq![b, m / 64]);
                        let h = if m / 64 + 1 < frames {
                            numbers.at(f0, seq![b, m / 64 + 1])
                        } else {
                            g
                        };
                        (g + (h - g) * ((m % 64) as real) / (64 as real)) / (11_025 as real / (
                        2 as real))
                    },
            ) * ((2 as real) * numbers.pi),
        ),
{
    let (f, j) = (n / 64, n % 64);
    assert(n == f * 64 + j);
    lemma_source_element(f0, frames, b, f, j);
    let z = numbers.lemma_start(f0, frames, b, f);
    numbers.lemma_turns(f0, frames, b, f, j);
    numbers.lemma_frame_sum(f0, frames, b, f, (j + 1) as nat);
    assert((f * 64) as nat + (j + 1) as nat == (n + 1) as nat);
    let (turns, start) = (turns_at(f0, frames, b, f, j), start_at(f0, frames, b, f));
    let phase = Element::Binary(BinaryOp::Add, Box::new(turns), Box::new(start));
    numbers.lemma_binary_value(BinaryOp::Add, turns, start);
    numbers.lemma_ends_of_expressions();
    let two_pi = Element::Constant(Scalar::TwoPi);
    let angle = Element::Binary(BinaryOp::Multiply, Box::new(phase), Box::new(two_pi));
    numbers.lemma_binary_value(BinaryOp::Multiply, phase, two_pi);
    assert(numbers.value(two_pi) == (2 as real) * numbers.pi);
    let total = sum((n + 1) as nat, numbers.turns_of(f0, frames, b));
    assert(numbers.value(phase) == turned(total, z));
    numbers.lemma_unary_value(UnaryOp::Sin, angle);
    assert(numbers.wave(turned(total, z)) == numbers.wave(total));
    let p = |m: int|
        {
            let g = numbers.at(f0, seq![b, m / 64]);
            let h = if m / 64 + 1 < frames {
                numbers.at(f0, seq![b, m / 64 + 1])
            } else {
                g
            };
            (g + (h - g) * ((m % 64) as real) / (64 as real)) / (11_025 as real / (2 as real))
        };
    lemma_sum((n + 1) as nat, numbers.turns_of(f0, frames, b), p);
}

} // verus!
