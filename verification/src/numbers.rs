//! What plans compute in exact arithmetic, over any numbers in the given arrays and any
//! functions that stand for the roots, logarithms and waves.
use vstd::arithmetic::power2::pow2;
use vstd::prelude::*;

use crate::element::{
    element, element_of, lemma_binary_element, lemma_constant_element, lemma_unary_element, within,
    Element,
};
use crate::exact::{bounded, lemma_over_one, rounded};
use crate::tensor::{binary, constant, evaluated, unary, BinaryOp, Outcome, Scalar, Tensor, UnaryOp};

verus! {

/// The numbers in arrays that are given or computed as a whole, and the functions whose values
/// are no fractions.
pub struct Numbers {
    pub array: spec_fn(Tensor, Seq<int>) -> real,
    pub pi: real,
    pub root: spec_fn(real) -> real,
    pub logarithm: spec_fn(real) -> real,
    pub sine: spec_fn(real) -> real,
    pub cosine: spec_fn(real) -> real,
    pub tangent: spec_fn(real) -> real,
}

/// The sum of `f` over the numbers below `n`.
pub open spec fn sum(n: nat, f: spec_fn(int) -> real) -> real
    decreases n,
{
    if n == 0 {
        0 as real
    } else {
        sum((n - 1) as nat, f) + f(n - 1)
    }
}

/// Sums of the same terms are equal.
pub proof fn lemma_sum(n: nat, f: spec_fn(int) -> real, g: spec_fn(int) -> real)
    requires
        forall|k: int| 0 <= k < n ==> #[trigger] f(k) == g(k),
    ensures
        sum(n, f) == sum(n, g),
    decreases n,
{
    if n > 0 {
        lemma_sum((n - 1) as nat, f, g);
        assert(f(n - 1) == g(n - 1));
    }
}

/// The sum of these numbers.
pub open spec fn added(terms: Seq<real>) -> real
    decreases terms.len(),
{
    if terms.len() == 0 {
        0 as real
    } else {
        added(terms.drop_last()) + terms.last()
    }
}

/// The two ways to write a sum.
pub proof fn lemma_added(terms: Seq<real>, f: spec_fn(int) -> real)
    requires
        forall|k: int| 0 <= k < terms.len() ==> #[trigger] terms[k] == f(k),
    ensures
        added(terms) == sum(terms.len(), f),
    decreases terms.len(),
{
    if terms.len() > 0 {
        let front = terms.drop_last();
        assert forall|k: int| 0 <= k < front.len() implies #[trigger] front[k] == f(k) by {
            assert(front[k] == terms[k]);
        }
        lemma_added(front, f);
        assert(terms[terms.len() - 1] == f(terms.len() - 1));
    }
}

/// The integer part of a number.
pub open spec fn truncated(x: real) -> int {
    if x < 0 as real {
        -(-x).floor()
    } else {
        x.floor()
    }
}

impl Numbers {
    /// The number that a constant stands for.
    pub open spec fn constant(self, value: Scalar) -> real {
        match value {
            Scalar::Ratio { num, den } => num as int as real / (den as int as real),
            Scalar::Int(n) => n as int as real,
            Scalar::PowerOfTwo(n) => pow2(n as nat) as int as real,
            Scalar::TwoPi => (2 as real) * self.pi,
            Scalar::FrameStep => (512 as real / (44_100 as real)) / (160 as real / (
            16_000 as real)),
        }
    }

    /// An operation on a number.
    pub open spec fn unary(self, op: UnaryOp, x: real) -> real {
        match op {
            UnaryOp::Real => x,
            UnaryOp::Imag => 0 as real,
            UnaryOp::Square => x * x,
            UnaryOp::Sqrt => (self.root)(x),
            UnaryOp::Log => (self.logarithm)(x),
            UnaryOp::Floor => x.floor() as real,
            UnaryOp::Round => rounded(x) as real,
            UnaryOp::Sin => (self.sine)(x),
            UnaryOp::Tanh => (self.tangent)(x),
            UnaryOp::ToFloat32 => x,
            UnaryOp::ToInt32 => truncated(x) as real,
            UnaryOp::ToInt16 => truncated(x) as real,
            UnaryOp::LeakyRelu(slope) => if x < 0 as real {
                x * self.constant(slope)
            } else {
                x
            },
            UnaryOp::Clip(low, high) => bounded(x, self.constant(low), self.constant(high)),
        }
    }

    /// An operation on two numbers.
    pub open spec fn binary(self, op: BinaryOp, x: real, y: real) -> real {
        match op {
            BinaryOp::Add => x + y,
            BinaryOp::Subtract => x - y,
            BinaryOp::Multiply => x * y,
            BinaryOp::Divide => x / y,
            BinaryOp::Remainder => x - (x / y).floor() as real * y,
            BinaryOp::Maximum => if x < y {
                y
            } else {
                x
            },
            BinaryOp::Minimum => if y < x {
                y
            } else {
                x
            },
        }
    }

    /// The angle of point `j` in the wave with number `k` over `n` points.
    pub open spec fn angle(self, j: int, k: int, n: int) -> real {
        (2 as real) * self.pi * ((j * k) as real) / (n as real)
    }

    /// How much of the cosine wave with number `k` there is in `xs`.
    pub open spec fn cosine_part(self, xs: Seq<real>, k: int) -> real {
        let n = xs.len() as int;
        added(Seq::new(xs.len(), |j: int| xs[j] * (self.cosine)(self.angle(j, k, n))))
    }

    /// How much of the sine wave with number `k` there is in `xs`.
    pub open spec fn sine_part(self, xs: Seq<real>, k: int) -> real {
        let n = xs.len() as int;
        added(Seq::new(xs.len(), |j: int| xs[j] * (self.sine)(self.angle(j, k, n))))
    }

    /// The number that an element is.
    #[verifier::opaque]
    pub open spec fn value(self, e: Element) -> real
        decreases e,
    {
        match e {
            Element::Zero => 0 as real,
            Element::Number(n) => n as real,
            Element::Constant(value) => self.constant(value),
            Element::Of(t, i) => (self.array)(t, i),
            Element::Unary(op, x) => match (op, *x) {
                (UnaryOp::Real, Element::Spectrum(points, k)) => self.cosine_part(
                    self.values(points),
                    k,
                ),
                (UnaryOp::Imag, Element::Spectrum(points, k)) => -self.sine_part(
                    self.values(points),
                    k,
                ),
                _ => self.unary(op, self.value(*x)),
            },
            Element::Binary(op, x, y) => self.binary(op, self.value(*x), self.value(*y)),
            Element::Picked(choices, index) => {
                let k = self.value(*index).floor();
                if 0 <= k < choices.len() {
                    self.value(choices[k])
                } else {
                    0 as real
                }
            },
            Element::Sum(terms) => added(self.values(terms)),
            Element::Mean(terms) => added(self.values(terms)) / (terms.len() as int as real),
            Element::Dot(pairs) => added(self.products(pairs)),
            Element::Spectrum(points, k) => 0 as real,
        }
    }

    /// The numbers that these elements are.
    pub open spec fn values(self, terms: Seq<Element>) -> Seq<real>
        decreases terms,
    {
        Seq::new(
            terms.len(),
            |k: int|
                if 0 <= k < terms.len() {
                    self.value(terms[k])
                } else {
                    0 as real
                },
        )
    }

    /// The products of these pairs.
    pub open spec fn products(self, pairs: Seq<(Element, Element)>) -> Seq<real>
        decreases pairs,
    {
        Seq::new(
            pairs.len(),
            |k: int|
                if 0 <= k < pairs.len() {
                    self.value(pairs[k].0) * self.value(pairs[k].1)
                } else {
                    0 as real
                },
        )
    }

    /// The number at positions `i` of a tensor.
    pub open spec fn at(self, t: Tensor, i: Seq<int>) -> real {
        self.value(element(t, i))
    }

    /// The number at positions `i` of the tensor that an outcome holds.
    pub open spec fn of(self, o: Outcome, i: Seq<int>) -> real {
        self.value(element_of(o, i))
    }
}

impl Numbers {
    /// What stands at the ends of expressions.
    pub proof fn lemma_ends_of_expressions(self)
        ensures
            self.value(Element::Zero) == 0 as real,
            forall|n: int| #[trigger] self.value(Element::Number(n)) == n as real,
            forall|c: Scalar| #[trigger] self.value(Element::Constant(c)) == self.constant(c),
            forall|t: Tensor, i: Seq<int>|
                #[trigger] self.value(Element::Of(t, i)) == (self.array)(t, i),
    {
        reveal(Numbers::value);
    }

    /// An operation on an element.
    pub proof fn lemma_unary_value(self, op: UnaryOp, x: Element)
        requires
            op is Real || op is Imag ==> !(x is Spectrum),
        ensures
            self.value(Element::Unary(op, Box::new(x))) == self.unary(op, self.value(x)),
    {
        reveal(Numbers::value);
    }

    /// An operation on two elements.
    pub proof fn lemma_binary_value(self, op: BinaryOp, x: Element, y: Element)
        ensures
            self.value(Element::Binary(op, Box::new(x), Box::new(y))) == self.binary(
                op,
                self.value(x),
                self.value(y),
            ),
    {
        reveal(Numbers::value);
    }

    /// One of several elements.
    pub proof fn lemma_picked_value(self, choices: Seq<Element>, index: Element, k: int)
        requires
            0 <= k < choices.len(),
            self.value(index) == k as real,
        ensures
            self.value(Element::Picked(choices, Box::new(index))) == self.value(choices[k]),
    {
        reveal(Numbers::value);
        assert((k as real).floor() == k);
    }

    /// The value of a sum.
    pub proof fn lemma_sum_value(self, terms: Seq<Element>, f: spec_fn(int) -> real)
        requires
            forall|k: int| 0 <= k < terms.len() ==> self.value(#[trigger] terms[k]) == f(k),
        ensures
            self.value(Element::Sum(terms)) == sum(terms.len(), f),
            self.value(Element::Mean(terms)) == sum(terms.len(), f) / (terms.len() as int as real),
    {
        reveal(Numbers::value);
        lemma_added(self.values(terms), f);
    }

    /// The value of a sum, from the numbers.
    pub proof fn lemma_added_value(self, terms: Seq<Element>, xs: Seq<real>)
        requires
            xs.len() == terms.len(),
            forall|k: int| 0 <= k < terms.len() ==> self.value(#[trigger] terms[k]) == xs[k],
        ensures
            self.value(Element::Sum(terms)) == added(xs),
            self.value(Element::Mean(terms)) == added(xs) / (xs.len() as int as real),
    {
        reveal(Numbers::value);
        assert(self.values(terms) =~= xs);
    }

    /// The value of a sum of products, from the products.
    pub proof fn lemma_products_value(self, pairs: Seq<(Element, Element)>, xs: Seq<real>)
        requires
            xs.len() == pairs.len(),
            forall|k: int|
                0 <= k < pairs.len() ==> xs[k] == self.value((#[trigger] pairs[k]).0) * self.value(
                    pairs[k].1,
                ),
        ensures
            self.value(Element::Dot(pairs)) == added(xs),
    {
        reveal(Numbers::value);
        assert(self.products(pairs) =~= xs);
    }

    /// The value of a coefficient of a spectrum.
    pub proof fn lemma_spectrum_value(self, points: Seq<Element>, k: int, xs: Seq<real>)
        requires
            xs.len() == points.len(),
            forall|j: int| 0 <= j < points.len() ==> self.value(#[trigger] points[j]) == xs[j],
        ensures
            ({
                let e = Element::Spectrum(points, k);
                &&& self.value(Element::Unary(UnaryOp::Real, Box::new(e))) == self.cosine_part(
                    xs,
                    k,
                )
                &&& self.value(Element::Unary(UnaryOp::Imag, Box::new(e))) == -self.sine_part(
                    xs,
                    k,
                )
            }),
    {
        reveal(Numbers::value);
        assert(self.values(points) =~= xs);
    }

    /// An operation on each element of an array.
    pub proof fn lemma_unary(self, op: UnaryOp, a: Outcome, i: Seq<int>)
        requires
            a is Ok,
            op is Real || op is Imag ==> !(element_of(a, i) is Spectrum),
        ensures
            self.of(unary(op, a), i) == self.unary(op, self.of(a, i)),
    {
        lemma_unary_element(op, a, i);
        self.lemma_unary_value(op, element_of(a, i));
    }

    /// An operation on two arrays of the same shape.
    pub proof fn lemma_binary(self, op: BinaryOp, a: Outcome, b: Outcome, i: Seq<int>)
        requires
            a is Ok,
            b is Ok,
            a->Ok_0.shape == b->Ok_0.shape,
            within(a->Ok_0.shape, i),
            binary(op, a, b) is Ok,
        ensures
            self.of(binary(op, a, b), i) == self.binary(op, self.of(a, i), self.of(b, i)),
    {
        lemma_binary_element(op, a, b, i);
        self.lemma_binary_value(op, element_of(a, i), element_of(b, i));
    }

    /// An operation with a constant.
    pub proof fn lemma_constant(self, op: BinaryOp, a: Outcome, value: Scalar, i: Seq<int>)
        requires
            a is Ok,
            within(a->Ok_0.shape, i),
            binary(op, a, constant(value)) is Ok,
        ensures
            self.of(binary(op, a, constant(value)), i) == self.binary(
                op,
                self.of(a, i),
                self.constant(value),
            ),
    {
        lemma_constant_element(op, a, value, i);
        self.lemma_binary_value(op, element_of(a, i), Element::Constant(value));
        self.lemma_ends_of_expressions();
    }

    /// An evaluation.
    pub proof fn lemma_evaluated(self, a: Outcome, i: Seq<int>)
        requires
            a is Ok,
        ensures
            self.of(evaluated(a), i) == self.of(a, i),
    {
    }

    /// A whole number.
    pub proof fn lemma_whole(self, n: i32)
        ensures
            self.constant(Scalar::Ratio { num: n, den: 1 }) == n as int as real,
    {
        lemma_over_one(n as int as real, 1i32 as int as real);
    }
}

} // verus!
