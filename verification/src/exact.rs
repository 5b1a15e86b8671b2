//! Expressions in exact arithmetic: what elements are when no number is rounded to single
//! precision.
use vstd::arithmetic::power2::pow2;
use vstd::prelude::*;

use crate::element::Element;
use crate::tensor::{BinaryOp, Expr, Scalar, Source, UnaryOp};

verus! {

/// The number that a constant stands for, where that is a fraction.
pub open spec fn scalar_value(value: Scalar) -> Option<real> {
    match value {
        Scalar::Ratio { num, den } => if den != 0 {
            Some(num as int as real / (den as int as real))
        } else {
            None
        },
        Scalar::Int(n) => Some(n as int as real),
        Scalar::PowerOfTwo(n) => Some(pow2(n as nat) as int as real),
        _ => None,
    }
}

/// A whole number.
pub proof fn lemma_whole_value(n: i32)
    ensures
        scalar_value(Scalar::Ratio { num: n, den: 1 }) == Some(n as int as real),
{
    lemma_over_one(n as int as real, 1i32 as int as real);
}

/// Division by one.
pub proof fn lemma_over_one(x: real, one: real)
    requires
        one == 1 as real,
    ensures
        x / one == x,
{
    assert(x / one == x) by (nonlinear_arith)
        requires
            one == 1 as real,
    ;
}

/// The nearest integer, and of two the even one.
pub open spec fn rounded(x: real) -> int {
    let k = x.floor();
    let twice = (x - k as real) * (2 as real);
    if twice < 1 as real || (twice == 1 as real && k % 2 == 0) {
        k
    } else {
        k + 1
    }
}

/// The number between two bounds that is nearest to `x`.
pub open spec fn bounded(x: real, low: real, high: real) -> real {
    if x < low {
        low
    } else if x > high {
        high
    } else {
        x
    }
}

/// An operation on a number, where its result is a fraction.
pub open spec fn unary_value(op: UnaryOp, x: real) -> Option<real> {
    match op {
        UnaryOp::Square => Some(x * x),
        UnaryOp::Floor => Some(x.floor() as real),
        UnaryOp::Round => Some(rounded(x) as real),
        UnaryOp::ToFloat32 => Some(x),
        UnaryOp::ToInt16 => if x == x.floor() as real && i16::MIN <= x.floor() <= i16::MAX {
            Some(x)
        } else {
            None
        },
        UnaryOp::Clip(low, high) => match (scalar_value(low), scalar_value(high)) {
            (Some(a), Some(b)) => Some(bounded(x, a, b)),
            _ => None,
        },
        _ => None,
    }
}

/// An operation on two numbers, where its result is a fraction.
pub open spec fn binary_value(op: BinaryOp, x: real, y: real) -> Option<real> {
    match op {
        BinaryOp::Add => Some(x + y),
        BinaryOp::Subtract => Some(x - y),
        BinaryOp::Multiply => Some(x * y),
        BinaryOp::Divide => if y != 0 as real {
            Some(x / y)
        } else {
            None
        },
        BinaryOp::Remainder => if y != 0 as real {
            Some(x - (x / y).floor() as real * y)
        } else {
            None
        },
        BinaryOp::Maximum => Some(
            if x < y {
                y
            } else {
                x
            },
        ),
        BinaryOp::Minimum => Some(
            if y < x {
                y
            } else {
                x
            },
        ),
    }
}

/// The number that an element is, when the first array that the plan is given holds `given`;
/// nothing where it rests on another array or is not a fraction.
pub open spec fn exact(e: Element, given: spec_fn(Seq<int>) -> real) -> Option<real>
    decreases e,
{
    match e {
        Element::Zero => Some(0 as real),
        Element::Number(n) => Some(n as real),
        Element::Constant(value) => scalar_value(value),
        Element::Of(t, i) => if t.expr == Expr::Leaf(Source::Input(0)) {
            Some(given(i))
        } else {
            None
        },
        Element::Unary(op, x) => match exact(*x, given) {
            Some(a) => unary_value(op, a),
            None => None,
        },
        Element::Binary(op, x, y) => match (exact(*x, given), exact(*y, given)) {
            (Some(a), Some(b)) => binary_value(op, a, b),
            _ => None,
        },
        Element::Sum(terms) => total(terms, terms.len(), given),
        Element::Mean(terms) => match total(terms, terms.len(), given) {
            Some(a) => if terms.len() > 0 {
                Some(a / (terms.len() as int as real))
            } else {
                None
            },
            None => None,
        },
        _ => None,
    }
}

/// The sum of the first `count` elements.
pub open spec fn total(
    terms: Seq<Element>,
    count: nat,
    given: spec_fn(Seq<int>) -> real,
) -> Option<real>
    decreases terms, count,
{
    if count == 0 {
        Some(0 as real)
    } else if count > terms.len() {
        None
    } else {
        match (total(terms, (count - 1) as nat, given), exact(terms[count - 1], given)) {
            (Some(a), Some(b)) => Some(a + b),
            _ => None,
        }
    }
}

/// The number that an operation on an element gives.
pub proof fn lemma_exact_unary(op: UnaryOp, x: Element, given: spec_fn(Seq<int>) -> real)
    requires
        exact(x, given) is Some,
    ensures
        exact(Element::Unary(op, Box::new(x)), given) == unary_value(op, exact(x, given)->0),
{
}

} // verus!
