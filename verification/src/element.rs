//! Where the elements of a tensor come from.
//!
//! Many operations only move elements: they slice, reverse, join, pad or rename positions.
//! Others compute an element from few others. [`element`] follows an element through both to
//! the arrays behind it.
use vstd::prelude::*;

use crate::shape::{
    clamp_position, columns, leading, lemma_volume1, lemma_volume2, reshape_shape, rows,
};
use crate::tensor::{
    binary, constant, reshape, unary, BinaryOp, Expr, Outcome, Scalar, Tensor, UnaryOp,
};

verus! {

/// What an element is, or how it is computed.
pub enum Element {
    /// The number zero.
    Zero,
    /// This number.
    Number(int),
    Constant(Scalar),
    /// The element at these positions of an array that is given, or computed as a whole.
    Of(Tensor, Seq<int>),
    Unary(UnaryOp, Box<Element>),
    Binary(BinaryOp, Box<Element>, Box<Element>),
    /// The one of these elements whose number is the value of another element.
    Picked(Seq<Element>, Box<Element>),
    Sum(Seq<Element>),
    Mean(Seq<Element>),
    /// The sum of the products of these pairs.
    Dot(Seq<(Element, Element)>),
    /// The coefficient with this number of the spectrum of these points.
    Spectrum(Seq<Element>, int),
}

/// The place of the element at positions `i` when the elements of an array of shape `s` are
/// counted in order.
pub open spec fn ravel(s: Seq<i32>, i: Seq<int>) -> int
    decreases s.len(),
{
    if s.len() == 0 {
        0
    } else {
        ravel(s.drop_last(), i.drop_last()) * s.last() + i.last()
    }
}

/// The positions of the element at place `n` of an array of shape `s`.
pub open spec fn unravel(s: Seq<i32>, n: int) -> Seq<int>
    decreases s.len(),
{
    if s.len() == 0 {
        Seq::empty()
    } else {
        unravel(s.drop_last(), n / s.last() as int).push(n % s.last() as int)
    }
}

/// The part that position `p` along an axis of joined parts falls on, and the position there.
pub open spec fn part_of(parts: Seq<Tensor>, axis: int, p: int) -> (int, int)
    decreases parts.len(),
{
    if parts.len() == 0 {
        (0, p)
    } else if p < parts[0].shape[axis] {
        (0, p)
    } else {
        let (k, q) = part_of(parts.drop_first(), axis, p - parts[0].shape[axis]);
        (k + 1, q)
    }
}

/// The positions in an array of shape `s` that is stretched, when those in the result are
/// `i`.
pub open spec fn unstretched(s: Seq<i32>, i: Seq<int>) -> Seq<int> {
    Seq::new(
        s.len(),
        |k: int|
            if s[k] == 1 {
                0
            } else {
                i[i.len() - s.len() + k]
            },
    )
}

/// The positions before those in the matrices, of the element at positions `i` of a product
/// of arrays of shapes `x` and `w`.
pub open spec fn leading_place(x: Seq<i32>, w: Seq<i32>, i: Seq<int>) -> Seq<int> {
    i.take(i.len() - rows(x).len() - columns(w).len())
}

/// The positions of the element that is factor `k` in the row behind that element.
pub open spec fn row_place(x: Seq<i32>, w: Seq<i32>, i: Seq<int>, k: int) -> Seq<int> {
    if x.len() > 1 {
        unstretched(leading(x), leading_place(x, w, i)).push(
            i[i.len() - 1 - columns(w).len()],
        ).push(k)
    } else {
        seq![k]
    }
}

/// The positions of the element that is factor `k` in the column behind that element.
pub open spec fn column_place(x: Seq<i32>, w: Seq<i32>, i: Seq<int>, k: int) -> Seq<int> {
    if w.len() > 1 {
        unstretched(leading(w), leading_place(x, w, i)).push(k).push(i.last())
    } else {
        seq![k]
    }
}

/// The element at positions `i` of a tensor.
pub open spec fn element(t: Tensor, i: Seq<int>) -> Element
    decreases t,
{
    match t.expr {
        Expr::Zeros => Element::Zero,
        Expr::Slice(x, axis, start, _) => element(
            *x,
            i.update(axis, i[axis] + clamp_position(x.shape[axis] as int, start)),
        ),
        Expr::Reverse(x, axis) => element(*x, i.update(axis, x.shape[axis] - 1 - i[axis])),
        Expr::Concat(parts, axis) => {
            let (k, q) = part_of(parts, axis, i[axis]);
            if 0 <= k < parts.len() {
                element(parts[k], i.update(axis, q))
            } else {
                Element::Of(t, i)
            }
        },
        Expr::Reshape(x) => element(*x, unravel(x.shape, ravel(t.shape, i))),
        Expr::ReverseAxes(x) => element(*x, seq![i[2], i[1], i[0]]),
        Expr::Windows(x, row, hop) => element(*x, unravel(x.shape, i[0] * row + i[1] * hop + i[2])),
        Expr::Stretch(x) => element(*x, unstretched(x.shape, i)),
        Expr::Pad(x, axis, before, _) => if before <= i[axis] < before + x.shape[axis] {
            element(*x, i.update(axis, i[axis] - before))
        } else {
            Element::Zero
        },
        Expr::Evaluated(x) => element(*x, i),
        Expr::Constant(value) => Element::Constant(value),
        Expr::Range(start, _) => Element::Number(start + i[0]),
        Expr::Unary(op, x) => Element::Unary(op, Box::new(element(*x, i))),
        Expr::Binary(op, x, y) => Element::Binary(
            op,
            Box::new(element(*x, unstretched(x.shape, i))),
            Box::new(element(*y, unstretched(y.shape, i))),
        ),
        Expr::Pick(x, index, axis) => Element::Picked(
            Seq::new(x.shape[axis] as nat, |k: int| element(*x, i.update(axis, k))),
            Box::new(element(*index, i)),
        ),
        Expr::Rfft(x, points) => Element::Spectrum(
            Seq::new(
                points as nat,
                |k: int|
                    if k < x.shape.last() {
                        element(*x, i.drop_last().push(k))
                    } else {
                        Element::Zero
                    },
            ),
            i.last(),
        ),
        Expr::Conv(x, w, stride, padding, dilation) => Element::Sum(
            Seq::new(
                w.shape[1] as nat,
                |tap: int|
                    {
                        let p = i[1] * stride + tap * dilation - padding;
                        if 0 <= p < x.shape[1] {
                            Element::Dot(
                                Seq::new(
                                    w.shape[2] as nat,
                                    |c: int|
                                        (
                                            element(*x, seq![i[0], p, c]),
                                            element(*w, seq![i[2], tap, c]),
                                        ),
                                ),
                            )
                        } else {
                            Element::Zero
                        }
                    },
            ),
        ),
        Expr::ConvTranspose(x, w, stride, padding) => Element::Sum(
            Seq::new(
                w.shape[1] as nat,
                |tap: int|
                    {
                        let p = i[1] + padding - tap;
                        if p % stride == 0 && 0 <= p / stride < x.shape[1] {
                            Element::Dot(
                                Seq::new(
                                    w.shape[2] as nat,
                                    |c: int|
                                        (
                                            element(*x, seq![i[0], p / stride, c]),
                                            element(*w, seq![i[2], tap, c]),
                                        ),
                                ),
                            )
                        } else {
                            Element::Zero
                        }
                    },
            ),
        ),
        Expr::CumSum(x, axis) => Element::Sum(
            Seq::new((i[axis] + 1) as nat, |k: int| element(*x, i.update(axis, k))),
        ),
        Expr::Mean(x, axis) => Element::Mean(
            Seq::new(x.shape[axis] as nat, |k: int| element(*x, i.insert(axis, k))),
        ),
        Expr::MatMul(x, w) => Element::Dot(
            Seq::new(
                x.shape.last() as nat,
                |k: int|
                    (
                        element(*x, row_place(x.shape, w.shape, i, k)),
                        element(*w, column_place(x.shape, w.shape, i, k)),
                    ),
            ),
        ),
        _ => Element::Of(t, i),
    }
}

/// The element at positions `i` of the tensor that an outcome holds.
pub open spec fn element_of(o: Outcome, i: Seq<int>) -> Element {
    element(o->Ok_0, i)
}

/// Places in an array with one axis.
pub proof fn lemma_places1(a: i32, i: int)
    requires
        0 <= i < a,
    ensures
        ravel(seq![a], seq![i]) == i,
        unravel(seq![a], i) == seq![i],
{
    let s = seq![a];
    assert(s.drop_last() =~= Seq::<i32>::empty());
    assert(ravel(s.drop_last(), seq![i].drop_last()) == 0);
    assert(unravel(s.drop_last(), i / a as int) =~= Seq::<int>::empty());
    let n = a as int;
    assert(i % n == i) by (nonlinear_arith)
        requires
            0 <= i < n,
    ;
    assert(unravel(s, i) =~= seq![i]);
}

/// Places in an array with two axes.
pub proof fn lemma_places2(a: i32, b: i32, i: int, j: int)
    requires
        0 <= i < a,
        0 <= j < b,
    ensures
        ravel(seq![a, b], seq![i, j]) == i * b + j,
        unravel(seq![a, b], i * b + j) == seq![i, j],
{
    let s = seq![a, b];
    assert(s.drop_last() =~= seq![a]);
    assert(seq![i, j].drop_last() =~= seq![i]);
    lemma_places1(a, i);
    let (n, d) = (i * b + j, b as int);
    assert(n / d == i && n % d == j) by (nonlinear_arith)
        requires
            n == i * d + j,
            0 <= j < d,
    ;
    assert(unravel(s, n) =~= seq![i, j]);
}

/// Places in an array with three axes.
pub proof fn lemma_places3(a: i32, b: i32, c: i32, i: int, j: int, k: int)
    requires
        0 <= i < a,
        0 <= j < b,
        0 <= k < c,
    ensures
        ravel(seq![a, b, c], seq![i, j, k]) == (i * b + j) * c + k,
        unravel(seq![a, b, c], (i * b + j) * c + k) == seq![i, j, k],
{
    let s = seq![a, b, c];
    assert(s.drop_last() =~= seq![a, b]);
    assert(seq![i, j, k].drop_last() =~= seq![i, j]);
    lemma_places2(a, b, i, j);
    let (m, d) = (i * b + j, c as int);
    let n = m * d + k;
    assert(n / d == m && n % d == k) by (nonlinear_arith)
        requires
            n == m * d + k,
            0 <= k < d,
    ;
    assert(unravel(s, n) =~= seq![i, j, k]);
}

/// Places in an array with four axes.
pub proof fn lemma_places4(a: i32, b: i32, c: i32, d: i32, i: int, j: int, k: int, l: int)
    requires
        0 <= i < a,
        0 <= j < b,
        0 <= k < c,
        0 <= l < d,
    ensures
        ravel(seq![a, b, c, d], seq![i, j, k, l]) == ((i * b + j) * c + k) * d + l,
        unravel(seq![a, b, c, d], ((i * b + j) * c + k) * d + l) == seq![i, j, k, l],
{
    let s = seq![a, b, c, d];
    assert(s.drop_last() =~= seq![a, b, c]);
    assert(seq![i, j, k, l].drop_last() =~= seq![i, j, k]);
    lemma_places3(a, b, c, i, j, k);
    let (m, e) = ((i * b + j) * c + k, d as int);
    let n = m * e + l;
    assert(n / e == m && n % e == l) by (nonlinear_arith)
        requires
            n == m * e + l,
            0 <= l < e,
    ;
    assert(unravel(s, n) =~= seq![i, j, k, l]);
}

/// `i` are the positions of an element of an array of shape `s`.
pub open spec fn within(s: Seq<i32>, i: Seq<int>) -> bool {
    &&& i.len() == s.len()
    &&& forall|k: int| 0 <= k < s.len() ==> 0 <= #[trigger] i[k] < s[k]
}

/// An element of an operation on each element.
pub proof fn lemma_unary_element(op: UnaryOp, a: Outcome, i: Seq<int>)
    requires
        a is Ok,
    ensures
        element_of(unary(op, a), i) == Element::Unary(op, Box::new(element_of(a, i))),
{
}

/// An element of an operation on pairs of elements of two arrays of the same shape.
pub proof fn lemma_binary_element(op: BinaryOp, a: Outcome, b: Outcome, i: Seq<int>)
    requires
        a is Ok,
        b is Ok,
        a->Ok_0.shape == b->Ok_0.shape,
        within(a->Ok_0.shape, i),
        binary(op, a, b) is Ok,
    ensures
        element_of(binary(op, a, b), i) == Element::Binary(
            op,
            Box::new(element_of(a, i)),
            Box::new(element_of(b, i)),
        ),
{
    assert(unstretched(a->Ok_0.shape, i) =~= i);
}

/// An element of an operation with a constant.
pub proof fn lemma_constant_element(op: BinaryOp, a: Outcome, value: Scalar, i: Seq<int>)
    requires
        a is Ok,
        within(a->Ok_0.shape, i),
        binary(op, a, constant(value)) is Ok,
    ensures
        element_of(binary(op, a, constant(value)), i) == Element::Binary(
            op,
            Box::new(element_of(a, i)),
            Box::new(Element::Constant(value)),
        ),
{
    assert(unstretched(a->Ok_0.shape, i) =~= i);
    let x = constant(value);
    assert(element_of(x, unstretched(x->Ok_0.shape, i)) == Element::Constant(value));
}

/// An element of an operation on pairs of elements of two arrays of three axes, where `x` and
/// `y` are the positions in them.
pub proof fn lemma_stretched_element(
    op: BinaryOp,
    a: Outcome,
    b: Outcome,
    i: Seq<int>,
    x: Seq<int>,
    y: Seq<int>,
)
    requires
        a is Ok,
        b is Ok,
        a->Ok_0.shape.len() == 3,
        b->Ok_0.shape.len() == 3,
        i.len() == 3,
        within(a->Ok_0.shape, x),
        within(b->Ok_0.shape, y),
        forall|k: int| 0 <= k < 3 ==> a->Ok_0.shape[k] == 1 || #[trigger] x[k] == i[k],
        forall|k: int| 0 <= k < 3 ==> b->Ok_0.shape[k] == 1 || #[trigger] y[k] == i[k],
        binary(op, a, b) is Ok,
    ensures
        element_of(binary(op, a, b), i) == Element::Binary(
            op,
            Box::new(element_of(a, x)),
            Box::new(element_of(b, y)),
        ),
{
    assert(unstretched(a->Ok_0.shape, i) =~= x);
    assert(unstretched(b->Ok_0.shape, i) =~= y);
}

/// The factors behind an element of the product of an array of three axes with one matrix.
pub proof fn lemma_factor_places(x: Seq<i32>, w: Seq<i32>, b: int, f: int, c: int, k: int)
    requires
        x.len() == 3,
        w.len() == 2,
        0 <= b < x[0],
    ensures
        row_place(x, w, seq![b, f, c], k) == seq![b, f, k],
        column_place(x, w, seq![b, f, c], k) == seq![k, c],
{
    assert(row_place(x, w, seq![b, f, c], k) =~= seq![b, f, k]);
    assert(column_place(x, w, seq![b, f, c], k) =~= seq![k, c]);
}

/// An element of an array with one axis, written as one row.
pub proof fn lemma_row_element(a: Outcome, n: i32, k: int)
    requires
        a is Ok,
        a->Ok_0.shape == seq![n],
        0 <= k < n,
    ensures
        reshape(a, seq![1i32, n]) is Ok,
        element_of(reshape(a, seq![1i32, n]), seq![0, k]) == element_of(a, seq![k]),
{
    reveal(reshape_shape);
    lemma_volume1(n);
    lemma_volume2(1, n);
    lemma_places2(1, n, 0, k);
    lemma_places1(n, k);
    let row = reshape(a, seq![1i32, n]);
    assert(element_of(row, seq![0, k]) == element_of(a, seq![k]));
}

/// Two parts joined along an axis.
pub proof fn lemma_two_parts(a: Tensor, b: Tensor, axis: int, p: int)
    requires
        0 <= p < a.shape[axis] + b.shape[axis],
    ensures
        part_of(seq![a, b], axis, p) == if p < a.shape[axis] {
            (0int, p)
        } else {
            (1int, p - a.shape[axis])
        },
{
    reveal_with_fuel(part_of, 3);
    assert(seq![a, b].drop_first() =~= seq![b]);
}

/// Three parts joined along an axis.
pub proof fn lemma_three_parts(a: Tensor, b: Tensor, c: Tensor, axis: int, p: int)
    requires
        0 <= p < a.shape[axis] + b.shape[axis] + c.shape[axis],
        0 <= b.shape[axis],
    ensures
        part_of(seq![a, b, c], axis, p) == if p < a.shape[axis] {
            (0int, p)
        } else if p < a.shape[axis] + b.shape[axis] {
            (1int, p - a.shape[axis])
        } else {
            (2int, p - a.shape[axis] - b.shape[axis])
        },
{
    reveal_with_fuel(part_of, 4);
    assert(seq![a, b, c].drop_first() =~= seq![b, c]);
    assert(seq![b, c].drop_first() =~= seq![c]);
}

/// Four parts of extent one joined along an axis.
pub proof fn lemma_four_single_parts(parts: Seq<Tensor>, axis: int, p: int)
    requires
        parts.len() == 4,
        forall|k: int| 0 <= k < 4 ==> (#[trigger] parts[k]).shape[axis] == 1,
        0 <= p < 4,
    ensures
        part_of(parts, axis, p) == (p, 0int),
{
    reveal_with_fuel(part_of, 5);
    assert(parts.drop_first()[0] == parts[1]);
    assert(parts.drop_first().drop_first()[0] == parts[2]);
    assert(parts.drop_first().drop_first().drop_first()[0] == parts[3]);
}

} // verus!
