//! Plans one after the other: what a plan computes when an array that it is given is the
//! result of another plan.
use vstd::prelude::*;

use crate::tensor::{
    binary, concat2, concat3, conv, evaluated, joined, launched, matmul, reshape, shapes_of, slice,
    BinaryOp, Expr, LaunchView, Outcome, Tensor,
};

verus! {

/// An array that a plan is given, and the tensor that it is.
pub struct Binding {
    pub given: Tensor,
    pub value: Tensor,
}

impl Binding {
    /// A leaf stands for a tensor of its shape.
    pub open spec fn wf(self) -> bool {
        &&& self.given.expr is Leaf
        &&& self.given.shape == self.value.shape
    }

    /// The given array is one that a call receives.
    pub open spec fn binds_input(self) -> bool {
        self.wf() && (self.given.expr matches Expr::Leaf(source) && source is Input)
    }

    /// The array is another one.
    pub open spec fn spares(self, array: Tensor) -> bool {
        array.expr is Leaf && array != self.given
    }

    /// What `t` is when the given array is the value.
    pub open spec fn within(self, t: Tensor) -> Tensor
        decreases t,
    {
        if t == self.given {
            self.value
        } else {
            let expr = match t.expr {
                Expr::Leaf(source) => Expr::Leaf(source),
                Expr::Constant(value) => Expr::Constant(value),
                Expr::Range(start, stop) => Expr::Range(start, stop),
                Expr::Zeros => Expr::Zeros,
                Expr::Unary(op, x) => Expr::Unary(op, Box::new(self.within(*x))),
                Expr::Binary(op, x, y) => Expr::Binary(
                    op,
                    Box::new(self.within(*x)),
                    Box::new(self.within(*y)),
                ),
                Expr::Slice(x, axis, start, stop) => Expr::Slice(
                    Box::new(self.within(*x)),
                    axis,
                    start,
                    stop,
                ),
                Expr::Reverse(x, axis) => Expr::Reverse(Box::new(self.within(*x)), axis),
                Expr::Concat(parts, axis) => Expr::Concat(
                    Seq::new(
                        parts.len(),
                        |k: int|
                            if 0 <= k < parts.len() {
                                self.within(parts[k])
                            } else {
                                parts[k]
                            },
                    ),
                    axis,
                ),
                Expr::Reshape(x) => Expr::Reshape(Box::new(self.within(*x))),
                Expr::ReverseAxes(x) => Expr::ReverseAxes(Box::new(self.within(*x))),
                Expr::Windows(x, row, hop) => Expr::Windows(Box::new(self.within(*x)), row, hop),
                Expr::Stretch(x) => Expr::Stretch(Box::new(self.within(*x))),
                Expr::Pad(x, axis, before, after) => Expr::Pad(
                    Box::new(self.within(*x)),
                    axis,
                    before,
                    after,
                ),
                Expr::MatMul(x, w) => Expr::MatMul(
                    Box::new(self.within(*x)),
                    Box::new(self.within(*w)),
                ),
                Expr::Rfft(x, points) => Expr::Rfft(Box::new(self.within(*x)), points),
                Expr::CumSum(x, axis) => Expr::CumSum(Box::new(self.within(*x)), axis),
                Expr::Mean(x, axis) => Expr::Mean(Box::new(self.within(*x)), axis),
                Expr::Pick(x, index, axis) => Expr::Pick(
                    Box::new(self.within(*x)),
                    Box::new(self.within(*index)),
                    axis,
                ),
                Expr::Conv(x, w, stride, padding, dilation) => Expr::Conv(
                    Box::new(self.within(*x)),
                    Box::new(self.within(*w)),
                    stride,
                    padding,
                    dilation,
                ),
                Expr::ConvTranspose(x, w, stride, padding) => Expr::ConvTranspose(
                    Box::new(self.within(*x)),
                    Box::new(self.within(*w)),
                    stride,
                    padding,
                ),
                Expr::Kernel(launch, inputs) => Expr::Kernel(
                    launch,
                    Seq::new(
                        inputs.len(),
                        |k: int|
                            if 0 <= k < inputs.len() {
                                self.within(inputs[k])
                            } else {
                                inputs[k]
                            },
                    ),
                ),
                Expr::Evaluated(x) => Expr::Evaluated(Box::new(self.within(*x))),
            };
            Tensor { shape: t.shape, expr }
        }
    }

    /// What `o` is when the given array is the value.
    pub open spec fn inside(self, o: Outcome) -> Outcome {
        match o {
            Ok(t) => Ok(self.within(t)),
            Err(e) => Err(e),
        }
    }

    /// The shape stays.
    pub proof fn lemma_shape(self, t: Tensor)
        requires
            self.wf(),
        ensures
            self.within(t).shape == t.shape,
    {
    }

    /// Other arrays stay.
    pub proof fn lemma_spared(self, array: Tensor)
        requires
            self.spares(array),
        ensures
            self.within(array) == array,
    {
    }

    /// Through an operation on pairs of elements.
    pub proof fn lemma_binary(self, op: BinaryOp, a: Outcome, b: Outcome)
        requires
            self.wf(),
        ensures
            self.inside(binary(op, a, b)) == binary(op, self.inside(a), self.inside(b)),
    {
        if a is Ok && b is Ok {
            self.lemma_shape(a->Ok_0);
            self.lemma_shape(b->Ok_0);
        }
    }

    /// Through a slice.
    pub proof fn lemma_slice(self, a: Outcome, axis: int, start: int, stop: int)
        requires
            self.wf(),
        ensures
            self.inside(slice(a, axis, start, stop)) == slice(self.inside(a), axis, start, stop),
    {
        if a is Ok {
            self.lemma_shape(a->Ok_0);
        }
    }

    /// Through a change of shape.
    pub proof fn lemma_reshape(self, a: Outcome, dims: Seq<i32>)
        requires
            self.wf(),
        ensures
            self.inside(reshape(a, dims)) == reshape(self.inside(a), dims),
    {
        if a is Ok {
            self.lemma_shape(a->Ok_0);
        }
    }

    /// Through an evaluation.
    pub proof fn lemma_evaluated(self, a: Outcome)
        requires
            self.wf(),
        ensures
            self.inside(evaluated(a)) == evaluated(self.inside(a)),
    {
        if a is Ok {
            self.lemma_shape(a->Ok_0);
        }
    }

    /// Through a matrix product.
    pub proof fn lemma_matmul(self, a: Outcome, b: Outcome)
        requires
            self.wf(),
        ensures
            self.inside(matmul(a, b)) == matmul(self.inside(a), self.inside(b)),
    {
        if a is Ok && b is Ok {
            self.lemma_shape(a->Ok_0);
            self.lemma_shape(b->Ok_0);
        }
    }

    /// Through a convolution.
    pub proof fn lemma_conv(
        self,
        a: Outcome,
        w: Outcome,
        stride: int,
        padding: int,
        dilation: int,
    )
        requires
            self.wf(),
        ensures
            self.inside(conv(a, w, stride, padding, dilation)) == conv(
                self.inside(a),
                self.inside(w),
                stride,
                padding,
                dilation,
            ),
    {
        if a is Ok && w is Ok {
            self.lemma_shape(a->Ok_0);
            self.lemma_shape(w->Ok_0);
        }
    }

    /// What tensors are when the given array is the value.
    pub open spec fn within_all(self, parts: Seq<Tensor>) -> Seq<Tensor> {
        Seq::new(parts.len(), |k: int| self.within(parts[k]))
    }

    /// Through the joining of arrays.
    pub proof fn lemma_joined(self, parts: Seq<Tensor>, axis: int)
        requires
            self.wf(),
        ensures
            self.inside(joined(parts, axis)) == joined(self.within_all(parts), axis),
    {
        let changed = self.within_all(parts);
        assert(shapes_of(changed) =~= shapes_of(parts)) by {
            assert forall|k: int| 0 <= k < parts.len() implies #[trigger] shapes_of(changed)[k]
                == shapes_of(parts)[k] by {
                self.lemma_shape(parts[k]);
            }
        }
        if joined(parts, axis) is Ok {
            let t = joined(parts, axis)->Ok_0;
            assert(self.within(t).expr->Concat_0 =~= changed);
        }
    }

    /// Through the joining of two arrays.
    pub proof fn lemma_concat2(self, a: Outcome, b: Outcome, axis: int)
        requires
            self.wf(),
        ensures
            self.inside(concat2(a, b, axis)) == concat2(self.inside(a), self.inside(b), axis),
    {
        if a is Ok && b is Ok {
            let parts = seq![a->Ok_0, b->Ok_0];
            self.lemma_joined(parts, axis);
            assert(self.within_all(parts) =~= seq![self.within(parts[0]), self.within(parts[1])]);
        }
    }

    /// Through the joining of three arrays.
    pub proof fn lemma_concat3(self, a: Outcome, b: Outcome, c: Outcome, axis: int)
        requires
            self.wf(),
        ensures
            self.inside(concat3(a, b, c, axis)) == concat3(
                self.inside(a),
                self.inside(b),
                self.inside(c),
                axis,
            ),
    {
        if a is Ok && b is Ok && c is Ok {
            let parts = seq![a->Ok_0, b->Ok_0, c->Ok_0];
            self.lemma_joined(parts, axis);
            assert(self.within_all(parts) =~= seq![
                self.within(parts[0]),
                self.within(parts[1]),
                self.within(parts[2]),
            ]);
        }
    }

    /// Through a device kernel.
    pub proof fn lemma_launched(self, launch: LaunchView, inputs: Seq<Tensor>)
        requires
            self.wf(),
        ensures
            self.within(launched(launch, inputs)) == launched(launch, self.within_all(inputs)),
    {
        let t = launched(launch, inputs);
        assert(self.within(t).expr->Kernel_1 =~= self.within_all(inputs));
    }
}

} // verus!
