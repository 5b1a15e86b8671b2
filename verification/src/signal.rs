//! Signals: tensors with a batch axis, a time axis and a channel axis, and how the layers
//! change their shapes.
use vstd::prelude::*;

use crate::layers::{Conv1d, ConvTranspose1d};
use crate::shape::{broadcast, conv_length, conv_shape, extent, kernel_span, transposed_shape};
use crate::tensor::{binary, constant, conv, conv_transpose, BinaryOp, Outcome, Scalar};

verus! {

/// There is a tensor, and it has this shape.
pub open spec fn has_shape(o: Outcome, shape: Seq<i32>) -> bool {
    o is Ok && o->Ok_0.shape == shape
}

/// There is a signal of `batch` rows, `length` time steps and `channels` channels.
pub open spec fn is_signal(o: Outcome, batch: int, length: int, channels: int) -> bool {
    &&& o is Ok
    &&& o->Ok_0.shape.len() == 3
    &&& o->Ok_0.shape[0] == batch
    &&& o->Ok_0.shape[1] == length
    &&& o->Ok_0.shape[2] == channels
}

/// Stretching a shape of three axes against one of three axes, axis by axis.
pub proof fn lemma_broadcast3(a: Seq<i32>, b: Seq<i32>)
    requires
        a.len() == 3,
        b.len() == 3,
        a[0] == b[0] || a[0] == 1 || b[0] == 1,
        a[1] == b[1] || a[1] == 1 || b[1] == 1,
        a[2] == b[2] || a[2] == 1 || b[2] == 1,
    ensures
        broadcast(a, b) is Some,
        broadcast(a, b)->0 == seq![
            if a[0] == 1 {
                b[0]
            } else {
                a[0]
            },
            if a[1] == 1 {
                b[1]
            } else {
                a[1]
            },
            if a[2] == 1 {
                b[2]
            } else {
                a[2]
            },
        ],
{
    reveal(broadcast);
    assert forall|i: int| 0 <= i < 3 implies extent(a, 3, i) == a[i] && extent(b, 3, i) == b[i] by {
    }
    assert(broadcast(a, b)->0 =~= seq![
        if a[0] == 1 {
            b[0]
        } else {
            a[0]
        },
        if a[1] == 1 {
            b[1]
        } else {
            a[1]
        },
        if a[2] == 1 {
            b[2]
        } else {
            a[2]
        },
    ]);
}

/// An operation on two arrays of one shape keeps it.
pub proof fn lemma_same_shape(op: BinaryOp, a: Outcome, b: Outcome)
    requires
        a is Ok,
        b is Ok,
        a->Ok_0.shape == b->Ok_0.shape,
    ensures
        has_shape(binary(op, a, b), a->Ok_0.shape),
{
    reveal(broadcast);
    let s = a->Ok_0.shape;
    assert(broadcast(s, s)->0 =~= s);
}

/// An operation with a constant keeps the shape.
pub proof fn lemma_with_constant(op: BinaryOp, a: Outcome, value: Scalar)
    requires
        a is Ok,
    ensures
        has_shape(binary(op, a, constant(value)), a->Ok_0.shape),
{
    reveal(broadcast);
    let s = a->Ok_0.shape;
    let c = Seq::<i32>::empty();
    assert forall|i: int| 0 <= i < s.len() implies extent(c, s.len() as int, i) == 1 && extent(
        s,
        s.len() as int,
        i,
    ) == s[i] by {}
    assert(broadcast(s, c)->0 =~= s);
}

/// A bias for each channel keeps the shape of a signal.
pub proof fn lemma_with_bias(op: BinaryOp, a: Outcome, bias: Outcome)
    requires
        a is Ok,
        bias is Ok,
        a->Ok_0.shape.len() == 3,
        bias->Ok_0.shape == seq![a->Ok_0.shape[2]],
    ensures
        has_shape(binary(op, a, bias), a->Ok_0.shape),
{
    reveal(broadcast);
    let s = a->Ok_0.shape;
    let c = bias->Ok_0.shape;
    assert forall|i: int| 0 <= i < 3 implies extent(s, 3, i) == s[i] && extent(c, 3, i) == (if i
        == 2 {
        s[2]
    } else {
        1
    }) by {}
    assert(broadcast(s, c)->0 =~= s);
}

impl Conv1d {
    /// The padding makes up for the taps.
    pub open spec fn keeps_length(self) -> bool {
        &&& 1 <= self.kernel_size
        &&& 1 <= self.dilation
        &&& 0 <= self.padding
        &&& 2 * self.padding == self.dilation * (self.kernel_size - 1)
    }

    /// A convolution whose padding makes up for its taps keeps the length of a signal.
    pub proof fn lemma_signal(self, x: Outcome, batch: int, length: int)
        requires
            self.conforms(),
            self.keeps_length(),
            1 <= length,
            is_signal(x, batch, length, self.input_channels as int),
        ensures
            is_signal(self.apply(x), batch, length, self.output_channels as int),
    {
        reveal(conv_shape);
        let y = conv(x, self.weight.outcome(), 1, self.padding as int, self.dilation as int);
        assert(kernel_span(self.kernel_size as int, self.dilation as int) == 2 * self.padding + 1);
        assert(conv_length(
            length,
            self.kernel_size as int,
            1,
            self.padding as int,
            self.dilation as int,
        ) == length);
        assert(y is Ok);
        if let Some(b) = self.bias {
            assert(b.shape@ =~= seq![y->Ok_0.shape[2]]);
            lemma_with_bias(BinaryOp::Add, y, b.outcome());
        }
    }
}

impl ConvTranspose1d {
    /// The padding leaves as many steps as the stride for each step of the input.
    pub open spec fn multiplies_length(self) -> bool {
        &&& 1 <= self.kernel_size
        &&& 1 <= self.stride
        &&& 0 <= self.padding
        &&& self.kernel_size - 2 * self.padding == self.stride
    }

    /// Such a transposed convolution multiplies the length of a signal by its stride.
    pub proof fn lemma_signal(self, x: Outcome, batch: int, length: int)
        requires
            self.conforms(),
            self.multiplies_length(),
            1 <= length,
            length * self.stride <= i32::MAX,
            is_signal(x, batch, length, self.input_channels as int),
        ensures
            is_signal(
                self.apply(x),
                batch,
                length * self.stride,
                self.output_channels as int,
            ),
    {
        reveal(transposed_shape);
        let y = conv_transpose(
            x,
            self.weight.outcome(),
            self.stride as int,
            self.padding as int,
        );
        let s = self.stride as int;
        assert((length - 1) * s + s == length * s) by (nonlinear_arith);
        assert(length * s >= 0) by (nonlinear_arith)
            requires
                length >= 1,
                s >= 1,
        ;
        assert(y is Ok);
        if let Some(b) = self.bias {
            assert(b.shape@ =~= seq![y->Ok_0.shape[2]]);
            lemma_with_bias(BinaryOp::Add, y, b.outcome());
        }
    }
}

} // verus!
