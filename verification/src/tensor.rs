//! What a plan computes: operations, and the expressions they build up.
//!
//! A [`Tensor`] is an expression over the arrays that a call receives and the arrays
//! of a checkpoint, together with its shape. It exists in specifications only. Each
//! operation is a function from the outcomes of its operands to its own outcome: a
//! tensor, or the first reason why there is none.
use vstd::prelude::*;

use crate::shape::{
    broadcast, concat_shape, conv_shape, matmul_shape, pad_shape, pick_shape, reduce_shape,
    reshape_shape, rfft_shape, slice_shape, stretch_shape, transposed_shape, valid, windows_shape,
};

verus! {

/// Why a computation cannot be planned.
#[derive(Clone, Copy, Debug, PartialEq, Eq, Structural)]
pub enum PlanError {
    /// The operands of an operation do not fit each other, or an extent of its result
    /// leaves the range of array extents.
    Refused,
    /// The input of an activation has other than three axes.
    ActivationRank,
    /// The input of an activation has no time steps or no channels.
    ActivationEmpty,
    /// An input of a resampling has other than three axes.
    ResampleRank,
    /// The inputs of a resampling differ in batch or channels.
    ResampleMismatch,
    /// The lengths of the inputs of a resampling do not have the ratio of its scale
    /// factor.
    ResampleLength,
}

impl PlanError {
    /// The text shown for this error.
    pub open spec fn text(self) -> Seq<char> {
        match self {
            PlanError::Refused => "数组形状与运算不匹配"@,
            PlanError::ActivationRank => "Activation1d 输入必须是三维数组"@,
            PlanError::ActivationEmpty => "Activation1d 输入维度必须大于零"@,
            PlanError::ResampleRank => "resample 输入必须是三维数组"@,
            PlanError::ResampleMismatch => "resample 的 batch 和 channel 必须一致"@,
            PlanError::ResampleLength => "resample 输出长度与 scale factor 不匹配"@,
        }
    }

    /// Returns [`PlanError::text`].
    pub fn message(&self) -> (r: &'static str)
        ensures
            r@ == self.text(),
    {
        match self {
            PlanError::Refused => "数组形状与运算不匹配",
            PlanError::ActivationRank => "Activation1d 输入必须是三维数组",
            PlanError::ActivationEmpty => "Activation1d 输入维度必须大于零",
            PlanError::ResampleRank => "resample 输入必须是三维数组",
            PlanError::ResampleMismatch => "resample 的 batch 和 channel 必须一致",
            PlanError::ResampleLength => "resample 输出长度与 scale factor 不匹配",
        }
    }
}

/// A constant of a plan.
#[derive(Clone, Copy, Debug, PartialEq, Eq, Structural)]
pub enum Scalar {
    /// The single-precision number nearest to `num / den`.
    Ratio { num: i32, den: i32 },
    /// A 32-bit integer.
    Int(i32),
    /// Two to this power, in single precision.
    PowerOfTwo(u16),
    /// Twice the single-precision number nearest to pi.
    TwoPi,
    /// Pitch frames per mel frame: the duration of a mel frame divided by the duration
    /// of a pitch frame, each rounded to single precision first.
    FrameStep,
}

/// The array that a leaf of a plan stands for.
#[derive(Clone, Copy, Debug, PartialEq, Eq, Hash, Structural)]
pub enum Source {
    /// An array given to the call, by position.
    Input(usize),
    /// An array of the checkpoint, by its place in the weight table.
    Weight(usize),
    /// A result of the plan that ran when the model was loaded, by node.
    Prepared(usize),
}

/// Operations on each element of one array.
#[derive(Clone, Copy, Debug, PartialEq, Eq, Structural)]
pub enum UnaryOp {
    Real,
    Imag,
    Square,
    Sqrt,
    Log,
    Floor,
    Round,
    Sin,
    Tanh,
    ToFloat32,
    ToInt32,
    ToInt16,
    /// Keeps elements above zero and scales the others by the slope.
    LeakyRelu(Scalar),
    /// Moves elements outside the bounds to the nearer bound.
    Clip(Scalar, Scalar),
}

/// Operations on pairs of elements of two arrays.
#[derive(Clone, Copy, Debug, PartialEq, Eq, Structural)]
pub enum BinaryOp {
    Add,
    Subtract,
    Multiply,
    Divide,
    Remainder,
    Maximum,
    Minimum,
}

/// The hand-written device kernels.
#[derive(Clone, Copy, Debug, PartialEq, Eq, Structural)]
pub enum KernelKind {
    Activation,
    Resample,
}

/// How a device kernel is started.
#[verifier::ext_equal]
pub struct LaunchView {
    pub kernel: KernelKind,
    pub output_shape: Seq<i32>,
    pub grid: (i32, i32, i32),
    pub thread_group: (i32, i32, i32),
    pub template_args: Seq<(Seq<char>, i32)>,
}

/// An expression with its shape.
pub struct Tensor {
    pub shape: Seq<i32>,
    pub expr: Expr,
}

/// How the elements of a tensor come about.
pub enum Expr {
    Leaf(Source),
    Constant(Scalar),
    /// The numbers from the first up to, and not including, the second.
    Range(int, int),
    Zeros,
    Unary(UnaryOp, Box<Tensor>),
    Binary(BinaryOp, Box<Tensor>, Box<Tensor>),
    /// Positions along an axis, from the second number up to the third.
    Slice(Box<Tensor>, int, int, int),
    /// An axis read backwards.
    Reverse(Box<Tensor>, int),
    /// Arrays joined along an axis.
    Concat(Seq<Tensor>, int),
    Reshape(Box<Tensor>),
    /// The axes in the opposite order.
    ReverseAxes(Box<Tensor>),
    /// Windows over the elements in order: rows start the first number apart, windows
    /// the second.
    Windows(Box<Tensor>, int, int),
    Stretch(Box<Tensor>),
    /// Zeros added before and after an axis.
    Pad(Box<Tensor>, int, int, int),
    MatMul(Box<Tensor>, Box<Tensor>),
    Rfft(Box<Tensor>, int),
    /// Running sums along an axis.
    CumSum(Box<Tensor>, int),
    Mean(Box<Tensor>, int),
    /// The elements of the first array that the second picks along an axis.
    Pick(Box<Tensor>, Box<Tensor>, int),
    /// A convolution with a stride, a padding and a dilation.
    Conv(Box<Tensor>, Box<Tensor>, int, int, int),
    /// A transposed convolution with a stride and a padding.
    ConvTranspose(Box<Tensor>, Box<Tensor>, int, int),
    Kernel(LaunchView, Seq<Tensor>),
    /// The same elements, computed before the plan goes on.
    Evaluated(Box<Tensor>),
}

/// A tensor, or the first reason why there is none.
pub type Outcome = Result<Tensor, PlanError>;

/// The outcome with this shape and expression, or a refusal where there is no shape.
pub open spec fn shaped(shape: Option<Seq<i32>>, expr: Expr) -> Outcome {
    match shape {
        Some(s) => Ok(Tensor { shape: s, expr }),
        None => Err(PlanError::Refused),
    }
}

/// `b`, once `a` is there.
pub open spec fn after(a: Outcome, b: Outcome) -> Outcome {
    match a {
        Ok(_) => b,
        Err(e) => Err(e),
    }
}

pub open spec fn leaf(source: Source, shape: Seq<i32>) -> Tensor {
    Tensor { shape, expr: Expr::Leaf(source) }
}

pub open spec fn constant(value: Scalar) -> Outcome {
    Ok(Tensor { shape: seq![], expr: Expr::Constant(value) })
}

/// The length of the range from `start` up to `stop`.
pub open spec fn range_length(start: int, stop: int) -> int {
    if stop > start {
        stop - start
    } else {
        0
    }
}

pub open spec fn range(start: int, stop: int) -> Outcome {
    if range_length(start, stop) <= i32::MAX {
        Ok(
            Tensor {
                shape: seq![range_length(start, stop) as i32],
                expr: Expr::Range(start, stop),
            },
        )
    } else {
        Err(PlanError::Refused)
    }
}

pub open spec fn zeros(dims: Seq<i32>) -> Outcome {
    if valid(dims) {
        Ok(Tensor { shape: dims, expr: Expr::Zeros })
    } else {
        Err(PlanError::Refused)
    }
}

pub open spec fn unary(op: UnaryOp, a: Outcome) -> Outcome {
    match a {
        Ok(x) => Ok(Tensor { shape: x.shape, expr: Expr::Unary(op, Box::new(x)) }),
        Err(e) => Err(e),
    }
}

pub open spec fn binary(op: BinaryOp, a: Outcome, b: Outcome) -> Outcome {
    match (a, b) {
        (Ok(x), Ok(y)) => shaped(
            broadcast(x.shape, y.shape),
            Expr::Binary(op, Box::new(x), Box::new(y)),
        ),
        (Ok(_), Err(e)) => Err(e),
        (Err(e), _) => Err(e),
    }
}

pub open spec fn slice(a: Outcome, axis: int, start: int, stop: int) -> Outcome {
    match a {
        Ok(x) => shaped(
            slice_shape(x.shape, axis, start, stop),
            Expr::Slice(Box::new(x), axis, start, stop),
        ),
        Err(e) => Err(e),
    }
}

pub open spec fn reverse(a: Outcome, axis: int) -> Outcome {
    match a {
        Ok(x) => if 0 <= axis < x.shape.len() {
            Ok(Tensor { shape: x.shape, expr: Expr::Reverse(Box::new(x), axis) })
        } else {
            Err(PlanError::Refused)
        },
        Err(e) => Err(e),
    }
}

/// The shapes of tensors.
pub open spec fn shapes_of(parts: Seq<Tensor>) -> Seq<Seq<i32>> {
    Seq::new(parts.len(), |i: int| parts[i].shape)
}

pub open spec fn joined(parts: Seq<Tensor>, axis: int) -> Outcome {
    shaped(concat_shape(shapes_of(parts), axis), Expr::Concat(parts, axis))
}

pub open spec fn concat2(a: Outcome, b: Outcome, axis: int) -> Outcome {
    match (a, b) {
        (Ok(x), Ok(y)) => joined(seq![x, y], axis),
        (Ok(_), Err(e)) => Err(e),
        (Err(e), _) => Err(e),
    }
}

pub open spec fn concat3(a: Outcome, b: Outcome, c: Outcome, axis: int) -> Outcome {
    match (a, b, c) {
        (Ok(x), Ok(y), Ok(z)) => joined(seq![x, y, z], axis),
        (Ok(_), Ok(_), Err(e)) => Err(e),
        (Ok(_), Err(e), _) => Err(e),
        (Err(e), _, _) => Err(e),
    }
}

pub open spec fn concat4(a: Outcome, b: Outcome, c: Outcome, d: Outcome, axis: int) -> Outcome {
    match (a, b, c, d) {
        (Ok(x), Ok(y), Ok(z), Ok(w)) => joined(seq![x, y, z, w], axis),
        (Ok(_), Ok(_), Ok(_), Err(e)) => Err(e),
        (Ok(_), Ok(_), Err(e), _) => Err(e),
        (Ok(_), Err(e), _, _) => Err(e),
        (Err(e), _, _, _) => Err(e),
    }
}

pub open spec fn reshape(a: Outcome, dims: Seq<i32>) -> Outcome {
    match a {
        Ok(x) => shaped(reshape_shape(x.shape, dims), Expr::Reshape(Box::new(x))),
        Err(e) => Err(e),
    }
}

/// Three axes in the opposite order.
pub open spec fn reverse_axes(a: Outcome) -> Outcome {
    match a {
        Ok(x) => if x.shape.len() == 3 {
            Ok(
                Tensor {
                    shape: seq![x.shape[2], x.shape[1], x.shape[0]],
                    expr: Expr::ReverseAxes(Box::new(x)),
                },
            )
        } else {
            Err(PlanError::Refused)
        },
        Err(e) => Err(e),
    }
}

pub open spec fn windows(
    a: Outcome,
    batch: int,
    frames: int,
    size: int,
    row: int,
    hop: int,
) -> Outcome {
    match a {
        Ok(x) => shaped(
            windows_shape(x.shape, batch, frames, size, row, hop),
            Expr::Windows(Box::new(x), row, hop),
        ),
        Err(e) => Err(e),
    }
}

pub open spec fn stretch(a: Outcome, dims: Seq<i32>) -> Outcome {
    match a {
        Ok(x) => shaped(stretch_shape(x.shape, dims), Expr::Stretch(Box::new(x))),
        Err(e) => Err(e),
    }
}

pub open spec fn pad(a: Outcome, axis: int, before: int, after: int) -> Outcome {
    match a {
        Ok(x) => shaped(
            pad_shape(x.shape, axis, before, after),
            Expr::Pad(Box::new(x), axis, before, after),
        ),
        Err(e) => Err(e),
    }
}

pub open spec fn matmul(a: Outcome, b: Outcome) -> Outcome {
    match (a, b) {
        (Ok(x), Ok(y)) => shaped(
            matmul_shape(x.shape, y.shape),
            Expr::MatMul(Box::new(x), Box::new(y)),
        ),
        (Ok(_), Err(e)) => Err(e),
        (Err(e), _) => Err(e),
    }
}

pub open spec fn rfft(a: Outcome, n: int) -> Outcome {
    match a {
        Ok(x) => shaped(rfft_shape(x.shape, n), Expr::Rfft(Box::new(x), n)),
        Err(e) => Err(e),
    }
}

pub open spec fn cumsum(a: Outcome, axis: int) -> Outcome {
    match a {
        Ok(x) => if 0 <= axis < x.shape.len() {
            Ok(Tensor { shape: x.shape, expr: Expr::CumSum(Box::new(x), axis) })
        } else {
            Err(PlanError::Refused)
        },
        Err(e) => Err(e),
    }
}

pub open spec fn mean(a: Outcome, axis: int) -> Outcome {
    match a {
        Ok(x) => shaped(reduce_shape(x.shape, axis), Expr::Mean(Box::new(x), axis)),
        Err(e) => Err(e),
    }
}

pub open spec fn pick(a: Outcome, index: Outcome, axis: int) -> Outcome {
    match (a, index) {
        (Ok(x), Ok(y)) => shaped(
            pick_shape(x.shape, y.shape, axis),
            Expr::Pick(Box::new(x), Box::new(y), axis),
        ),
        (Ok(_), Err(e)) => Err(e),
        (Err(e), _) => Err(e),
    }
}

pub open spec fn conv(a: Outcome, w: Outcome, stride: int, padding: int, dilation: int) -> Outcome {
    match (a, w) {
        (Ok(x), Ok(y)) => shaped(
            conv_shape(x.shape, y.shape, stride, padding, dilation),
            Expr::Conv(Box::new(x), Box::new(y), stride, padding, dilation),
        ),
        (Ok(_), Err(e)) => Err(e),
        (Err(e), _) => Err(e),
    }
}

pub open spec fn conv_transpose(a: Outcome, w: Outcome, stride: int, padding: int) -> Outcome {
    match (a, w) {
        (Ok(x), Ok(y)) => shaped(
            transposed_shape(x.shape, y.shape, stride, padding),
            Expr::ConvTranspose(Box::new(x), Box::new(y), stride, padding),
        ),
        (Ok(_), Err(e)) => Err(e),
        (Err(e), _) => Err(e),
    }
}

/// The result of a device kernel on these inputs.
pub open spec fn launched(launch: LaunchView, inputs: Seq<Tensor>) -> Tensor {
    Tensor { shape: launch.output_shape, expr: Expr::Kernel(launch, inputs) }
}

/// The elements of `a`, computed before the plan goes on.
pub open spec fn evaluated(a: Outcome) -> Outcome {
    match a {
        Ok(x) => Ok(Tensor { shape: x.shape, expr: Expr::Evaluated(Box::new(x)) }),
        Err(e) => Err(e),
    }
}

pub open spec fn plus(a: Outcome, b: Outcome) -> Outcome {
    binary(BinaryOp::Add, a, b)
}

pub open spec fn minus(a: Outcome, b: Outcome) -> Outcome {
    binary(BinaryOp::Subtract, a, b)
}

pub open spec fn times(a: Outcome, b: Outcome) -> Outcome {
    binary(BinaryOp::Multiply, a, b)
}

pub open spec fn over(a: Outcome, b: Outcome) -> Outcome {
    binary(BinaryOp::Divide, a, b)
}

pub open spec fn modulo(a: Outcome, b: Outcome) -> Outcome {
    binary(BinaryOp::Remainder, a, b)
}

} // verus!
