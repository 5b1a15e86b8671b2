//! Plans: lists of array operations in the order in which they run.
//!
//! A [`Program`] is built one operation at a time. Each node names its operands by
//! their positions and carries the shape of its result, so that whoever runs the
//! program needs no knowledge of where it comes from. The expression that a node
//! denotes is kept beside it for specifications.
use vstd::prelude::*;

use crate::shape::{
    axis_total, broadcast_shapes, concat_shape, convolved_shape, copy_shape, differ_only_on,
    differs_only_on, is_valid, lemma_axis_total_prefix, pad_shape, pick_shape, product_shape,
    reduce_shape, reshape_shape, reshapes_to, rfft_shape, sliced_shape, stretch_shape, stretches_to,
    transpose_convolved_shape, valid, windows_fit, windows_shape,
};
use crate::tensor::{
    binary, constant, conv, conv_transpose, cumsum, evaluated, joined, launched, leaf, matmul, mean,
    pad, pick, range, reshape, reverse, reverse_axes, rfft, shapes_of, slice, stretch, unary,
    windows, zeros, BinaryOp, Expr, KernelKind, LaunchView, Outcome, PlanError, Scalar, Source,
    Tensor, UnaryOp,
};

verus! {

/// A named integer that a device kernel is specialised for.
#[derive(Clone, Copy, Debug, PartialEq, Eq)]
pub struct TemplateArg {
    pub name: &'static str,
    pub value: i32,
}

/// How a device kernel is started.
#[derive(Debug, PartialEq, Eq)]
pub struct Launch {
    pub kernel: KernelKind,
    pub output_shape: Vec<i32>,
    /// Threads along each dimension.
    pub grid: [i32; 3],
    /// Threads of one group along each dimension.
    pub thread_group: [i32; 3],
    pub template_args: Vec<TemplateArg>,
}

impl View for Launch {
    type V = LaunchView;

    open spec fn view(&self) -> LaunchView {
        LaunchView {
            kernel: self.kernel,
            output_shape: self.output_shape@,
            grid: (self.grid@[0], self.grid@[1], self.grid@[2]),
            thread_group: (self.thread_group@[0], self.thread_group@[1], self.thread_group@[2]),
            template_args: Seq::new(
                self.template_args@.len(),
                |i: int| (self.template_args@[i].name@, self.template_args@[i].value),
            ),
        }
    }
}

/// An array operation. Operands are positions of earlier nodes.
#[derive(Debug, PartialEq, Eq)]
pub enum Op {
    Leaf(Source),
    Constant(Scalar),
    /// The single-precision numbers `start`, `start + 1`, up to before `stop`.
    Range { start: i32, stop: i32 },
    Zeros { dims: Vec<i32> },
    Unary(UnaryOp, usize),
    Binary(BinaryOp, usize, usize),
    /// Positions `start..stop` along `axis`; negative positions count from the end.
    Slice { input: usize, axis: usize, start: i32, stop: i32 },
    Reverse { input: usize, axis: usize },
    Concat { parts: Vec<usize>, axis: usize },
    Reshape { input: usize, dims: Vec<i32> },
    ReverseAxes(usize),
    /// The array of shape (batch, frames, size) with strides (row, hop, 1).
    Windows { input: usize, batch: i32, frames: i32, size: i32, row: i32, hop: i32 },
    Stretch { input: usize, dims: Vec<i32> },
    Pad { input: usize, axis: usize, before: i32, after: i32 },
    MatMul(usize, usize),
    Rfft { input: usize, points: i32 },
    CumSum { input: usize, axis: usize },
    Mean { input: usize, axis: usize },
    Pick { input: usize, index: usize, axis: usize },
    Conv { input: usize, weight: usize, stride: i32, padding: i32, dilation: i32 },
    ConvTranspose { input: usize, weight: usize, stride: i32, padding: i32 },
    Kernel { launch: Launch, inputs: Vec<usize> },
    /// The operand itself, once its elements have been computed.
    Eval(usize),
}

/// One operation with the shape of its result.
pub struct Node {
    pub op: Op,
    pub shape: Vec<i32>,
    pub expr: Ghost<Expr>,
}

/// A list of operations in the order in which they run.
pub struct Program {
    pub nodes: Vec<Node>,
}

/// The outcome of operand `i` among `ts`.
pub open spec fn operand(ts: Seq<Tensor>, i: usize) -> Outcome {
    Ok(ts[i as int])
}

/// Every operand is among `ts`.
pub open spec fn in_range(parts: Seq<usize>, len: nat) -> bool {
    forall|k: int| 0 <= k < parts.len() ==> #[trigger] parts[k] < len
}

/// The tensors that `parts` name.
pub open spec fn operands(ts: Seq<Tensor>, parts: Seq<usize>) -> Seq<Tensor> {
    Seq::new(parts.len(), |k: int| ts[parts[k] as int])
}

/// Operation `op`, run after operations that gave `ts`, gives `t`.
#[verifier::opaque]
pub open spec fn denotes(op: Op, ts: Seq<Tensor>, t: Tensor) -> bool {
    let n = ts.len();
    match op {
        Op::Leaf(source) => t.expr == Expr::Leaf(source),
        Op::Constant(value) => Ok::<Tensor, PlanError>(t) == constant(value),
        Op::Range { start, stop } => Ok::<Tensor, PlanError>(t) == range(start as int, stop as int),
        Op::Zeros { dims } => Ok::<Tensor, PlanError>(t) == zeros(dims@),
        Op::Unary(op, a) => a < n && Ok::<Tensor, PlanError>(t) == unary(op, operand(ts, a)),
        Op::Binary(op, a, b) => a < n && b < n && Ok::<Tensor, PlanError>(t) == binary(
            op,
            operand(ts, a),
            operand(ts, b),
        ),
        Op::Slice { input, axis, start, stop } => input < n && Ok::<Tensor, PlanError>(t) == slice(
            operand(ts, input),
            axis as int,
            start as int,
            stop as int,
        ),
        Op::Reverse { input, axis } => input < n && Ok::<Tensor, PlanError>(t) == reverse(
            operand(ts, input),
            axis as int,
        ),
        Op::Concat { parts, axis } => in_range(parts@, n) && Ok::<Tensor, PlanError>(t) == joined(
            operands(ts, parts@),
            axis as int,
        ),
        Op::Reshape { input, dims } => input < n && Ok::<Tensor, PlanError>(t) == reshape(
            operand(ts, input),
            dims@,
        ),
        Op::ReverseAxes(a) => a < n && Ok::<Tensor, PlanError>(t) == reverse_axes(operand(ts, a)),
        Op::Windows { input, batch, frames, size, row, hop } => input < n && Ok::<
            Tensor,
            PlanError,
        >(t) == windows(
            operand(ts, input),
            batch as int,
            frames as int,
            size as int,
            row as int,
            hop as int,
        ),
        Op::Stretch { input, dims } => input < n && Ok::<Tensor, PlanError>(t) == stretch(
            operand(ts, input),
            dims@,
        ),
        Op::Pad { input, axis, before, after } => input < n && Ok::<Tensor, PlanError>(t) == pad(
            operand(ts, input),
            axis as int,
            before as int,
            after as int,
        ),
        Op::MatMul(a, b) => a < n && b < n && Ok::<Tensor, PlanError>(t) == matmul(
            operand(ts, a),
            operand(ts, b),
        ),
        Op::Rfft { input, points } => input < n && Ok::<Tensor, PlanError>(t) == rfft(
            operand(ts, input),
            points as int,
        ),
        Op::CumSum { input, axis } => input < n && Ok::<Tensor, PlanError>(t) == cumsum(
            operand(ts, input),
            axis as int,
        ),
        Op::Mean { input, axis } => input < n && Ok::<Tensor, PlanError>(t) == mean(
            operand(ts, input),
            axis as int,
        ),
        Op::Pick { input, index, axis } => input < n && index < n && Ok::<Tensor, PlanError>(t)
            == pick(operand(ts, input), operand(ts, index), axis as int),
        Op::Conv { input, weight, stride, padding, dilation } => input < n && weight < n && Ok::<
            Tensor,
            PlanError,
        >(t) == conv(
            operand(ts, input),
            operand(ts, weight),
            stride as int,
            padding as int,
            dilation as int,
        ),
        Op::ConvTranspose { input, weight, stride, padding } => input < n && weight < n && Ok::<
            Tensor,
            PlanError,
        >(t) == conv_transpose(
            operand(ts, input),
            operand(ts, weight),
            stride as int,
            padding as int,
        ),
        Op::Kernel { launch, inputs } => in_range(inputs@, n) && t == launched(
            launch@,
            operands(ts, inputs@),
        ),
        Op::Eval(a) => a < n && Ok::<Tensor, PlanError>(t) == evaluated(operand(ts, a)),
    }
}

/// `a` is a prefix of `b`.
pub open spec fn extends(a: Seq<Tensor>, b: Seq<Tensor>) -> bool {
    &&& a.len() <= b.len()
    &&& forall|i: int| 0 <= i < a.len() ==> a[i] == #[trigger] b[i]
}

impl View for Program {
    type V = Seq<Tensor>;

    /// What the nodes denote.
    closed spec fn view(&self) -> Seq<Tensor> {
        Seq::new(
            self.nodes@.len(),
            |i: int| Tensor { shape: self.nodes@[i].shape@, expr: self.nodes@[i].expr@ },
        )
    }
}

impl Program {
    /// Every operation uses earlier results only, fits their shapes, and gives what is
    /// recorded beside it.
    pub closed spec fn wf(self) -> bool {
        forall|i: int|
            0 <= i < self.nodes@.len() ==> valid(#[trigger] self.nodes@[i].shape@) && denotes(
                self.nodes@[i].op,
                self@.take(i),
                self@[i],
            )
    }

    /// The outcome that a returned position stands for.
    pub open spec fn outcome(self, r: Result<usize, PlanError>) -> Outcome {
        match r {
            Ok(i) => Ok(self@[i as int]),
            Err(e) => Err(e),
        }
    }

    /// After a call that returned `r`, this program continues one that gave `before`,
    /// and the outcome of `r` is `o`.
    pub open spec fn yields(
        self,
        before: Seq<Tensor>,
        r: Result<usize, PlanError>,
        o: Outcome,
    ) -> bool {
        &&& self.wf()
        &&& extends(before, self@)
        &&& (r matches Ok(i) ==> i < self@.len())
        &&& self.outcome(r) == o
    }

    /// The program without operations.
    pub fn new() -> (r: Program)
        ensures
            r.wf(),
            r@ == Seq::<Tensor>::empty(),
    {
        let r = Program { nodes: Vec::new() };
        assert(r@ =~= Seq::<Tensor>::empty());
        r
    }

    /// Node `i` carries the shape and the expression of result `i`, which is what its
    /// operation gives after the operations before it.
    pub proof fn lemma_denotes(self, i: int)
        requires
            self.wf(),
            0 <= i < self.nodes@.len(),
        ensures
            self@.len() == self.nodes@.len(),
            self@[i] == (Tensor { shape: self.nodes@[i].shape@, expr: self.nodes@[i].expr@ }),
            denotes(self.nodes@[i].op, self@.take(i), self@[i]),
    {
        assert(valid(self.nodes@[i].shape@));
    }

    /// The shape of a result is valid.
    pub proof fn lemma_valid(self, i: int)
        requires
            self.wf(),
            0 <= i < self@.len(),
        ensures
            valid(self@[i].shape),
    {
        assert(valid(self.nodes@[i].shape@));
    }

    /// Adds an operation.
    fn push(&mut self, op: Op, shape: Vec<i32>, Ghost(t): Ghost<Tensor>) -> (r: usize)
        requires
            old(self).wf(),
            valid(shape@),
            t.shape == shape@,
            denotes(op, old(self)@, t),
        ensures
            final(self).wf(),
            final(self)@ == old(self)@.push(t),
            r == old(self)@.len(),
            extends(old(self)@, final(self)@),
    {
        let ghost before = *self;
        let position: usize = self.nodes.len();
        self.nodes.push(Node { op, shape, expr: Ghost(t.expr) });
        proof {
            assert(self@ =~= before@.push(t));
            assert forall|i: int| 0 <= i < self.nodes@.len() implies valid(
                #[trigger] self.nodes@[i].shape@,
            ) && denotes(self.nodes@[i].op, self@.take(i), self@[i]) by {
                if i < before.nodes@.len() {
                    assert(before.nodes@[i] == self.nodes@[i]);
                    assert(self@.take(i) =~= before@.take(i));
                    assert(self@[i] == before@[i]);
                } else {
                    assert(self@.take(i) =~= before@);
                }
            }
        }
        position
    }

    /// The shape of node `i`.
    pub fn shape(&self, i: usize) -> (r: &Vec<i32>)
        requires
            i < self@.len(),
        ensures
            r@ == self@[i as int].shape,
    {
        &self.nodes[i].shape
    }

    /// The array that `source` stands for.
    pub fn leaf(&mut self, source: Source, shape: &Vec<i32>) -> (r: usize)
        requires
            old(self).wf(),
            valid(shape@),
        ensures
            final(self).wf(),
            extends(old(self)@, final(self)@),
            r < final(self)@.len(),
            final(self)@[r as int] == leaf(source, shape@),
    {
        let s = copy_shape(shape);
        let ghost t = leaf(source, shape@);
        let operation = Op::Leaf(source);
        assert(denotes(operation, self@, t)) by {
            reveal(denotes);
        }
        self.push(operation, s, Ghost(t))
    }

    /// A constant without axes.
    pub fn constant(&mut self, value: Scalar) -> (r: usize)
        requires
            old(self).wf(),
        ensures
            final(self).yields(old(self)@, Ok(r), constant(value)),
    {
        let s: Vec<i32> = Vec::new();
        let ghost t = Tensor { shape: seq![], expr: Expr::Constant(value) };
        assert(s@ =~= t.shape);
        let operation = Op::Constant(value);
        assert(denotes(operation, self@, t)) by {
            reveal(denotes);
        }
        self.push(operation, s, Ghost(t))
    }

    /// The numbers from `start` up to before `stop`.
    pub fn range(&mut self, start: i32, stop: i32) -> (r: Result<usize, PlanError>)
        requires
            old(self).wf(),
        ensures
            final(self).yields(old(self)@, r, range(start as int, stop as int)),
    {
        let length: i64 = if stop > start {
            stop as i64 - start as i64
        } else {
            0
        };
        if length > i32::MAX as i64 {
            return Err(PlanError::Refused);
        }
        let s: Vec<i32> = vec![length as i32];
        let ghost t = range(start as int, stop as int)->Ok_0;
        assert(s@ =~= t.shape);
        let operation = Op::Range { start, stop };
        assert(denotes(operation, self@, t)) by {
            reveal(denotes);
        }
        Ok(self.push(operation, s, Ghost(t)))
    }

    /// An array of zeros.
    pub fn zeros(&mut self, dims: Vec<i32>) -> (r: Result<usize, PlanError>)
        requires
            old(self).wf(),
        ensures
            final(self).yields(old(self)@, r, zeros(dims@)),
    {
        if !is_valid(&dims) {
            return Err(PlanError::Refused);
        }
        let s = copy_shape(&dims);
        let ghost t = zeros(dims@)->Ok_0;
        let operation = Op::Zeros { dims };
        assert(denotes(operation, self@, t)) by {
            reveal(denotes);
        }
        Ok(self.push(operation, s, Ghost(t)))
    }

    /// An operation on each element.
    pub fn unary(&mut self, op: UnaryOp, a: usize) -> (r: usize)
        requires
            old(self).wf(),
            a < old(self)@.len(),
        ensures
            final(self).yields(old(self)@, Ok(r), unary(op, operand(old(self)@, a))),
    {
        proof {
            self.lemma_valid(a as int);
        }
        let s = copy_shape(&self.nodes[a].shape);
        let ghost t = unary(op, operand(self@, a))->Ok_0;
        let operation = Op::Unary(op, a);
        assert(denotes(operation, self@, t)) by {
            reveal(denotes);
        }
        self.push(operation, s, Ghost(t))
    }

    /// An operation on pairs of elements.
    pub fn binary(&mut self, op: BinaryOp, a: usize, b: usize) -> (r: Result<usize, PlanError>)
        requires
            old(self).wf(),
            a < old(self)@.len(),
            b < old(self)@.len(),
        ensures
            final(self).yields(
                old(self)@,
                r,
                binary(op, operand(old(self)@, a), operand(old(self)@, b)),
            ),
    {
        proof {
            self.lemma_valid(a as int);
            self.lemma_valid(b as int);
        }
        match broadcast_shapes(&self.nodes[a].shape, &self.nodes[b].shape) {
            Some(s) => {
                let ghost t = binary(op, operand(self@, a), operand(self@, b))->Ok_0;
                let operation = Op::Binary(op, a, b);
                assert(denotes(operation, self@, t)) by {
                    reveal(denotes);
                }
                Ok(self.push(operation, s, Ghost(t)))
            },
            None => Err(PlanError::Refused),
        }
    }

    /// Positions `start..stop` along `axis`.
    pub fn slice(&mut self, input: usize, axis: usize, start: i32, stop: i32) -> (r: Result<
        usize,
        PlanError,
    >)
        requires
            old(self).wf(),
            input < old(self)@.len(),
        ensures
            final(self).yields(
                old(self)@,
                r,
                slice(operand(old(self)@, input), axis as int, start as int, stop as int),
            ),
    {
        proof {
            self.lemma_valid(input as int);
        }
        match sliced_shape(&self.nodes[input].shape, axis, start, stop) {
            Some(s) => {
                let ghost t = slice(
                    operand(self@, input),
                    axis as int,
                    start as int,
                    stop as int,
                )->Ok_0;
                let operation = Op::Slice { input, axis, start, stop };
                assert(denotes(operation, self@, t)) by {
                    reveal(denotes);
                }
                Ok(self.push(operation, s, Ghost(t)))
            },
            None => Err(PlanError::Refused),
        }
    }

    /// An axis read backwards.
    pub fn reverse(&mut self, input: usize, axis: usize) -> (r: Result<usize, PlanError>)
        requires
            old(self).wf(),
            input < old(self)@.len(),
        ensures
            final(self).yields(
                old(self)@,
                r,
                reverse(operand(old(self)@, input), axis as int),
            ),
    {
        proof {
            self.lemma_valid(input as int);
        }
        if axis >= self.nodes[input].shape.len() {
            return Err(PlanError::Refused);
        }
        let s = copy_shape(&self.nodes[input].shape);
        let ghost t = reverse(operand(self@, input), axis as int)->Ok_0;
        let operation = Op::Reverse { input, axis };
        assert(denotes(operation, self@, t)) by {
            reveal(denotes);
        }
        Ok(self.push(operation, s, Ghost(t)))
    }

    /// The elements in order, as an array of another shape.
    pub fn reshape(&mut self, input: usize, dims: Vec<i32>) -> (r: Result<usize, PlanError>)
        requires
            old(self).wf(),
            input < old(self)@.len(),
        ensures
            final(self).yields(old(self)@, r, reshape(operand(old(self)@, input), dims@)),
    {
        proof {
            reveal(reshape_shape);
            self.lemma_valid(input as int);
        }
        if !reshapes_to(&self.nodes[input].shape, &dims) {
            return Err(PlanError::Refused);
        }
        let s = copy_shape(&dims);
        let ghost t = reshape(operand(self@, input), dims@)->Ok_0;
        let operation = Op::Reshape { input, dims };
        assert(denotes(operation, self@, t)) by {
            reveal(denotes);
        }
        Ok(self.push(operation, s, Ghost(t)))
    }

    /// Three axes in the opposite order.
    pub fn reverse_axes(&mut self, input: usize) -> (r: Result<usize, PlanError>)
        requires
            old(self).wf(),
            input < old(self)@.len(),
        ensures
            final(self).yields(old(self)@, r, reverse_axes(operand(old(self)@, input))),
    {
        proof {
            self.lemma_valid(input as int);
        }
        let shape = &self.nodes[input].shape;
        if shape.len() != 3 {
            return Err(PlanError::Refused);
        }
        let s: Vec<i32> = vec![shape[2], shape[1], shape[0]];
        let ghost t = reverse_axes(operand(self@, input))->Ok_0;
        assert(s@ =~= t.shape);
        let operation = Op::ReverseAxes(input);
        assert(denotes(operation, self@, t)) by {
            reveal(denotes);
        }
        Ok(self.push(operation, s, Ghost(t)))
    }

    /// Windows over the elements in order.
    pub fn windows(
        &mut self,
        input: usize,
        batch: i32,
        frames: i32,
        size: i32,
        row: i32,
        hop: i32,
    ) -> (r: Result<usize, PlanError>)
        requires
            old(self).wf(),
            input < old(self)@.len(),
        ensures
            final(self).yields(
                old(self)@,
                r,
                windows(
                    operand(old(self)@, input),
                    batch as int,
                    frames as int,
                    size as int,
                    row as int,
                    hop as int,
                ),
            ),
    {
        proof {
            reveal(windows_shape);
            self.lemma_valid(input as int);
        }
        if !windows_fit(&self.nodes[input].shape, batch, frames, size, row, hop) {
            return Err(PlanError::Refused);
        }
        let s: Vec<i32> = vec![batch, frames, size];
        let ghost t = windows(
            operand(self@, input),
            batch as int,
            frames as int,
            size as int,
            row as int,
            hop as int,
        )->Ok_0;
        assert(s@ =~= t.shape);
        let operation = Op::Windows { input, batch, frames, size, row, hop };
        assert(denotes(operation, self@, t)) by {
            reveal(denotes);
        }
        Ok(self.push(operation, s, Ghost(t)))
    }

    /// The array repeated along axes of one element.
    pub fn stretch(&mut self, input: usize, dims: Vec<i32>) -> (r: Result<usize, PlanError>)
        requires
            old(self).wf(),
            input < old(self)@.len(),
        ensures
            final(self).yields(old(self)@, r, stretch(operand(old(self)@, input), dims@)),
    {
        proof {
            reveal(stretch_shape);
            self.lemma_valid(input as int);
        }
        if !stretches_to(&self.nodes[input].shape, &dims) {
            return Err(PlanError::Refused);
        }
        let s = copy_shape(&dims);
        let ghost t = stretch(operand(self@, input), dims@)->Ok_0;
        let operation = Op::Stretch { input, dims };
        assert(denotes(operation, self@, t)) by {
            reveal(denotes);
        }
        Ok(self.push(operation, s, Ghost(t)))
    }

    /// Zeros added at the ends of an axis.
    pub fn pad(&mut self, input: usize, axis: usize, before: i32, after: i32) -> (r: Result<
        usize,
        PlanError,
    >)
        requires
            old(self).wf(),
            input < old(self)@.len(),
        ensures
            final(self).yields(
                old(self)@,
                r,
                pad(operand(old(self)@, input), axis as int, before as int, after as int),
            ),
    {
        proof {
            reveal(pad_shape);
            self.lemma_valid(input as int);
        }
        let shape = &self.nodes[input].shape;
        if axis >= shape.len() || before < 0 || after < 0 {
            return Err(PlanError::Refused);
        }
        let total: i64 = shape[axis] as i64 + before as i64 + after as i64;
        if total > i32::MAX as i64 {
            return Err(PlanError::Refused);
        }
        let mut s = copy_shape(shape);
        s.set(axis, total as i32);
        let ghost t = pad(operand(self@, input), axis as int, before as int, after as int)->Ok_0;
        let operation = Op::Pad { input, axis, before, after };
        assert(denotes(operation, self@, t)) by {
            reveal(denotes);
        }
        Ok(self.push(operation, s, Ghost(t)))
    }

    /// The matrix product.
    pub fn matmul(&mut self, a: usize, b: usize) -> (r: Result<usize, PlanError>)
        requires
            old(self).wf(),
            a < old(self)@.len(),
            b < old(self)@.len(),
        ensures
            final(self).yields(
                old(self)@,
                r,
                matmul(operand(old(self)@, a), operand(old(self)@, b)),
            ),
    {
        proof {
            self.lemma_valid(a as int);
            self.lemma_valid(b as int);
        }
        match product_shape(&self.nodes[a].shape, &self.nodes[b].shape) {
            Some(s) => {
                let ghost t = matmul(operand(self@, a), operand(self@, b))->Ok_0;
                let operation = Op::MatMul(a, b);
                assert(denotes(operation, self@, t)) by {
                    reveal(denotes);
                }
                Ok(self.push(operation, s, Ghost(t)))
            },
            None => Err(PlanError::Refused),
        }
    }

    /// The non-redundant half of the spectra of the innermost axis.
    pub fn rfft(&mut self, input: usize, points: i32) -> (r: Result<usize, PlanError>)
        requires
            old(self).wf(),
            input < old(self)@.len(),
        ensures
            final(self).yields(old(self)@, r, rfft(operand(old(self)@, input), points as int)),
    {
        proof {
            reveal(rfft_shape);
            self.lemma_valid(input as int);
        }
        let x = &self.nodes[input].shape;
        if x.len() == 0 || points < 1 {
            return Err(PlanError::Refused);
        }
        let mut s = copy_shape(x);
        let last: usize = s.len() - 1;
        s.set(last, points / 2 + 1);
        let ghost t = rfft(operand(self@, input), points as int)->Ok_0;
        let operation = Op::Rfft { input, points };
        assert(denotes(operation, self@, t)) by {
            reveal(denotes);
        }
        Ok(self.push(operation, s, Ghost(t)))
    }

    /// Running sums along an axis.
    pub fn cumsum(&mut self, input: usize, axis: usize) -> (r: Result<usize, PlanError>)
        requires
            old(self).wf(),
            input < old(self)@.len(),
        ensures
            final(self).yields(old(self)@, r, cumsum(operand(old(self)@, input), axis as int)),
    {
        proof {
            self.lemma_valid(input as int);
        }
        if axis >= self.nodes[input].shape.len() {
            return Err(PlanError::Refused);
        }
        let s = copy_shape(&self.nodes[input].shape);
        let ghost t = cumsum(operand(self@, input), axis as int)->Ok_0;
        let operation = Op::CumSum { input, axis };
        assert(denotes(operation, self@, t)) by {
            reveal(denotes);
        }
        Ok(self.push(operation, s, Ghost(t)))
    }

    /// The mean along an axis, which disappears.
    pub fn mean(&mut self, input: usize, axis: usize) -> (r: Result<usize, PlanError>)
        requires
            old(self).wf(),
            input < old(self)@.len(),
        ensures
            final(self).yields(old(self)@, r, mean(operand(old(self)@, input), axis as int)),
    {
        proof {
            reveal(reduce_shape);
            self.lemma_valid(input as int);
        }
        if axis >= self.nodes[input].shape.len() {
            return Err(PlanError::Refused);
        }
        let mut s = copy_shape(&self.nodes[input].shape);
        s.remove(axis);
        let ghost t = mean(operand(self@, input), axis as int)->Ok_0;
        let operation = Op::Mean { input, axis };
        assert(denotes(operation, self@, t)) by {
            reveal(denotes);
        }
        Ok(self.push(operation, s, Ghost(t)))
    }

    /// The elements that `index` picks along `axis`.
    pub fn pick(&mut self, input: usize, index: usize, axis: usize) -> (r: Result<
        usize,
        PlanError,
    >)
        requires
            old(self).wf(),
            input < old(self)@.len(),
            index < old(self)@.len(),
        ensures
            final(self).yields(
                old(self)@,
                r,
                pick(operand(old(self)@, input), operand(old(self)@, index), axis as int),
            ),
    {
        proof {
            reveal(pick_shape);
            self.lemma_valid(index as int);
        }
        let x = &self.nodes[input].shape;
        let y = &self.nodes[index].shape;
        if axis >= x.len() || !differs_only_on(x, y, axis) {
            return Err(PlanError::Refused);
        }
        if x[axis] <= 0 && y[axis] != 0 {
            return Err(PlanError::Refused);
        }
        let s = copy_shape(y);
        let ghost t = pick(operand(self@, input), operand(self@, index), axis as int)->Ok_0;
        let operation = Op::Pick { input, index, axis };
        assert(denotes(operation, self@, t)) by {
            reveal(denotes);
        }
        Ok(self.push(operation, s, Ghost(t)))
    }

    /// A convolution.
    pub fn conv(
        &mut self,
        input: usize,
        weight: usize,
        stride: i32,
        padding: i32,
        dilation: i32,
    ) -> (r: Result<usize, PlanError>)
        requires
            old(self).wf(),
            input < old(self)@.len(),
            weight < old(self)@.len(),
        ensures
            final(self).yields(
                old(self)@,
                r,
                conv(
                    operand(old(self)@, input),
                    operand(old(self)@, weight),
                    stride as int,
                    padding as int,
                    dilation as int,
                ),
            ),
    {
        proof {
            self.lemma_valid(input as int);
            self.lemma_valid(weight as int);
        }
        match convolved_shape(
            &self.nodes[input].shape,
            &self.nodes[weight].shape,
            stride,
            padding,
            dilation,
        ) {
            Some(s) => {
                let ghost t = conv(
                    operand(self@, input),
                    operand(self@, weight),
                    stride as int,
                    padding as int,
                    dilation as int,
                )->Ok_0;
                let operation = Op::Conv { input, weight, stride, padding, dilation };
                assert(denotes(operation, self@, t)) by {
                    reveal(denotes);
                }
                Ok(self.push(operation, s, Ghost(t)))
            },
            None => Err(PlanError::Refused),
        }
    }

    /// A transposed convolution.
    pub fn conv_transpose(
        &mut self,
        input: usize,
        weight: usize,
        stride: i32,
        padding: i32,
    ) -> (r: Result<usize, PlanError>)
        requires
            old(self).wf(),
            input < old(self)@.len(),
            weight < old(self)@.len(),
        ensures
            final(self).yields(
                old(self)@,
                r,
                conv_transpose(
                    operand(old(self)@, input),
                    operand(old(self)@, weight),
                    stride as int,
                    padding as int,
                ),
            ),
    {
        proof {
            self.lemma_valid(input as int);
            self.lemma_valid(weight as int);
        }
        match transpose_convolved_shape(
            &self.nodes[input].shape,
            &self.nodes[weight].shape,
            stride,
            padding,
        ) {
            Some(s) => {
                let ghost t = conv_transpose(
                    operand(self@, input),
                    operand(self@, weight),
                    stride as int,
                    padding as int,
                )->Ok_0;
                let operation = Op::ConvTranspose { input, weight, stride, padding };
                assert(denotes(operation, self@, t)) by {
                    reveal(denotes);
                }
                Ok(self.push(operation, s, Ghost(t)))
            },
            None => Err(PlanError::Refused),
        }
    }

    /// Asks for the elements of `input` to be computed at this point.
    pub fn eval(&mut self, input: usize) -> (r: usize)
        requires
            old(self).wf(),
            input < old(self)@.len(),
        ensures
            final(self).yields(old(self)@, Ok(r), evaluated(operand(old(self)@, input))),
    {
        proof {
            self.lemma_valid(input as int);
        }
        let s = copy_shape(&self.nodes[input].shape);
        let ghost t = evaluated(operand(self@, input))->Ok_0;
        let operation = Op::Eval(input);
        assert(denotes(operation, self@, t)) by {
            reveal(denotes);
        }
        self.push(operation, s, Ghost(t))
    }

    /// Starts a device kernel.
    pub fn kernel(&mut self, launch: Launch, inputs: Vec<usize>) -> (r: usize)
        requires
            old(self).wf(),
            valid(launch.output_shape@),
            in_range(inputs@, old(self)@.len()),
        ensures
            final(self).yields(
                old(self)@,
                Ok(r),
                Ok(launched(launch@, operands(old(self)@, inputs@))),
            ),
    {
        let s = copy_shape(&launch.output_shape);
        let ghost t = launched(launch@, operands(self@, inputs@));
        let operation = Op::Kernel { launch, inputs };
        assert(denotes(operation, self@, t)) by {
            reveal(denotes);
        }
        self.push(operation, s, Ghost(t))
    }

    /// The shape of the nodes `parts` joined along `axis`.
    fn concat_dims(&self, parts: &Vec<usize>, axis: usize) -> (r: Option<Vec<i32>>)
        requires
            self.wf(),
            in_range(parts@, self@.len()),
        ensures
            r is Some <==> concat_shape(
                shapes_of(operands(self@, parts@)),
                axis as int,
            ) is Some,
            r matches Some(s) ==> concat_shape(shapes_of(operands(self@, parts@)), axis as int)
                == Some(s@) && valid(s@),
    {
        proof {
            reveal(concat_shape);
        }
        let ghost shapes = shapes_of(operands(self@, parts@));
        proof {
            assert forall|j: int| 0 <= j < shapes.len() implies valid(#[trigger] shapes[j]) by {
                self.lemma_valid(parts@[j] as int);
            }
        }
        if parts.len() == 0 {
            return None;
        }
        let first = &self.nodes[parts[0]].shape;
        assert(shapes[0] == first@);
        if axis >= first.len() {
            return None;
        }
        let mut total: i64 = 0;
        let mut k: usize = 0;
        while k < parts.len()
            invariant
                k <= parts.len(),
                in_range(parts@, self@.len()),
                shapes == shapes_of(operands(self@, parts@)),
                forall|j: int| 0 <= j < shapes.len() ==> valid(#[trigger] shapes[j]),
                parts.len() > 0,
                first@ == shapes[0],
                axis < first.len(),
                forall|j: int|
                    0 <= j < k ==> differ_only_on(shapes[0], #[trigger] shapes[j], axis as int),
                total == axis_total(shapes.take(k as int), axis as int),
                0 <= total <= i32::MAX,
            decreases parts.len() - k,
        {
            let part = &self.nodes[parts[k]].shape;
            proof {
                assert(shapes[k as int] == part@);
                assert(shapes.take(k + 1).drop_last() =~= shapes.take(k as int));
            }
            if !differs_only_on(first, part, axis) {
                proof {
                    reveal(concat_shape);
                }
                return None;
            }
            total = total + part[axis] as i64;
            k += 1;
            if total > i32::MAX as i64 {
                proof {
                    reveal(concat_shape);
                    if concat_shape(shapes, axis as int) is Some {
                        assert forall|j: int| 0 <= j < shapes.len() implies (
                        #[trigger] shapes[j])[axis as int] >= 0 by {
                            assert(differ_only_on(shapes[0], shapes[j], axis as int));
                        }
                        lemma_axis_total_prefix(shapes, axis as int, k as int);
                    }
                }
                return None;
            }
        }
        assert(shapes.take(k as int) =~= shapes);
        let mut s = copy_shape(first);
        s.set(axis, total as i32);
        Some(s)
    }

    /// Arrays joined along an axis.
    pub fn concat(&mut self, parts: Vec<usize>, axis: usize) -> (r: Result<usize, PlanError>)
        requires
            old(self).wf(),
            in_range(parts@, old(self)@.len()),
        ensures
            final(self).yields(
                old(self)@,
                r,
                joined(operands(old(self)@, parts@), axis as int),
            ),
    {
        match self.concat_dims(&parts, axis) {
            Some(s) => {
                let ghost t = joined(operands(self@, parts@), axis as int)->Ok_0;
                let operation = Op::Concat { parts, axis };
                assert(denotes(operation, self@, t)) by {
                    reveal(denotes);
                }
                Ok(self.push(operation, s, Ghost(t)))
            },
            None => Err(PlanError::Refused),
        }
    }
}

/// The operands of an operation.
pub open spec fn reads(op: Op) -> Seq<usize> {
    match op {
        Op::Leaf(_) => seq![],
        Op::Constant(_) => seq![],
        Op::Range { .. } => seq![],
        Op::Zeros { .. } => seq![],
        Op::Unary(_, a) => seq![a],
        Op::Binary(_, a, b) => seq![a, b],
        Op::Slice { input, .. } => seq![input],
        Op::Reverse { input, .. } => seq![input],
        Op::Concat { parts, .. } => parts@,
        Op::Reshape { input, .. } => seq![input],
        Op::ReverseAxes(a) => seq![a],
        Op::Windows { input, .. } => seq![input],
        Op::Stretch { input, .. } => seq![input],
        Op::Pad { input, .. } => seq![input],
        Op::MatMul(a, b) => seq![a, b],
        Op::Rfft { input, .. } => seq![input],
        Op::CumSum { input, .. } => seq![input],
        Op::Mean { input, .. } => seq![input],
        Op::Pick { input, index, .. } => seq![input, index],
        Op::Conv { input, weight, .. } => seq![input, weight],
        Op::ConvTranspose { input, weight, .. } => seq![input, weight],
        Op::Kernel { inputs, .. } => inputs@,
        Op::Eval(a) => seq![a],
    }
}

/// The operands of an operation are among the results before it.
proof fn lemma_operands(op: Op, ts: Seq<Tensor>, t: Tensor)
    requires
        denotes(op, ts, t),
    ensures
        in_range(reads(op), ts.len()),
{
    let n = ts.len();
    match op {
        Op::Concat { parts, .. } => {
            assert(in_range(parts@, n)) by {
                reveal(denotes);
            }
        },
        Op::Kernel { inputs, .. } => {
            assert(in_range(inputs@, n)) by {
                reveal(denotes);
            }
        },
        Op::Binary(_, a, b) => {
            assert(a < n && b < n) by {
                reveal(denotes);
            }
        },
        Op::MatMul(a, b) => {
            assert(a < n && b < n) by {
                reveal(denotes);
            }
        },
        Op::Pick { input, index, .. } => {
            assert(input < n && index < n) by {
                reveal(denotes);
            }
        },
        Op::Conv { input, weight, .. } => {
            assert(input < n && weight < n) by {
                reveal(denotes);
            }
        },
        Op::ConvTranspose { input, weight, .. } => {
            assert(input < n && weight < n) by {
                reveal(denotes);
            }
        },
        _ => {
            assert(reads(op).len() == 0 || (reads(op).len() == 1 && reads(op)[0] < n)) by {
                reveal(denotes);
            }
        },
    }
}

/// A copy of a list of operands.
fn copy_operands(s: &Vec<usize>) -> (r: Vec<usize>)
    ensures
        r@ == s@,
{
    let mut out: Vec<usize> = Vec::new();
    let mut i: usize = 0;
    while i < s.len()
        invariant
            i <= s.len(),
            out@ == s@.take(i as int),
        decreases s.len() - i,
    {
        out.push(s[i]);
        i += 1;
        assert(s@.take(i as int) =~= s@.take(i - 1).push(s@[i - 1]));
    }
    assert(s@.take(i as int) =~= s@);
    out
}

impl Op {
    /// The operands of the operation.
    pub fn operands(&self) -> (r: Vec<usize>)
        ensures
            r@ == reads(*self),
    {
        let out: Vec<usize> = match self {
            Op::Leaf(_) | Op::Constant(_) | Op::Range { .. } | Op::Zeros { .. } => Vec::new(),
            Op::Unary(_, a) | Op::ReverseAxes(a) | Op::Eval(a) => vec![*a],
            Op::Binary(_, a, b) | Op::MatMul(a, b) => vec![*a, *b],
            Op::Slice { input, .. } => vec![*input],
            Op::Reverse { input, .. } => vec![*input],
            Op::Concat { parts, .. } => copy_operands(parts),
            Op::Reshape { input, .. } => vec![*input],
            Op::Windows { input, .. } => vec![*input],
            Op::Stretch { input, .. } => vec![*input],
            Op::Pad { input, .. } => vec![*input],
            Op::Rfft { input, .. } => vec![*input],
            Op::CumSum { input, .. } => vec![*input],
            Op::Mean { input, .. } => vec![*input],
            Op::Pick { input, index, .. } => vec![*input, *index],
            Op::Conv { input, weight, .. } => vec![*input, *weight],
            Op::ConvTranspose { input, weight, .. } => vec![*input, *weight],
            Op::Kernel { inputs, .. } => copy_operands(inputs),
        };
        assert(out@ =~= reads(*self));
        out
    }
}

impl Program {
    /// Operations use earlier results only.
    pub proof fn lemma_reads(self, i: int)
        requires
            self.wf(),
            0 <= i < self.nodes@.len(),
        ensures
            in_range(reads(self.nodes@[i].op), i as nat),
            self@.len() == self.nodes@.len(),
    {
        self.lemma_denotes(i);
        lemma_operands(self.nodes@[i].op, self@.take(i), self@[i]);
    }

    /// `last` is the last operation before `limit` that uses result `i`, or `i` itself where
    /// none does.
    pub open spec fn is_last_use(self, i: int, last: int, limit: int) -> bool {
        &&& last == i || (i < last < limit && reads(self.nodes@[last].op).contains(i as usize))
        &&& forall|j: int|
            last < j < limit ==> !(#[trigger] reads(self.nodes@[j].op)).contains(i as usize)
    }

    /// The last operation that uses each result. The result is not needed after it.
    pub fn last_uses(&self) -> (r: Vec<usize>)
        requires
            self.wf(),
        ensures
            r@.len() == self@.len(),
            forall|i: int|
                0 <= i < r@.len() ==> self.is_last_use(
                    i,
                    #[trigger] r@[i] as int,
                    self@.len() as int,
                ),
    {
        let mut last: Vec<usize> = Vec::new();
        let mut n: usize = 0;
        while n < self.nodes.len()
            invariant
                n <= self.nodes.len(),
                self.wf(),
                last@.len() == n,
                forall|i: int|
                    0 <= i < n ==> self.is_last_use(i, #[trigger] last@[i] as int, n as int),
            decreases self.nodes.len() - n,
        {
            let operands = self.nodes[n].op.operands();
            proof {
                self.lemma_reads(n as int);
            }
            let ghost before = last@;
            let mut k: usize = 0;
            while k < operands.len()
                invariant
                    k <= operands.len(),
                    n < self.nodes.len(),
                    operands@ == reads(self.nodes@[n as int].op),
                    in_range(operands@, n as nat),
                    before.len() == n,
                    last@.len() == n,
                    forall|i: int|
                        0 <= i < n ==> #[trigger] last@[i] == (if operands@.take(
                            k as int,
                        ).contains(i as usize) {
                            n
                        } else {
                            before[i]
                        }),
                decreases operands.len() - k,
            {
                let used: usize = operands[k];
                last.set(used, n);
                k += 1;
                proof {
                    let (old_part, part) = (operands@.take(k - 1), operands@.take(k as int));
                    assert(part =~= old_part.push(used));
                    assert forall|u: usize| #[trigger] part.contains(u) == (old_part.contains(u)
                        || u == used) by {
                        if old_part.contains(u) {
                            let j = choose|j: int| 0 <= j < old_part.len() && old_part[j] == u;
                            assert(part[j] == u);
                        }
                        if u == used {
                            assert(part[k - 1] == u);
                        }
                    }
                }
            }
            proof {
                assert(operands@.take(k as int) =~= operands@);
                assert forall|i: int| 0 <= i < n implies self.is_last_use(
                    i,
                    #[trigger] last@[i] as int,
                    n + 1,
                ) by {
                    assert(self.is_last_use(i, before[i] as int, n as int));
                }
            }
            last.push(n);
            n += 1;
        }
        proof {
            self.lemma_length();
        }
        last
    }

    /// A program has a result for each node.
    proof fn lemma_length(self)
        ensures
            self@.len() == self.nodes@.len(),
    {
    }
}

/// What an operation stands for after operations that gave `ts`.
spec fn stands_for(op: Op, ts: Seq<Tensor>, t: Tensor) -> bool {
    let e = t.expr;
    match op {
        Op::Leaf(source) => e == Expr::Leaf(source),
        Op::Constant(value) => e == Expr::Constant(value),
        Op::Range { start, stop } => e == Expr::Range(start as int, stop as int),
        Op::Zeros { dims } => e == Expr::Zeros && t.shape == dims@,
        Op::Unary(op, a) => e == Expr::Unary(op, Box::new(ts[a as int])),
        Op::Binary(op, a, b) => e == Expr::Binary(
            op,
            Box::new(ts[a as int]),
            Box::new(ts[b as int]),
        ),
        Op::Slice { input, axis, start, stop } => e == Expr::Slice(
            Box::new(ts[input as int]),
            axis as int,
            start as int,
            stop as int,
        ),
        Op::Reverse { input, axis } => e == Expr::Reverse(
            Box::new(ts[input as int]),
            axis as int,
        ),
        Op::Concat { parts, axis } => e == Expr::Concat(
            operands(ts, parts@),
            axis as int,
        ),
        Op::Reshape { input, dims } => e == Expr::Reshape(Box::new(ts[input as int]))
            && t.shape == dims@,
        Op::ReverseAxes(a) => e == Expr::ReverseAxes(Box::new(ts[a as int])),
        Op::Windows { input, batch, frames, size, row, hop } => e == Expr::Windows(
            Box::new(ts[input as int]),
            row as int,
            hop as int,
        ) && t.shape == seq![batch, frames, size],
        Op::Stretch { input, dims } => e == Expr::Stretch(Box::new(ts[input as int])),
        Op::Pad { input, axis, before, after } => e == Expr::Pad(
            Box::new(ts[input as int]),
            axis as int,
            before as int,
            after as int,
        ),
        Op::MatMul(a, b) => e == Expr::MatMul(
            Box::new(ts[a as int]),
            Box::new(ts[b as int]),
        ),
        Op::Rfft { input, points } => e == Expr::Rfft(
            Box::new(ts[input as int]),
            points as int,
        ),
        Op::CumSum { input, axis } => e == Expr::CumSum(
            Box::new(ts[input as int]),
            axis as int,
        ),
        Op::Mean { input, axis } => e == Expr::Mean(
            Box::new(ts[input as int]),
            axis as int,
        ),
        Op::Pick { input, index, axis } => e == Expr::Pick(
            Box::new(ts[input as int]),
            Box::new(ts[index as int]),
            axis as int,
        ),
        Op::Conv { input, weight, stride, padding, dilation } => e == Expr::Conv(
            Box::new(ts[input as int]),
            Box::new(ts[weight as int]),
            stride as int,
            padding as int,
            dilation as int,
        ),
        Op::ConvTranspose { input, weight, stride, padding } => e
            == Expr::ConvTranspose(
            Box::new(ts[input as int]),
            Box::new(ts[weight as int]),
            stride as int,
            padding as int,
        ),
        Op::Kernel { launch, inputs } => e == Expr::Kernel(
            launch@,
            operands(ts, inputs@),
        ),
        Op::Eval(a) => e == Expr::Evaluated(Box::new(ts[a as int])),
    }
}

/// What a node denotes has the expression of its operation.
proof fn lemma_stands_for(op: Op, ts: Seq<Tensor>, t: Tensor)
    requires
        denotes(op, ts, t),
    ensures
        stands_for(op, ts, t),
{
    match op {
        Op::Reshape { input, dims } => {
            reveal(denotes);
            reveal(reshape_shape);
        },
        Op::Windows { input, batch, frames, size, row, hop } => {
            reveal(denotes);
            reveal(windows_shape);
            assert(t.shape =~= seq![batch, frames, size]);
        },
        _ => {
            reveal(denotes);
        },
    }
}

/// An operation stands for the same after more operations.
proof fn lemma_stands_later(op: Op, before: Seq<Tensor>, ts: Seq<Tensor>, t: Tensor)
    requires
        stands_for(op, before, t),
        in_range(reads(op), before.len()),
        extends(before, ts),
    ensures
        stands_for(op, ts, t),
{
    match op {
        Op::Concat { parts, .. } => {
            assert(in_range(parts@, before.len()));
            assert(operands(before, parts@) =~= operands(ts, parts@));
        },
        Op::Kernel { inputs, .. } => {
            assert(in_range(inputs@, before.len()));
            assert(operands(before, inputs@) =~= operands(ts, inputs@));
        },
        Op::Binary(_, a, b) => {
            assert(reads(op)[0] == a && reads(op)[1] == b);
        },
        Op::MatMul(a, b) => {
            assert(reads(op)[0] == a && reads(op)[1] == b);
        },
        Op::Pick { input, index, .. } => {
            assert(reads(op)[0] == input && reads(op)[1] == index);
        },
        Op::Conv { input, weight, .. } => {
            assert(reads(op)[0] == input && reads(op)[1] == weight);
        },
        Op::ConvTranspose { input, weight, .. } => {
            assert(reads(op)[0] == input && reads(op)[1] == weight);
        },
        _ => {
            if reads(op).len() > 0 {
                let a = reads(op)[0];
                assert(before[a as int] == ts[a as int]);
            }
        },
    }
}

impl Program {
    /// What a node stands for, by its operation and the results that it names.
    pub proof fn lemma_node(self, i: int)
        requires
            self.wf(),
            0 <= i < self.nodes@.len(),
        ensures
            ({
                let ts = self@;
                let e = ts[i].expr;
                &&& ts[i].shape == self.nodes@[i].shape@
                &&& match self.nodes@[i].op {
                    Op::Leaf(source) => e == Expr::Leaf(source),
                    Op::Constant(value) => e == Expr::Constant(value),
                    Op::Range { start, stop } => e == Expr::Range(start as int, stop as int),
                    Op::Zeros { dims } => e == Expr::Zeros && ts[i].shape == dims@,
                    Op::Unary(op, a) => e == Expr::Unary(op, Box::new(ts[a as int])),
                    Op::Binary(op, a, b) => e == Expr::Binary(
                        op,
                        Box::new(ts[a as int]),
                        Box::new(ts[b as int]),
                    ),
                    Op::Slice { input, axis, start, stop } => e == Expr::Slice(
                        Box::new(ts[input as int]),
                        axis as int,
                        start as int,
                        stop as int,
                    ),
                    Op::Reverse { input, axis } => e == Expr::Reverse(
                        Box::new(ts[input as int]),
                        axis as int,
                    ),
                    Op::Concat { parts, axis } => e == Expr::Concat(
                        operands(ts, parts@),
                        axis as int,
                    ),
                    Op::Reshape { input, dims } => e == Expr::Reshape(Box::new(ts[input as int]))
                        && ts[i].shape == dims@,
                    Op::ReverseAxes(a) => e == Expr::ReverseAxes(Box::new(ts[a as int])),
                    Op::Windows { input, batch, frames, size, row, hop } => e == Expr::Windows(
                        Box::new(ts[input as int]),
                        row as int,
                        hop as int,
                    ) && ts[i].shape == seq![batch, frames, size],
                    Op::Stretch { input, dims } => e == Expr::Stretch(Box::new(ts[input as int])),
                    Op::Pad { input, axis, before, after } => e == Expr::Pad(
                        Box::new(ts[input as int]),
                        axis as int,
                        before as int,
                        after as int,
                    ),
                    Op::MatMul(a, b) => e == Expr::MatMul(
                        Box::new(ts[a as int]),
                        Box::new(ts[b as int]),
                    ),
                    Op::Rfft { input, points } => e == Expr::Rfft(
                        Box::new(ts[input as int]),
                        points as int,
                    ),
                    Op::CumSum { input, axis } => e == Expr::CumSum(
                        Box::new(ts[input as int]),
                        axis as int,
                    ),
                    Op::Mean { input, axis } => e == Expr::Mean(
                        Box::new(ts[input as int]),
                        axis as int,
                    ),
                    Op::Pick { input, index, axis } => e == Expr::Pick(
                        Box::new(ts[input as int]),
                        Box::new(ts[index as int]),
                        axis as int,
                    ),
                    Op::Conv { input, weight, stride, padding, dilation } => e == Expr::Conv(
                        Box::new(ts[input as int]),
                        Box::new(ts[weight as int]),
                        stride as int,
                        padding as int,
                        dilation as int,
                    ),
                    Op::ConvTranspose { input, weight, stride, padding } => e
                        == Expr::ConvTranspose(
                        Box::new(ts[input as int]),
                        Box::new(ts[weight as int]),
                        stride as int,
                        padding as int,
                    ),
                    Op::Kernel { launch, inputs } => e == Expr::Kernel(
                        launch@,
                        operands(ts, inputs@),
                    ),
                    Op::Eval(a) => e == Expr::Evaluated(Box::new(ts[a as int])),
                }
            }),
    {
        self.lemma_denotes(i);
        self.lemma_reads(i);
        let before = self@.take(i);
        let op = self.nodes@[i].op;
        lemma_stands_for(op, before, self@[i]);
        lemma_stands_later(op, before, self@, self@[i]);
    }
}

/// A program with the node of its result.
pub struct Plan {
    pub program: Program,
    pub output: usize,
}

impl Plan {
    /// The program computes `o`.
    pub open spec fn computes(self, o: Outcome) -> bool {
        self.program.wf() && self.output < self.program@.len() && operand(
            self.program@,
            self.output,
        ) == o
    }
}

} // verus!
