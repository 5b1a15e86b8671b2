//! Convolution layers with their weights.
use vstd::prelude::*;

use crate::program::{operand, Program};
use crate::shape::{broadcast, conv_shape};
use crate::tensor::{conv, conv_transpose, plus, BinaryOp, Outcome, PlanError, Tensor};
use crate::text::joined_text;
use crate::weights::{stored, weight_fault, ArrayRef, Entries, LoadError, WeightTable};

verus! {

/// The name of the weights of the layer `prefix`.
pub open spec fn weight_key(prefix: Seq<char>) -> Seq<char> {
    prefix + ".weight"@
}

/// The name of the bias of the layer `prefix`.
pub open spec fn bias_key(prefix: Seq<char>) -> Seq<char> {
    prefix + ".bias"@
}

/// `a` is the array that `t` stands for, present or absent.
pub open spec fn same_array(a: Option<ArrayRef>, t: Option<Tensor>) -> bool {
    match a {
        Some(x) => x.wf() && t == Some(x.tensor()),
        None => t is None,
    }
}

/// The sum of an outcome and a bias, where there is one.
pub open spec fn biased(y: Outcome, bias: Option<ArrayRef>) -> Outcome {
    match bias {
        Some(b) => plus(y, b.outcome()),
        None => y,
    }
}

/// A convolution along the middle axis, one output per step of the input.
#[derive(Debug, PartialEq, Eq)]
pub struct Conv1d {
    pub weight: ArrayRef,
    pub bias: Option<ArrayRef>,
    pub input_channels: i32,
    pub output_channels: i32,
    pub kernel_size: i32,
    pub padding: i32,
    pub dilation: i32,
}

impl Conv1d {
    pub open spec fn wf(self) -> bool {
        self.weight.wf() && (self.bias matches Some(b) ==> b.wf())
    }

    /// The layer has the weights that `entries` stores under `prefix`.
    pub open spec fn reads(self, entries: Entries, prefix: Seq<char>) -> bool {
        &&& self.wf()
        &&& stored(entries, weight_key(prefix)) == Some(self.weight.tensor())
        &&& same_array(self.bias, stored(entries, bias_key(prefix)))
    }

    /// The layer is built with these numbers.
    pub open spec fn has(
        self,
        input_channels: int,
        output_channels: int,
        kernel_size: int,
        padding: int,
        dilation: int,
    ) -> bool {
        &&& self.input_channels == input_channels
        &&& self.output_channels == output_channels
        &&& self.kernel_size == kernel_size
        &&& self.padding == padding
        &&& self.dilation == dilation
    }

    /// The weights have the shapes that the numbers of the layer ask for.
    pub open spec fn conforms(self) -> bool {
        &&& self.weight.shape@ =~= seq![self.output_channels, self.kernel_size, self.input_channels]
        &&& self.bias matches Some(b) ==> b.shape@ =~= seq![self.output_channels]
    }

    /// What the layer makes of `x`.
    pub open spec fn apply(self, x: Outcome) -> Outcome {
        biased(
            conv(x, self.weight.outcome(), 1, self.padding as int, self.dilation as int),
            self.bias,
        )
    }

    /// What the layer makes has three axes at least.
    pub proof fn lemma_rank(self, x: Outcome)
        requires
            self.apply(x) is Ok,
        ensures
            self.apply(x)->Ok_0.shape.len() >= 3,
    {
        reveal(conv_shape);
        reveal(broadcast);
    }

    /// Adds the layer to a program.
    pub fn forward(&self, p: &mut Program, input: usize) -> (r: Result<usize, PlanError>)
        requires
            self.wf(),
            old(p).wf(),
            input < old(p)@.len(),
        ensures
            final(p).yields(old(p)@, r, self.apply(operand(old(p)@, input))),
    {
        let w = self.weight.read(p);
        let y = p.conv(input, w, 1, self.padding, self.dilation)?;
        match &self.bias {
            Some(b) => {
                let c = b.read(p);
                p.binary(BinaryOp::Add, y, c)
            },
            None => Ok(y),
        }
    }
}

/// Builds the convolution whose weights are stored under `prefix`.
pub fn conv1d_layer(
    weights: &WeightTable,
    prefix: &str,
    input_channels: i32,
    output_channels: i32,
    kernel_size: i32,
    padding: i32,
    dilation: i32,
) -> (r: Result<Conv1d, LoadError>)
    requires
        weights.wf(),
    ensures
        match r {
            Ok(layer) => weight_fault(weights@, weight_key(prefix@)) is None && layer.reads(
                weights@,
                prefix@,
            ) && layer.has(
                input_channels as int,
                output_channels as int,
                kernel_size as int,
                padding as int,
                dilation as int,
            ),
            Err(e) => weight_fault(weights@, weight_key(prefix@)) == Some(e@),
        },
{
    let weight = weights.weight(joined_text(prefix, ".weight"))?;
    let bias = weights.get(&joined_text(prefix, ".bias"));
    Ok(
        Conv1d {
            weight,
            bias,
            input_channels,
            output_channels,
            kernel_size,
            padding,
            dilation,
        },
    )
}

/// A transposed convolution along the middle axis.
#[derive(Debug, PartialEq, Eq)]
pub struct ConvTranspose1d {
    pub weight: ArrayRef,
    pub bias: Option<ArrayRef>,
    pub input_channels: i32,
    pub output_channels: i32,
    pub kernel_size: i32,
    pub stride: i32,
    pub padding: i32,
}

impl ConvTranspose1d {
    pub open spec fn wf(self) -> bool {
        self.weight.wf() && (self.bias matches Some(b) ==> b.wf())
    }

    /// The layer has the weights that `entries` stores under `prefix`.
    pub open spec fn reads(self, entries: Entries, prefix: Seq<char>) -> bool {
        &&& self.wf()
        &&& stored(entries, weight_key(prefix)) == Some(self.weight.tensor())
        &&& same_array(self.bias, stored(entries, bias_key(prefix)))
    }

    /// The layer is built with these numbers.
    pub open spec fn has(
        self,
        input_channels: int,
        output_channels: int,
        kernel_size: int,
        stride: int,
        padding: int,
    ) -> bool {
        &&& self.input_channels == input_channels
        &&& self.output_channels == output_channels
        &&& self.kernel_size == kernel_size
        &&& self.stride == stride
        &&& self.padding == padding
    }

    /// The weights have the shapes that the numbers of the layer ask for.
    pub open spec fn conforms(self) -> bool {
        &&& self.weight.shape@ =~= seq![self.output_channels, self.kernel_size, self.input_channels]
        &&& self.bias matches Some(b) ==> b.shape@ =~= seq![self.output_channels]
    }

    /// What the layer makes of `x`.
    pub open spec fn apply(self, x: Outcome) -> Outcome {
        biased(
            conv_transpose(x, self.weight.outcome(), self.stride as int, self.padding as int),
            self.bias,
        )
    }

    /// Adds the layer to a program.
    pub fn forward(&self, p: &mut Program, input: usize) -> (r: Result<usize, PlanError>)
        requires
            self.wf(),
            old(p).wf(),
            input < old(p)@.len(),
        ensures
            final(p).yields(old(p)@, r, self.apply(operand(old(p)@, input))),
    {
        let w = self.weight.read(p);
        let y = p.conv_transpose(input, w, self.stride, self.padding)?;
        match &self.bias {
            Some(b) => {
                let c = b.read(p);
                p.binary(BinaryOp::Add, y, c)
            },
            None => Ok(y),
        }
    }
}

/// Builds the transposed convolution whose weights are stored under `prefix`.
pub fn conv_transpose1d_layer(
    weights: &WeightTable,
    prefix: &str,
    input_channels: i32,
    output_channels: i32,
    kernel_size: i32,
    stride: i32,
    padding: i32,
) -> (r: Result<ConvTranspose1d, LoadError>)
    requires
        weights.wf(),
    ensures
        match r {
            Ok(layer) => weight_fault(weights@, weight_key(prefix@)) is None && layer.reads(
                weights@,
                prefix@,
            ) && layer.has(
                input_channels as int,
                output_channels as int,
                kernel_size as int,
                stride as int,
                padding as int,
            ),
            Err(e) => weight_fault(weights@, weight_key(prefix@)) == Some(e@),
        },
{
    let weight = weights.weight(joined_text(prefix, ".weight"))?;
    let bias = weights.get(&joined_text(prefix, ".bias"));
    Ok(
        ConvTranspose1d {
            weight,
            bias,
            input_channels,
            output_channels,
            kernel_size,
            stride,
            padding,
        },
    )
}

} // verus!
