//! The pitch-controllable vocoder: a harmonic source, and a generator that it drives.
use vstd::prelude::*;
use vstd::string::*;

use crate::config::{
    add_average, audio_input, average, channels_before, layer_convs, layer_fault, layer_reads,
    BRANCHES, LAYERS, RESBLOCK_KERNELS, STAGES, UPSAMPLE_RATES,
};
use crate::layers::{conv1d_layer, conv_transpose1d_layer, weight_key, Conv1d, ConvTranspose1d};
use crate::mel::{mel_fault, MelSpectrogram};
use crate::program::{extends, in_range, operand, Plan, Program};
use crate::shape::{copy_shape, same_shape, valid};
use crate::source::{add_source, harmonic_source};
use crate::tensor::{
    after, evaluated, leaf, plus, unary, BinaryOp, Outcome, PlanError, Scalar, Source, Tensor,
    UnaryOp,
};
use crate::text::{decimal, decimal_text, listed, listed_text};
use crate::weights::{first_fault, weight_fault, Entries, LoadError, LoadFault, WeightTable};

verus! {

/// Taps of the transposed convolution of each stage.
pub const UPSAMPLE_KERNELS: [i32; 5] = [16, 16, 4, 4, 4];

/// Channels before the first stage.
pub const INITIAL_CHANNELS: i32 = 512;

/// The slope below zero of the activations inside the generator.
pub open spec fn inner_slope() -> Scalar {
    Scalar::Ratio { num: 1, den: 10 }
}

/// The slope below zero of the last activation.
pub open spec fn outer_slope() -> Scalar {
    Scalar::Ratio { num: 1, den: 100 }
}

/// The activation inside the generator.
pub open spec fn leaky(x: Outcome) -> Outcome {
    unary(UnaryOp::LeakyRelu(inner_slope()), x)
}

/// A residual block: layers of two convolutions, each layer added to its input.
#[derive(Debug, PartialEq, Eq)]
pub struct ResBlock1 {
    pub convs1: Vec<Conv1d>,
    pub convs2: Vec<Conv1d>,
}

/// The fault of a checkpoint without the first `layers` layers of residual block `index`.
pub open spec fn resblock_fault(entries: Entries, index: nat, layers: nat) -> Option<LoadFault>
    decreases layers,
{
    if layers == 0 {
        None
    } else {
        first_fault(
            resblock_fault(entries, index, (layers - 1) as nat),
            layer_fault(entries, index, (layers - 1) as nat),
        )
    }
}

/// A fault in an early layer is the fault of the block.
proof fn lemma_resblock_fault(entries: Entries, index: nat, i: nat, j: nat)
    requires
        i <= j,
        resblock_fault(entries, index, i) is Some,
    ensures
        resblock_fault(entries, index, j) == resblock_fault(entries, index, i),
    decreases j,
{
    if i < j {
        lemma_resblock_fault(entries, index, i, (j - 1) as nat);
    }
}

impl ResBlock1 {
    pub open spec fn wf(self) -> bool {
        &&& self.convs1@.len() == LAYERS
        &&& self.convs2@.len() == LAYERS
        &&& forall|l: int| 0 <= l < LAYERS ==> (#[trigger] self.convs1@[l]).wf()
        &&& forall|l: int| 0 <= l < LAYERS ==> (#[trigger] self.convs2@[l]).wf()
    }

    /// The block has the weights that `entries` stores for residual block `index`.
    pub open spec fn reads(
        self,
        entries: Entries,
        index: nat,
        channels: int,
        kernel_size: int,
    ) -> bool {
        &&& self.wf()
        &&& forall|l: int|
            0 <= l < LAYERS ==> layer_reads(
                #[trigger] self.convs1@[l],
                self.convs2@[l],
                entries,
                index,
                l as nat,
                channels,
                kernel_size,
            )
    }

    /// What layer `l` adds to `x`.
    pub open spec fn layer(self, x: Outcome, l: int) -> Outcome {
        self.convs2@[l].apply(leaky(self.convs1@[l].apply(leaky(x))))
    }

    /// What the first `layers` layers make of `x`.
    pub open spec fn residual(self, x: Outcome, layers: nat) -> Outcome
        decreases layers,
    {
        if layers == 0 {
            x
        } else {
            let y = self.residual(x, (layers - 1) as nat);
            plus(y, self.layer(y, layers - 1))
        }
    }

    /// What the block makes of `x`.
    pub open spec fn apply(self, x: Outcome) -> Outcome {
        self.residual(x, LAYERS as nat)
    }

    /// Builds residual block `index`.
    fn load(weights: &WeightTable, index: usize, channels: i32, kernel_size: i32) -> (r: Result<
        ResBlock1,
        LoadError,
    >)
        requires
            weights.wf(),
            1 <= kernel_size,
            kernel_size * 5 <= i32::MAX,
        ensures
            match r {
                Ok(block) => resblock_fault(
                    weights@,
                    index as nat,
                    LAYERS as nat,
                ) is None && block.reads(
                    weights@,
                    index as nat,
                    channels as int,
                    kernel_size as int,
                ),
                Err(e) => resblock_fault(weights@, index as nat, LAYERS as nat) == Some(e@),
            },
    {
        let mut convs1: Vec<Conv1d> = Vec::new();
        let mut convs2: Vec<Conv1d> = Vec::new();
        let mut layer: usize = 0;
        while layer < LAYERS
            invariant
                layer <= LAYERS,
                weights.wf(),
                1 <= kernel_size,
                kernel_size * 5 <= i32::MAX,
                convs1@.len() == layer,
                convs2@.len() == layer,
                resblock_fault(weights@, index as nat, layer as nat) is None,
                forall|l: int|
                    0 <= l < layer ==> layer_reads(
                        #[trigger] convs1@[l],
                        convs2@[l],
                        weights@,
                        index as nat,
                        l as nat,
                        channels as int,
                        kernel_size as int,
                    ),
            decreases LAYERS - layer,
        {
            match layer_convs(weights, index, layer, channels, kernel_size) {
                Ok((first, second)) => {
                    convs1.push(first);
                    convs2.push(second);
                },
                Err(e) => {
                    proof {
                        assert(resblock_fault(weights@, index as nat, (layer + 1) as nat) == Some(
                            e@,
                        ));
                        lemma_resblock_fault(
                            weights@,
                            index as nat,
                            (layer + 1) as nat,
                            LAYERS as nat,
                        );
                    }
                    return Err(e);
                },
            }
            layer += 1;
        }
        let block = ResBlock1 { convs1, convs2 };
        assert forall|l: int| 0 <= l < LAYERS implies (#[trigger] block.convs2@[l]).wf() by {
            let first = block.convs1@[l];
        }
        Ok(block)
    }

    /// Adds the block to a program.
    fn forward(&self, p: &mut Program, input: usize) -> (r: Result<usize, PlanError>)
        requires
            self.wf(),
            old(p).wf(),
            input < old(p)@.len(),
        ensures
            final(p).yields(old(p)@, r, self.apply(operand(old(p)@, input))),
    {
        let ghost x = operand(p@, input);
        let mut output: usize = input;
        let mut layer: usize = 0;
        while layer < LAYERS
            invariant
                layer <= LAYERS,
                self.wf(),
                p.wf(),
                extends(old(p)@, p@),
                x == operand(old(p)@, input),
                output < p@.len(),
                operand(p@, output) == self.residual(x, layer as nat),
            decreases LAYERS - layer,
        {
            match self.add_layer(p, output, layer) {
                Ok(next) => {
                    output = next;
                },
                Err(e) => {
                    proof {
                        self.lemma_residual_error(x, (layer + 1) as nat, LAYERS as nat);
                    }
                    return Err(e);
                },
            }
            layer += 1;
        }
        Ok(output)
    }

    /// Without an early layer there is no later one.
    proof fn lemma_residual_error(self, x: Outcome, i: nat, j: nat)
        requires
            i <= j,
            self.residual(x, i) is Err,
        ensures
            self.residual(x, j) == self.residual(x, i),
        decreases j,
    {
        if i < j {
            self.lemma_residual_error(x, i, (j - 1) as nat);
        }
    }

    /// Adds one layer and its sum with node `input` to a program.
    fn add_layer(&self, p: &mut Program, input: usize, layer: usize) -> (r: Result<
        usize,
        PlanError,
    >)
        requires
            self.wf(),
            layer < LAYERS,
            old(p).wf(),
            input < old(p)@.len(),
        ensures
            final(p).yields(
                old(p)@,
                r,
                plus(
                    operand(old(p)@, input),
                    self.layer(operand(old(p)@, input), layer as int),
                ),
            ),
    {
        let slope = Scalar::Ratio { num: 1, den: 10 };
        let active = p.unary(UnaryOp::LeakyRelu(slope), input);
        let hidden = self.convs1[layer].forward(p, active)?;
        let active = p.unary(UnaryOp::LeakyRelu(slope), hidden);
        let hidden = self.convs2[layer].forward(p, active)?;
        p.binary(BinaryOp::Add, input, hidden)
    }
}

/// The name of the transposed convolution of a stage.
pub open spec fn up_prefix(stage: nat) -> Seq<char> {
    "ups."@ + decimal(stage)
}

/// The fault of a checkpoint without the first `branches` residual blocks of a stage.
pub open spec fn branches_fault(entries: Entries, stage: nat, branches: nat) -> Option<LoadFault>
    decreases branches,
{
    if branches == 0 {
        None
    } else {
        first_fault(
            branches_fault(entries, stage, (branches - 1) as nat),
            resblock_fault(entries, (stage * BRANCHES + branches - 1) as nat, LAYERS as nat),
        )
    }
}

/// The fault of a checkpoint without the weights of a stage.
pub open spec fn stage_fault(entries: Entries, stage: nat) -> Option<LoadFault> {
    first_fault(
        weight_fault(entries, weight_key(up_prefix(stage))),
        branches_fault(entries, stage, BRANCHES as nat),
    )
}

/// The fault of a checkpoint without the weights of the first `stages` stages.
pub open spec fn stages_fault(entries: Entries, stages: nat) -> Option<LoadFault>
    decreases stages,
{
    if stages == 0 {
        None
    } else {
        first_fault(
            stages_fault(entries, (stages - 1) as nat),
            stage_fault(entries, (stages - 1) as nat),
        )
    }
}

/// The fault of a checkpoint that lacks a weight of the model: the first one missing, in
/// the order in which the model is built.
pub open spec fn load_fault(entries: Entries) -> Option<LoadFault> {
    first_fault(
        mel_fault(entries),
        first_fault(
            weight_fault(entries, weight_key("conv_pre"@)),
            first_fault(
                stages_fault(entries, STAGES as nat),
                first_fault(
                    weight_fault(entries, weight_key("source_conv"@)),
                    weight_fault(entries, weight_key("conv_post"@)),
                ),
            ),
        ),
    )
}

/// A fault in an early block is the fault of the stage.
proof fn lemma_branches_fault(entries: Entries, stage: nat, i: nat, j: nat)
    requires
        i <= j,
        branches_fault(entries, stage, i) is Some,
    ensures
        branches_fault(entries, stage, j) == branches_fault(entries, stage, i),
    decreases j,
{
    if i < j {
        lemma_branches_fault(entries, stage, i, (j - 1) as nat);
    }
}

/// A fault in an early stage is the fault of all stages.
proof fn lemma_stages_fault(entries: Entries, i: nat, j: nat)
    requires
        i <= j,
        stages_fault(entries, i) is Some,
    ensures
        stages_fault(entries, j) == stages_fault(entries, i),
    decreases j,
{
    if i < j {
        lemma_stages_fault(entries, i, (j - 1) as nat);
    }
}

/// `block` is residual block `index` of the model.
pub open spec fn block_reads(block: ResBlock1, entries: Entries, index: int) -> bool {
    block.reads(
        entries,
        index as nat,
        channels_before(INITIAL_CHANNELS as int, (index / BRANCHES as int + 1) as nat),
        RESBLOCK_KERNELS@[index % BRANCHES as int] as int,
    )
}

/// `up` is the transposed convolution of a stage of the model.
pub open spec fn up_reads(up: ConvTranspose1d, entries: Entries, stage: int) -> bool {
    let kernel_size = UPSAMPLE_KERNELS@[stage] as int;
    let rate = UPSAMPLE_RATES@[stage] as int;
    &&& up.reads(entries, up_prefix(stage as nat))
    &&& up.has(
        channels_before(INITIAL_CHANNELS as int, stage as nat),
        channels_before(INITIAL_CHANNELS as int, (stage + 1) as nat),
        kernel_size,
        rate,
        (kernel_size - rate) / 2,
    )
}

/// The pitch-controllable vocoder.
#[derive(Debug, PartialEq, Eq)]
pub struct PcNsfHifigan {
    pub mel: MelSpectrogram,
    pub conv_pre: Conv1d,
    pub upsamplers: Vec<ConvTranspose1d>,
    pub source_conv: Conv1d,
    pub resblocks: Vec<ResBlock1>,
    pub conv_post: Conv1d,
}

impl PcNsfHifigan {
    pub open spec fn wf(self) -> bool {
        &&& self.mel.wf()
        &&& self.conv_pre.wf()
        &&& self.source_conv.wf()
        &&& self.conv_post.wf()
        &&& self.upsamplers@.len() == STAGES
        &&& self.resblocks@.len() == STAGES * BRANCHES
        &&& forall|i: int| 0 <= i < STAGES ==> (#[trigger] self.upsamplers@[i]).wf()
        &&& forall|i: int| 0 <= i < STAGES * BRANCHES ==> (#[trigger] self.resblocks@[i]).wf()
    }

    /// The model has the weights that `entries` stores.
    pub open spec fn reads(self, entries: Entries) -> bool {
        &&& self.wf()
        &&& self.mel.reads(entries)
        &&& self.conv_pre.reads(entries, "conv_pre"@)
        &&& self.conv_pre.has(128, INITIAL_CHANNELS as int, 7, 3, 1)
        &&& forall|i: int| 0 <= i < STAGES ==> up_reads(#[trigger] self.upsamplers@[i], entries, i)
        &&& forall|i: int|
            0 <= i < STAGES * BRANCHES ==> block_reads(#[trigger] self.resblocks@[i], entries, i)
        &&& self.source_conv.reads(entries, "source_conv"@)
        &&& self.source_conv.has(1, 128, 1, 0, 1)
        &&& self.conv_post.reads(entries, "conv_post"@)
        &&& self.conv_post.has(
            channels_before(INITIAL_CHANNELS as int, STAGES as nat),
            1,
            7,
            3,
            1,
        )
    }

    /// Builds the residual blocks of a stage.
    fn load_branches(
        weights: &WeightTable,
        stage: usize,
        channels: i32,
        resblocks: &mut Vec<ResBlock1>,
    ) -> (r: Result<(), LoadError>)
        requires
            weights.wf(),
            stage < STAGES,
            channels == channels_before(INITIAL_CHANNELS as int, (stage + 1) as nat),
            old(resblocks)@.len() == stage * BRANCHES,
            forall|i: int|
                0 <= i < old(resblocks)@.len() ==> block_reads(
                    #[trigger] old(resblocks)@[i],
                    weights@,
                    i,
                ),
        ensures
            match r {
                Ok(_) => branches_fault(weights@, stage as nat, BRANCHES as nat) is None
                    && final(resblocks)@.len() == (stage + 1) * BRANCHES && forall|i: int|
                    0 <= i < final(resblocks)@.len() ==> block_reads(
                        #[trigger] final(resblocks)@[i],
                        weights@,
                        i,
                    ),
                Err(e) => branches_fault(weights@, stage as nat, BRANCHES as nat) == Some(e@),
            },
    {
        let mut k: usize = 0;
        while k < BRANCHES
            invariant
                k <= BRANCHES,
                weights.wf(),
                stage < STAGES,
                channels == channels_before(INITIAL_CHANNELS as int, (stage + 1) as nat),
                branches_fault(weights@, stage as nat, k as nat) is None,
                resblocks@.len() == stage * BRANCHES + k,
                forall|i: int|
                    0 <= i < resblocks@.len() ==> block_reads(
                        #[trigger] resblocks@[i],
                        weights@,
                        i,
                    ),
            decreases BRANCHES - k,
        {
            let index: usize = stage * BRANCHES + k;
            assert(index as int / BRANCHES as int == stage && index as int % BRANCHES as int == k);
            match ResBlock1::load(weights, index, channels, RESBLOCK_KERNELS[k]) {
                Ok(block) => {
                    assert(block_reads(block, weights@, index as int));
                    resblocks.push(block);
                },
                Err(e) => {
                    proof {
                        lemma_branches_fault(
                            weights@,
                            stage as nat,
                            (k + 1) as nat,
                            BRANCHES as nat,
                        );
                    }
                    return Err(e);
                },
            }
            k += 1;
        }
        Ok(())
    }

    /// Builds the model out of a checkpoint.
    pub fn load(weights: &WeightTable) -> (r: Result<PcNsfHifigan, LoadError>)
        requires
            weights.wf(),
        ensures
            match r {
                Ok(model) => load_fault(weights@) is None && model.reads(weights@),
                Err(e) => load_fault(weights@) == Some(e@),
            },
    {
        let mel = MelSpectrogram::from_weights(weights)?;
        let conv_pre = conv1d_layer(weights, "conv_pre", 128, INITIAL_CHANNELS, 7, 3, 1)?;
        let mut upsamplers: Vec<ConvTranspose1d> = Vec::new();
        let mut resblocks: Vec<ResBlock1> = Vec::new();
        let mut channels: i32 = INITIAL_CHANNELS;
        let mut stage: usize = 0;
        while stage < STAGES
            invariant
                stage <= STAGES,
                weights.wf(),
                mel_fault(weights@) is None,
                weight_fault(weights@, weight_key("conv_pre"@)) is None,
                stages_fault(weights@, stage as nat) is None,
                channels == channels_before(INITIAL_CHANNELS as int, stage as nat),
                0 <= channels <= INITIAL_CHANNELS,
                upsamplers@.len() == stage,
                forall|i: int|
                    0 <= i < stage ==> up_reads(#[trigger] upsamplers@[i], weights@, i),
                resblocks@.len() == stage * BRANCHES,
                forall|i: int|
                    0 <= i < resblocks@.len() ==> block_reads(
                        #[trigger] resblocks@[i],
                        weights@,
                        i,
                    ),
            decreases STAGES - stage,
        {
            let output_channels: i32 = channels / 2;
            let mut prefix = String::from_str("ups.");
            let number = decimal_text(stage as u64);
            prefix.append(number.as_str());
            assert(1 <= UPSAMPLE_RATES@[stage as int] <= UPSAMPLE_KERNELS@[stage as int] <= 16);
            match conv_transpose1d_layer(
                weights,
                prefix.as_str(),
                channels,
                output_channels,
                UPSAMPLE_KERNELS[stage],
                UPSAMPLE_RATES[stage],
                (UPSAMPLE_KERNELS[stage] - UPSAMPLE_RATES[stage]) / 2,
            ) {
                Ok(up) => {
                    assert(up_reads(up, weights@, stage as int));
                    upsamplers.push(up);
                },
                Err(e) => {
                    proof {
                        lemma_stages_fault(weights@, (stage + 1) as nat, STAGES as nat);
                    }
                    return Err(e);
                },
            }
            match Self::load_branches(weights, stage, output_channels, &mut resblocks) {
                Ok(_) => {},
                Err(e) => {
                    proof {
                        lemma_stages_fault(weights@, (stage + 1) as nat, STAGES as nat);
                    }
                    return Err(e);
                },
            }
            channels = output_channels;
            stage += 1;
        }
        let source_conv = conv1d_layer(weights, "source_conv", 1, 128, 1, 0, 1)?;
        let conv_post = conv1d_layer(weights, "conv_post", channels, 1, 7, 3, 1)?;
        Ok(PcNsfHifigan { mel, conv_pre, upsamplers, source_conv, resblocks, conv_post })
    }
}

/// Why an inference cannot be planned.
#[derive(Debug, PartialEq, Eq)]
pub enum InferError {
    /// The pitch contour does not have one value per mel frame.
    F0Mismatch { f0_shape: Vec<i32>, mel_shape: Vec<i32> },
    /// An operation cannot be planned.
    Plan(PlanError),
}

/// An [`InferError`] in specifications.
#[verifier::ext_equal]
pub enum InferFault {
    F0Mismatch { f0_shape: Seq<i32>, mel_shape: Seq<i32> },
    Plan(PlanError),
}

impl View for InferError {
    type V = InferFault;

    open spec fn view(&self) -> InferFault {
        match self {
            InferError::F0Mismatch { f0_shape, mel_shape } => InferFault::F0Mismatch {
                f0_shape: f0_shape@,
                mel_shape: mel_shape@,
            },
            InferError::Plan(e) => InferFault::Plan(*e),
        }
    }
}

impl InferFault {
    /// The text shown for this error.
    pub open spec fn text(self) -> Seq<char> {
        match self {
            InferFault::F0Mismatch { f0_shape, mel_shape } => "F0 shape "@ + listed(f0_shape)
                + " 与 mel shape "@ + listed(mel_shape) + " 不匹配"@,
            InferFault::Plan(e) => e.text(),
        }
    }
}

impl InferError {
    /// Returns [`InferFault::text`].
    pub fn message(&self) -> (r: String)
        ensures
            r@ == self@.text(),
    {
        match self {
            InferError::F0Mismatch { f0_shape, mel_shape } => {
                let mut s = String::from_str("F0 shape ");
                let shape = listed_text(f0_shape);
                s.append(shape.as_str());
                s.append(" 与 mel shape ");
                let shape = listed_text(mel_shape);
                s.append(shape.as_str());
                s.append(" 不匹配");
                s
            },
            InferError::Plan(e) => String::from_str(e.message()),
        }
    }
}

/// A program with the nodes of its intermediate results.
pub struct PcNsfFeatures {
    pub program: Program,
    pub mel: usize,
    pub f0: usize,
    pub source: usize,
    pub conv_pre: usize,
    pub resblocks: Vec<usize>,
    pub stages: Vec<usize>,
    pub output: usize,
}

/// The nodes of a stage.
struct StageNodes {
    first: usize,
    second: usize,
    third: usize,
    output: usize,
}

/// The pitch contour given to an inference.
pub open spec fn f0_input(shape: Seq<i32>) -> Tensor {
    leaf(Source::Input(1), shape)
}

impl PcNsfHifigan {
    /// The signal that enters the residual blocks of a stage.
    pub open spec fn upsampled(self, hidden: Outcome, source: Outcome, stage: int) -> Outcome {
        let up = self.upsamplers@[stage].apply(leaky(hidden));
        if stage == 1 {
            plus(up, self.source_conv.apply(source))
        } else {
            up
        }
    }

    /// What residual block `k` of a stage makes of the signal that enters it.
    pub open spec fn branch(self, up: Outcome, stage: int, k: int) -> Outcome {
        self.resblocks@[stage * BRANCHES + k].apply(up)
    }

    /// What a stage makes of the signal that enters its residual blocks, evaluated.
    pub open spec fn blended(self, up: Outcome, stage: int) -> Outcome {
        let (first, second, third) = (
            self.branch(up, stage, 0),
            self.branch(up, stage, 1),
            self.branch(up, stage, 2),
        );
        after(first, after(second, after(third, evaluated(average(first, second, third)))))
    }

    /// The signal after the first `stages` stages.
    pub open spec fn hidden(self, pre: Outcome, source: Outcome, stages: nat) -> Outcome
        decreases stages,
    {
        if stages == 0 {
            pre
        } else {
            let before = self.hidden(pre, source, (stages - 1) as nat);
            self.blended(self.upsampled(before, source, stages - 1), stages - 1)
        }
    }

    /// The waveform that a source and a prepared mel spectrogram give, evaluated.
    pub open spec fn generated(self, source: Outcome, pre: Outcome) -> Outcome {
        evaluated(
            unary(
                UnaryOp::Tanh,
                self.conv_post.apply(
                    unary(
                        UnaryOp::LeakyRelu(outer_slope()),
                        self.hidden(pre, source, STAGES as nat),
                    ),
                ),
            ),
        )
    }

    /// The source of an inference.
    pub open spec fn source(self, f0: Tensor, mel: Tensor) -> Outcome {
        harmonic_source(f0, mel.shape[1])
    }

    /// The waveform that the model makes of a pitch contour and a mel spectrogram.
    pub open spec fn waveform(self, f0: Tensor, mel: Tensor) -> Outcome {
        let source = self.source(f0, mel);
        after(source, self.generated(source, self.conv_pre.apply(Ok(mel))))
    }

    /// Why the inference on a waveform and a pitch contour cannot be planned.
    pub open spec fn infer_fault(self, audio: Tensor, f0: Tensor) -> Option<InferFault> {
        match self.mel.apply(audio) {
            Err(e) => Some(InferFault::Plan(e)),
            Ok(mel) => if f0.shape != seq![mel.shape[0], mel.shape[1]] {
                Some(InferFault::F0Mismatch { f0_shape: f0.shape, mel_shape: mel.shape })
            } else {
                match self.waveform(f0, mel) {
                    Err(e) => Some(InferFault::Plan(e)),
                    Ok(_) => None,
                }
            },
        }
    }

    /// The waveform that an inference gives.
    pub open spec fn inferred(self, audio: Tensor, f0: Tensor) -> Outcome {
        self.waveform(f0, self.mel.apply(audio)->Ok_0)
    }

    /// Adds [`PcNsfHifigan::upsampled`] to a program.
    fn add_upsampled(&self, p: &mut Program, hidden: usize, source: usize, stage: usize) -> (r:
        Result<usize, PlanError>)
        requires
            self.wf(),
            stage < STAGES,
            old(p).wf(),
            hidden < old(p)@.len(),
            source < old(p)@.len(),
        ensures
            final(p).yields(
                old(p)@,
                r,
                self.upsampled(operand(old(p)@, hidden), operand(old(p)@, source), stage as int),
            ),
    {
        let active = p.unary(UnaryOp::LeakyRelu(Scalar::Ratio { num: 1, den: 10 }), hidden);
        let up = self.upsamplers[stage].forward(p, active)?;
        if stage == 1 {
            let driven = self.source_conv.forward(p, source)?;
            p.binary(BinaryOp::Add, up, driven)
        } else {
            Ok(up)
        }
    }

    /// Adds a stage to a program.
    fn add_stage(&self, p: &mut Program, hidden: usize, source: usize, stage: usize) -> (r: Result<
        StageNodes,
        PlanError,
    >)
        requires
            self.wf(),
            stage < STAGES,
            old(p).wf(),
            hidden < old(p)@.len(),
            source < old(p)@.len(),
        ensures
            final(p).wf(),
            extends(old(p)@, final(p)@),
            ({
                let up = self.upsampled(
                    operand(old(p)@, hidden),
                    operand(old(p)@, source),
                    stage as int,
                );
                match r {
                    Ok(nodes) => {
                        &&& nodes.first < final(p)@.len()
                        &&& nodes.second < final(p)@.len()
                        &&& nodes.third < final(p)@.len()
                        &&& nodes.output < final(p)@.len()
                        &&& operand(final(p)@, nodes.first) == self.branch(up, stage as int, 0)
                        &&& operand(final(p)@, nodes.second) == self.branch(up, stage as int, 1)
                        &&& operand(final(p)@, nodes.third) == self.branch(up, stage as int, 2)
                        &&& operand(final(p)@, nodes.output) == self.blended(up, stage as int)
                    },
                    Err(e) => self.blended(up, stage as int) == Err::<Tensor, PlanError>(e),
                }
            }),
    {
        let ghost o = self.upsampled(operand(p@, hidden), operand(p@, source), stage as int);
        match self.add_upsampled(p, hidden, source, stage) {
            Ok(up) => {
                let first = self.resblocks[stage * BRANCHES].forward(p, up)?;
                let second = self.resblocks[stage * BRANCHES + 1].forward(p, up)?;
                let third = self.resblocks[stage * BRANCHES + 2].forward(p, up)?;
                let blend = add_average(p, first, second, third)?;
                let output = p.eval(blend);
                Ok(StageNodes { first, second, third, output })
            },
            Err(e) => {
                proof {
                    self.resblocks@[stage * BRANCHES + 0].lemma_residual_error(
                        o,
                        0,
                        LAYERS as nat,
                    );
                }
                Err(e)
            },
        }
    }
}

/// Nodes `nodes` of a program that gave `ts` hold the outputs of the residual blocks of the
/// first `stages` stages.
pub open spec fn holds_branches(
    model: PcNsfHifigan,
    ts: Seq<Tensor>,
    nodes: Seq<usize>,
    pre: Outcome,
    source: Outcome,
    stages: nat,
) -> bool {
    &&& nodes.len() == stages * BRANCHES
    &&& in_range(nodes, ts.len())
    &&& forall|i: int|
        0 <= i < nodes.len() ==> operand(ts, #[trigger] nodes[i]) == model.branch(
            model.upsampled(
                model.hidden(pre, source, (i / BRANCHES as int) as nat),
                source,
                i / BRANCHES as int,
            ),
            i / BRANCHES as int,
            i % BRANCHES as int,
        )
}

/// Nodes `nodes` of a program that gave `ts` hold the outputs of the first `stages` stages.
pub open spec fn holds_stages(
    model: PcNsfHifigan,
    ts: Seq<Tensor>,
    nodes: Seq<usize>,
    pre: Outcome,
    source: Outcome,
    stages: nat,
) -> bool {
    &&& nodes.len() == stages
    &&& in_range(nodes, ts.len())
    &&& forall|i: int|
        0 <= i < nodes.len() ==> operand(ts, #[trigger] nodes[i]) == model.hidden(
            pre,
            source,
            (i + 1) as nat,
        )
}

impl PcNsfFeatures {
    /// The program computes the inference of `model` on a waveform and a pitch contour, and
    /// the nodes hold its intermediate results; those of the stages only where `capture`.
    pub open spec fn holds(
        self,
        model: PcNsfHifigan,
        audio: Tensor,
        f0: Tensor,
        capture: bool,
    ) -> bool {
        let ts = self.program@;
        let mel = model.mel.apply(audio);
        let source = model.source(f0, mel->Ok_0);
        let pre = model.conv_pre.apply(mel);
        let captured: nat = if capture {
            STAGES as nat
        } else {
            0
        };
        &&& self.program.wf()
        &&& self.mel < ts.len() && operand(ts, self.mel) == mel
        &&& self.f0 < ts.len() && ts[self.f0 as int] == f0
        &&& self.source < ts.len() && operand(ts, self.source) == source
        &&& self.conv_pre < ts.len() && operand(ts, self.conv_pre) == pre
        &&& holds_branches(model, ts, self.resblocks@, pre, source, captured)
        &&& holds_stages(model, ts, self.stages@, pre, source, captured)
        &&& self.output < ts.len() && operand(ts, self.output) == model.inferred(audio, f0)
    }
}

impl PcNsfHifigan {
    /// Without an early stage there is no later one.
    proof fn lemma_hidden_error(self, pre: Outcome, source: Outcome, i: nat, j: nat)
        requires
            i <= j,
            self.hidden(pre, source, i) is Err,
        ensures
            self.hidden(pre, source, j) == self.hidden(pre, source, i),
        decreases j,
    {
        if i < j {
            self.lemma_hidden_error(pre, source, i, (j - 1) as nat);
            let before = self.hidden(pre, source, (j - 1) as nat);
            let up = self.upsampled(before, source, j - 1);
            assert(up == before);
            self.resblocks@[(j - 1) * BRANCHES + 0].lemma_residual_error(up, 0, LAYERS as nat);
        }
    }

    /// Adds the stages and the end of the generator to a program.
    #[verifier::rlimit(30)]
    fn add_generated(
        &self,
        p: &mut Program,
        source: usize,
        pre: usize,
        capture: bool,
        resblocks: &mut Vec<usize>,
        stages: &mut Vec<usize>,
    ) -> (r: Result<usize, PlanError>)
        requires
            self.wf(),
            old(p).wf(),
            source < old(p)@.len(),
            pre < old(p)@.len(),
            old(resblocks)@.len() == 0,
            old(stages)@.len() == 0,
        ensures
            final(p).yields(
                old(p)@,
                r,
                self.generated(operand(old(p)@, source), operand(old(p)@, pre)),
            ),
            r is Ok ==> holds_branches(
                *self,
                final(p)@,
                final(resblocks)@,
                operand(old(p)@, pre),
                operand(old(p)@, source),
                if capture {
                    STAGES as nat
                } else {
                    0
                },
            ),
            r is Ok ==> holds_stages(
                *self,
                final(p)@,
                final(stages)@,
                operand(old(p)@, pre),
                operand(old(p)@, source),
                if capture {
                    STAGES as nat
                } else {
                    0
                },
            ),
    {
        let ghost x = operand(p@, pre);
        let ghost s = operand(p@, source);
        let mut hidden: usize = pre;
        let mut stage: usize = 0;
        while stage < STAGES
            invariant
                stage <= STAGES,
                self.wf(),
                p.wf(),
                extends(old(p)@, p@),
                source < p@.len(),
                x == operand(old(p)@, pre),
                s == operand(old(p)@, source),
                s == operand(p@, source),
                hidden < p@.len(),
                operand(p@, hidden) == self.hidden(x, s, stage as nat),
                holds_branches(
                    *self,
                    p@,
                    resblocks@,
                    x,
                    s,
                    if capture {
                        stage as nat
                    } else {
                        0
                    },
                ),
                holds_stages(
                    *self,
                    p@,
                    stages@,
                    x,
                    s,
                    if capture {
                        stage as nat
                    } else {
                        0
                    },
                ),
            decreases STAGES - stage,
        {
            match self.add_stage(p, hidden, source, stage) {
                Ok(nodes) => {
                    assert(operand(p@, nodes.output) == self.hidden(x, s, (stage + 1) as nat));
                    if capture {
                        resblocks.push(nodes.first);
                        resblocks.push(nodes.second);
                        resblocks.push(nodes.third);
                        stages.push(nodes.output);
                        proof {
                            assert forall|i: int| 0 <= i < resblocks@.len() implies operand(
                                p@,
                                #[trigger] resblocks@[i],
                            ) == self.branch(
                                self.upsampled(
                                    self.hidden(x, s, (i / BRANCHES as int) as nat),
                                    s,
                                    i / BRANCHES as int,
                                ),
                                i / BRANCHES as int,
                                i % BRANCHES as int,
                            ) by {
                                if i >= stage * BRANCHES {
                                    assert(i / BRANCHES as int == stage);
                                }
                            }
                        }
                    }
                    hidden = nodes.output;
                },
                Err(e) => {
                    proof {
                        assert(self.hidden(x, s, (stage + 1) as nat) == Err::<Tensor, PlanError>(
                            e,
                        ));
                        self.lemma_hidden_error(x, s, (stage + 1) as nat, STAGES as nat);
                    }
                    return Err(e);
                },
            }
            stage += 1;
        }
        let active = p.unary(UnaryOp::LeakyRelu(Scalar::Ratio { num: 1, den: 100 }), hidden);
        let wave = self.conv_post.forward(p, active)?;
        let output = p.unary(UnaryOp::Tanh, wave);
        Ok(p.eval(output))
    }

    /// Plans an inference on arrays of these shapes.
    fn infer_internal(
        &self,
        audio_shape: &Vec<i32>,
        f0_shape: &Vec<i32>,
        capture_features: bool,
    ) -> (r: Result<PcNsfFeatures, InferError>)
        requires
            self.wf(),
            valid(audio_shape@),
            valid(f0_shape@),
            audio_shape@.len() >= 2,
        ensures
            ({
                let audio = audio_input(audio_shape@);
                let f0 = f0_input(f0_shape@);
                match r {
                    Ok(features) => self.infer_fault(audio, f0) is None && features.holds(
                        *self,
                        audio,
                        f0,
                        capture_features,
                    ),
                    Err(e) => self.infer_fault(audio, f0) == Some(e@),
                }
            }),
    {
        let ghost a = audio_input(audio_shape@);
        let ghost g = f0_input(f0_shape@);
        let mut p = Program::new();
        let audio = p.leaf(Source::Input(0), audio_shape);
        let f0 = p.leaf(Source::Input(1), f0_shape);
        let mel = match self.mel.forward(&mut p, audio) {
            Ok(mel) => mel,
            Err(e) => {
                return Err(InferError::Plan(e));
            },
        };
        proof {
            self.mel.lemma_shape(a);
        }
        let batch: i32 = p.shape(mel)[0];
        let frames: i32 = p.shape(mel)[1];
        let expected: Vec<i32> = vec![batch, frames];
        assert(expected@ =~= seq![p@[mel as int].shape[0], p@[mel as int].shape[1]]);
        if !same_shape(f0_shape, &expected) {
            return Err(
                InferError::F0Mismatch {
                    f0_shape: copy_shape(f0_shape),
                    mel_shape: copy_shape(p.shape(mel)),
                },
            );
        }
        let source = match add_source(&mut p, f0, frames) {
            Ok(source) => source,
            Err(e) => {
                return Err(InferError::Plan(e));
            },
        };
        let ghost pre = self.conv_pre.apply(self.mel.apply(a));
        let ghost drive = self.source(g, self.mel.apply(a)->Ok_0);
        let conv_pre = match self.conv_pre.forward(&mut p, mel) {
            Ok(conv_pre) => conv_pre,
            Err(e) => {
                proof {
                    self.lemma_hidden_error(pre, drive, 0, STAGES as nat);
                }
                return Err(InferError::Plan(e));
            },
        };
        let mut resblocks: Vec<usize> = Vec::new();
        let mut stages: Vec<usize> = Vec::new();
        match self.add_generated(
            &mut p,
            source,
            conv_pre,
            capture_features,
            &mut resblocks,
            &mut stages,
        ) {
            Ok(output) => Ok(
                PcNsfFeatures { program: p, mel, f0, source, conv_pre, resblocks, stages, output },
            ),
            Err(e) => Err(InferError::Plan(e)),
        }
    }

    /// Plans the waveform that the model makes of a waveform and a pitch contour of these
    /// shapes.
    pub fn infer(&self, audio_shape: &Vec<i32>, f0_shape: &Vec<i32>) -> (r: Result<
        Plan,
        InferError,
    >)
        requires
            self.wf(),
            valid(audio_shape@),
            valid(f0_shape@),
            audio_shape@.len() >= 2,
        ensures
            ({
                let audio = audio_input(audio_shape@);
                let f0 = f0_input(f0_shape@);
                match r {
                    Ok(plan) => self.infer_fault(audio, f0) is None && plan.computes(
                        self.inferred(audio, f0),
                    ),
                    Err(e) => self.infer_fault(audio, f0) == Some(e@),
                }
            }),
    {
        match self.infer_internal(audio_shape, f0_shape, false) {
            Ok(features) => Ok(Plan { program: features.program, output: features.output }),
            Err(e) => Err(e),
        }
    }

    /// Plans an inference that keeps its intermediate results.
    pub fn infer_with_features(&self, audio_shape: &Vec<i32>, f0_shape: &Vec<i32>) -> (r: Result<
        PcNsfFeatures,
        InferError,
    >)
        requires
            self.wf(),
            valid(audio_shape@),
            valid(f0_shape@),
            audio_shape@.len() >= 2,
        ensures
            ({
                let audio = audio_input(audio_shape@);
                let f0 = f0_input(f0_shape@);
                match r {
                    Ok(features) => self.infer_fault(audio, f0) is None && features.holds(
                        *self,
                        audio,
                        f0,
                        true,
                    ),
                    Err(e) => self.infer_fault(audio, f0) == Some(e@),
                }
            }),
    {
        self.infer_internal(audio_shape, f0_shape, true)
    }
}

} // verus!
