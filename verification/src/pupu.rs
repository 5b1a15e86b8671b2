//! The alias-free vocoder: resampling stages that take their high frequencies from a
//! source, and activations at twice the rate.
use vstd::prelude::*;
use vstd::string::*;

use crate::config::{
    add_average, audio_input, average, channels_before, layer_convs, layer_fault, layer_reads,
    BRANCHES, LAYERS, RESBLOCK_KERNELS, STAGES, TOTAL_UPSAMPLE_RATES, UPSAMPLE_RATES,
};
use crate::layers::{conv1d_layer, weight_key, Conv1d};
use crate::mel::{mel_fault, MelSpectrogram};
use crate::metal::{activation, MetalActivationKernel};
use crate::program::{extends, in_range, operand, Plan, Program};
use crate::shape::valid;
use crate::source::whole;
use crate::tensor::{
    after, binary, evaluated, leaf, plus, slice, BinaryOp, Outcome, PlanError, Scalar, Source,
    Tensor,
};
use crate::text::{decimal, decimal_text, joined_text, numbered, numbered_text};
use crate::upsampler::{upsampler_fault, ResampleUpsampler};
use crate::weights::{
    first_fault, stored, weight_fault, ArrayRef, Entries, LoadError, LoadFault, WeightTable,
};

verus! {

/// Channels before the first stage.
pub const INITIAL_CHANNELS: i32 = 1_536;

/// `a` is the array that `entries` stores under `key`.
pub open spec fn is_stored(a: ArrayRef, entries: Entries, key: Seq<char>) -> bool {
    a.wf() && stored(entries, key) == Some(a.tensor())
}

/// The fault of a checkpoint without the arrays of the activation `prefix`.
pub open spec fn activation_load_fault(entries: Entries, prefix: Seq<char>) -> Option<LoadFault> {
    first_fault(
        weight_fault(entries, prefix + ".act.alpha"@),
        first_fault(
            weight_fault(entries, prefix + ".act.beta"@),
            first_fault(
                weight_fault(entries, prefix + ".upsample.filter"@),
                weight_fault(entries, prefix + ".downsample.lowpass.filter"@),
            ),
        ),
    )
}

/// An activation at twice the rate.
#[derive(Debug, PartialEq, Eq)]
pub struct Activation1d {
    pub alpha: ArrayRef,
    pub beta: ArrayRef,
    pub up_filter: ArrayRef,
    pub down_filter: ArrayRef,
    pub kernel: MetalActivationKernel,
}

impl Activation1d {
    pub open spec fn wf(self) -> bool {
        self.alpha.wf() && self.beta.wf() && self.up_filter.wf() && self.down_filter.wf()
    }

    /// The activation has the arrays that `entries` stores under `prefix`, and the device kernel
    /// of the activations.
    pub open spec fn reads(self, entries: Entries, prefix: Seq<char>) -> bool {
        &&& self.kernel.wf()
        &&& is_stored(self.alpha, entries, prefix + ".act.alpha"@)
        &&& is_stored(self.beta, entries, prefix + ".act.beta"@)
        &&& is_stored(self.up_filter, entries, prefix + ".upsample.filter"@)
        &&& is_stored(self.down_filter, entries, prefix + ".downsample.lowpass.filter"@)
    }

    /// What the activation makes of `x`.
    pub open spec fn apply(self, x: Outcome) -> Outcome {
        activation(
            x,
            self.alpha.tensor(),
            self.beta.tensor(),
            self.up_filter.tensor(),
            self.down_filter.tensor(),
        )
    }

    /// Builds the activation `prefix`.
    fn load(weights: &WeightTable, prefix: &str) -> (r: Result<Activation1d, LoadError>)
        requires
            weights.wf(),
        ensures
            match r {
                Ok(a) => activation_load_fault(weights@, prefix@) is None && a.reads(
                    weights@,
                    prefix@,
                ),
                Err(e) => activation_load_fault(weights@, prefix@) == Some(e@),
            },
    {
        let alpha = weights.weight(joined_text(prefix, ".act.alpha"))?;
        let beta = weights.weight(joined_text(prefix, ".act.beta"))?;
        let up_filter = weights.weight(joined_text(prefix, ".upsample.filter"))?;
        let down_filter = weights.weight(joined_text(prefix, ".downsample.lowpass.filter"))?;
        let kernel = MetalActivationKernel::new();
        Ok(Activation1d { alpha, beta, up_filter, down_filter, kernel })
    }

    /// Adds the activation to a program.
    fn forward(&self, p: &mut Program, input: usize) -> (r: Result<usize, PlanError>)
        requires
            self.wf(),
            old(p).wf(),
            input < old(p)@.len(),
        ensures
            final(p).yields(old(p)@, r, self.apply(operand(old(p)@, input))),
    {
        let alpha = self.alpha.read(p);
        let beta = self.beta.read(p);
        let up_filter = self.up_filter.read(p);
        let down_filter = self.down_filter.read(p);
        self.kernel.forward(p, input, alpha, beta, up_filter, down_filter)
    }
}

/// The name of activation `n` of residual block `index`.
pub open spec fn activation_prefix(index: nat, n: nat) -> Seq<char> {
    numbered("resblocks."@, index, ".activations."@) + decimal(n)
}

/// The fault of a checkpoint without the arrays of a layer of residual block `index`.
pub open spec fn full_layer_fault(entries: Entries, index: nat, layer: nat) -> Option<LoadFault> {
    first_fault(
        layer_fault(entries, index, layer),
        first_fault(
            activation_load_fault(entries, activation_prefix(index, layer * 2)),
            activation_load_fault(entries, activation_prefix(index, layer * 2 + 1)),
        ),
    )
}

/// The fault of a checkpoint without the first `layers` layers of residual block `index`.
pub open spec fn resblock_fault(entries: Entries, index: nat, layers: nat) -> Option<LoadFault>
    decreases layers,
{
    if layers == 0 {
        None
    } else {
        first_fault(
            resblock_fault(entries, index, (layers - 1) as nat),
            full_layer_fault(entries, index, (layers - 1) as nat),
        )
    }
}

/// A fault in an early layer is the fault of the block.
proof fn lemma_resblock_fault(entries: Entries, index: nat, i: nat, j: nat)
    requires
        i <= j,
        resblock_fault(entries, index, i) is Some,
    ensures
        resblock_fault(entries, index, j) == resblock_fault(entries, index, i),
    decreases j,
{
    if i < j {
        lemma_resblock_fault(entries, index, i, (j - 1) as nat);
    }
}

/// A residual block: layers of two convolutions behind activations, each layer added to
/// its input.
#[derive(Debug, PartialEq, Eq)]
pub struct ResBlock1 {
    pub convs1: Vec<Conv1d>,
    pub convs2: Vec<Conv1d>,
    pub activations: Vec<Activation1d>,
}

impl ResBlock1 {
    pub open spec fn wf(self) -> bool {
        &&& self.convs1@.len() == LAYERS
        &&& self.convs2@.len() == LAYERS
        &&& self.activations@.len() == LAYERS * 2
        &&& forall|l: int| 0 <= l < LAYERS ==> (#[trigger] self.convs1@[l]).wf()
        &&& forall|l: int| 0 <= l < LAYERS ==> (#[trigger] self.convs2@[l]).wf()
        &&& forall|n: int| 0 <= n < LAYERS * 2 ==> (#[trigger] self.activations@[n]).wf()
    }

    /// The block has the arrays that `entries` stores for residual block `index`.
    pub open spec fn reads(
        self,
        entries: Entries,
        index: nat,
        channels: int,
        kernel_size: int,
    ) -> bool {
        &&& self.wf()
        &&& forall|l: int|
            0 <= l < LAYERS ==> layer_reads(
                #[trigger] self.convs1@[l],
                self.convs2@[l],
                entries,
                index,
                l as nat,
                channels,
                kernel_size,
            )
        &&& forall|n: int|
            0 <= n < LAYERS * 2 ==> (#[trigger] self.activations@[n]).reads(
                entries,
                activation_prefix(index, n as nat),
            )
    }

    /// What layer `l` adds to `x`.
    pub open spec fn layer(self, x: Outcome, l: int) -> Outcome {
        let hidden = self.convs1@[l].apply(self.activations@[l * 2].apply(x));
        self.convs2@[l].apply(self.activations@[l * 2 + 1].apply(hidden))
    }

    /// What the first `layers` layers make of `x`.
    pub open spec fn residual(self, x: Outcome, layers: nat) -> Outcome
        decreases layers,
    {
        if layers == 0 {
            x
        } else {
            let y = self.residual(x, (layers - 1) as nat);
            plus(y, self.layer(y, layers - 1))
        }
    }

    /// What the block makes of `x`.
    pub open spec fn apply(self, x: Outcome) -> Outcome {
        self.residual(x, LAYERS as nat)
    }

    /// Builds residual block `index`.
    fn load(weights: &WeightTable, index: usize, channels: i32, kernel_size: i32) -> (r: Result<
        ResBlock1,
        LoadError,
    >)
        requires
            weights.wf(),
            1 <= kernel_size,
            kernel_size * 5 <= i32::MAX,
        ensures
            match r {
                Ok(block) => resblock_fault(
                    weights@,
                    index as nat,
                    LAYERS as nat,
                ) is None && block.reads(
                    weights@,
                    index as nat,
                    channels as int,
                    kernel_size as int,
                ),
                Err(e) => resblock_fault(weights@, index as nat, LAYERS as nat) == Some(e@),
            },
    {
        let mut convs1: Vec<Conv1d> = Vec::new();
        let mut convs2: Vec<Conv1d> = Vec::new();
        let mut activations: Vec<Activation1d> = Vec::new();
        let mut layer: usize = 0;
        while layer < LAYERS
            invariant
                layer <= LAYERS,
                weights.wf(),
                1 <= kernel_size,
                kernel_size * 5 <= i32::MAX,
                convs1@.len() == layer,
                convs2@.len() == layer,
                activations@.len() == layer * 2,
                resblock_fault(weights@, index as nat, layer as nat) is None,
                forall|l: int|
                    0 <= l < layer ==> layer_reads(
                        #[trigger] convs1@[l],
                        convs2@[l],
                        weights@,
                        index as nat,
                        l as nat,
                        channels as int,
                        kernel_size as int,
                    ),
                forall|n: int|
                    0 <= n < layer * 2 ==> (#[trigger] activations@[n]).reads(
                        weights@,
                        activation_prefix(index as nat, n as nat),
                    ),
            decreases LAYERS - layer,
        {
            match Self::load_layer(weights, index, layer, channels, kernel_size) {
                Ok((first, second, before, between)) => {
                    convs1.push(first);
                    convs2.push(second);
                    activations.push(before);
                    activations.push(between);
                },
                Err(e) => {
                    proof {
                        assert(resblock_fault(weights@, index as nat, (layer + 1) as nat) == Some(
                            e@,
                        ));
                        lemma_resblock_fault(
                            weights@,
                            index as nat,
                            (layer + 1) as nat,
                            LAYERS as nat,
                        );
                    }
                    return Err(e);
                },
            }
            layer += 1;
        }
        let block = ResBlock1 { convs1, convs2, activations };
        assert forall|l: int| 0 <= l < LAYERS implies (#[trigger] block.convs2@[l]).wf() by {
            let first = block.convs1@[l];
        }
        Ok(block)
    }

    /// Builds a layer of residual block `index`: its convolutions, and the activations
    /// before and between them.
    fn load_layer(
        weights: &WeightTable,
        index: usize,
        layer: usize,
        channels: i32,
        kernel_size: i32,
    ) -> (r: Result<(Conv1d, Conv1d, Activation1d, Activation1d), LoadError>)
        requires
            weights.wf(),
            layer < LAYERS,
            1 <= kernel_size,
            kernel_size * 5 <= i32::MAX,
        ensures
            match r {
                Ok((first, second, before, between)) => {
                    &&& full_layer_fault(weights@, index as nat, layer as nat) is None
                    &&& layer_reads(
                        first,
                        second,
                        weights@,
                        index as nat,
                        layer as nat,
                        channels as int,
                        kernel_size as int,
                    )
                    &&& before.reads(weights@, activation_prefix(index as nat, layer as nat * 2))
                    &&& between.reads(
                        weights@,
                        activation_prefix(index as nat, layer as nat * 2 + 1),
                    )
                },
                Err(e) => full_layer_fault(weights@, index as nat, layer as nat) == Some(e@),
            },
    {
        let (first, second) = layer_convs(weights, index, layer, channels, kernel_size)?;
        let mut prefix = numbered_text("resblocks.", index, ".activations.");
        let number = decimal_text((layer * 2) as u64);
        prefix.append(number.as_str());
        let before = Activation1d::load(weights, prefix.as_str())?;
        let mut prefix = numbered_text("resblocks.", index, ".activations.");
        let number = decimal_text((layer * 2 + 1) as u64);
        prefix.append(number.as_str());
        let between = Activation1d::load(weights, prefix.as_str())?;
        Ok((first, second, before, between))
    }

    /// Adds the block to a program.
    fn forward(&self, p: &mut Program, input: usize) -> (r: Result<usize, PlanError>)
        requires
            self.wf(),
            old(p).wf(),
            input < old(p)@.len(),
        ensures
            final(p).yields(old(p)@, r, self.apply(operand(old(p)@, input))),
    {
        let ghost x = operand(p@, input);
        let mut output: usize = input;
        let mut layer: usize = 0;
        while layer < LAYERS
            invariant
                layer <= LAYERS,
                self.wf(),
                p.wf(),
                extends(old(p)@, p@),
                x == operand(old(p)@, input),
                output < p@.len(),
                operand(p@, output) == self.residual(x, layer as nat),
            decreases LAYERS - layer,
        {
            match self.add_layer(p, output, layer) {
                Ok(next) => {
                    output = next;
                },
                Err(e) => {
                    proof {
                        self.lemma_residual_error(x, (layer + 1) as nat, LAYERS as nat);
                    }
                    return Err(e);
                },
            }
            layer += 1;
        }
        Ok(output)
    }

    /// Without an early layer there is no later one.
    proof fn lemma_residual_error(self, x: Outcome, i: nat, j: nat)
        requires
            i <= j,
            self.residual(x, i) is Err,
        ensures
            self.residual(x, j) == self.residual(x, i),
        decreases j,
    {
        if i < j {
            self.lemma_residual_error(x, i, (j - 1) as nat);
        }
    }

    /// Adds one layer and its sum with node `input` to a program.
    fn add_layer(&self, p: &mut Program, input: usize, layer: usize) -> (r: Result<
        usize,
        PlanError,
    >)
        requires
            self.wf(),
            layer < LAYERS,
            old(p).wf(),
            input < old(p)@.len(),
        ensures
            final(p).yields(
                old(p)@,
                r,
                plus(
                    operand(old(p)@, input),
                    self.layer(operand(old(p)@, input), layer as int),
                ),
            ),
    {
        let active = self.activations[layer * 2].forward(p, input)?;
        let hidden = self.convs1[layer].forward(p, active)?;
        let active = self.activations[layer * 2 + 1].forward(p, hidden)?;
        let hidden = self.convs2[layer].forward(p, active)?;
        p.binary(BinaryOp::Add, input, hidden)
    }
}

/// The fault of a checkpoint without the first `branches` residual blocks of a stage.
pub open spec fn branches_fault(entries: Entries, stage: nat, branches: nat) -> Option<LoadFault>
    decreases branches,
{
    if branches == 0 {
        None
    } else {
        first_fault(
            branches_fault(entries, stage, (branches - 1) as nat),
            resblock_fault(entries, (stage * BRANCHES + branches - 1) as nat, LAYERS as nat),
        )
    }
}

/// The fault of a checkpoint from which a stage cannot be built.
pub open spec fn stage_fault(entries: Entries, stage: nat) -> Option<LoadFault> {
    first_fault(
        upsampler_fault(
            entries,
            stage,
            channels_before(INITIAL_CHANNELS as int, stage) as i32,
        ),
        branches_fault(entries, stage, BRANCHES as nat),
    )
}

/// The fault of a checkpoint from which the first `stages` stages cannot be built.
pub open spec fn stages_fault(entries: Entries, stages: nat) -> Option<LoadFault>
    decreases stages,
{
    if stages == 0 {
        None
    } else {
        first_fault(
            stages_fault(entries, (stages - 1) as nat),
            stage_fault(entries, (stages - 1) as nat),
        )
    }
}

/// The fault of a checkpoint from which the model cannot be built: the first one, in the
/// order in which the model is built.
pub open spec fn load_fault(entries: Entries) -> Option<LoadFault> {
    first_fault(
        mel_fault(entries),
        first_fault(
            weight_fault(entries, weight_key("conv_pre"@)),
            first_fault(
                stages_fault(entries, STAGES as nat),
                first_fault(
                    activation_load_fault(entries, "activation_post"@),
                    weight_fault(entries, weight_key("conv_post"@)),
                ),
            ),
        ),
    )
}

/// A fault in an early block is the fault of the stage.
proof fn lemma_branches_fault(entries: Entries, stage: nat, i: nat, j: nat)
    requires
        i <= j,
        branches_fault(entries, stage, i) is Some,
    ensures
        branches_fault(entries, stage, j) == branches_fault(entries, stage, i),
    decreases j,
{
    if i < j {
        lemma_branches_fault(entries, stage, i, (j - 1) as nat);
    }
}

/// A fault in an early stage is the fault of all stages.
proof fn lemma_stages_fault(entries: Entries, i: nat, j: nat)
    requires
        i <= j,
        stages_fault(entries, i) is Some,
    ensures
        stages_fault(entries, j) == stages_fault(entries, i),
    decreases j,
{
    if i < j {
        lemma_stages_fault(entries, i, (j - 1) as nat);
    }
}

/// `block` is residual block `index` of the model.
pub open spec fn block_reads(block: ResBlock1, entries: Entries, index: int) -> bool {
    block.reads(
        entries,
        index as nat,
        channels_before(INITIAL_CHANNELS as int, (index / BRANCHES as int + 1) as nat),
        RESBLOCK_KERNELS@[index % BRANCHES as int] as int,
    )
}

/// `up` is the upsampler of a stage of the model, prepared by a program that gave
/// `prepared`.
pub open spec fn up_reads(
    up: ResampleUpsampler,
    entries: Entries,
    prepared: Seq<Tensor>,
    stage: int,
) -> bool {
    &&& up.reads(entries, prepared, stage as nat)
    &&& up.has(
        UPSAMPLE_RATES@[stage] as int,
        TOTAL_UPSAMPLE_RATES@[stage] as int,
        channels_before(INITIAL_CHANNELS as int, stage as nat),
        channels_before(INITIAL_CHANNELS as int, (stage + 1) as nat),
    )
}

/// The alias-free vocoder.
pub struct PupuVocoder {
    pub mel: MelSpectrogram,
    pub conv_pre: Conv1d,
    pub upsamplers: Vec<ResampleUpsampler>,
    pub resblocks: Vec<ResBlock1>,
    pub activation_post: Activation1d,
    pub conv_post: Conv1d,
    /// What has to run before the first inference.
    pub preparation: Program,
}

impl PupuVocoder {
    pub open spec fn wf(self) -> bool {
        &&& self.mel.wf()
        &&& self.conv_pre.wf()
        &&& self.activation_post.wf()
        &&& self.conv_post.wf()
        &&& self.preparation.wf()
        &&& self.upsamplers@.len() == STAGES
        &&& self.resblocks@.len() == STAGES * BRANCHES
        &&& forall|i: int| 0 <= i < STAGES ==> (#[trigger] self.upsamplers@[i]).wf()
        &&& forall|i: int| 0 <= i < STAGES * BRANCHES ==> (#[trigger] self.resblocks@[i]).wf()
    }

    /// The model has the weights that `entries` stores.
    pub open spec fn reads(self, entries: Entries) -> bool {
        &&& self.wf()
        &&& self.mel.reads(entries)
        &&& self.conv_pre.reads(entries, "conv_pre"@)
        &&& self.conv_pre.has(128, INITIAL_CHANNELS as int, 7, 3, 1)
        &&& forall|i: int|
            0 <= i < STAGES ==> up_reads(
                #[trigger] self.upsamplers@[i],
                entries,
                self.preparation@,
                i,
            )
        &&& forall|i: int|
            0 <= i < STAGES * BRANCHES ==> block_reads(#[trigger] self.resblocks@[i], entries, i)
        &&& self.activation_post.reads(entries, "activation_post"@)
        &&& self.conv_post.reads(entries, "conv_post"@)
        &&& self.conv_post.has(
            channels_before(INITIAL_CHANNELS as int, STAGES as nat),
            1,
            7,
            3,
            1,
        )
    }

    /// Builds the residual blocks of a stage.
    fn load_branches(
        weights: &WeightTable,
        stage: usize,
        channels: i32,
        resblocks: &mut Vec<ResBlock1>,
    ) -> (r: Result<(), LoadError>)
        requires
            weights.wf(),
            stage < STAGES,
            channels == channels_before(INITIAL_CHANNELS as int, (stage + 1) as nat),
            old(resblocks)@.len() == stage * BRANCHES,
            forall|i: int|
                0 <= i < old(resblocks)@.len() ==> block_reads(
                    #[trigger] old(resblocks)@[i],
                    weights@,
                    i,
                ),
        ensures
            match r {
                Ok(_) => branches_fault(weights@, stage as nat, BRANCHES as nat) is None
                    && final(resblocks)@.len() == (stage + 1) * BRANCHES && forall|i: int|
                    0 <= i < final(resblocks)@.len() ==> block_reads(
                        #[trigger] final(resblocks)@[i],
                        weights@,
                        i,
                    ),
                Err(e) => branches_fault(weights@, stage as nat, BRANCHES as nat) == Some(e@),
            },
    {
        let mut k: usize = 0;
        while k < BRANCHES
            invariant
                k <= BRANCHES,
                weights.wf(),
                stage < STAGES,
                channels == channels_before(INITIAL_CHANNELS as int, (stage + 1) as nat),
                branches_fault(weights@, stage as nat, k as nat) is None,
                resblocks@.len() == stage * BRANCHES + k,
                forall|i: int|
                    0 <= i < resblocks@.len() ==> block_reads(
                        #[trigger] resblocks@[i],
                        weights@,
                        i,
                    ),
            decreases BRANCHES - k,
        {
            let index: usize = stage * BRANCHES + k;
            assert(index as int / BRANCHES as int == stage && index as int % BRANCHES as int == k);
            match ResBlock1::load(weights, index, channels, RESBLOCK_KERNELS[k]) {
                Ok(block) => {
                    assert(block_reads(block, weights@, index as int));
                    resblocks.push(block);
                },
                Err(e) => {
                    proof {
                        lemma_branches_fault(
                            weights@,
                            stage as nat,
                            (k + 1) as nat,
                            BRANCHES as nat,
                        );
                    }
                    return Err(e);
                },
            }
            k += 1;
        }
        Ok(())
    }

    /// Builds the model out of a checkpoint.
    pub fn load(weights: &WeightTable) -> (r: Result<PupuVocoder, LoadError>)
        requires
            weights.wf(),
        ensures
            match r {
                Ok(model) => load_fault(weights@) is None && model.reads(weights@),
                Err(e) => load_fault(weights@) == Some(e@),
            },
    {
        let mel = MelSpectrogram::from_weights(weights)?;
        let conv_pre = conv1d_layer(weights, "conv_pre", 128, INITIAL_CHANNELS, 7, 3, 1)?;
        let mut preparation = Program::new();
        let mut upsamplers: Vec<ResampleUpsampler> = Vec::new();
        let mut resblocks: Vec<ResBlock1> = Vec::new();
        let mut channels: i32 = INITIAL_CHANNELS;
        let mut stage: usize = 0;
        while stage < STAGES
            invariant
                stage <= STAGES,
                weights.wf(),
                mel_fault(weights@) is None,
                weight_fault(weights@, weight_key("conv_pre"@)) is None,
                stages_fault(weights@, stage as nat) is None,
                channels == channels_before(INITIAL_CHANNELS as int, stage as nat),
                0 <= channels <= INITIAL_CHANNELS,
                preparation.wf(),
                upsamplers@.len() == stage,
                forall|i: int|
                    0 <= i < stage ==> up_reads(
                        #[trigger] upsamplers@[i],
                        weights@,
                        preparation@,
                        i,
                    ),
                resblocks@.len() == stage * BRANCHES,
                forall|i: int|
                    0 <= i < resblocks@.len() ==> block_reads(
                        #[trigger] resblocks@[i],
                        weights@,
                        i,
                    ),
            decreases STAGES - stage,
        {
            let output_channels: i32 = channels / 2;
            assert(8 <= TOTAL_UPSAMPLE_RATES@[stage as int] <= 512);
            let ghost before = preparation@;
            match ResampleUpsampler::load(
                weights,
                &mut preparation,
                stage,
                UPSAMPLE_RATES[stage],
                TOTAL_UPSAMPLE_RATES[stage],
                channels,
                output_channels,
            ) {
                Ok(up) => {
                    assert(up_reads(up, weights@, preparation@, stage as int));
                    proof {
                        assert forall|i: int| 0 <= i < stage implies up_reads(
                            #[trigger] upsamplers@[i],
                            weights@,
                            preparation@,
                            i,
                        ) by {
                            assert(up_reads(upsamplers@[i], weights@, before, i));
                        }
                    }
                    upsamplers.push(up);
                },
                Err(e) => {
                    proof {
                        lemma_stages_fault(weights@, (stage + 1) as nat, STAGES as nat);
                    }
                    return Err(e);
                },
            }
            match Self::load_branches(weights, stage, output_channels, &mut resblocks) {
                Ok(_) => {},
                Err(e) => {
                    proof {
                        lemma_stages_fault(weights@, (stage + 1) as nat, STAGES as nat);
                    }
                    return Err(e);
                },
            }
            channels = output_channels;
            stage += 1;
        }
        let activation_post = Activation1d::load(weights, "activation_post")?;
        let conv_post = conv1d_layer(weights, "conv_post", channels, 1, 7, 3, 1)?;
        Ok(
            PupuVocoder {
                mel,
                conv_pre,
                upsamplers,
                resblocks,
                activation_post,
                conv_post,
                preparation,
            },
        )
    }
}

/// A program with the nodes of its intermediate results.
pub struct PupuFeatures {
    pub program: Program,
    pub mel: usize,
    pub conv_pre: usize,
    pub resblocks: Vec<usize>,
    pub stages: Vec<usize>,
    pub output: usize,
}

/// The nodes of a stage.
struct StageNodes {
    first: usize,
    second: usize,
    third: usize,
    output: usize,
}

impl PupuVocoder {
    /// The signal that enters the residual blocks of a stage.
    pub open spec fn upsampled(self, hidden: Outcome, source: Tensor, stage: int) -> Outcome {
        self.upsamplers@[stage].apply(hidden, source)
    }

    /// What residual block `k` of a stage makes of the signal that enters it.
    pub open spec fn branch(self, up: Outcome, stage: int, k: int) -> Outcome {
        self.resblocks@[stage * BRANCHES + k].apply(up)
    }

    /// What a stage makes of the signal that enters its residual blocks.
    pub open spec fn blended(self, up: Outcome, stage: int) -> Outcome {
        let (first, second, third) = (
            self.branch(up, stage, 0),
            self.branch(up, stage, 1),
            self.branch(up, stage, 2),
        );
        after(first, after(second, after(third, average(first, second, third))))
    }

    /// The signal after the first `stages` stages; `source` drives them all.
    pub open spec fn hidden(self, source: Tensor, stages: nat) -> Outcome
        decreases stages,
    {
        if stages == 0 {
            Ok(source)
        } else {
            let before = self.hidden(source, (stages - 1) as nat);
            self.blended(self.upsampled(before, source, stages - 1), stages - 1)
        }
    }

    /// The waveform that a prepared mel spectrogram gives, evaluated.
    pub open spec fn generated(self, source: Tensor) -> Outcome {
        evaluated(
            binary(
                BinaryOp::Minimum,
                binary(
                    BinaryOp::Maximum,
                    self.conv_post.apply(
                        self.activation_post.apply(self.hidden(source, STAGES as nat)),
                    ),
                    whole((-1) as i32),
                ),
                whole(1),
            ),
        )
    }

    /// The waveform that the model makes of a mel spectrogram.
    pub open spec fn waveform(self, mel: Outcome) -> Outcome {
        match self.conv_pre.apply(mel) {
            Ok(source) => self.generated(source),
            Err(e) => Err(e),
        }
    }

    /// The first `target_length` samples of that waveform.
    pub open spec fn trimmed(self, mel: Outcome, target_length: i32) -> Outcome {
        slice(self.waveform(mel), 1, 0, target_length as int)
    }

    /// Without an early stage there is no later one.
    proof fn lemma_hidden_error(self, source: Tensor, i: nat, j: nat)
        requires
            i <= j,
            self.hidden(source, i) is Err,
        ensures
            self.hidden(source, j) == self.hidden(source, i),
        decreases j,
    {
        if i < j {
            self.lemma_hidden_error(source, i, (j - 1) as nat);
            let before = self.hidden(source, (j - 1) as nat);
            let up = self.upsampled(before, source, j - 1);
            assert(up == before) by {
                self.upsamplers@[j - 1].lemma_apply_error(before, source);
            }
            self.resblocks@[(j - 1) * BRANCHES + 0].lemma_residual_error(up, 0, LAYERS as nat);
        }
    }

    /// Adds a stage to a program.
    fn add_stage(&self, p: &mut Program, hidden: usize, source: usize, stage: usize) -> (r: Result<
        StageNodes,
        PlanError,
    >)
        requires
            self.wf(),
            stage < STAGES,
            old(p).wf(),
            hidden < old(p)@.len(),
            source < old(p)@.len(),
            old(p)@[source as int].shape.len() >= 2,
        ensures
            final(p).wf(),
            extends(old(p)@, final(p)@),
            ({
                let up = self.upsampled(
                    operand(old(p)@, hidden),
                    old(p)@[source as int],
                    stage as int,
                );
                match r {
                    Ok(nodes) => {
                        &&& nodes.first < final(p)@.len()
                        &&& nodes.second < final(p)@.len()
                        &&& nodes.third < final(p)@.len()
                        &&& nodes.output < final(p)@.len()
                        &&& operand(final(p)@, nodes.first) == self.branch(up, stage as int, 0)
                        &&& operand(final(p)@, nodes.second) == self.branch(up, stage as int, 1)
                        &&& operand(final(p)@, nodes.third) == self.branch(up, stage as int, 2)
                        &&& operand(final(p)@, nodes.output) == self.blended(up, stage as int)
                    },
                    Err(e) => self.blended(up, stage as int) == Err::<Tensor, PlanError>(e),
                }
            }),
    {
        let ghost o = self.upsampled(operand(p@, hidden), p@[source as int], stage as int);
        match self.upsamplers[stage].forward(p, hidden, source) {
            Ok(up) => {
                let first = self.resblocks[stage * BRANCHES].forward(p, up)?;
                let second = self.resblocks[stage * BRANCHES + 1].forward(p, up)?;
                let third = self.resblocks[stage * BRANCHES + 2].forward(p, up)?;
                let output = add_average(p, first, second, third)?;
                Ok(StageNodes { first, second, third, output })
            },
            Err(e) => {
                proof {
                    self.resblocks@[stage * BRANCHES + 0].lemma_residual_error(
                        o,
                        0,
                        LAYERS as nat,
                    );
                }
                Err(e)
            },
        }
    }
}

/// Nodes `nodes` of a program that gave `ts` hold the outputs of the residual blocks of the
/// first `stages` stages.
pub open spec fn holds_branches(
    model: PupuVocoder,
    ts: Seq<Tensor>,
    nodes: Seq<usize>,
    source: Tensor,
    stages: nat,
) -> bool {
    &&& nodes.len() == stages * BRANCHES
    &&& in_range(nodes, ts.len())
    &&& forall|i: int|
        0 <= i < nodes.len() ==> operand(ts, #[trigger] nodes[i]) == model.branch(
            model.upsampled(
                model.hidden(source, (i / BRANCHES as int) as nat),
                source,
                i / BRANCHES as int,
            ),
            i / BRANCHES as int,
            i % BRANCHES as int,
        )
}

/// Nodes `nodes` of a program that gave `ts` hold the outputs of the first `stages` stages.
pub open spec fn holds_stages(
    model: PupuVocoder,
    ts: Seq<Tensor>,
    nodes: Seq<usize>,
    source: Tensor,
    stages: nat,
) -> bool {
    &&& nodes.len() == stages
    &&& in_range(nodes, ts.len())
    &&& forall|i: int|
        0 <= i < nodes.len() ==> operand(ts, #[trigger] nodes[i]) == model.hidden(
            source,
            (i + 1) as nat,
        )
}

impl PupuFeatures {
    /// The program computes the inference of `model` on a mel spectrogram, and the nodes
    /// hold its intermediate results; those of the stages only where `capture`.
    pub open spec fn holds(self, model: PupuVocoder, mel: Outcome, capture: bool) -> bool {
        let ts = self.program@;
        let pre = model.conv_pre.apply(mel);
        let captured: nat = if capture {
            STAGES as nat
        } else {
            0
        };
        &&& self.program.wf()
        &&& self.mel < ts.len() && operand(ts, self.mel) == mel
        &&& self.conv_pre < ts.len() && operand(ts, self.conv_pre) == pre
        &&& holds_branches(model, ts, self.resblocks@, pre->Ok_0, captured)
        &&& holds_stages(model, ts, self.stages@, pre->Ok_0, captured)
        &&& self.output < ts.len() && operand(ts, self.output) == model.waveform(mel)
    }
}

impl PupuVocoder {
    /// Adds the stages and the end of the generator to a program.
    #[verifier::rlimit(30)]
    fn add_generated(
        &self,
        p: &mut Program,
        source: usize,
        capture: bool,
        resblocks: &mut Vec<usize>,
        stages: &mut Vec<usize>,
    ) -> (r: Result<usize, PlanError>)
        requires
            self.wf(),
            old(p).wf(),
            source < old(p)@.len(),
            old(p)@[source as int].shape.len() >= 2,
            old(resblocks)@.len() == 0,
            old(stages)@.len() == 0,
        ensures
            final(p).yields(old(p)@, r, self.generated(old(p)@[source as int])),
            r is Ok ==> holds_branches(
                *self,
                final(p)@,
                final(resblocks)@,
                old(p)@[source as int],
                if capture {
                    STAGES as nat
                } else {
                    0
                },
            ),
            r is Ok ==> holds_stages(
                *self,
                final(p)@,
                final(stages)@,
                old(p)@[source as int],
                if capture {
                    STAGES as nat
                } else {
                    0
                },
            ),
    {
        let ghost s = p@[source as int];
        let mut hidden: usize = source;
        let mut stage: usize = 0;
        while stage < STAGES
            invariant
                stage <= STAGES,
                self.wf(),
                p.wf(),
                extends(old(p)@, p@),
                source < old(p)@.len(),
                source < p@.len(),
                s == old(p)@[source as int],
                s == p@[source as int],
                s.shape.len() >= 2,
                hidden < p@.len(),
                operand(p@, hidden) == self.hidden(s, stage as nat),
                holds_branches(
                    *self,
                    p@,
                    resblocks@,
                    s,
                    if capture {
                        stage as nat
                    } else {
                        0
                    },
                ),
                holds_stages(
                    *self,
                    p@,
                    stages@,
                    s,
                    if capture {
                        stage as nat
                    } else {
                        0
                    },
                ),
            decreases STAGES - stage,
        {
            match self.add_stage(p, hidden, source, stage) {
                Ok(nodes) => {
                    assert(operand(p@, nodes.output) == self.hidden(s, (stage + 1) as nat));
                    if capture {
                        resblocks.push(nodes.first);
                        resblocks.push(nodes.second);
                        resblocks.push(nodes.third);
                        stages.push(nodes.output);
                        proof {
                            assert forall|i: int| 0 <= i < resblocks@.len() implies operand(
                                p@,
                                #[trigger] resblocks@[i],
                            ) == self.branch(
                                self.upsampled(
                                    self.hidden(s, (i / BRANCHES as int) as nat),
                                    s,
                                    i / BRANCHES as int,
                                ),
                                i / BRANCHES as int,
                                i % BRANCHES as int,
                            ) by {
                                if i >= stage * BRANCHES {
                                    assert(i / BRANCHES as int == stage);
                                }
                            }
                        }
                    }
                    hidden = nodes.output;
                },
                Err(e) => {
                    proof {
                        assert(self.hidden(s, (stage + 1) as nat) == Err::<Tensor, PlanError>(e));
                        self.lemma_hidden_error(s, (stage + 1) as nat, STAGES as nat);
                    }
                    return Err(e);
                },
            }
            stage += 1;
        }
        let active = self.activation_post.forward(p, hidden)?;
        let wave = self.conv_post.forward(p, active)?;
        let low = p.constant(Scalar::Ratio { num: -1, den: 1 });
        let wave = p.binary(BinaryOp::Maximum, wave, low)?;
        let high = p.constant(Scalar::Ratio { num: 1, den: 1 });
        let wave = p.binary(BinaryOp::Minimum, wave, high)?;
        Ok(p.eval(wave))
    }

    /// Continues a program with the inference on its node `mel`.
    fn infer_mel_internal(&self, program: Program, mel: usize, capture_features: bool) -> (r:
        Result<PupuFeatures, PlanError>)
        requires
            self.wf(),
            program.wf(),
            mel < program@.len(),
        ensures
            match r {
                Ok(features) => features.holds(*self, operand(program@, mel), capture_features),
                Err(e) => self.waveform(operand(program@, mel)) == Err::<Tensor, PlanError>(e),
            },
    {
        let mut p = program;
        let conv_pre = self.conv_pre.forward(&mut p, mel)?;
        proof {
            self.conv_pre.lemma_rank(operand(program@, mel));
        }
        let mut resblocks: Vec<usize> = Vec::new();
        let mut stages: Vec<usize> = Vec::new();
        let output = self.add_generated(
            &mut p,
            conv_pre,
            capture_features,
            &mut resblocks,
            &mut stages,
        )?;
        Ok(PupuFeatures { program: p, mel, conv_pre, resblocks, stages, output })
    }

    /// Cuts the waveform of a planned inference.
    fn trim(features: PupuFeatures, target_length: usize) -> (r: Result<Plan, PlanError>)
        requires
            features.program.wf(),
            features.output < features.program@.len(),
        ensures
            ({
                let o = slice(
                    operand(features.program@, features.output),
                    1,
                    0,
                    (target_length as i32) as int,
                );
                match r {
                    Ok(plan) => plan.computes(o) && valid(
                        features.program@[features.output as int].shape,
                    ),
                    Err(e) => o == Err::<Tensor, PlanError>(e),
                }
            }),
    {
        proof {
            features.program.lemma_valid(features.output as int);
        }
        let mut program = features.program;
        let stop: i32 = #[verifier::truncate] (target_length as i32);
        let output = program.slice(features.output, 1, 0, stop)?;
        Ok(Plan { program, output })
    }

    /// Plans the first `target_length` samples of the waveform that the model makes of a mel
    /// spectrogram of this shape.
    pub fn infer_mel(&self, mel_shape: &Vec<i32>, target_length: usize) -> (r: Result<
        Plan,
        PlanError,
    >)
        requires
            self.wf(),
            valid(mel_shape@),
        ensures
            ({
                let o = self.trimmed(Ok(mel_input(mel_shape@)), target_length as i32);
                match r {
                    Ok(plan) => plan.computes(o) && valid(
                        self.waveform(Ok(mel_input(mel_shape@)))->Ok_0.shape,
                    ),
                    Err(e) => o == Err::<Tensor, PlanError>(e),
                }
            }),
    {
        let mut program = Program::new();
        let mel = program.leaf(Source::Input(0), mel_shape);
        let features = self.infer_mel_internal(program, mel, false)?;
        Self::trim(features, target_length)
    }

    /// Plans the first `target_length` samples of the waveform that the model makes of a
    /// waveform of this shape.
    pub fn infer(&self, audio_shape: &Vec<i32>, target_length: usize) -> (r: Result<
        Plan,
        PlanError,
    >)
        requires
            self.wf(),
            valid(audio_shape@),
            audio_shape@.len() >= 2,
        ensures
            ({
                let o = self.trimmed(
                    self.mel.apply(audio_input(audio_shape@)),
                    target_length as i32,
                );
                match r {
                    Ok(plan) => plan.computes(o) && valid(
                        self.waveform(self.mel.apply(audio_input(audio_shape@)))->Ok_0.shape,
                    ),
                    Err(e) => o == Err::<Tensor, PlanError>(e),
                }
            }),
    {
        let mut program = Program::new();
        let audio = program.leaf(Source::Input(0), audio_shape);
        let mel = self.mel.forward(&mut program, audio)?;
        let features = self.infer_mel_internal(program, mel, false)?;
        Self::trim(features, target_length)
    }

    /// Plans an inference that keeps its intermediate results.
    pub fn infer_with_features(&self, audio_shape: &Vec<i32>) -> (r: Result<
        PupuFeatures,
        PlanError,
    >)
        requires
            self.wf(),
            valid(audio_shape@),
            audio_shape@.len() >= 2,
        ensures
            ({
                let mel = self.mel.apply(audio_input(audio_shape@));
                match r {
                    Ok(features) => features.holds(*self, mel, true),
                    Err(e) => self.waveform(mel) == Err::<Tensor, PlanError>(e),
                }
            }),
    {
        let mut program = Program::new();
        let audio = program.leaf(Source::Input(0), audio_shape);
        let mel = self.mel.forward(&mut program, audio)?;
        self.infer_mel_internal(program, mel, true)
    }
}

/// The mel spectrogram given to an inference.
pub open spec fn mel_input(shape: Seq<i32>) -> Tensor {
    leaf(Source::Input(0), shape)
}

} // verus!
