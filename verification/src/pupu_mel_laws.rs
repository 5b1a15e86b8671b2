//! The alias-free vocoder on a waveform and on its mel spectrogram.
use vstd::prelude::*;

use crate::config::{
    average, channels_before, first_conv_prefix, layer_reads, second_conv_prefix, BRANCHES, LAYERS,
    RESBLOCK_KERNELS, STAGES,
};
use crate::layers::Conv1d;
use crate::metal::{activation_fault, activation_launch, resample, resample_fault, resample_launch};
use crate::pupu::{
    activation_prefix, block_reads, mel_input, up_reads, Activation1d, PupuVocoder, ResBlock1,
    INITIAL_CHANNELS,
};
use crate::source::whole;
use crate::substitution::Binding;
use crate::tensor::{
    binary, concat2, concat3, conv, matmul, plus, reshape, slice, zeros, BinaryOp, Outcome, Tensor,
};
use crate::upsampler::{
    part, spread_source, ResampleUpsampler, HEAD_TAPS, SOURCE_CHANNELS, TAIL_TAPS, TAPS,
};
use crate::weights::Entries;

verus! {

impl Conv1d {
    /// A layer whose input is computed by another plan.
    proof fn lemma_inside(self, entries: Entries, prefix: Seq<char>, binding: Binding, x: Outcome)
        requires
            self.reads(entries, prefix),
            binding.binds_input(),
        ensures
            binding.inside(self.apply(x)) == self.apply(binding.inside(x)),
    {
        let w = self.weight.outcome();
        binding.lemma_spared(self.weight.tensor());
        binding.lemma_conv(x, w, 1, self.padding as int, self.dilation as int);
        let y = conv(x, w, 1, self.padding as int, self.dilation as int);
        match self.bias {
            Some(b) => {
                binding.lemma_spared(b.tensor());
                binding.lemma_binary(BinaryOp::Add, y, b.outcome());
            },
            None => {},
        }
    }
}

impl Activation1d {
    /// An activation whose input is computed by another plan.
    proof fn lemma_inside(self, entries: Entries, prefix: Seq<char>, binding: Binding, x: Outcome)
        requires
            self.reads(entries, prefix),
            binding.binds_input(),
        ensures
            binding.inside(self.apply(x)) == self.apply(binding.inside(x)),
    {
        if x is Ok {
            let t = x->Ok_0;
            binding.lemma_shape(t);
            if activation_fault(t.shape) is None {
                let inputs = seq![
                    t,
                    self.alpha.tensor(),
                    self.beta.tensor(),
                    self.up_filter.tensor(),
                    self.down_filter.tensor(),
                ];
                binding.lemma_spared(inputs[1]);
                binding.lemma_spared(inputs[2]);
                binding.lemma_spared(inputs[3]);
                binding.lemma_spared(inputs[4]);
                binding.lemma_launched(activation_launch(t.shape), inputs);
                assert(binding.within_all(inputs) =~= inputs.update(0, binding.within(t)));
                assert(inputs.update(0, binding.within(t)) =~= seq![
                    binding.within(t),
                    self.alpha.tensor(),
                    self.beta.tensor(),
                    self.up_filter.tensor(),
                    self.down_filter.tensor(),
                ]);
            }
        }
    }
}

impl ResBlock1 {
    /// The first `layers` layers of a residual block whose input is computed by another plan.
    proof fn lemma_inside(
        self,
        entries: Entries,
        index: nat,
        channels: int,
        kernel_size: int,
        binding: Binding,
        x: Outcome,
        layers: nat,
    )
        requires
            self.reads(entries, index, channels, kernel_size),
            binding.binds_input(),
            layers <= LAYERS,
        ensures
            binding.inside(self.residual(x, layers)) == self.residual(binding.inside(x), layers),
        decreases layers,
    {
        if layers > 0 {
            let l = layers - 1;
            self.lemma_inside(entries, index, channels, kernel_size, binding, x, l as nat);
            let y = self.residual(x, l as nat);
            let (first, second) = (self.convs1@[l], self.convs2@[l]);
            assert(layer_reads(first, second, entries, index, l as nat, channels, kernel_size));
            let (before, between) = (self.activations@[l * 2], self.activations@[l * 2 + 1]);
            assert(before.reads(entries, activation_prefix(index, (l * 2) as nat)));
            assert(between.reads(entries, activation_prefix(index, (l * 2 + 1) as nat)));
            before.lemma_inside(entries, activation_prefix(index, (l * 2) as nat), binding, y);
            let a = before.apply(y);
            first.lemma_inside(entries, first_conv_prefix(index, l as nat), binding, a);
            let hidden = first.apply(a);
            between.lemma_inside(
                entries,
                activation_prefix(index, (l * 2 + 1) as nat),
                binding,
                hidden,
            );
            let b = between.apply(hidden);
            second.lemma_inside(entries, second_conv_prefix(index, l as nat), binding, b);
            binding.lemma_binary(BinaryOp::Add, y, self.layer(y, l));
        }
    }
}

/// A source that is computed by another plan, convolved at the higher rate.
proof fn lemma_spread_inside(
    binding: Binding,
    source: Tensor,
    head_weight: Tensor,
    tail_weight: Tensor,
    total: int,
    channels: i32,
)
    requires
        binding.wf(),
        binding.spares(head_weight),
        binding.spares(tail_weight),
    ensures
        binding.inside(spread_source(source, head_weight, tail_weight, total, channels))
            == spread_source(binding.within(source), head_weight, tail_weight, total, channels),
{
    reveal(spread_source);
    let (batch, frames) = (source.shape[0], source.shape[1]);
    binding.lemma_shape(source);
    binding.lemma_spared(head_weight);
    binding.lemma_spared(tail_weight);
    let by_head = matmul(Ok(source), Ok(head_weight));
    binding.lemma_matmul(Ok(source), Ok(head_weight));
    let head_dims = seq![batch, frames, HEAD_TAPS, channels];
    binding.lemma_reshape(by_head, head_dims);
    let next = slice(Ok(source), 1, 1, frames as int);
    binding.lemma_slice(Ok(source), 1, 1, frames as int);
    let last = zeros(seq![batch, 1, SOURCE_CHANNELS]);
    binding.lemma_concat2(next, last, 1);
    let shifted = concat2(next, last, 1);
    binding.lemma_matmul(shifted, Ok(tail_weight));
    let by_tail = matmul(shifted, Ok(tail_weight));
    let tail_dims = seq![batch, frames, TAIL_TAPS, channels];
    binding.lemma_reshape(by_tail, tail_dims);
    let empty = zeros(seq![batch, frames, (total - TAPS) as i32, channels]);
    let (head, tail) = (reshape(by_head, head_dims), reshape(by_tail, tail_dims));
    binding.lemma_concat3(head, empty, tail, 2);
    binding.lemma_reshape(
        concat3(head, empty, tail, 2),
        seq![batch, (frames * total) as i32, channels],
    );
}

impl ResampleUpsampler {
    /// A resampling stage whose inputs are computed by another plan.
    proof fn lemma_inside(
        self,
        entries: Entries,
        prepared: Seq<Tensor>,
        index: nat,
        binding: Binding,
        x: Outcome,
        source: Tensor,
    )
        requires
            self.reads(entries, prepared, index),
            binding.binds_input(),
        ensures
            binding.inside(self.apply(x, source)) == self.apply(
                binding.inside(x),
                binding.within(source),
            ),
    {
        let (head, tail) = (self.source_head_weight.tensor(), self.source_tail_weight.tensor());
        let total = self.total_scale_factor as int;
        lemma_spread_inside(binding, source, head, tail, total, self.channels);
        let spread = spread_source(source, head, tail, total, self.channels);
        binding.lemma_spared(self.source_bias.tensor());
        binding.lemma_binary(BinaryOp::Add, spread, self.source_bias.outcome());
        let filtered = self.source_filtered(source);
        let filter = self.julius_filter.tensor();
        binding.lemma_spared(filter);
        let scale = self.scale_factor as int;
        lemma_resample_inside(binding, x, filtered, filter, scale);
        self.convolution_after.lemma_inside(
            entries,
            part(index, ".convolution_after"@),
            binding,
            resample(x, filtered, filter, scale),
        );
    }
}

/// A resampling kernel whose inputs are computed by another plan.
proof fn lemma_resample_inside(
    binding: Binding,
    x: Outcome,
    source: Outcome,
    filter: Tensor,
    scale: int,
)
    requires
        binding.wf(),
        binding.spares(filter),
    ensures
        binding.inside(resample(x, source, filter, scale)) == resample(
            binding.inside(x),
            binding.inside(source),
            filter,
            scale,
        ),
{
    if x is Ok && source is Ok {
        let (t, s) = (x->Ok_0, source->Ok_0);
        binding.lemma_shape(t);
        binding.lemma_shape(s);
        binding.lemma_spared(filter);
        if resample_fault(t.shape, s.shape, filter.shape, scale) is None {
            let inputs = seq![t, s, filter];
            binding.lemma_launched(resample_launch(t.shape, s.shape, filter.shape, scale), inputs);
            assert(binding.within_all(inputs) =~= seq![
                binding.within(t),
                binding.within(s),
                filter,
            ]);
        }
    }
}

impl PupuVocoder {
    /// A stage whose inputs are computed by another plan.
    proof fn lemma_stage_inside(
        self,
        entries: Entries,
        binding: Binding,
        before: Outcome,
        source: Tensor,
        stage: int,
    )
        requires
            self.reads(entries),
            binding.binds_input(),
            0 <= stage < STAGES,
        ensures
            binding.inside(self.blended(self.upsampled(before, source, stage), stage))
                == self.blended(
                self.upsampled(binding.inside(before), binding.within(source), stage),
                stage,
            ),
    {
        let layer = self.upsamplers@[stage];
        assert(up_reads(layer, entries, self.preparation@, stage));
        layer.lemma_inside(
            entries,
            self.preparation@,
            stage as nat,
            binding,
            before,
            source,
        );
        let up = self.upsampled(before, source, stage);
        self.lemma_branch_inside(entries, binding, up, stage, 0);
        self.lemma_branch_inside(entries, binding, up, stage, 1);
        self.lemma_branch_inside(entries, binding, up, stage, 2);
        let (first, second, third) = (
            self.branch(up, stage, 0),
            self.branch(up, stage, 1),
            self.branch(up, stage, 2),
        );
        binding.lemma_binary(BinaryOp::Add, first, second);
        binding.lemma_binary(BinaryOp::Add, plus(first, second), third);
        binding.lemma_binary(BinaryOp::Divide, plus(plus(first, second), third), whole(3));
        assert(binding.inside(average(first, second, third)) == average(
            binding.inside(first),
            binding.inside(second),
            binding.inside(third),
        ));
    }

    /// A residual block whose input is computed by another plan.
    proof fn lemma_branch_inside(
        self,
        entries: Entries,
        binding: Binding,
        up: Outcome,
        stage: int,
        k: int,
    )
        requires
            self.reads(entries),
            binding.binds_input(),
            0 <= stage < STAGES,
            0 <= k < BRANCHES,
        ensures
            binding.inside(self.branch(up, stage, k)) == self.branch(
                binding.inside(up),
                stage,
                k,
            ),
    {
        let index = stage * BRANCHES + k;
        let block = self.resblocks@[index];
        assert(block_reads(block, entries, index));
        block.lemma_inside(
            entries,
            index as nat,
            channels_before(INITIAL_CHANNELS as int, (index / BRANCHES as int + 1) as nat),
            RESBLOCK_KERNELS@[index % BRANCHES as int] as int,
            binding,
            up,
            LAYERS as nat,
        );
    }

    /// The first `stages` stages, when their source is computed by another plan.
    proof fn lemma_hidden_inside(
        self,
        entries: Entries,
        binding: Binding,
        source: Tensor,
        stages: nat,
    )
        requires
            self.reads(entries),
            binding.binds_input(),
            stages <= STAGES,
        ensures
            binding.inside(self.hidden(source, stages)) == self.hidden(
                binding.within(source),
                stages,
            ),
        decreases stages,
    {
        if stages > 0 {
            let before = (stages - 1) as nat;
            self.lemma_hidden_inside(entries, binding, source, before);
            self.lemma_stage_inside(
                entries,
                binding,
                self.hidden(source, before),
                source,
                stages - 1,
            );
        }
    }

    /// The waveform of a mel spectrogram that is computed by another plan.
    proof fn lemma_waveform_inside(self, entries: Entries, binding: Binding, mel: Outcome)
        requires
            self.reads(entries),
            binding.binds_input(),
        ensures
            binding.inside(self.waveform(mel)) == self.waveform(binding.inside(mel)),
    {
        self.conv_pre.lemma_inside(entries, "conv_pre"@, binding, mel);
        if self.conv_pre.apply(mel) is Ok {
            let source = self.conv_pre.apply(mel)->Ok_0;
            self.lemma_hidden_inside(entries, binding, source, STAGES as nat);
            let hidden = self.hidden(source, STAGES as nat);
            self.activation_post.lemma_inside(entries, "activation_post"@, binding, hidden);
            let active = self.activation_post.apply(hidden);
            self.conv_post.lemma_inside(entries, "conv_post"@, binding, active);
            let wave = self.conv_post.apply(active);
            let low = whole((-1) as i32);
            binding.lemma_binary(BinaryOp::Maximum, wave, low);
            let raised = binary(BinaryOp::Maximum, wave, low);
            binding.lemma_binary(BinaryOp::Minimum, raised, whole(1));
            binding.lemma_evaluated(binary(BinaryOp::Minimum, raised, whole(1)));
        }
    }

    /// An inference on a waveform computes what an inference on a mel spectrogram does when
    /// that is the mel spectrogram of the waveform.
    pub proof fn lemma_infer_by_mel(self, entries: Entries, audio: Tensor, target_length: i32)
        requires
            self.reads(entries),
            self.mel.apply(audio) is Ok,
        ensures
            ({
                let mel = self.mel.apply(audio)->Ok_0;
                let binding = Binding { given: mel_input(mel.shape), value: mel };
                self.trimmed(self.mel.apply(audio), target_length) == binding.inside(
                    self.trimmed(Ok(mel_input(mel.shape)), target_length),
                )
            }),
    {
        let mel = self.mel.apply(audio)->Ok_0;
        let given = mel_input(mel.shape);
        let binding = Binding { given, value: mel };
        assert(binding.within(given) == mel);
        self.lemma_waveform_inside(entries, binding, Ok(given));
        binding.lemma_slice(self.waveform(Ok(given)), 1, 0, target_length as int);
    }
}

} // verus!
