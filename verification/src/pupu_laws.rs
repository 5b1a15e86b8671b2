//! What holds of every alias-free vocoder: which inferences succeed, and the shapes of their
//! results.
use vstd::prelude::*;

use crate::config::{
    channels_before, first_conv_prefix, lemma_average, lemma_channels, lemma_layer,
    lemma_lengthening, lemma_rates, lengthening, second_conv_prefix, BRANCHES, LAYERS,
    RESBLOCK_KERNELS, STAGES, UPSAMPLE_RATES,
};
use crate::element::element_of;
use crate::layers::{bias_key, weight_key};
use crate::mel::{mel_fault, HOP, PAD};
use crate::metal::{resample, ACTIVATION_TILE};
use crate::program::operand;
use crate::pupu::{
    activation_prefix, block_reads, branches_fault, full_layer_fault, load_fault, resblock_fault,
    stages_fault, up_reads, Activation1d, PupuFeatures, PupuVocoder, ResBlock1, INITIAL_CHANNELS,
};
use crate::shape::{lemma_volume3, slice_shape, valid};
use crate::signal::{is_signal, lemma_same_shape, lemma_with_bias, lemma_with_constant};
use crate::source::whole;
use crate::tensor::{binary, BinaryOp, Outcome, Scalar, Tensor};
use crate::upsampler::{
    matrices_fault, part, spread_source, upsampler_fault, ResampleUpsampler, SOURCE_CHANNELS,
};
use crate::upsampler_laws::{lemma_matrices, lemma_spread_source};
use crate::weights::{stored, Entries, LoadFault};
use crate::{HOP_SIZE, MEL_BINS};

verus! {

/// The most elements that a resampling of the model has for each frame.
pub const WIDEST: i32 = 49_152;

impl Activation1d {
    /// An activation keeps the shape of a signal that is not empty.
    pub proof fn lemma_signal(self, x: Outcome, batch: int, length: int, channels: int)
        requires
            is_signal(x, batch, length, channels),
            1 <= length,
            1 <= channels,
            length + ACTIVATION_TILE <= i32::MAX,
        ensures
            is_signal(self.apply(x), batch, length, channels),
    {
    }
}

impl ResBlock1 {
    /// Every weight has the shape that its layer asks for.
    pub open spec fn conforms(self) -> bool {
        &&& forall|l: int| 0 <= l < LAYERS ==> (#[trigger] self.convs1@[l]).conforms()
        &&& forall|l: int| 0 <= l < LAYERS ==> (#[trigger] self.convs2@[l]).conforms()
    }

    /// The first `layers` layers of a residual block keep the shape of a signal.
    pub proof fn lemma_residual(
        self,
        entries: Entries,
        index: nat,
        channels: int,
        branch: int,
        x: Outcome,
        batch: int,
        length: int,
        layers: nat,
    )
        requires
            layers <= LAYERS,
            0 <= branch < BRANCHES,
            self.reads(entries, index, channels, RESBLOCK_KERNELS@[branch] as int),
            self.conforms(),
            1 <= length,
            1 <= channels,
            length + ACTIVATION_TILE <= i32::MAX,
            is_signal(x, batch, length, channels),
        ensures
            is_signal(self.residual(x, layers), batch, length, channels),
        decreases layers,
    {
        if layers > 0 {
            let l = layers - 1;
            self.lemma_residual(
                entries,
                index,
                channels,
                branch,
                x,
                batch,
                length,
                (layers - 1) as nat,
            );
            let y = self.residual(x, (layers - 1) as nat);
            let (first, second) = (self.convs1@[l], self.convs2@[l]);
            let (before, between) = (self.activations@[l * 2], self.activations@[l * 2 + 1]);
            lemma_layer(first, second, entries, index, l as nat, channels, branch);
            before.lemma_signal(y, batch, length, channels);
            first.lemma_signal(before.apply(y), batch, length);
            let hidden = first.apply(before.apply(y));
            between.lemma_signal(hidden, batch, length, channels);
            second.lemma_signal(between.apply(hidden), batch, length);
            let z = second.apply(between.apply(hidden));
            assert(y->Ok_0.shape =~= z->Ok_0.shape);
            lemma_same_shape(BinaryOp::Add, y, z);
        }
    }
}

impl ResampleUpsampler {
    /// The bias, the filter and the last convolution have the shapes that the stage asks for.
    pub open spec fn conforms(self) -> bool {
        &&& self.source_bias.shape@ =~= seq![self.channels]
        &&& self.julius_filter.shape@.len() >= 2
        &&& self.convolution_after.conforms()
    }

    /// The kernel of a resampling stage lengthens a signal to that of its source.
    pub proof fn lemma_combined(
        self,
        entries: Entries,
        prepared: Seq<Tensor>,
        stage: int,
        x: Outcome,
        source: Tensor,
        batch: int,
        frames: int,
    )
        requires
            0 <= stage < STAGES,
            up_reads(self, entries, prepared, stage),
            self.conforms(),
            is_signal(Ok(source), batch, frames, INITIAL_CHANNELS as int),
            0 <= batch,
            1 <= frames,
            frames * HOP_SIZE <= i32::MAX,
            batch * frames * WIDEST <= i32::MAX,
            is_signal(
                x,
                batch,
                frames * lengthening(stage as nat),
                channels_before(INITIAL_CHANNELS as int, stage as nat),
            ),
        ensures
            is_signal(
                resample(
                    x,
                    self.source_filtered(source),
                    self.julius_filter.tensor(),
                    self.scale_factor as int,
                ),
                batch,
                frames * lengthening((stage + 1) as nat),
                channels_before(INITIAL_CHANNELS as int, stage as nat),
            ),
    {
        lemma_channels(INITIAL_CHANNELS as int);
        lemma_lengthening(frames, (stage + 1) as nat);
        assert(stage == 0 || stage == 1 || stage == 2 || stage == 3 || stage == 4);
        let total = self.total_scale_factor as int;
        let c = self.channels as int;
        assert(total * c <= WIDEST && 1 <= c <= SOURCE_CHANNELS);
        let n = batch * frames;
        assert(0 <= n) by (nonlinear_arith)
            requires
                n == batch * frames,
                0 <= batch,
                1 <= frames,
        ;
        assert(n * total * c <= n * WIDEST) by (nonlinear_arith)
            requires
                0 <= n,
                total * c <= WIDEST,
        ;
        let w = stored(
            entries,
            weight_key(part(stage as nat, ".convolution_noise"@)),
        )->0;
        lemma_matrices(w, self.channels);
        lemma_spread_source(
            source,
            self.source_head_weight.tensor(),
            self.source_tail_weight.tensor(),
            total,
            self.channels,
        );
        let spread = spread_source(
            source,
            self.source_head_weight.tensor(),
            self.source_tail_weight.tensor(),
            total,
            self.channels,
        );
        lemma_with_bias(BinaryOp::Add, spread, self.source_bias.outcome());
        let filtered = self.source_filtered(source);
        let longer = frames * total;
        assert(is_signal(filtered, batch, longer, c));
        lemma_volume3(source.shape[0], longer as i32, self.channels);
        assert(filtered->Ok_0.shape =~= seq![source.shape[0], longer as i32, self.channels]);
        assert(batch * (frames * total) * c == batch * frames * total * c) by (nonlinear_arith);
        let combined = resample(
            x,
            filtered,
            self.julius_filter.tensor(),
            self.scale_factor as int,
        );
        assert(is_signal(combined, batch, longer, c));
    }

    /// A resampling stage lengthens a signal to that of its source.
    pub proof fn lemma_signal(
        self,
        entries: Entries,
        prepared: Seq<Tensor>,
        stage: int,
        x: Outcome,
        source: Tensor,
        batch: int,
        frames: int,
    )
        requires
            0 <= stage < STAGES,
            up_reads(self, entries, prepared, stage),
            self.conforms(),
            is_signal(Ok(source), batch, frames, INITIAL_CHANNELS as int),
            0 <= batch,
            1 <= frames,
            frames * HOP_SIZE <= i32::MAX,
            batch * frames * WIDEST <= i32::MAX,
            is_signal(
                x,
                batch,
                frames * lengthening(stage as nat),
                channels_before(INITIAL_CHANNELS as int, stage as nat),
            ),
        ensures
            is_signal(
                self.apply(x, source),
                batch,
                frames * lengthening((stage + 1) as nat),
                channels_before(INITIAL_CHANNELS as int, (stage + 1) as nat),
            ),
    {
        lemma_channels(INITIAL_CHANNELS as int);
        lemma_lengthening(frames, (stage + 1) as nat);
        assert(stage == 0 || stage == 1 || stage == 2 || stage == 3 || stage == 4);
        self.lemma_combined(entries, prepared, stage, x, source, batch, frames);
        let combined = resample(
            x,
            self.source_filtered(source),
            self.julius_filter.tensor(),
            self.scale_factor as int,
        );
        let longer = frames * lengthening((stage + 1) as nat);
        self.convolution_after.lemma_signal(combined, batch, longer);
    }
}

impl PupuVocoder {
    /// Every weight has the shape that its layer asks for.
    pub open spec fn conforms(self) -> bool {
        &&& self.mel.conforms()
        &&& self.conv_pre.conforms()
        &&& self.conv_post.conforms()
        &&& forall|i: int| 0 <= i < STAGES ==> (#[trigger] self.upsamplers@[i]).conforms()
        &&& forall|i: int| 0 <= i < STAGES * BRANCHES ==> (#[trigger] self.resblocks@[i]).conforms()
    }

    /// A residual block keeps the shape of a signal.
    pub proof fn lemma_branch(
        self,
        entries: Entries,
        up: Outcome,
        stage: int,
        k: int,
        batch: int,
        length: int,
    )
        requires
            self.reads(entries),
            self.conforms(),
            0 <= stage < STAGES,
            0 <= k < BRANCHES,
            1 <= length,
            length + ACTIVATION_TILE <= i32::MAX,
            is_signal(
                up,
                batch,
                length,
                channels_before(INITIAL_CHANNELS as int, (stage + 1) as nat),
            ),
        ensures
            is_signal(
                self.branch(up, stage, k),
                batch,
                length,
                channels_before(INITIAL_CHANNELS as int, (stage + 1) as nat),
            ),
    {
        lemma_channels(INITIAL_CHANNELS as int);
        let index = stage * BRANCHES + k;
        let block = self.resblocks@[index];
        assert(block_reads(block, entries, index));
        assert(index / BRANCHES as int == stage && index % BRANCHES as int == k);
        assert(stage == 0 || stage == 1 || stage == 2 || stage == 3 || stage == 4);
        block.lemma_residual(
            entries,
            index as nat,
            channels_before(INITIAL_CHANNELS as int, (stage + 1) as nat),
            k,
            up,
            batch,
            length,
            LAYERS as nat,
        );
    }

    /// A stage lengthens a signal by its rate, and halves its channels.
    pub proof fn lemma_stage(
        self,
        entries: Entries,
        before: Outcome,
        source: Tensor,
        stage: int,
        batch: int,
        frames: int,
    )
        requires
            self.reads(entries),
            self.conforms(),
            0 <= stage < STAGES,
            0 <= batch,
            1 <= frames,
            frames * HOP_SIZE + ACTIVATION_TILE <= i32::MAX,
            batch * frames * WIDEST <= i32::MAX,
            is_signal(Ok(source), batch, frames, INITIAL_CHANNELS as int),
            is_signal(
                before,
                batch,
                frames * lengthening(stage as nat),
                channels_before(INITIAL_CHANNELS as int, stage as nat),
            ),
        ensures
            is_signal(
                self.upsampled(before, source, stage),
                batch,
                frames * lengthening((stage + 1) as nat),
                channels_before(INITIAL_CHANNELS as int, (stage + 1) as nat),
            ),
            is_signal(
                self.blended(self.upsampled(before, source, stage), stage),
                batch,
                frames * lengthening((stage + 1) as nat),
                channels_before(INITIAL_CHANNELS as int, (stage + 1) as nat),
            ),
    {
        let stages = (stage + 1) as nat;
        lemma_lengthening(frames, stages);
        let up_layer = self.upsamplers@[stage];
        assert(up_reads(up_layer, entries, self.preparation@, stage));
        up_layer.lemma_signal(entries, self.preparation@, stage, before, source, batch, frames);
        let up = self.upsampled(before, source, stage);
        let length = frames * lengthening(stages);
        let rate = UPSAMPLE_RATES@[stage] as int;
        let shorter = frames * lengthening(stage as nat);
        assert(rate == 8 || rate == 2) by {
            assert(stage == 0 || stage == 1 || stage == 2 || stage == 3 || stage == 4);
        }
        assert(1 <= length) by (nonlinear_arith)
            requires
                shorter * rate == length,
                1 <= shorter,
                1 <= rate,
        ;
        self.lemma_branch(entries, up, stage, 0, batch, length);
        self.lemma_branch(entries, up, stage, 1, batch, length);
        self.lemma_branch(entries, up, stage, 2, batch, length);
        lemma_average(
            self.branch(up, stage, 0),
            self.branch(up, stage, 1),
            self.branch(up, stage, 2),
            batch,
            length,
            channels_before(INITIAL_CHANNELS as int, stages),
        );
    }

    /// The signal after the first `stages` stages, and those after the residual blocks of the
    /// last of these, are longer by the rates of these stages, and each stage halves the
    /// channels.
    pub proof fn lemma_hidden(
        self,
        entries: Entries,
        source: Tensor,
        batch: int,
        frames: int,
        stages: nat,
    )
        requires
            self.reads(entries),
            self.conforms(),
            stages <= STAGES,
            0 <= batch,
            1 <= frames,
            frames * HOP_SIZE + ACTIVATION_TILE <= i32::MAX,
            batch * frames * WIDEST <= i32::MAX,
            is_signal(Ok(source), batch, frames, INITIAL_CHANNELS as int),
        ensures
            is_signal(
                self.hidden(source, stages),
                batch,
                frames * lengthening(stages),
                channels_before(INITIAL_CHANNELS as int, stages),
            ),
            stages > 0 ==> forall|k: int|
                0 <= k < BRANCHES ==> is_signal(
                    #[trigger] self.branch(
                        self.upsampled(
                            self.hidden(source, (stages - 1) as nat),
                            source,
                            stages - 1,
                        ),
                        stages - 1,
                        k,
                    ),
                    batch,
                    frames * lengthening(stages),
                    channels_before(INITIAL_CHANNELS as int, stages),
                ),
        decreases stages,
    {
        if stages > 0 {
            let stage = stages - 1;
            self.lemma_hidden(entries, source, batch, frames, (stages - 1) as nat);
            lemma_lengthening(frames, stages);
            let before = self.hidden(source, (stages - 1) as nat);
            self.lemma_stage(entries, before, source, stage, batch, frames);
            let up = self.upsampled(before, source, stage);
            let length = frames * lengthening(stages);
            lemma_rates();
            assert(1 <= length) by (nonlinear_arith)
                requires
                    length == frames * lengthening(stages),
                    1 <= frames,
                    1 <= lengthening(stages),
            ;
            assert forall|k: int| 0 <= k < BRANCHES implies is_signal(
                #[trigger] self.branch(up, stage, k),
                batch,
                length,
                channels_before(INITIAL_CHANNELS as int, stages),
            ) by {
                self.lemma_branch(entries, up, stage, k, batch, length);
            }
        }
    }

    /// The waveform of a mel spectrogram has one channel and [`HOP_SIZE`] samples for each
    /// frame, when the weights have the shapes that the model asks for and no resampling has
    /// more elements than a device index can hold.
    pub proof fn lemma_waveform(self, entries: Entries, mel: Outcome, batch: int, frames: int)
        requires
            self.reads(entries),
            self.conforms(),
            is_signal(mel, batch, frames, MEL_BINS as int),
            0 <= batch,
            1 <= frames,
            frames * HOP_SIZE + ACTIVATION_TILE <= i32::MAX,
            batch * frames * WIDEST <= i32::MAX,
        ensures
            is_signal(self.waveform(mel), batch, frames * HOP_SIZE, 1),
    {
        lemma_channels(INITIAL_CHANNELS as int);
        self.conv_pre.lemma_signal(mel, batch, frames);
        let source = self.conv_pre.apply(mel)->Ok_0;
        self.lemma_hidden(entries, source, batch, frames, STAGES as nat);
        let hidden = self.hidden(source, STAGES as nat);
        let length = frames * HOP_SIZE;
        let channels = channels_before(INITIAL_CHANNELS as int, STAGES as nat);
        self.activation_post.lemma_signal(hidden, batch, length, channels);
        let active = self.activation_post.apply(hidden);
        self.conv_post.lemma_signal(active, batch, length);
        let wave = self.conv_post.apply(active);
        lemma_with_constant(
            BinaryOp::Maximum,
            wave,
            Scalar::Ratio { num: (-1) as i32, den: 1 },
        );
        lemma_with_constant(
            BinaryOp::Minimum,
            binary(BinaryOp::Maximum, wave, whole((-1) as i32)),
            Scalar::Ratio { num: 1, den: 1 },
        );
    }

    /// The waveform of a mel spectrogram, cut to `target_length` samples: that many, or all
    /// that there are.
    pub proof fn lemma_infer_mel(
        self,
        entries: Entries,
        mel: Outcome,
        batch: int,
        frames: int,
        target_length: i32,
    )
        requires
            self.reads(entries),
            self.conforms(),
            is_signal(mel, batch, frames, MEL_BINS as int),
            0 <= batch,
            1 <= frames,
            frames * HOP_SIZE + ACTIVATION_TILE <= i32::MAX,
            batch * frames * WIDEST <= i32::MAX,
            0 <= target_length,
        ensures
            is_signal(
                self.trimmed(mel, target_length),
                batch,
                if target_length < frames * HOP_SIZE {
                    target_length as int
                } else {
                    frames * HOP_SIZE
                },
                1,
            ),
    {
        reveal(slice_shape);
        self.lemma_waveform(entries, mel, batch, frames);
    }

    /// A cut waveform is the start of the whole one: where the whole waveform can be planned, so
    /// can every cut, and no sample changes.
    pub proof fn lemma_cut(self, mel: Outcome, target_length: i32, i: Seq<int>)
        requires
            self.waveform(mel) is Ok,
            self.waveform(mel)->Ok_0.shape.len() >= 2,
            valid(self.waveform(mel)->Ok_0.shape),
            0 <= target_length,
            i.len() >= 2,
        ensures
            self.trimmed(mel, target_length) is Ok,
            ({
                let whole = self.waveform(mel)->Ok_0.shape;
                self.trimmed(mel, target_length)->Ok_0.shape == whole.update(
                    1,
                    if target_length < whole[1] {
                        target_length
                    } else {
                        whole[1]
                    },
                )
            }),
            element_of(self.trimmed(mel, target_length), i) == element_of(self.waveform(mel), i),
    {
        reveal(slice_shape);
        let whole = self.waveform(mel)->Ok_0;
        assert(i.update(1, i[1] + 0) =~= i);
        assert(self.trimmed(mel, target_length)->Ok_0.shape =~= whole.shape.update(
            1,
            if target_length < whole.shape[1] {
                target_length
            } else {
                whole.shape[1]
            },
        ));
    }

    /// A shorter cut is the start of a longer one: asking for fewer samples changes none of
    /// those that are left.
    pub proof fn lemma_prefix(self, mel: Outcome, short: i32, long: i32, i: Seq<int>)
        requires
            self.trimmed(mel, long) is Ok,
            valid(self.waveform(mel)->Ok_0.shape),
            0 <= short <= long,
            i.len() >= 2,
        ensures
            self.trimmed(mel, short) is Ok,
            self.trimmed(mel, short)->Ok_0.shape == self.trimmed(mel, long)->Ok_0.shape.update(
                1,
                if short < self.trimmed(mel, long)->Ok_0.shape[1] {
                    short
                } else {
                    self.trimmed(mel, long)->Ok_0.shape[1]
                },
            ),
            element_of(self.trimmed(mel, short), i) == element_of(self.trimmed(mel, long), i),
    {
        assert(self.waveform(mel)->Ok_0.shape.len() >= 2) by {
            reveal(slice_shape);
        }
        self.lemma_cut(mel, short, i);
        self.lemma_cut(mel, long, i);
        assert(self.trimmed(mel, short)->Ok_0.shape =~= self.trimmed(
            mel,
            long,
        )->Ok_0.shape.update(1, self.trimmed(mel, short)->Ok_0.shape[1]));
    }

    /// An inference succeeds on every waveform that is long enough, and whose resamplings
    /// have no more elements than a device index can hold, when the weights have the shapes
    /// that the model asks for. The result has one channel and the samples asked for, or
    /// those of the whole mel frames if they are fewer.
    pub proof fn lemma_infer(self, entries: Entries, audio: Tensor, target_length: i32)
        requires
            self.reads(entries),
            self.conforms(),
            valid(audio.shape),
            audio.shape.len() == 2,
            PAD < audio.shape[1],
            audio.shape[1] + 2 * PAD <= i32::MAX,
            audio.shape[0] * (audio.shape[1] as int / HOP as int) * WIDEST <= i32::MAX,
            0 <= target_length,
        ensures
            ({
                let all = audio.shape[1] as int / HOP as int * HOP_SIZE;
                is_signal(
                    self.trimmed(self.mel.apply(audio), target_length),
                    audio.shape[0] as int,
                    if target_length < all {
                        target_length as int
                    } else {
                        all
                    },
                    1,
                )
            }),
    {
        self.mel.lemma_frames(audio);
        self.lemma_infer_mel(
            entries,
            self.mel.apply(audio),
            audio.shape[0] as int,
            audio.shape[1] as int / HOP as int,
            target_length,
        );
    }
}

/// A signal as long, and with as many channels, as the first `stages` stages make it.
pub open spec fn is_stage_signal(o: Outcome, batch: int, frames: int, stages: nat) -> bool {
    is_signal(
        o,
        batch,
        frames * lengthening(stages),
        channels_before(INITIAL_CHANNELS as int, stages),
    )
}

impl PupuFeatures {
    /// The shapes of the intermediate results: the stages lengthen the signal to
    /// [`HOP_SIZE`] samples for each mel frame, and each halves its channels.
    pub proof fn lemma_shapes(
        self,
        entries: Entries,
        model: PupuVocoder,
        mel: Outcome,
        batch: int,
        frames: int,
    )
        requires
            self.holds(model, mel, true),
            model.reads(entries),
            model.conforms(),
            is_signal(mel, batch, frames, MEL_BINS as int),
            0 <= batch,
            1 <= frames,
            frames * HOP_SIZE + ACTIVATION_TILE <= i32::MAX,
            batch * frames * WIDEST <= i32::MAX,
        ensures
            ({
                let ts = self.program@;
                &&& is_signal(operand(ts, self.mel), batch, frames, MEL_BINS as int)
                &&& is_stage_signal(operand(ts, self.conv_pre), batch, frames, 0)
                &&& forall|i: int|
                    0 <= i < STAGES ==> is_stage_signal(
                        operand(ts, #[trigger] self.stages@[i]),
                        batch,
                        frames,
                        (i + 1) as nat,
                    )
                &&& forall|i: int|
                    0 <= i < STAGES * BRANCHES ==> is_stage_signal(
                        operand(ts, #[trigger] self.resblocks@[i]),
                        batch,
                        frames,
                        (i / BRANCHES as int + 1) as nat,
                    )
                &&& is_signal(operand(ts, self.output), batch, frames * HOP_SIZE, 1)
            }),
    {
        model.lemma_waveform(entries, mel, batch, frames);
        model.conv_pre.lemma_signal(mel, batch, frames);
        let source = model.conv_pre.apply(mel)->Ok_0;
        assert forall|i: int| 0 <= i < STAGES implies is_stage_signal(
            operand(self.program@, #[trigger] self.stages@[i]),
            batch,
            frames,
            (i + 1) as nat,
        ) by {
            model.lemma_hidden(entries, source, batch, frames, (i + 1) as nat);
        }
        assert forall|i: int| 0 <= i < STAGES * BRANCHES implies is_stage_signal(
            operand(self.program@, #[trigger] self.resblocks@[i]),
            batch,
            frames,
            (i / BRANCHES as int + 1) as nat,
        ) by {
            let stage = i / BRANCHES as int;
            model.lemma_hidden(entries, source, batch, frames, (stage + 1) as nat);
        }
    }

    /// Keeping the intermediate results changes neither the result nor what leads to it.
    pub proof fn lemma_same_result(self, other: PupuFeatures, model: PupuVocoder, mel: Outcome)
        requires
            self.holds(model, mel, true),
            other.holds(model, mel, false),
        ensures
            operand(self.program@, self.output) == operand(other.program@, other.output),
            operand(self.program@, self.conv_pre) == operand(other.program@, other.conv_pre),
            self.resblocks@.len() == STAGES * BRANCHES,
            self.stages@.len() == STAGES,
            other.resblocks@.len() == 0,
            other.stages@.len() == 0,
    {
    }
}

/// An activation has an array of this name.
pub open spec fn is_activation_weight(prefix: Seq<char>, key: Seq<char>) -> bool {
    ||| key == prefix + ".act.alpha"@
    ||| key == prefix + ".act.beta"@
    ||| key == prefix + ".upsample.filter"@
    ||| key == prefix + ".downsample.lowpass.filter"@
}

/// The name of the source convolution of a stage.
pub open spec fn noise_prefix(stage: nat) -> Seq<char> {
    part(stage, ".convolution_noise"@)
}

/// An upsampler has a weight of this name.
pub open spec fn is_upsampler_weight(stage: nat, key: Seq<char>) -> bool {
    ||| key == weight_key(noise_prefix(stage))
    ||| key == part(stage, ".julius_filter"@)
    ||| key == weight_key(part(stage, ".convolution_after"@))
}

/// A layer of a residual block has a weight of this name.
pub open spec fn is_layer_weight(index: nat, layer: nat, key: Seq<char>) -> bool {
    ||| key == weight_key(first_conv_prefix(index, layer))
    ||| key == weight_key(second_conv_prefix(index, layer))
    ||| is_activation_weight(activation_prefix(index, layer * 2), key)
    ||| is_activation_weight(activation_prefix(index, layer * 2 + 1), key)
}

/// The model has a weight of this name, besides those of its mel spectrogram.
pub open spec fn is_weight(key: Seq<char>) -> bool {
    ||| key == weight_key("conv_pre"@)
    ||| key == weight_key("conv_post"@)
    ||| is_activation_weight("activation_post"@, key)
    ||| exists|stage: nat| stage < STAGES && #[trigger] is_upsampler_weight(stage, key)
    ||| exists|index: nat, layer: nat|
        index < STAGES * BRANCHES && layer < LAYERS && #[trigger] is_layer_weight(
            index,
            layer,
            key,
        )
}

/// A checkpoint has all weights of the model, besides those of its mel spectrogram.
pub open spec fn has_weights(entries: Entries) -> bool {
    forall|key: Seq<char>| #[trigger] is_weight(key) ==> stored(entries, key) is Some
}

/// A checkpoint has the bias of the source convolution of a stage.
pub open spec fn has_bias(entries: Entries, stage: nat) -> bool {
    stored(entries, bias_key(noise_prefix(stage))) is Some
}

/// The source convolution of a stage can be prepared.
pub open spec fn can_prepare(entries: Entries, stage: nat) -> bool {
    matrices_fault(
        stored(entries, weight_key(noise_prefix(stage))),
        channels_before(INITIAL_CHANNELS as int, stage) as i32,
    ) is None
}

/// The fault is one of a checkpoint from which the model cannot be built.
pub open spec fn is_fault(entries: Entries, fault: LoadFault) -> bool {
    match fault {
        LoadFault::MissingPreprocess(key) => mel_fault(entries) == Some(fault) && stored(
            entries,
            key,
        ) is None,
        LoadFault::MissingWeight(key) => is_weight(key) && stored(entries, key) is None,
        LoadFault::MissingBias => exists|stage: nat|
            stage < STAGES && !#[trigger] has_bias(entries, stage),
        LoadFault::Plan(_) => exists|stage: nat|
            stage < STAGES && !#[trigger] can_prepare(entries, stage),
    }
}

/// The first `layers` layers of a residual block have their weights, or the fault names one
/// that is missing.
proof fn lemma_resblock_weights(entries: Entries, index: nat, layers: nat)
    requires
        index < STAGES * BRANCHES,
        layers <= LAYERS,
    ensures
        match resblock_fault(entries, index, layers) {
            Some(fault) => is_fault(entries, fault),
            None => forall|layer: nat|
                layer < layers ==> #[trigger] full_layer_fault(entries, index, layer) is None,
        },
    decreases layers,
{
    if layers > 0 {
        let last = (layers - 1) as nat;
        lemma_resblock_weights(entries, index, last);
        match full_layer_fault(entries, index, last) {
            Some(LoadFault::MissingWeight(key)) => {
                assert(is_layer_weight(index, last, key));
            },
            _ => {},
        }
    }
}

/// The first `branches` residual blocks of a stage have their weights, or the fault names one
/// that is missing.
#[verifier::rlimit(30)]
proof fn lemma_branch_weights(entries: Entries, stage: nat, branches: nat)
    requires
        stage < STAGES,
        branches <= BRANCHES,
    ensures
        match branches_fault(entries, stage, branches) {
            Some(fault) => is_fault(entries, fault),
            None => forall|index: nat, layer: nat|
                stage * BRANCHES <= index < stage * BRANCHES + branches && layer < LAYERS
                    ==> #[trigger] full_layer_fault(entries, index, layer) is None,
        },
    decreases branches,
{
    if branches > 0 {
        lemma_branch_weights(entries, stage, (branches - 1) as nat);
        lemma_resblock_weights(
            entries,
            (stage * BRANCHES + branches - 1) as nat,
            LAYERS as nat,
        );
    }
}

/// The fault of an upsampler of the model.
pub open spec fn up_fault(entries: Entries, stage: nat) -> Option<LoadFault> {
    upsampler_fault(entries, stage, channels_before(INITIAL_CHANNELS as int, stage) as i32)
}

/// The first `stages` stages have what they need, or the fault says what is missing.
proof fn lemma_stage_weights(entries: Entries, stages: nat)
    requires
        stages <= STAGES,
    ensures
        match stages_fault(entries, stages) {
            Some(fault) => is_fault(entries, fault),
            None => {
                &&& forall|stage: nat|
                    stage < stages ==> #[trigger] up_fault(entries, stage) is None
                &&& forall|index: nat, layer: nat|
                    index < stages * BRANCHES && layer < LAYERS ==> #[trigger] full_layer_fault(
                        entries,
                        index,
                        layer,
                    ) is None
            },
        },
    decreases stages,
{
    if stages > 0 {
        let last = (stages - 1) as nat;
        lemma_stage_weights(entries, last);
        lemma_branch_weights(entries, last, BRANCHES as nat);
        match up_fault(entries, last) {
            Some(LoadFault::MissingWeight(key)) => {
                assert(is_upsampler_weight(last, key));
            },
            Some(LoadFault::MissingBias) => {
                assert(!has_bias(entries, last));
            },
            Some(LoadFault::Plan(_)) => {
                assert(!can_prepare(entries, last));
            },
            _ => {},
        }
    }
}

/// A checkpoint can be loaded exactly when it has the arrays of the mel spectrogram, all
/// weights of the model, and for each stage a source convolution with a bias that can be
/// prepared. Where it cannot, the error says what is missing.
pub proof fn lemma_load(entries: Entries)
    ensures
        load_fault(entries) is None <==> {
            &&& mel_fault(entries) is None
            &&& has_weights(entries)
            &&& forall|stage: nat| stage < STAGES ==> #[trigger] has_bias(entries, stage)
            &&& forall|stage: nat| stage < STAGES ==> #[trigger] can_prepare(entries, stage)
        },
        load_fault(entries) matches Some(fault) ==> is_fault(entries, fault),
{
    lemma_stage_weights(entries, STAGES as nat);
    match load_fault(entries) {
        Some(LoadFault::MissingWeight(key)) => {
            assert(is_weight(key));
        },
        Some(_) => {},
        None => {
            assert forall|key: Seq<char>| #[trigger] is_weight(key) implies stored(
                entries,
                key,
            ) is Some by {
                if exists|stage: nat| stage < STAGES && #[trigger] is_upsampler_weight(stage, key) {
                    let stage = choose|stage: nat|
                        stage < STAGES && #[trigger] is_upsampler_weight(stage, key);
                    assert(up_fault(entries, stage) is None);
                } else if exists|index: nat, layer: nat|
                    index < STAGES * BRANCHES && layer < LAYERS && #[trigger] is_layer_weight(
                        index,
                        layer,
                        key,
                    ) {
                    let (index, layer) = choose|index: nat, layer: nat|
                        index < STAGES * BRANCHES && layer < LAYERS && #[trigger] is_layer_weight(
                            index,
                            layer,
                            key,
                        );
                    assert(full_layer_fault(entries, index, layer) is None);
                }
            }
            assert forall|stage: nat| stage < STAGES implies #[trigger] has_bias(
                entries,
                stage,
            ) by {
                assert(up_fault(entries, stage) is None);
            }
            assert forall|stage: nat| stage < STAGES implies #[trigger] can_prepare(
                entries,
                stage,
            ) by {
                assert(up_fault(entries, stage) is None);
            }
        },
    }
}

} // verus!
