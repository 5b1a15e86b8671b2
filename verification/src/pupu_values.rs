//! The alias-free vocoder in exact arithmetic: what each result is, by the numbers in the
//! results before it.
use vstd::arithmetic::power2::{lemma2_to64, pow2};
use vstd::prelude::*;
use vstd::string::*;

use crate::config::{
    average, channels_before, lemma_average_value, lemma_channels, lemma_layer, BRANCHES,
    RESBLOCK_KERNELS,
};
use crate::element::within;
use crate::layer_laws::lemma_layer_arrays;
use crate::metal::{resample, ACTIVATION_TILE};
use crate::numbers::Numbers;
use crate::program::operand;
use crate::pupu::{
    activation_prefix, block_reads, up_reads, Activation1d, PupuFeatures, PupuVocoder, ResBlock1,
    INITIAL_CHANNELS,
};
use crate::pupu_laws::{is_stage_signal, WIDEST};
use crate::shape::volume;
use crate::signal::{is_signal, lemma_same_shape, lemma_with_constant};
use crate::source::whole;
use crate::tensor::{
    binary, evaluated, BinaryOp, Expr, KernelKind, LaunchView, Outcome, PlanError, Scalar, Tensor,
};
use crate::text::decimal;
use crate::weights::{stored, Entries};
use crate::{HOP_SIZE, MEL_BINS};

verus! {

impl Activation1d {
    /// An activation is the result of its kernel on the signal, the parameters and the filters,
    /// with a thread for each time step in whole groups of 128, for each channel and for each
    /// row.
    pub proof fn lemma_launch(self, x: Tensor)
        requires
            x.shape.len() == 3,
            1 <= x.shape[1],
            1 <= x.shape[2],
            x.shape[1] + 128 <= i32::MAX,
        ensures
            self.apply(Ok(x)) == Ok::<Tensor, PlanError>(
                Tensor {
                    shape: x.shape,
                    expr: Expr::Kernel(
                        LaunchView {
                            kernel: KernelKind::Activation,
                            output_shape: x.shape,
                            grid: (
                                ((x.shape[1] + 127) / 128 * 128) as i32,
                                x.shape[2],
                                x.shape[0],
                            ),
                            thread_group: (128, 1, 1),
                            template_args: seq![
                                ("TILE_SIZE"@, 128),
                                ("ACTIVATION_TILE_SIZE"@, 267),
                                ("LENGTH"@, x.shape[1]),
                                ("CHANNELS"@, x.shape[2]),
                            ],
                        },
                        seq![
                            x,
                            self.alpha.tensor(),
                            self.beta.tensor(),
                            self.up_filter.tensor(),
                            self.down_filter.tensor(),
                        ],
                    ),
                },
            ),
    {
    }
}

/// A resampling is the result of its kernel on the signal, the source and the filter, with a
/// thread for each element of the source.
pub proof fn lemma_resample_launch(x: Tensor, source: Tensor, filter: Tensor, scale_factor: int)
    requires
        x.shape.len() == 3,
        source.shape.len() == 3,
        x.shape[0] == source.shape[0],
        x.shape[2] == source.shape[2],
        x.shape[1] * scale_factor == source.shape[1],
        filter.shape.len() >= 2,
        filter.shape[1] >= 1,
        volume(source.shape) <= i32::MAX,
        0 <= scale_factor <= i32::MAX,
    ensures
        resample(Ok(x), Ok(source), filter, scale_factor) == Ok::<Tensor, PlanError>(
            Tensor {
                shape: source.shape,
                expr: Expr::Kernel(
                    LaunchView {
                        kernel: KernelKind::Resample,
                        output_shape: source.shape,
                        grid: (volume(source.shape) as i32, 1, 1),
                        thread_group: (256, 1, 1),
                        template_args: seq![
                            ("INPUT_LENGTH"@, x.shape[1]),
                            ("OUTPUT_LENGTH"@, source.shape[1]),
                            ("CHANNELS"@, source.shape[2]),
                            ("SCALE_FACTOR"@, scale_factor as i32),
                            ("FILTER_LENGTH"@, filter.shape[1]),
                            ("FILTER_HALF"@, ((filter.shape[1] - 1) / 2) as i32),
                        ],
                    },
                    seq![x, source, filter],
                ),
            },
        ),
{
}

impl ResBlock1 {
    /// Each layer of a residual block adds to its input what two convolutions make of it, each
    /// behind an activation of its own. There are three layers.
    pub proof fn lemma_layer_value(
        self,
        numbers: Numbers,
        entries: Entries,
        index: nat,
        channels: int,
        branch: int,
        x: Outcome,
        batch: int,
        length: int,
        l: int,
        b: int,
        t: int,
        o: int,
    )
        requires
            0 <= branch < BRANCHES,
            self.reads(entries, index, channels, RESBLOCK_KERNELS@[branch] as int),
            self.conforms(),
            1 <= length,
            1 <= channels,
            length + ACTIVATION_TILE <= i32::MAX,
            is_signal(x, batch, length, channels),
            0 <= l < 3,
            0 <= b < batch,
            0 <= t < length,
            0 <= o < channels,
        ensures
            self.residual(x, 0) == x,
            self.apply(x) == self.residual(x, 3),
            ({
                let y = self.residual(x, l as nat);
                let before = self.activations@[2 * l].apply(y);
                let between = self.activations@[2 * l + 1].apply(self.convs1@[l].apply(before));
                numbers.of(self.residual(x, (l + 1) as nat), seq![b, t, o]) == numbers.of(
                    y,
                    seq![b, t, o],
                ) + self.convs2@[l].convolved(
                    numbers,
                    |b1: int, t1: int, c1: int| numbers.of(between, seq![b1, t1, c1]),
                    length,
                    b,
                    t,
                    o,
                )
            }),
    {
        let y = self.residual(x, l as nat);
        self.lemma_residual(entries, index, channels, branch, x, batch, length, l as nat);
        let (first, second) = (self.convs1@[l], self.convs2@[l]);
        lemma_layer(first, second, entries, index, l as nat, channels, branch);
        let (one, two) = (self.activations@[2 * l], self.activations@[2 * l + 1]);
        one.lemma_signal(y, batch, length, channels);
        let before = one.apply(y);
        first.lemma_signal(before, batch, length);
        let hidden = first.apply(before);
        two.lemma_signal(hidden, batch, length, channels);
        let between = two.apply(hidden);
        second.lemma_signal(between, batch, length);
        let z = second.apply(between);
        let given = |b1: int, t1: int, c1: int| numbers.of(between, seq![b1, t1, c1]);
        second.lemma_convolved(numbers, between, given, batch, length, b, t, o);
        assert(y->Ok_0.shape =~= z->Ok_0.shape);
        lemma_same_shape(BinaryOp::Add, y, z);
        assert(within(y->Ok_0.shape, seq![b, t, o]));
        numbers.lemma_binary(BinaryOp::Add, y, z, seq![b, t, o]);
        assert(self.residual(x, 0) == x);
    }
}

/// Two signals of a stage have one shape.
proof fn lemma_one_shape(a: Outcome, b: Outcome, batch: int, frames: int, stages: nat)
    requires
        is_stage_signal(a, batch, frames, stages),
        is_stage_signal(b, batch, frames, stages),
    ensures
        a->Ok_0.shape == b->Ok_0.shape,
{
    assert(a->Ok_0.shape =~= b->Ok_0.shape);
}

/// A waveform between its bounds, evaluated.
spec fn limited(wave: Outcome) -> Outcome {
    evaluated(
        binary(
            BinaryOp::Minimum,
            binary(BinaryOp::Maximum, wave, whole((-1) as i32)),
            whole(1),
        ),
    )
}

/// The numbers of a waveform between its bounds.
proof fn lemma_limited(numbers: Numbers, wave: Outcome, i: Seq<int>)
    requires
        wave is Ok,
        within(wave->Ok_0.shape, i),
    ensures
        ({
            let w = numbers.of(wave, i);
            let y = numbers.of(limited(wave), i);
            &&& -(1 as real) <= w <= 1 as real ==> y == w
            &&& w < -(1 as real) ==> y == -(1 as real)
            &&& w > 1 as real ==> y == 1 as real
        }),
{
    let (low, high) = (
        Scalar::Ratio { num: (-1) as i32, den: 1 },
        Scalar::Ratio { num: 1, den: 1 },
    );
    lemma_with_constant(BinaryOp::Maximum, wave, low);
    numbers.lemma_constant(BinaryOp::Maximum, wave, low, i);
    let raised = binary(BinaryOp::Maximum, wave, whole((-1) as i32));
    lemma_with_constant(BinaryOp::Minimum, raised, high);
    numbers.lemma_constant(BinaryOp::Minimum, raised, high, i);
    numbers.lemma_whole((-1) as i32);
    numbers.lemma_whole(1);
    numbers.lemma_evaluated(binary(BinaryOp::Minimum, raised, whole(1)), i);
}

impl PupuFeatures {
    /// The first convolution, of the mel spectrogram.
    pub proof fn lemma_pre_value(
        self,
        numbers: Numbers,
        entries: Entries,
        model: PupuVocoder,
        mel: Outcome,
        batch: int,
        frames: int,
        b: int,
        t: int,
        o: int,
    )
        requires
            self.holds(model, mel, true),
            model.reads(entries),
            model.conforms(),
            is_signal(mel, batch, frames, MEL_BINS as int),
            0 <= b < batch,
            0 <= t < frames,
            0 <= o < 1_536,
        ensures
            operand(self.program@, self.mel) == mel,
            numbers.at(self.program@[self.conv_pre as int], seq![b, t, o])
                == model.conv_pre.convolved(
                numbers,
                |b1: int, t1: int, c1: int|
                    numbers.at(self.program@[self.mel as int], seq![b1, t1, c1]),
                frames,
                b,
                t,
                o,
            ),
    {
        assert(operand(self.program@, self.mel) == mel);
        let given = |b1: int, t1: int, c1: int|
            numbers.at(self.program@[self.mel as int], seq![b1, t1, c1]);
        model.conv_pre.lemma_convolved(numbers, mel, given, batch, frames, b, t, o);
    }

    /// What the three residual blocks of stage `s` are given: the outcome of the stage before,
    /// or of the first convolution, resampled.
    pub open spec fn entering(self, model: PupuVocoder, s: int) -> Outcome {
        let before = if s == 0 {
            self.conv_pre
        } else {
            self.stages@[s - 1]
        };
        model.upsampled(
            operand(self.program@, before),
            self.program@[self.conv_pre as int],
            s,
        )
    }

    /// Each residual block of a stage works on the same resampled signal, and each is another
    /// one: blocks three times the stage, and the two after it.
    pub proof fn lemma_blocks(self, model: PupuVocoder, mel: Outcome, s: int, k: int)
        requires
            self.holds(model, mel, true),
            0 <= s < 5,
            0 <= k < 3,
        ensures
            operand(self.program@, self.resblocks@[3 * s + k]) == model.resblocks@[3 * s + k].apply(
                self.entering(model, s),
            ),
    {
        let index = s * BRANCHES + k;
        assert(index == 3 * s + k);
        assert(index / BRANCHES as int == s && index % BRANCHES as int == k);
        let source = model.conv_pre.apply(mel)->Ok_0;
        assert(operand(self.program@, self.conv_pre) == model.conv_pre.apply(mel));
        assert(operand(self.program@, self.resblocks@[index]) == model.branch(
            model.upsampled(model.hidden(source, s as nat), source, s),
            s,
            k,
        ));
        if s == 0 {
            assert(model.hidden(source, 0) == Ok::<Tensor, PlanError>(source));
        } else {
            assert(operand(self.program@, self.stages@[s - 1]) == model.hidden(source, s as nat));
        }
    }

    /// The mean at the end of a stage.
    proof fn lemma_mean(self, model: PupuVocoder, mel: Outcome, s: int)
        requires
            self.holds(model, mel, true),
            0 <= s < 5,
        ensures
            ({
                let ts = self.program@;
                let a = operand(ts, self.resblocks@[3 * s]);
                let b = operand(ts, self.resblocks@[3 * s + 1]);
                let c = operand(ts, self.resblocks@[3 * s + 2]);
                operand(ts, self.stages@[s]) == average(a, b, c)
            }),
    {
        self.lemma_blocks(model, mel, s, 0);
        self.lemma_blocks(model, mel, s, 1);
        self.lemma_blocks(model, mel, s, 2);
        let ts = self.program@;
        let source = model.conv_pre.apply(mel)->Ok_0;
        assert(operand(ts, self.conv_pre) == model.conv_pre.apply(mel));
        let up = model.upsampled(model.hidden(source, s as nat), source, s);
        assert(operand(ts, self.stages@[s]) == model.hidden(source, (s + 1) as nat));
        if s > 0 {
            assert(operand(ts, self.stages@[s - 1]) == model.hidden(source, s as nat));
        }
        assert(up == self.entering(model, s));
        assert(operand(ts, self.stages@[s]) == model.blended(up, s));
    }

    /// A residual block of a stage and the outcome of the stage have one shape.
    proof fn lemma_stage_shapes(
        self,
        entries: Entries,
        model: PupuVocoder,
        mel: Outcome,
        batch: int,
        frames: int,
        s: int,
        k: int,
    )
        requires
            self.holds(model, mel, true),
            model.reads(entries),
            model.conforms(),
            is_signal(mel, batch, frames, MEL_BINS as int),
            0 <= batch,
            1 <= frames,
            frames * HOP_SIZE + ACTIVATION_TILE <= i32::MAX,
            batch * frames * WIDEST <= i32::MAX,
            0 <= s < 5,
            0 <= k < 3,
        ensures
            self.program@[self.resblocks@[3 * s + k] as int].shape
                == self.program@[self.stages@[s] as int].shape,
    {
        self.lemma_shapes(entries, model, mel, batch, frames);
        let ts = self.program@;
        let i = 3 * s + k;
        assert(i / BRANCHES as int == s);
        let (x, y) = (self.stages@[s], self.resblocks@[i]);
        lemma_one_shape(operand(ts, x), operand(ts, y), batch, frames, (s + 1) as nat);
    }

    /// The outcome of a stage is, at every position, one third of the sum of the outcomes of
    /// its three residual blocks.
    pub proof fn lemma_mean_value(
        self,
        numbers: Numbers,
        entries: Entries,
        model: PupuVocoder,
        mel: Outcome,
        batch: int,
        frames: int,
        s: int,
        i: Seq<int>,
    )
        requires
            self.holds(model, mel, true),
            model.reads(entries),
            model.conforms(),
            is_signal(mel, batch, frames, MEL_BINS as int),
            0 <= batch,
            1 <= frames,
            frames * HOP_SIZE + ACTIVATION_TILE <= i32::MAX,
            batch * frames * WIDEST <= i32::MAX,
            0 <= s < 5,
            within(self.program@[self.stages@[s] as int].shape, i),
        ensures
            numbers.at(self.program@[self.stages@[s] as int], i) * (3 as real) == numbers.at(
                self.program@[self.resblocks@[3 * s] as int],
                i,
            ) + numbers.at(self.program@[self.resblocks@[3 * s + 1] as int], i) + numbers.at(
                self.program@[self.resblocks@[3 * s + 2] as int],
                i,
            ),
    {
        self.lemma_stage_shapes(entries, model, mel, batch, frames, s, 0);
        self.lemma_stage_shapes(entries, model, mel, batch, frames, s, 1);
        self.lemma_stage_shapes(entries, model, mel, batch, frames, s, 2);
        self.lemma_mean(model, mel, s);
        let ts = self.program@;
        let a = operand(ts, self.resblocks@[3 * s]);
        let b = operand(ts, self.resblocks@[3 * s + 1]);
        let c = operand(ts, self.resblocks@[3 * s + 2]);
        lemma_average_value(numbers, a, b, c, i);
    }

    /// The shape of the outcome of the last stage.
    proof fn lemma_last_shape(
        self,
        entries: Entries,
        model: PupuVocoder,
        mel: Outcome,
        batch: int,
        frames: int,
    )
        requires
            self.holds(model, mel, true),
            model.reads(entries),
            model.conforms(),
            is_signal(mel, batch, frames, MEL_BINS as int),
            0 <= batch,
            1 <= frames,
            frames * HOP_SIZE + ACTIVATION_TILE <= i32::MAX,
            batch * frames * WIDEST <= i32::MAX,
        ensures
            is_signal(
                operand(self.program@, self.stages@[4]),
                batch,
                frames * HOP_SIZE,
                channels_before(INITIAL_CHANNELS as int, 5),
            ),
    {
        self.lemma_shapes(entries, model, mel, batch, frames);
        assert(is_stage_signal(operand(self.program@, self.stages@[4]), batch, frames, 5));
    }

    /// What follows the last stage.
    proof fn lemma_end(self, model: PupuVocoder, mel: Outcome)
        requires
            self.holds(model, mel, true),
        ensures
            operand(self.program@, self.output) == limited(
                model.conv_post.apply(
                    model.activation_post.apply(operand(self.program@, self.stages@[4])),
                ),
            ),
    {
        let source = model.conv_pre.apply(mel)->Ok_0;
        assert(operand(self.program@, self.conv_pre) == model.conv_pre.apply(mel));
        assert(operand(self.program@, self.stages@[4]) == model.hidden(source, 5));
    }

    /// The waveform is the last convolution, behind an activation, limited: numbers between
    /// minus one and one stay as they are, and others become the nearer of these two.
    pub proof fn lemma_output_value(
        self,
        numbers: Numbers,
        entries: Entries,
        model: PupuVocoder,
        mel: Outcome,
        batch: int,
        frames: int,
        b: int,
        t: int,
    )
        requires
            self.holds(model, mel, true),
            model.reads(entries),
            model.conforms(),
            is_signal(mel, batch, frames, MEL_BINS as int),
            0 <= batch,
            1 <= frames,
            frames * HOP_SIZE + ACTIVATION_TILE <= i32::MAX,
            batch * frames * WIDEST <= i32::MAX,
            0 <= b < batch,
            0 <= t < frames * 512,
        ensures
            operand(self.program@, self.output) == model.waveform(mel),
            ({
                let active = model.activation_post.apply(operand(self.program@, self.stages@[4]));
                let w = model.conv_post.convolved(
                    numbers,
                    |b1: int, t1: int, c1: int| numbers.of(active, seq![b1, t1, c1]),
                    frames * 512,
                    b,
                    t,
                    0,
                );
                let y = numbers.at(self.program@[self.output as int], seq![b, t, 0]);
                &&& -(1 as real) <= w <= 1 as real ==> y == w
                &&& w < -(1 as real) ==> y == -(1 as real)
                &&& w > 1 as real ==> y == 1 as real
            }),
    {
        lemma_channels(INITIAL_CHANNELS as int);
        let length = frames * HOP_SIZE;
        let last = operand(self.program@, self.stages@[4]);
        self.lemma_last_shape(entries, model, mel, batch, frames);
        let channels = channels_before(INITIAL_CHANNELS as int, 5);
        model.activation_post.lemma_signal(last, batch, length, channels);
        let active = model.activation_post.apply(last);
        let given = |b1: int, t1: int, c1: int| numbers.of(active, seq![b1, t1, c1]);
        model.conv_post.lemma_signal(active, batch, length);
        model.conv_post.lemma_convolved(numbers, active, given, batch, length, b, t, 0);
        let wave = model.conv_post.apply(active);
        assert(within(wave->Ok_0.shape, seq![b, t, 0]));
        lemma_limited(numbers, wave, seq![b, t, 0]);
        self.lemma_end(model, mel);
    }
}

impl Activation1d {
    /// The activation has the arrays of its name.
    pub open spec fn is_activation(self, entries: Entries, name: Seq<char>) -> bool {
        &&& stored(entries, name + ".act.alpha"@) == Some(self.alpha.tensor())
        &&& stored(entries, name + ".act.beta"@) == Some(self.beta.tensor())
        &&& stored(entries, name + ".upsample.filter"@) == Some(self.up_filter.tensor())
        &&& stored(entries, name + ".downsample.lowpass.filter"@) == Some(
            self.down_filter.tensor(),
        )
    }
}

impl PupuVocoder {
    /// The arrays of a loaded model: which name each layer is stored under, and with which
    /// numbers it is built.
    pub proof fn lemma_arrays(self, entries: Entries)
        requires
            self.reads(entries),
        ensures
            stored(entries, "preprocess.mel_basis"@) == Some(self.mel.mel_basis.tensor()),
            stored(entries, "preprocess.hann_window"@) == Some(self.mel.hann_window.tensor()),
            self.conv_pre.is_layer(entries, "conv_pre"@, 128, 1_536, 7, 1),
            self.activation_post.is_activation(entries, "activation_post"@),
            self.conv_post.is_layer(entries, "conv_post"@, 48, 1, 7, 1),
    {
        lemma_channels(INITIAL_CHANNELS as int);
    }

    /// The arrays and numbers of the upsampler of a stage: each lengthens by 8, 8, 2, 2 and 2,
    /// so that the signal is longer by 8, 64, 128, 256 and 512.
    pub proof fn lemma_upsampler_arrays(self, entries: Entries, stage: int)
        requires
            self.reads(entries),
            0 <= stage < 5,
        ensures
            ({
                let up = self.upsamplers@[stage];
                let name = "ups."@ + decimal(stage as nat);
                let channels = 1_536int / (pow2(stage as nat) as int);
                &&& up.channels == channels
                &&& up.scale_factor == if stage < 2 {
                    8int
                } else {
                    2
                }
                &&& up.total_scale_factor == if stage == 0 {
                    8
                } else {
                    32int * (pow2(stage as nat) as int)
                }
                &&& stored(entries, name + ".convolution_noise.bias"@) == Some(
                    up.source_bias.tensor(),
                )
                &&& stored(entries, name + ".julius_filter"@) == Some(up.julius_filter.tensor())
                &&& up.convolution_after.is_layer(
                    entries,
                    name + ".convolution_after"@,
                    channels,
                    768int / (pow2(stage as nat) as int),
                    1,
                    1,
                )
            }),
    {
        lemma_channels(INITIAL_CHANNELS as int);
        lemma2_to64();
        let up = self.upsamplers@[stage];
        assert(up_reads(up, entries, self.preparation@, stage));
        assert(stage == 0 || stage == 1 || stage == 2 || stage == 3 || stage == 4);
        let name = "ups."@ + decimal(stage as nat);
        reveal_strlit(".convolution_noise");
        reveal_strlit(".bias");
        reveal_strlit(".convolution_noise.bias");
        assert(".convolution_noise"@ + ".bias"@ =~= ".convolution_noise.bias"@);
        assert(name + ".convolution_noise"@ + ".bias"@ =~= name + (".convolution_noise"@
            + ".bias"@));
    }

    /// The arrays of layer `l` of a residual block: taps 3, 7 and 11 in turn, the first
    /// convolution of the layers with dilations 1, 3 and 5, and two activations each.
    pub proof fn lemma_block_arrays(self, entries: Entries, index: int, l: int)
        requires
            self.reads(entries),
            0 <= index < 15,
            0 <= l < 3,
        ensures
            ({
                let channels = 768int / (pow2((index / 3) as nat) as int);
                let taps = 3 + 4 * (index % 3);
                let block = self.resblocks@[index];
                let name = "resblocks."@ + decimal(index as nat);
                &&& block.convs1@[l].is_layer(
                    entries,
                    name + ".convs1."@ + decimal(l as nat),
                    channels,
                    channels,
                    taps,
                    2 * l + 1,
                )
                &&& block.convs2@[l].is_layer(
                    entries,
                    name + ".convs2."@ + decimal(l as nat),
                    channels,
                    channels,
                    taps,
                    1,
                )
                &&& block.activations@[2 * l].is_activation(
                    entries,
                    name + ".activations."@ + decimal((2 * l) as nat),
                )
                &&& block.activations@[2 * l + 1].is_activation(
                    entries,
                    name + ".activations."@ + decimal((2 * l + 1) as nat),
                )
            }),
    {
        lemma_channels(INITIAL_CHANNELS as int);
        lemma2_to64();
        let block = self.resblocks@[index];
        assert(block_reads(block, entries, index));
        let stage = index / 3;
        assert(stage == 0 || stage == 1 || stage == 2 || stage == 3 || stage == 4);
        let channels = channels_before(INITIAL_CHANNELS as int, (stage + 1) as nat);
        if stage == 0 {
            assert(channels == 768);
        } else if stage == 1 {
            assert(channels == 384);
        } else if stage == 2 {
            assert(channels == 192);
        } else if stage == 3 {
            assert(channels == 96);
        } else {
            assert(channels == 48);
        }
        assert(channels == 768int / (pow2(stage as nat) as int));
        let taps = RESBLOCK_KERNELS@[index % 3] as int;
        assert(taps == 3 + 4 * (index % 3));
        let (first, second) = (block.convs1@[l], block.convs2@[l]);
        lemma_layer_arrays(first, second, entries, index as nat, l as nat, channels, taps);
        let (one, two) = (block.activations@[2 * l], block.activations@[2 * l + 1]);
        assert(one.reads(entries, activation_prefix(index as nat, (2 * l) as nat)));
        assert(two.reads(entries, activation_prefix(index as nat, (2 * l + 1) as nat)));
    }
}

} // verus!
