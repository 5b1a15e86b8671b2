//! The pitch-controllable vocoder in exact arithmetic: what each result is, by the numbers in
//! the results before it.
use vstd::arithmetic::power2::{lemma2_to64, pow2};
use vstd::prelude::*;

use crate::config::{
    average, channels_before, lemma_average_value, lemma_channels, lemma_layer, BRANCHES,
    RESBLOCK_KERNELS, STAGES, UPSAMPLE_RATES,
};
use crate::element::within;
use crate::layer_laws::lemma_layer_arrays;
use crate::mel::{HOP, PAD};
use crate::numbers::Numbers;
use crate::pc_nsf::{
    block_reads, inner_slope, leaky, outer_slope, up_reads, PcNsfFeatures, PcNsfHifigan, ResBlock1,
    INITIAL_CHANNELS,
};
use crate::pc_nsf_laws::is_stage_signal;
use crate::program::operand;
use crate::shape::valid;
use crate::signal::{is_signal, lemma_same_shape};
use crate::tensor::{evaluated, unary, BinaryOp, Outcome, Tensor, UnaryOp};
use crate::text::decimal;
use crate::weights::{stored, Entries};
use crate::HOP_SIZE;

verus! {

impl Numbers {
    /// The activation inside the generator.
    proof fn lemma_leaky(self, x: Outcome, i: Seq<int>)
        requires
            x is Ok,
        ensures
            self.of(leaky(x), i) == (if self.of(x, i) < 0 as real {
                self.of(x, i) / (10 as real)
            } else {
                self.of(x, i)
            }),
    {
        self.lemma_unary(UnaryOp::LeakyRelu(inner_slope()), x, i);
        assert(self.constant(inner_slope()) == 1 as real / (10 as real));
        let v = self.of(x, i);
        assert(v * (1 as real / (10 as real)) == v / (10 as real));
    }
}

impl ResBlock1 {
    /// Each layer of a residual block adds to its input what two convolutions make of it, each
    /// behind an activation that divides negative numbers by ten. There are three layers.
    pub proof fn lemma_layer_value(
        self,
        numbers: Numbers,
        entries: Entries,
        index: nat,
        channels: int,
        branch: int,
        x: Outcome,
        batch: int,
        length: int,
        l: int,
        b: int,
        t: int,
        o: int,
    )
        requires
            0 <= branch < BRANCHES,
            self.reads(entries, index, channels, RESBLOCK_KERNELS@[branch] as int),
            self.conforms(),
            1 <= length,
            0 <= channels,
            is_signal(x, batch, length, channels),
            0 <= l < 3,
            0 <= b < batch,
            0 <= t < length,
            0 <= o < channels,
        ensures
            self.residual(x, 0) == x,
            self.apply(x) == self.residual(x, 3),
            ({
                let y = self.residual(x, l as nat);
                numbers.of(self.residual(x, (l + 1) as nat), seq![b, t, o]) == numbers.of(
                    y,
                    seq![b, t, o],
                ) + self.convs2@[l].convolved(
                    numbers,
                    |b2: int, t2: int, c2: int|
                        {
                            let v = self.convs1@[l].convolved(
                                numbers,
                                |b1: int, t1: int, c1: int|
                                    {
                                        let u = numbers.of(y, seq![b1, t1, c1]);
                                        if u < 0 as real {
                                            u / (10 as real)
                                        } else {
                                            u
                                        }
                                    },
                                length,
                                b2,
                                t2,
                                c2,
                            );
                            if v < 0 as real {
                                v / (10 as real)
                            } else {
                                v
                            }
                        },
                    length,
                    b,
                    t,
                    o,
                )
            }),
    {
        let y = self.residual(x, l as nat);
        self.lemma_residual(entries, index, channels, branch, x, batch, length, l as nat);
        let (first, second) = (self.convs1@[l], self.convs2@[l]);
        lemma_layer(first, second, entries, index, l as nat, channels, branch);
        first.lemma_signal(leaky(y), batch, length);
        let hidden = first.apply(leaky(y));
        second.lemma_signal(leaky(hidden), batch, length);
        let z = second.apply(leaky(hidden));
        assert(y->Ok_0.shape =~= z->Ok_0.shape);
        let inner = |b1: int, t1: int, c1: int|
            {
                let u = numbers.of(y, seq![b1, t1, c1]);
                if u < 0 as real {
                    u / (10 as real)
                } else {
                    u
                }
            };
        let outer = |b2: int, t2: int, c2: int|
            {
                let v = self.convs1@[l].convolved(
                    numbers,
                    |b1: int, t1: int, c1: int|
                        {
                            let u = numbers.of(y, seq![b1, t1, c1]);
                            if u < 0 as real {
                                u / (10 as real)
                            } else {
                                u
                            }
                        },
                    length,
                    b2,
                    t2,
                    c2,
                );
                if v < 0 as real {
                    v / (10 as real)
                } else {
                    v
                }
            };
        assert forall|t2: int, c2: int| 0 <= t2 < length && 0 <= c2 < second.input_channels implies
            #[trigger] outer(b, t2, c2) == numbers.of(leaky(hidden), seq![b, t2, c2]) by {
            assert forall|t1: int, c1: int|
                0 <= t1 < length && 0 <= c1 < first.input_channels implies #[trigger] inner(
                b,
                t1,
                c1,
            ) == numbers.of(leaky(y), seq![b, t1, c1]) by {
                numbers.lemma_leaky(y, seq![b, t1, c1]);
            }
            first.lemma_convolved(numbers, leaky(y), inner, batch, length, b, t2, c2);
            numbers.lemma_leaky(hidden, seq![b, t2, c2]);
        }
        second.lemma_convolved(numbers, leaky(hidden), outer, batch, length, b, t, o);
        lemma_same_shape(BinaryOp::Add, y, z);
        assert(within(y->Ok_0.shape, seq![b, t, o]));
        numbers.lemma_binary(BinaryOp::Add, y, z, seq![b, t, o]);
        assert(self.residual(x, 0) == x);
    }
}

impl PcNsfHifigan {
    /// A stage lengthens the signal with a transposed convolution, behind an activation that
    /// divides negative numbers by ten. At the second stage, the convolved source is added.
    pub proof fn lemma_upsampled_value(
        self,
        numbers: Numbers,
        entries: Entries,
        hidden: Outcome,
        source: Outcome,
        stage: int,
        batch: int,
        length: int,
        b: int,
        t: int,
        o: int,
    )
        requires
            self.reads(entries),
            self.conforms(),
            0 <= stage < STAGES,
            1 <= length,
            length * UPSAMPLE_RATES@[stage] <= i32::MAX,
            is_signal(
                hidden,
                batch,
                length,
                channels_before(INITIAL_CHANNELS as int, stage as nat),
            ),
            stage == 1 ==> is_signal(source, batch, length * UPSAMPLE_RATES@[stage], 1),
            0 <= b < batch,
            0 <= t < length * UPSAMPLE_RATES@[stage],
            0 <= o < channels_before(INITIAL_CHANNELS as int, (stage + 1) as nat),
        ensures
            numbers.of(self.upsampled(hidden, source, stage), seq![b, t, o])
                == self.upsamplers@[stage].convolved(
                numbers,
                |b1: int, t1: int, c1: int|
                    {
                        let u = numbers.of(hidden, seq![b1, t1, c1]);
                        if u < 0 as real {
                            u / (10 as real)
                        } else {
                            u
                        }
                    },
                length,
                b,
                t,
                o,
            ) + (if stage == 1 {
                self.source_conv.convolved(
                    numbers,
                    |b1: int, t1: int, c1: int| numbers.of(source, seq![b1, t1, c1]),
                    length * UPSAMPLE_RATES@[stage],
                    b,
                    t,
                    o,
                )
            } else {
                0 as real
            }),
    {
        lemma_channels(INITIAL_CHANNELS as int);
        let layer = self.upsamplers@[stage];
        assert(up_reads(layer, entries, stage));
        assert(stage == 0 || stage == 1 || stage == 2 || stage == 3 || stage == 4);
        assert(layer.multiplies_length());
        let longer = length * UPSAMPLE_RATES@[stage];
        let inner = |b1: int, t1: int, c1: int|
            {
                let u = numbers.of(hidden, seq![b1, t1, c1]);
                if u < 0 as real {
                    u / (10 as real)
                } else {
                    u
                }
            };
        assert forall|t1: int, c1: int| 0 <= t1 < length && 0 <= c1 < layer.input_channels implies
            #[trigger] inner(b, t1, c1) == numbers.of(leaky(hidden), seq![b, t1, c1]) by {
            numbers.lemma_leaky(hidden, seq![b, t1, c1]);
        }
        layer.lemma_signal(leaky(hidden), batch, length);
        layer.lemma_convolved(numbers, leaky(hidden), inner, batch, length, b, t, o);
        if stage == 1 {
            let plain = layer.apply(leaky(hidden));
            self.source_conv.lemma_signal(source, batch, longer);
            let driven = self.source_conv.apply(source);
            assert(plain->Ok_0.shape =~= driven->Ok_0.shape);
            let given = |b1: int, t1: int, c1: int| numbers.of(source, seq![b1, t1, c1]);
            self.source_conv.lemma_convolved(numbers, source, given, batch, longer, b, t, o);
            lemma_same_shape(BinaryOp::Add, plain, driven);
            assert(within(plain->Ok_0.shape, seq![b, t, o]));
            numbers.lemma_binary(BinaryOp::Add, plain, driven, seq![b, t, o]);
        }
    }
}

/// Two signals of a stage have one shape.
proof fn lemma_one_shape(a: Outcome, b: Outcome, batch: int, frames: int, stages: nat)
    requires
        is_stage_signal(a, batch, frames, stages),
        is_stage_signal(b, batch, frames, stages),
    ensures
        a->Ok_0.shape == b->Ok_0.shape,
{
    assert(a->Ok_0.shape =~= b->Ok_0.shape);
}

impl PcNsfFeatures {
    /// The first convolution, of the mel spectrogram of the waveform.
    pub proof fn lemma_pre_value(
        self,
        numbers: Numbers,
        entries: Entries,
        model: PcNsfHifigan,
        audio: Tensor,
        f0: Tensor,
        b: int,
        t: int,
        o: int,
    )
        requires
            self.holds(model, audio, f0, true),
            model.reads(entries),
            model.conforms(),
            valid(audio.shape),
            audio.shape.len() == 2,
            PAD < audio.shape[1],
            audio.shape[1] + 2 * PAD <= i32::MAX,
            0 <= b < audio.shape[0],
            0 <= t < audio.shape[1] as int / 512,
            0 <= o < 512,
        ensures
            operand(self.program@, self.mel) == model.mel.apply(audio),
            self.program@[self.f0 as int] == f0,
            numbers.at(self.program@[self.conv_pre as int], seq![b, t, o])
                == model.conv_pre.convolved(
                numbers,
                |b1: int, t1: int, c1: int|
                    numbers.at(self.program@[self.mel as int], seq![b1, t1, c1]),
                audio.shape[1] as int / 512,
                b,
                t,
                o,
            ),
    {
        let frames = audio.shape[1] as int / HOP as int;
        let batch = audio.shape[0] as int;
        model.mel.lemma_frames(audio);
        let mel = model.mel.apply(audio);
        assert(operand(self.program@, self.mel) == mel);
        let given = |b1: int, t1: int, c1: int|
            numbers.at(self.program@[self.mel as int], seq![b1, t1, c1]);
        model.conv_pre.lemma_convolved(numbers, mel, given, batch, frames, b, t, o);
    }

    /// What the three residual blocks of stage `s` are given: the outcome of the stage before,
    /// or of the first convolution, lengthened.
    pub open spec fn entering(self, model: PcNsfHifigan, s: int) -> Outcome {
        let before = if s == 0 {
            self.conv_pre
        } else {
            self.stages@[s - 1]
        };
        model.upsampled(operand(self.program@, before), operand(self.program@, self.source), s)
    }

    /// Each residual block of a stage works on the same lengthened signal, and each is another
    /// one: blocks three times the stage, and the two after it.
    pub proof fn lemma_blocks(self, model: PcNsfHifigan, audio: Tensor, f0: Tensor, s: int, k: int)
        requires
            self.holds(model, audio, f0, true),
            0 <= s < 5,
            0 <= k < 3,
        ensures
            operand(self.program@, self.resblocks@[3 * s + k]) == model.resblocks@[3 * s + k].apply(
                self.entering(model, s),
            ),
    {
        let index = s * BRANCHES + k;
        assert(index == 3 * s + k);
        assert(index / BRANCHES as int == s && index % BRANCHES as int == k);
        let mel = model.mel.apply(audio);
        let source = model.source(f0, mel->Ok_0);
        let pre = model.conv_pre.apply(mel);
        assert(operand(self.program@, self.resblocks@[index]) == model.branch(
            model.upsampled(model.hidden(pre, source, s as nat), source, s),
            s,
            k,
        ));
        if s == 0 {
            assert(model.hidden(pre, source, 0) == pre);
        } else {
            assert(operand(self.program@, self.stages@[s - 1]) == model.hidden(
                pre,
                source,
                s as nat,
            ));
        }
    }

    /// The mean at the end of a stage.
    proof fn lemma_mean(self, model: PcNsfHifigan, audio: Tensor, f0: Tensor, s: int)
        requires
            self.holds(model, audio, f0, true),
            0 <= s < 5,
        ensures
            ({
                let ts = self.program@;
                let a = operand(ts, self.resblocks@[3 * s]);
                let b = operand(ts, self.resblocks@[3 * s + 1]);
                let c = operand(ts, self.resblocks@[3 * s + 2]);
                operand(ts, self.stages@[s]) == evaluated(average(a, b, c))
            }),
    {
        self.lemma_blocks(model, audio, f0, s, 0);
        self.lemma_blocks(model, audio, f0, s, 1);
        self.lemma_blocks(model, audio, f0, s, 2);
        let ts = self.program@;
        let mel = model.mel.apply(audio);
        let source = model.source(f0, mel->Ok_0);
        let pre = model.conv_pre.apply(mel);
        let up = model.upsampled(model.hidden(pre, source, s as nat), source, s);
        assert(operand(ts, self.stages@[s]) == model.hidden(pre, source, (s + 1) as nat));
        if s > 0 {
            assert(operand(ts, self.stages@[s - 1]) == model.hidden(pre, source, s as nat));
        }
        assert(up == self.entering(model, s));
        assert(operand(ts, self.stages@[s]) == model.blended(up, s));
    }

    /// A residual block of a stage and the outcome of the stage have one shape.
    proof fn lemma_stage_shapes(
        self,
        entries: Entries,
        model: PcNsfHifigan,
        audio: Tensor,
        f0: Tensor,
        s: int,
        k: int,
    )
        requires
            self.holds(model, audio, f0, true),
            model.reads(entries),
            model.conforms(),
            valid(audio.shape),
            audio.shape.len() == 2,
            PAD < audio.shape[1],
            audio.shape[1] + 2 * PAD <= i32::MAX,
            f0.shape == seq![audio.shape[0], (audio.shape[1] as int / HOP as int) as i32],
            0 <= s < 5,
            0 <= k < 3,
        ensures
            self.program@[self.resblocks@[3 * s + k] as int].shape
                == self.program@[self.stages@[s] as int].shape,
    {
        self.lemma_shapes(entries, model, audio, f0);
        let ts = self.program@;
        let batch = audio.shape[0] as int;
        let frames = audio.shape[1] as int / HOP as int;
        let i = 3 * s + k;
        assert(i / BRANCHES as int == s);
        let (x, y) = (self.stages@[s], self.resblocks@[i]);
        lemma_one_shape(operand(ts, x), operand(ts, y), batch, frames, (s + 1) as nat);
    }

    /// The outcome of a stage is, at every position, one third of the sum of the outcomes of
    /// its three residual blocks.
    pub proof fn lemma_mean_value(
        self,
        numbers: Numbers,
        entries: Entries,
        model: PcNsfHifigan,
        audio: Tensor,
        f0: Tensor,
        s: int,
        i: Seq<int>,
    )
        requires
            self.holds(model, audio, f0, true),
            model.reads(entries),
            model.conforms(),
            valid(audio.shape),
            audio.shape.len() == 2,
            PAD < audio.shape[1],
            audio.shape[1] + 2 * PAD <= i32::MAX,
            f0.shape == seq![audio.shape[0], (audio.shape[1] as int / HOP as int) as i32],
            0 <= s < 5,
            within(self.program@[self.stages@[s] as int].shape, i),
        ensures
            numbers.at(self.program@[self.stages@[s] as int], i) * (3 as real) == numbers.at(
                self.program@[self.resblocks@[3 * s] as int],
                i,
            ) + numbers.at(self.program@[self.resblocks@[3 * s + 1] as int], i) + numbers.at(
                self.program@[self.resblocks@[3 * s + 2] as int],
                i,
            ),
    {
        self.lemma_stage_shapes(entries, model, audio, f0, s, 0);
        self.lemma_stage_shapes(entries, model, audio, f0, s, 1);
        self.lemma_stage_shapes(entries, model, audio, f0, s, 2);
        self.lemma_mean(model, audio, f0, s);
        let ts = self.program@;
        let a = operand(ts, self.resblocks@[3 * s]);
        let b = operand(ts, self.resblocks@[3 * s + 1]);
        let c = operand(ts, self.resblocks@[3 * s + 2]);
        lemma_average_value(numbers, a, b, c, i);
        numbers.lemma_evaluated(average(a, b, c), i);
    }

    /// The waveform is the hyperbolic tangent of the last convolution, behind an activation
    /// that divides negative numbers by a hundred.
    pub proof fn lemma_output_value(
        self,
        numbers: Numbers,
        entries: Entries,
        model: PcNsfHifigan,
        audio: Tensor,
        f0: Tensor,
        b: int,
        t: int,
    )
        requires
            self.holds(model, audio, f0, true),
            model.reads(entries),
            model.conforms(),
            valid(audio.shape),
            audio.shape.len() == 2,
            PAD < audio.shape[1],
            audio.shape[1] + 2 * PAD <= i32::MAX,
            f0.shape == seq![audio.shape[0], (audio.shape[1] as int / HOP as int) as i32],
            0 <= b < audio.shape[0],
            0 <= t < audio.shape[1] as int / 512 * 512,
        ensures
            operand(self.program@, self.output) == model.inferred(audio, f0),
            numbers.at(self.program@[self.output as int], seq![b, t, 0]) == (numbers.tangent)(
                model.conv_post.convolved(
                    numbers,
                    |b1: int, t1: int, c1: int|
                        {
                            let u = numbers.at(
                                self.program@[self.stages@[4] as int],
                                seq![b1, t1, c1],
                            );
                            if u < 0 as real {
                                u / (100 as real)
                            } else {
                                u
                            }
                        },
                    audio.shape[1] as int / 512 * 512,
                    b,
                    t,
                    0,
                ),
            ),
    {
        self.lemma_shapes(entries, model, audio, f0);
        lemma_channels(INITIAL_CHANNELS as int);
        let ts = self.program@;
        let (batch, frames) = (audio.shape[0] as int, audio.shape[1] as int / HOP as int);
        let length = frames * HOP_SIZE;
        let last = operand(ts, self.stages@[4]);
        assert(is_stage_signal(last, batch, frames, 5));
        let active = unary(UnaryOp::LeakyRelu(outer_slope()), last);
        let given = |b1: int, t1: int, c1: int|
            {
                let u = numbers.at(self.program@[self.stages@[4] as int], seq![b1, t1, c1]);
                if u < 0 as real {
                    u / (100 as real)
                } else {
                    u
                }
            };
        assert forall|t1: int, c1: int|
            0 <= t1 < length && 0 <= c1 < model.conv_post.input_channels implies #[trigger] given(
            b,
            t1,
            c1,
        ) == numbers.of(active, seq![b, t1, c1]) by {
            let i = seq![b, t1, c1];
            numbers.lemma_unary(UnaryOp::LeakyRelu(outer_slope()), last, i);
            assert(numbers.constant(outer_slope()) == 1 as real / (100 as real));
            let v = numbers.of(last, i);
            assert(v * (1 as real / (100 as real)) == v / (100 as real));
        }
        model.conv_post.lemma_signal(active, batch, length);
        model.conv_post.lemma_convolved(numbers, active, given, batch, length, b, t, 0);
        let wave = model.conv_post.apply(active);
        numbers.lemma_unary(UnaryOp::Tanh, wave, seq![b, t, 0]);
        let mel = model.mel.apply(audio);
        let source = model.source(f0, mel->Ok_0);
        let pre = model.conv_pre.apply(mel);
        assert(last == model.hidden(pre, source, 5));
        assert(operand(ts, self.output) == evaluated(unary(UnaryOp::Tanh, wave)));
    }
}

impl PcNsfHifigan {
    /// The arrays of a loaded model: which name each layer is stored under, and with which
    /// numbers it is built.
    pub proof fn lemma_arrays(self, entries: Entries)
        requires
            self.reads(entries),
        ensures
            stored(entries, "preprocess.mel_basis"@) == Some(self.mel.mel_basis.tensor()),
            stored(entries, "preprocess.hann_window"@) == Some(self.mel.hann_window.tensor()),
            self.conv_pre.is_layer(entries, "conv_pre"@, 128, 512, 7, 1),
            self.source_conv.is_layer(entries, "source_conv"@, 1, 128, 1, 1),
            self.conv_post.is_layer(entries, "conv_post"@, 16, 1, 7, 1),
    {
        lemma_channels(INITIAL_CHANNELS as int);
    }

    /// The arrays of the upsampler of a stage.
    pub proof fn lemma_upsampler_arrays(self, entries: Entries, stage: int)
        requires
            self.reads(entries),
            0 <= stage < 5,
        ensures
            self.upsamplers@[stage].is_layer(
                entries,
                "ups."@ + decimal(stage as nat),
                512int / (pow2(stage as nat) as int),
                256int / (pow2(stage as nat) as int),
                if stage < 2 {
                    16
                } else {
                    4
                },
                if stage < 2 {
                    8
                } else {
                    2
                },
            ),
    {
        lemma_channels(INITIAL_CHANNELS as int);
        lemma2_to64();
        assert(up_reads(self.upsamplers@[stage], entries, stage));
        assert(stage == 0 || stage == 1 || stage == 2 || stage == 3 || stage == 4);
    }

    /// The arrays of layer `l` of a residual block: taps 3, 7 and 11 in turn, the first
    /// convolution of the layers with dilations 1, 3 and 5.
    pub proof fn lemma_block_arrays(self, entries: Entries, index: int, l: int)
        requires
            self.reads(entries),
            0 <= index < 15,
            0 <= l < 3,
        ensures
            ({
                let channels = 256int / (pow2((index / 3) as nat) as int);
                let taps = 3 + 4 * (index % 3);
                let block = self.resblocks@[index];
                &&& block.convs1@[l].is_layer(
                    entries,
                    "resblocks."@ + decimal(index as nat) + ".convs1."@ + decimal(l as nat),
                    channels,
                    channels,
                    taps,
                    2 * l + 1,
                )
                &&& block.convs2@[l].is_layer(
                    entries,
                    "resblocks."@ + decimal(index as nat) + ".convs2."@ + decimal(l as nat),
                    channels,
                    channels,
                    taps,
                    1,
                )
            }),
    {
        lemma_channels(INITIAL_CHANNELS as int);
        lemma2_to64();
        let block = self.resblocks@[index];
        assert(block_reads(block, entries, index));
        let stage = index / 3;
        assert(stage == 0 || stage == 1 || stage == 2 || stage == 3 || stage == 4);
        let channels = channels_before(INITIAL_CHANNELS as int, (stage + 1) as nat);
        if stage == 0 {
            assert(channels == 256);
        } else if stage == 1 {
            assert(channels == 128);
        } else if stage == 2 {
            assert(channels == 64);
        } else if stage == 3 {
            assert(channels == 32);
        } else {
            assert(channels == 16);
        }
        assert(channels == 256int / (pow2(stage as nat) as int));
        let taps = RESBLOCK_KERNELS@[index % 3] as int;
        assert(taps == 3 + 4 * (index % 3));
        let (first, second) = (block.convs1@[l], block.convs2@[l]);
        lemma_layer_arrays(first, second, entries, index as nat, l as nat, channels, taps);
    }
}

} // verus!
