//! What both vocoders share: their numbers, the names of their weights, and the mean at the
//! end of a stage.
use vstd::prelude::*;
use vstd::string::*;

use crate::element::within;
use crate::layers::{conv1d_layer, weight_key, Conv1d};
use crate::numbers::Numbers;
use crate::program::{operand, Program};
use crate::signal::{is_signal, lemma_same_shape, lemma_with_constant};
use crate::source::{whole, SOURCE_UPSAMPLE};
use crate::tensor::{leaf, over, plus, BinaryOp, Outcome, PlanError, Scalar, Source, Tensor};
use crate::text::{decimal, decimal_text, numbered, numbered_text};
use crate::weights::{first_fault, weight_fault, Entries, LoadError, LoadFault, WeightTable};
use crate::HOP_SIZE;

verus! {

/// Upsampling stages of a generator.
pub const STAGES: usize = 5;

/// Residual blocks after each upsampling.
pub const BRANCHES: usize = 3;

/// Layers of a residual block.
pub const LAYERS: usize = 3;

/// How much each stage lengthens the signal.
pub const UPSAMPLE_RATES: [i32; 5] = [8, 8, 2, 2, 2];

/// How much longer the signal is after each stage than before the first.
pub const TOTAL_UPSAMPLE_RATES: [i32; 5] = [8, 64, 128, 256, 512];

/// Taps of the convolutions of each residual block of a stage.
pub const RESBLOCK_KERNELS: [i32; 3] = [3, 7, 11];

/// Dilation of the first convolution of each layer of a residual block.
pub const RESBLOCK_DILATIONS: [i32; 3] = [1, 3, 5];

/// The padding that keeps the length of a convolution.
pub open spec fn same_padding(kernel_size: int, dilation: int) -> int {
    (kernel_size * dilation - dilation) / 2
}

/// Channels before stage `stage` of a generator that starts with `initial`.
pub open spec fn channels_before(initial: int, stage: nat) -> int
    decreases stage,
{
    if stage == 0 {
        initial
    } else {
        channels_before(initial, (stage - 1) as nat) / 2
    }
}

/// The name of a convolution of residual block `index`.
pub open spec fn first_conv_prefix(index: nat, layer: nat) -> Seq<char> {
    numbered("resblocks."@, index, ".convs1."@) + decimal(layer)
}

/// The name of the convolution that follows it.
pub open spec fn second_conv_prefix(index: nat, layer: nat) -> Seq<char> {
    numbered("resblocks."@, index, ".convs2."@) + decimal(layer)
}

/// The fault of a checkpoint without the convolutions of a layer.
pub open spec fn layer_fault(entries: Entries, index: nat, layer: nat) -> Option<LoadFault> {
    first_fault(
        weight_fault(entries, weight_key(first_conv_prefix(index, layer))),
        weight_fault(entries, weight_key(second_conv_prefix(index, layer))),
    )
}

/// `first` and `second` are the convolutions of a layer of residual block `index`.
pub open spec fn layer_reads(
    first: Conv1d,
    second: Conv1d,
    entries: Entries,
    index: nat,
    layer: nat,
    channels: int,
    kernel_size: int,
) -> bool {
    let dilation = RESBLOCK_DILATIONS@[layer as int] as int;
    &&& first.reads(entries, first_conv_prefix(index, layer))
    &&& first.has(channels, channels, kernel_size, same_padding(kernel_size, dilation), dilation)
    &&& second.reads(entries, second_conv_prefix(index, layer))
    &&& second.has(channels, channels, kernel_size, (kernel_size - 1) / 2, 1)
}

/// Builds the convolutions of a layer of residual block `index`.
pub fn layer_convs(
    weights: &WeightTable,
    index: usize,
    layer: usize,
    channels: i32,
    kernel_size: i32,
) -> (r: Result<(Conv1d, Conv1d), LoadError>)
    requires
        weights.wf(),
        layer < LAYERS,
        1 <= kernel_size,
        kernel_size * 5 <= i32::MAX,
    ensures
        match r {
            Ok((first, second)) => layer_fault(
                weights@,
                index as nat,
                layer as nat,
            ) is None && layer_reads(
                first,
                second,
                weights@,
                index as nat,
                layer as nat,
                channels as int,
                kernel_size as int,
            ),
            Err(e) => layer_fault(weights@, index as nat, layer as nat) == Some(e@),
        },
{
    let dilation: i32 = RESBLOCK_DILATIONS[layer];
    let number = decimal_text(layer as u64);
    let mut prefix = numbered_text("resblocks.", index, ".convs1.");
    prefix.append(number.as_str());
    assert(1 <= dilation <= 5);
    proof {
        let (k, d) = (kernel_size as int, dilation as int);
        assert(d <= k * d <= k * 5) by (nonlinear_arith)
            requires
                1 <= k,
                1 <= d <= 5,
        ;
    }
    let first = conv1d_layer(
        weights,
        prefix.as_str(),
        channels,
        channels,
        kernel_size,
        (kernel_size * dilation - dilation) / 2,
        dilation,
    )?;
    let mut prefix = numbered_text("resblocks.", index, ".convs2.");
    prefix.append(number.as_str());
    let second = conv1d_layer(
        weights,
        prefix.as_str(),
        channels,
        channels,
        kernel_size,
        (kernel_size - 1) / 2,
        1,
    )?;
    Ok((first, second))
}

/// The mean of three.
pub open spec fn average(a: Outcome, b: Outcome, c: Outcome) -> Outcome {
    over(plus(plus(a, b), c), whole(3))
}

/// Adds [`average`] to a program.
pub(crate) fn add_average(p: &mut Program, a: usize, b: usize, c: usize) -> (r: Result<
    usize,
    PlanError,
>)
    requires
        old(p).wf(),
        a < old(p)@.len(),
        b < old(p)@.len(),
        c < old(p)@.len(),
    ensures
        final(p).yields(
            old(p)@,
            r,
            average(operand(old(p)@, a), operand(old(p)@, b), operand(old(p)@, c)),
        ),
{
    let sum = p.binary(BinaryOp::Add, a, b)?;
    let sum = p.binary(BinaryOp::Add, sum, c)?;
    let three = p.constant(Scalar::Ratio { num: 3, den: 1 });
    p.binary(BinaryOp::Divide, sum, three)
}

/// The waveform given to an inference.
pub open spec fn audio_input(shape: Seq<i32>) -> Tensor {
    leaf(Source::Input(0), shape)
}

/// The lengths of the signal: each stage lengthens what the stages before it lengthened, all
/// stages together give one sample for each sample of a hop, and the source joins the signal
/// where both have one step for each source sample.
pub proof fn lemma_rates()
    ensures
        forall|i: int|
            1 <= i < STAGES ==> #[trigger] TOTAL_UPSAMPLE_RATES@[i] == TOTAL_UPSAMPLE_RATES@[i - 1]
                * UPSAMPLE_RATES@[i],
        TOTAL_UPSAMPLE_RATES@[0] == UPSAMPLE_RATES@[0],
        TOTAL_UPSAMPLE_RATES@[STAGES - 1] == HOP_SIZE,
        TOTAL_UPSAMPLE_RATES@[1] == SOURCE_UPSAMPLE,
{
    assert forall|i: int| 1 <= i < STAGES implies #[trigger] TOTAL_UPSAMPLE_RATES@[i]
        == TOTAL_UPSAMPLE_RATES@[i - 1] * UPSAMPLE_RATES@[i] by {
        assert(i == 1 || i == 2 || i == 3 || i == 4);
    }
}

/// How much longer the signal is after the first `stages` stages.
pub open spec fn lengthening(stages: nat) -> int {
    if stages == 0 {
        1
    } else {
        TOTAL_UPSAMPLE_RATES@[stages - 1] as int
    }
}

/// The length of a signal of `frames` frames before and after the last of `stages` stages.
pub proof fn lemma_lengthening(frames: int, stages: nat)
    requires
        1 <= frames,
        1 <= stages <= STAGES,
    ensures
        ({
            let before = frames * lengthening((stages - 1) as nat);
            &&& 1 <= before
            &&& before * UPSAMPLE_RATES@[stages - 1] == frames * lengthening(stages)
            &&& frames * lengthening(stages) <= frames * HOP_SIZE
        }),
{
    lemma_rates();
    let a = lengthening((stages - 1) as nat);
    let r = UPSAMPLE_RATES@[stages - 1] as int;
    let t = lengthening(stages);
    assert(stages == 1 || stages == 2 || stages == 3 || stages == 4 || stages == 5);
    assert(a * r == t && 1 <= a && t <= HOP_SIZE);
    assert(frames * a * r == frames * t) by (nonlinear_arith)
        requires
            a * r == t,
    ;
    assert(frames * t <= frames * HOP_SIZE && 1 <= frames * a) by (nonlinear_arith)
        requires
            t <= HOP_SIZE,
            1 <= frames,
            1 <= a,
    ;
}

/// The channels of a generator: those of the first stage, halved by each stage.
pub proof fn lemma_channels(initial: int)
    ensures
        channels_before(initial, 0) == initial,
        channels_before(initial, 1) == initial / 2,
        channels_before(initial, 2) == initial / 4,
        channels_before(initial, 3) == initial / 8,
        channels_before(initial, 4) == initial / 16,
        channels_before(initial, 5) == initial / 32,
{
    reveal_with_fuel(channels_before, 6);
}

/// The convolutions of a residual block keep the length of a signal.
pub proof fn lemma_layer(
    first: Conv1d,
    second: Conv1d,
    entries: Entries,
    index: nat,
    layer: nat,
    channels: int,
    branch: int,
)
    requires
        layer < LAYERS,
        0 <= branch < BRANCHES,
        layer_reads(
            first,
            second,
            entries,
            index,
            layer,
            channels,
            RESBLOCK_KERNELS@[branch] as int,
        ),
    ensures
        first.keeps_length(),
        second.keeps_length(),
{
    let d = RESBLOCK_DILATIONS@[layer as int] as int;
    let k = RESBLOCK_KERNELS@[branch] as int;
    assert(d == 1 || d == 3 || d == 5);
    assert(k == 3 || k == 7 || k == 11);
    if d == 1 {
        assert(first.padding == same_padding(k, 1));
    } else if d == 3 {
        assert(first.padding == same_padding(k, 3));
    } else {
        assert(first.padding == same_padding(k, 5));
    }
}

/// The mean of three signals of one shape has that shape.
pub proof fn lemma_average(
    a: Outcome,
    b: Outcome,
    c: Outcome,
    batch: int,
    length: int,
    channels: int,
)
    requires
        is_signal(a, batch, length, channels),
        is_signal(b, batch, length, channels),
        is_signal(c, batch, length, channels),
    ensures
        is_signal(average(a, b, c), batch, length, channels),
{
    assert(a->Ok_0.shape =~= b->Ok_0.shape);
    assert(a->Ok_0.shape =~= c->Ok_0.shape);
    lemma_same_shape(BinaryOp::Add, a, b);
    lemma_same_shape(BinaryOp::Add, plus(a, b), c);
    lemma_with_constant(
        BinaryOp::Divide,
        plus(plus(a, b), c),
        Scalar::Ratio { num: 3, den: 1 },
    );
}

/// Three times the mean of three is their sum.
pub proof fn lemma_average_value(numbers: Numbers, a: Outcome, b: Outcome, c: Outcome, i: Seq<int>)
    requires
        a is Ok,
        b is Ok,
        c is Ok,
        a->Ok_0.shape == b->Ok_0.shape,
        a->Ok_0.shape == c->Ok_0.shape,
        within(a->Ok_0.shape, i),
    ensures
        average(a, b, c) is Ok,
        numbers.of(average(a, b, c), i) * (3 as real) == numbers.of(a, i) + numbers.of(b, i)
            + numbers.of(c, i),
{
    let three = Scalar::Ratio { num: 3, den: 1 };
    lemma_same_shape(BinaryOp::Add, a, b);
    numbers.lemma_binary(BinaryOp::Add, a, b, i);
    lemma_same_shape(BinaryOp::Add, plus(a, b), c);
    numbers.lemma_binary(BinaryOp::Add, plus(a, b), c, i);
    let all = plus(plus(a, b), c);
    lemma_with_constant(BinaryOp::Divide, all, three);
    numbers.lemma_constant(BinaryOp::Divide, all, three, i);
    numbers.lemma_whole(3);
}

} // verus!
