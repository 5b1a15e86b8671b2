//! What holds of every pitch-controllable vocoder: which inferences succeed, and the shapes
//! of their results.
use vstd::prelude::*;

use crate::config::{
    channels_before, first_conv_prefix, layer_fault, lemma_average, lemma_channels, lemma_layer,
    lemma_lengthening, lemma_rates, lengthening, second_conv_prefix, BRANCHES, LAYERS,
    RESBLOCK_KERNELS, STAGES, UPSAMPLE_RATES,
};
use crate::f0::{aligned, lemma_aligned};
use crate::layers::weight_key;
use crate::mel::{mel_fault, HOP, PAD};
use crate::pc_nsf::{
    block_reads, branches_fault, leaky, load_fault, outer_slope, resblock_fault, stages_fault,
    up_prefix, up_reads, InferFault, PcNsfFeatures, PcNsfHifigan, ResBlock1, INITIAL_CHANNELS,
};
use crate::program::operand;
use crate::shape::{valid, volume};
use crate::signal::{is_signal, lemma_same_shape};
use crate::source::{harmonic_source, lemma_source, SOURCE_UPSAMPLE};
use crate::tensor::{unary, BinaryOp, Outcome, Tensor, UnaryOp};
use crate::weights::{stored, Entries, LoadFault};
use crate::{HOP_SIZE, MEL_BINS};

verus! {

impl ResBlock1 {
    /// Every weight has the shape that its layer asks for.
    pub open spec fn conforms(self) -> bool {
        &&& forall|l: int| 0 <= l < LAYERS ==> (#[trigger] self.convs1@[l]).conforms()
        &&& forall|l: int| 0 <= l < LAYERS ==> (#[trigger] self.convs2@[l]).conforms()
    }

    /// The first `layers` layers of a residual block keep the shape of a signal.
    pub proof fn lemma_residual(
        self,
        entries: Entries,
        index: nat,
        channels: int,
        branch: int,
        x: Outcome,
        batch: int,
        length: int,
        layers: nat,
    )
        requires
            layers <= LAYERS,
            0 <= branch < BRANCHES,
            self.reads(entries, index, channels, RESBLOCK_KERNELS@[branch] as int),
            self.conforms(),
            1 <= length,
            is_signal(x, batch, length, channels),
        ensures
            is_signal(self.residual(x, layers), batch, length, channels),
        decreases layers,
    {
        if layers > 0 {
            let l = layers - 1;
            self.lemma_residual(
                entries,
                index,
                channels,
                branch,
                x,
                batch,
                length,
                (layers - 1) as nat,
            );
            let y = self.residual(x, (layers - 1) as nat);
            let (first, second) = (self.convs1@[l], self.convs2@[l]);
            lemma_layer(first, second, entries, index, l as nat, channels, branch);
            first.lemma_signal(leaky(y), batch, length);
            let hidden = first.apply(leaky(y));
            second.lemma_signal(leaky(hidden), batch, length);
            let z = second.apply(leaky(hidden));
            assert(y->Ok_0.shape =~= z->Ok_0.shape);
            lemma_same_shape(BinaryOp::Add, y, z);
        }
    }
}

impl PcNsfHifigan {
    /// Every weight has the shape that its layer asks for.
    pub open spec fn conforms(self) -> bool {
        &&& self.mel.conforms()
        &&& self.conv_pre.conforms()
        &&& self.source_conv.conforms()
        &&& self.conv_post.conforms()
        &&& forall|i: int| 0 <= i < STAGES ==> (#[trigger] self.upsamplers@[i]).conforms()
        &&& forall|i: int| 0 <= i < STAGES * BRANCHES ==> (#[trigger] self.resblocks@[i]).conforms()
    }

    /// A residual block keeps the shape of a signal.
    pub proof fn lemma_branch(
        self,
        entries: Entries,
        up: Outcome,
        stage: int,
        k: int,
        batch: int,
        length: int,
    )
        requires
            self.reads(entries),
            self.conforms(),
            0 <= stage < STAGES,
            0 <= k < BRANCHES,
            1 <= length,
            is_signal(
                up,
                batch,
                length,
                channels_before(INITIAL_CHANNELS as int, (stage + 1) as nat),
            ),
        ensures
            is_signal(
                self.branch(up, stage, k),
                batch,
                length,
                channels_before(INITIAL_CHANNELS as int, (stage + 1) as nat),
            ),
    {
        let index = stage * BRANCHES + k;
        let block = self.resblocks@[index];
        assert(block_reads(block, entries, index));
        assert(index / BRANCHES as int == stage && index % BRANCHES as int == k);
        block.lemma_residual(
            entries,
            index as nat,
            channels_before(INITIAL_CHANNELS as int, (stage + 1) as nat),
            k,
            up,
            batch,
            length,
            LAYERS as nat,
        );
    }

    /// A stage lengthens a signal by its rate, and halves its channels.
    #[verifier::rlimit(30)]
    pub proof fn lemma_stage(
        self,
        entries: Entries,
        hidden: Outcome,
        source: Outcome,
        stage: int,
        batch: int,
        length: int,
    )
        requires
            self.reads(entries),
            self.conforms(),
            0 <= stage < STAGES,
            1 <= length,
            length * UPSAMPLE_RATES@[stage] <= i32::MAX,
            is_signal(
                hidden,
                batch,
                length,
                channels_before(INITIAL_CHANNELS as int, stage as nat),
            ),
            stage == 1 ==> is_signal(source, batch, length * UPSAMPLE_RATES@[stage], 1),
        ensures
            is_signal(
                self.upsampled(hidden, source, stage),
                batch,
                length * UPSAMPLE_RATES@[stage],
                channels_before(INITIAL_CHANNELS as int, (stage + 1) as nat),
            ),
            is_signal(
                self.blended(self.upsampled(hidden, source, stage), stage),
                batch,
                length * UPSAMPLE_RATES@[stage],
                channels_before(INITIAL_CHANNELS as int, (stage + 1) as nat),
            ),
    {
        lemma_channels(INITIAL_CHANNELS as int);
        let up_layer = self.upsamplers@[stage];
        assert(up_reads(up_layer, entries, stage));
        assert(stage == 0 || stage == 1 || stage == 2 || stage == 3 || stage == 4);
        assert(up_layer.multiplies_length());
        let longer = length * UPSAMPLE_RATES@[stage];
        assert(longer >= 1) by (nonlinear_arith)
            requires
                longer == length * UPSAMPLE_RATES@[stage],
                length >= 1,
                UPSAMPLE_RATES@[stage] >= 1,
        ;
        up_layer.lemma_signal(leaky(hidden), batch, length);
        let plain = up_layer.apply(leaky(hidden));
        let up = self.upsampled(hidden, source, stage);
        if stage == 1 {
            self.source_conv.lemma_signal(source, batch, longer);
            let driven = self.source_conv.apply(source);
            assert(plain->Ok_0.shape =~= driven->Ok_0.shape);
            lemma_same_shape(BinaryOp::Add, plain, driven);
        }
        self.lemma_branch(entries, up, stage, 0, batch, longer);
        self.lemma_branch(entries, up, stage, 1, batch, longer);
        self.lemma_branch(entries, up, stage, 2, batch, longer);
        lemma_average(
            self.branch(up, stage, 0),
            self.branch(up, stage, 1),
            self.branch(up, stage, 2),
            batch,
            longer,
            channels_before(INITIAL_CHANNELS as int, (stage + 1) as nat),
        );
    }

    /// The signal after the first `stages` stages, and those after the residual blocks of the
    /// last of these, are longer by the rates of these stages, and each stage halves the
    /// channels.
    pub proof fn lemma_hidden(
        self,
        entries: Entries,
        pre: Outcome,
        source: Outcome,
        batch: int,
        frames: int,
        stages: nat,
    )
        requires
            self.reads(entries),
            self.conforms(),
            stages <= STAGES,
            1 <= frames,
            frames * HOP_SIZE <= i32::MAX,
            is_signal(pre, batch, frames, INITIAL_CHANNELS as int),
            is_signal(source, batch, frames * SOURCE_UPSAMPLE, 1),
        ensures
            is_signal(
                self.hidden(pre, source, stages),
                batch,
                frames * lengthening(stages),
                channels_before(INITIAL_CHANNELS as int, stages),
            ),
            stages > 0 ==> forall|k: int|
                0 <= k < BRANCHES ==> is_signal(
                    #[trigger] self.branch(
                        self.upsampled(
                            self.hidden(pre, source, (stages - 1) as nat),
                            source,
                            stages - 1,
                        ),
                        stages - 1,
                        k,
                    ),
                    batch,
                    frames * lengthening(stages),
                    channels_before(INITIAL_CHANNELS as int, stages),
                ),
        decreases stages,
    {
        if stages > 0 {
            let stage = stages - 1;
            self.lemma_hidden(entries, pre, source, batch, frames, (stages - 1) as nat);
            let before = lengthening((stages - 1) as nat);
            lemma_lengthening(frames, stages);
            self.lemma_stage(
                entries,
                self.hidden(pre, source, (stages - 1) as nat),
                source,
                stage,
                batch,
                frames * before,
            );
            let up = self.upsampled(
                self.hidden(pre, source, (stages - 1) as nat),
                source,
                stage,
            );
            let length = frames * lengthening(stages);
            lemma_rates();
            assert(1 <= length) by (nonlinear_arith)
                requires
                    length == frames * lengthening(stages),
                    1 <= frames,
                    1 <= lengthening(stages),
            ;
            assert forall|k: int| 0 <= k < BRANCHES implies is_signal(
                #[trigger] self.branch(up, stage, k),
                batch,
                length,
                channels_before(INITIAL_CHANNELS as int, stages),
            ) by {
                self.lemma_branch(entries, up, stage, k, batch, length);
            }
        }
    }

    /// An inference succeeds on every waveform that is long enough, with a pitch for each
    /// mel frame, when the weights have the shapes that the model asks for. The result has
    /// one channel and [`HOP_SIZE`] samples for each mel frame.
    pub proof fn lemma_infer(self, entries: Entries, audio: Tensor, f0: Tensor)
        requires
            self.reads(entries),
            self.conforms(),
            valid(audio.shape),
            audio.shape.len() == 2,
            PAD < audio.shape[1],
            audio.shape[1] + 2 * PAD <= i32::MAX,
            f0.shape == seq![audio.shape[0], (audio.shape[1] as int / HOP as int) as i32],
        ensures
            self.infer_fault(audio, f0) is None,
            is_signal(
                self.inferred(audio, f0),
                audio.shape[0] as int,
                audio.shape[1] as int / HOP as int * HOP_SIZE,
                1,
            ),
    {
        lemma_channels(INITIAL_CHANNELS as int);
        let batch = audio.shape[0] as int;
        let frames = audio.shape[1] as int / HOP as int;
        self.mel.lemma_frames(audio);
        let mel = self.mel.apply(audio)->Ok_0;
        assert(f0.shape =~= seq![mel.shape[0], mel.shape[1]]);
        lemma_source(f0, frames as i32);
        let source = self.source(f0, mel);
        self.conv_pre.lemma_signal(Ok(mel), batch, frames);
        let pre = self.conv_pre.apply(Ok(mel));
        self.lemma_hidden(entries, pre, source, batch, frames, STAGES as nat);
        let hidden = self.hidden(pre, source, STAGES as nat);
        self.conv_post.lemma_signal(
            unary(UnaryOp::LeakyRelu(outer_slope()), hidden),
            batch,
            frames * HOP_SIZE,
        );
    }

    /// A waveform in one row can be given together with a pitch contour that is aligned with
    /// its whole hops.
    pub proof fn lemma_aligned_contour(
        self,
        entries: Entries,
        audio: Tensor,
        contour: Tensor,
        available: int,
        f0: Tensor,
    )
        requires
            self.reads(entries),
            self.conforms(),
            valid(audio.shape),
            audio.shape.len() == 2,
            audio.shape[0] == 1,
            PAD < audio.shape[1],
            audio.shape[1] + 2 * PAD <= i32::MAX,
            contour.shape.len() >= 2,
            contour.shape[1] > 0,
            volume(contour.shape) == contour.shape[1],
            available > 0,
            f0.shape == aligned(contour, available, audio.shape[1] as int / HOP as int)->Ok_0.shape,
        ensures
            aligned(contour, available, audio.shape[1] as int / HOP as int) is Ok,
            self.infer_fault(audio, f0) is None,
    {
        lemma_aligned(contour, available, audio.shape[1] as int / HOP as int);
        self.lemma_infer(entries, audio, f0);
    }

    /// A contour with other than one value for each mel frame is refused, with the shapes.
    pub proof fn lemma_mismatch(self, audio: Tensor, f0: Tensor)
        requires
            self.conforms(),
            valid(audio.shape),
            audio.shape.len() == 2,
            PAD < audio.shape[1],
            audio.shape[1] + 2 * PAD <= i32::MAX,
            f0.shape != seq![audio.shape[0], (audio.shape[1] as int / HOP as int) as i32],
        ensures
            self.infer_fault(audio, f0) == Some(
                (InferFault::F0Mismatch {
                    f0_shape: f0.shape,
                    mel_shape: seq![
                        audio.shape[0],
                        (audio.shape[1] as int / HOP as int) as i32,
                        MEL_BINS as i32,
                    ],
                }),
            ),
    {
        self.mel.lemma_frames(audio);
        let mel = self.mel.apply(audio)->Ok_0;
        assert(mel.shape =~= seq![
            audio.shape[0],
            (audio.shape[1] as int / HOP as int) as i32,
            MEL_BINS as i32,
        ]);
    }
}

/// A signal as long, and with as many channels, as the first `stages` stages make it.
pub open spec fn is_stage_signal(o: Outcome, batch: int, frames: int, stages: nat) -> bool {
    is_signal(
        o,
        batch,
        frames * lengthening(stages),
        channels_before(INITIAL_CHANNELS as int, stages),
    )
}

impl PcNsfFeatures {
    /// The shapes of the intermediate results: the stages lengthen the signal to
    /// [`HOP_SIZE`] samples for each mel frame, and each halves its channels.
    pub proof fn lemma_shapes(
        self,
        entries: Entries,
        model: PcNsfHifigan,
        audio: Tensor,
        f0: Tensor,
    )
        requires
            self.holds(model, audio, f0, true),
            model.reads(entries),
            model.conforms(),
            valid(audio.shape),
            audio.shape.len() == 2,
            PAD < audio.shape[1],
            audio.shape[1] + 2 * PAD <= i32::MAX,
            f0.shape == seq![audio.shape[0], (audio.shape[1] as int / HOP as int) as i32],
        ensures
            ({
                let ts = self.program@;
                let batch = audio.shape[0] as int;
                let frames = audio.shape[1] as int / HOP as int;
                &&& is_signal(operand(ts, self.mel), batch, frames, MEL_BINS as int)
                &&& is_signal(operand(ts, self.source), batch, frames * SOURCE_UPSAMPLE, 1)
                &&& is_stage_signal(operand(ts, self.conv_pre), batch, frames, 0)
                &&& forall|i: int|
                    0 <= i < STAGES ==> is_stage_signal(
                        operand(ts, #[trigger] self.stages@[i]),
                        batch,
                        frames,
                        (i + 1) as nat,
                    )
                &&& forall|i: int|
                    0 <= i < STAGES * BRANCHES ==> is_stage_signal(
                        operand(ts, #[trigger] self.resblocks@[i]),
                        batch,
                        frames,
                        (i / BRANCHES as int + 1) as nat,
                    )
                &&& is_signal(operand(ts, self.output), batch, frames * HOP_SIZE, 1)
            }),
    {
        model.lemma_infer(entries, audio, f0);
        let batch = audio.shape[0] as int;
        let frames = audio.shape[1] as int / HOP as int;
        model.mel.lemma_frames(audio);
        let mel = model.mel.apply(audio);
        lemma_source(f0, frames as i32);
        let source = model.source(f0, mel->Ok_0);
        model.conv_pre.lemma_signal(mel, batch, frames);
        let pre = model.conv_pre.apply(mel);
        assert forall|i: int| 0 <= i < STAGES implies is_stage_signal(
            operand(self.program@, #[trigger] self.stages@[i]),
            batch,
            frames,
            (i + 1) as nat,
        ) by {
            model.lemma_hidden(entries, pre, source, batch, frames, (i + 1) as nat);
        }
        assert forall|i: int| 0 <= i < STAGES * BRANCHES implies is_stage_signal(
            operand(self.program@, #[trigger] self.resblocks@[i]),
            batch,
            frames,
            (i / BRANCHES as int + 1) as nat,
        ) by {
            let stage = i / BRANCHES as int;
            model.lemma_hidden(entries, pre, source, batch, frames, (stage + 1) as nat);
        }
    }

    /// The pitch enters at the second stage: inferences on the same waveform agree before it,
    /// whatever the pitch.
    pub proof fn lemma_before_pitch(
        self,
        other: PcNsfFeatures,
        model: PcNsfHifigan,
        audio: Tensor,
        f0: Tensor,
        other_f0: Tensor,
    )
        requires
            self.holds(model, audio, f0, true),
            other.holds(model, audio, other_f0, true),
        ensures
            operand(self.program@, self.mel) == operand(other.program@, other.mel),
            operand(self.program@, self.conv_pre) == operand(other.program@, other.conv_pre),
            operand(self.program@, self.stages@[0]) == operand(other.program@, other.stages@[0]),
            forall|k: int|
                0 <= k < BRANCHES ==> operand(self.program@, #[trigger] self.resblocks@[k])
                    == operand(other.program@, other.resblocks@[k]),
    {
        let mel = model.mel.apply(audio);
        let pre = model.conv_pre.apply(mel);
        let (a, b) = (model.source(f0, mel->Ok_0), model.source(other_f0, mel->Ok_0));
        reveal_with_fuel(PcNsfHifigan::hidden, 2);
        assert(model.upsampled(pre, a, 0) == model.upsampled(pre, b, 0));
        assert(model.hidden(pre, a, 0) == pre && model.hidden(pre, b, 0) == pre);
        assert(model.hidden(pre, a, 1) == model.hidden(pre, b, 1));
        assert forall|k: int| 0 <= k < BRANCHES implies operand(
            self.program@,
            #[trigger] self.resblocks@[k],
        ) == operand(other.program@, other.resblocks@[k]) by {
            assert(k / BRANCHES as int == 0 && k % BRANCHES as int == k);
            assert(operand(other.program@, other.resblocks@[k]) == model.branch(
                model.upsampled(pre, b, 0),
                0,
                k,
            ));
        }
    }

    /// The source depends on the pitch alone: inferences with the same pitch have the same
    /// source, whatever the waveform and the weights.
    pub proof fn lemma_source_of_pitch(
        self,
        other: PcNsfFeatures,
        model: PcNsfHifigan,
        other_model: PcNsfHifigan,
        audio: Tensor,
        other_audio: Tensor,
        f0: Tensor,
    )
        requires
            self.holds(model, audio, f0, true),
            other.holds(other_model, other_audio, f0, true),
            model.infer_fault(audio, f0) is None,
            other_model.infer_fault(other_audio, f0) is None,
        ensures
            operand(self.program@, self.source) == harmonic_source(f0, f0.shape[1]),
            operand(self.program@, self.source) == operand(other.program@, other.source),
    {
        let mel = model.mel.apply(audio)->Ok_0;
        let other_mel = other_model.mel.apply(other_audio)->Ok_0;
        assert(f0.shape == seq![mel.shape[0], mel.shape[1]]);
        assert(f0.shape == seq![other_mel.shape[0], other_mel.shape[1]]);
        assert(f0.shape[1] == mel.shape[1] && f0.shape[1] == other_mel.shape[1]);
    }

    /// Keeping the intermediate results changes neither the result nor what leads to it.
    pub proof fn lemma_same_result(
        self,
        other: PcNsfFeatures,
        model: PcNsfHifigan,
        audio: Tensor,
        f0: Tensor,
    )
        requires
            self.holds(model, audio, f0, true),
            other.holds(model, audio, f0, false),
        ensures
            operand(self.program@, self.output) == operand(other.program@, other.output),
            operand(self.program@, self.source) == operand(other.program@, other.source),
            operand(self.program@, self.conv_pre) == operand(other.program@, other.conv_pre),
            self.resblocks@.len() == STAGES * BRANCHES,
            self.stages@.len() == STAGES,
            other.resblocks@.len() == 0,
            other.stages@.len() == 0,
    {
    }
}

/// The model has a weight of this name, besides those of its mel spectrogram.
pub open spec fn is_weight(key: Seq<char>) -> bool {
    ||| key == weight_key("conv_pre"@)
    ||| key == weight_key("source_conv"@)
    ||| key == weight_key("conv_post"@)
    ||| exists|stage: nat| stage < STAGES && key == weight_key(#[trigger] up_prefix(stage))
    ||| exists|index: nat, layer: nat|
        index < STAGES * BRANCHES && layer < LAYERS && key == weight_key(
            #[trigger] first_conv_prefix(index, layer),
        )
    ||| exists|index: nat, layer: nat|
        index < STAGES * BRANCHES && layer < LAYERS && key == weight_key(
            #[trigger] second_conv_prefix(index, layer),
        )
}

/// A checkpoint has all weights of the model, besides those of its mel spectrogram.
pub open spec fn has_weights(entries: Entries) -> bool {
    forall|key: Seq<char>| #[trigger] is_weight(key) ==> stored(entries, key) is Some
}

/// The first `layers` layers of a residual block have their weights, or the fault names one
/// that is missing.
proof fn lemma_resblock_weights(entries: Entries, index: nat, layers: nat)
    requires
        index < STAGES * BRANCHES,
        layers <= LAYERS,
    ensures
        match resblock_fault(entries, index, layers) {
            Some(LoadFault::MissingWeight(key)) => is_weight(key) && stored(entries, key) is None,
            Some(_) => false,
            None => forall|layer: nat|
                layer < layers ==> #[trigger] layer_fault(entries, index, layer) is None,
        },
    decreases layers,
{
    if layers > 0 {
        let last = (layers - 1) as nat;
        lemma_resblock_weights(entries, index, last);
        assert(is_weight(weight_key(first_conv_prefix(index, last))));
        assert(is_weight(weight_key(second_conv_prefix(index, last))));
    }
}

/// The first `branches` residual blocks of a stage have their weights, or the fault names one
/// that is missing.
proof fn lemma_branch_weights(entries: Entries, stage: nat, branches: nat)
    requires
        stage < STAGES,
        branches <= BRANCHES,
    ensures
        match branches_fault(entries, stage, branches) {
            Some(LoadFault::MissingWeight(key)) => is_weight(key) && stored(entries, key) is None,
            Some(_) => false,
            None => forall|index: nat, layer: nat|
                stage * BRANCHES <= index < stage * BRANCHES + branches && layer < LAYERS
                    ==> #[trigger] layer_fault(entries, index, layer) is None,
        },
    decreases branches,
{
    if branches > 0 {
        lemma_branch_weights(entries, stage, (branches - 1) as nat);
        lemma_resblock_weights(
            entries,
            (stage * BRANCHES + branches - 1) as nat,
            LAYERS as nat,
        );
    }
}

/// The first `stages` stages have their weights, or the fault names one that is missing.
proof fn lemma_stage_weights(entries: Entries, stages: nat)
    requires
        stages <= STAGES,
    ensures
        match stages_fault(entries, stages) {
            Some(LoadFault::MissingWeight(key)) => is_weight(key) && stored(entries, key) is None,
            Some(_) => false,
            None => {
                &&& forall|stage: nat|
                    stage < stages ==> stored(
                        entries,
                        weight_key(#[trigger] up_prefix(stage)),
                    ) is Some
                &&& forall|index: nat, layer: nat|
                    index < stages * BRANCHES && layer < LAYERS ==> #[trigger] layer_fault(
                        entries,
                        index,
                        layer,
                    ) is None
            },
        },
    decreases stages,
{
    if stages > 0 {
        let last = (stages - 1) as nat;
        lemma_stage_weights(entries, last);
        lemma_branch_weights(entries, last, BRANCHES as nat);
        assert(is_weight(weight_key(up_prefix(last))));
    }
}

/// A checkpoint can be loaded exactly when it has the arrays of the mel spectrogram and all
/// weights of the model. Where it cannot, the error names one that is missing.
pub proof fn lemma_load(entries: Entries)
    ensures
        load_fault(entries) is None <==> mel_fault(entries) is None && has_weights(entries),
        load_fault(entries) matches Some(fault) ==> match fault {
            LoadFault::MissingPreprocess(key) => mel_fault(entries) == Some(fault) && stored(
                entries,
                key,
            ) is None,
            LoadFault::MissingWeight(key) => is_weight(key) && stored(entries, key) is None,
            _ => false,
        },
{
    lemma_stage_weights(entries, STAGES as nat);
    assert(is_weight(weight_key("conv_pre"@)));
    assert(is_weight(weight_key("source_conv"@)));
    assert(is_weight(weight_key("conv_post"@)));
    if load_fault(entries) is None {
        assert forall|key: Seq<char>| #[trigger] is_weight(key) implies stored(
            entries,
            key,
        ) is Some by {
            if exists|index: nat, layer: nat|
                index < STAGES * BRANCHES && layer < LAYERS && key == weight_key(
                    #[trigger] first_conv_prefix(index, layer),
                ) {
                let (index, layer) = choose|index: nat, layer: nat|
                    index < STAGES * BRANCHES && layer < LAYERS && key == weight_key(
                        #[trigger] first_conv_prefix(index, layer),
                    );
                assert(layer_fault(entries, index, layer) is None);
            } else if exists|index: nat, layer: nat|
                index < STAGES * BRANCHES && layer < LAYERS && key == weight_key(
                    #[trigger] second_conv_prefix(index, layer),
                ) {
                let (index, layer) = choose|index: nat, layer: nat|
                    index < STAGES * BRANCHES && layer < LAYERS && key == weight_key(
                        #[trigger] second_conv_prefix(index, layer),
                    );
                assert(layer_fault(entries, index, layer) is None);
            }
        }
    }
}

} // verus!
