//! A resampling stage: the signal is resampled, and what lies above its band comes from a
//! source convolved at the higher rate.
//!
//! The source has one frame for every `total_scale_factor` output steps and is zero between
//! them, so a convolution of seven taps over it has at most seven phases of a frame that are
//! not bias alone: four that reach back to the frame's own start, and three that reach
//! forward to the next frame. Two matrices hold the taps of those phases.
use vstd::prelude::*;
use vstd::string::*;

use crate::layers::{bias_key, conv1d_layer, weight_key, Conv1d};
use crate::metal::{resample, MetalResampleKernel};
use crate::program::{extends, operand, operands, Program};
use crate::shape::copy_shape;
use crate::tensor::{
    after, concat2, concat3, concat4, evaluated, matmul, plus, reshape, reverse_axes, slice, zeros,
    BinaryOp, Outcome, PlanError, Source, Tensor,
};
use crate::text::{numbered, numbered_text};
use crate::weights::{
    first_fault, stored, weight_fault, ArrayRef, Entries, LoadError, LoadFault, WeightTable,
};

verus! {

/// Channels of the source.
pub const SOURCE_CHANNELS: i32 = 1_536;

/// Phases of a frame that reach back to its start.
pub const HEAD_TAPS: i32 = 4;

/// Phases of a frame that reach forward to the next.
pub const TAIL_TAPS: i32 = 3;

/// Taps of the source convolution.
pub const TAPS: i32 = 7;

/// The tap at position `i`, with its axis.
pub open spec fn tap(w: Tensor, i: int) -> Outcome {
    slice(Ok(w), 1, i, i + 1)
}

/// The matrix of the phases at the head of a frame.
#[verifier::opaque]
pub open spec fn head_matrix(w: Tensor, channels: i32) -> Outcome {
    reshape(
        reverse_axes(concat4(tap(w, 3), tap(w, 2), tap(w, 1), tap(w, 0), 1)),
        seq![SOURCE_CHANNELS, (HEAD_TAPS * channels) as i32],
    )
}

/// The matrix of the phases at the tail of a frame.
#[verifier::opaque]
pub open spec fn tail_matrix(w: Tensor, channels: i32) -> Outcome {
    reshape(
        reverse_axes(concat3(tap(w, 6), tap(w, 5), tap(w, 4), 1)),
        seq![SOURCE_CHANNELS, (TAIL_TAPS * channels) as i32],
    )
}

/// Adds a tap to a program.
fn add_tap(p: &mut Program, w: usize, i: i32) -> (r: Result<usize, PlanError>)
    requires
        old(p).wf(),
        w < old(p)@.len(),
        0 <= i < TAPS,
    ensures
        final(p).yields(old(p)@, r, tap(old(p)@[w as int], i as int)),
{
    p.slice(w, 1, i, i + 1)
}

/// Adds [`head_matrix`] to a program.
fn add_head_matrix(p: &mut Program, w: usize, channels: i32) -> (r: Result<usize, PlanError>)
    requires
        old(p).wf(),
        w < old(p)@.len(),
        0 <= channels <= SOURCE_CHANNELS,
    ensures
        final(p).yields(old(p)@, r, head_matrix(old(p)@[w as int], channels)),
{
    proof {
        reveal(head_matrix);
    }
    let a = add_tap(p, w, 3)?;
    let b = add_tap(p, w, 2)?;
    let c = add_tap(p, w, 1)?;
    let d = add_tap(p, w, 0)?;
    let parts: Vec<usize> = vec![a, b, c, d];
    assert(operands(p@, parts@) =~= seq![
        p@[a as int],
        p@[b as int],
        p@[c as int],
        p@[d as int],
    ]);
    let taps = p.concat(parts, 1)?;
    let turned = p.reverse_axes(taps)?;
    let dims: Vec<i32> = vec![SOURCE_CHANNELS, HEAD_TAPS * channels];
    assert(dims@ =~= seq![SOURCE_CHANNELS, (HEAD_TAPS * channels) as i32]);
    p.reshape(turned, dims)
}

/// Adds [`tail_matrix`] to a program.
fn add_tail_matrix(p: &mut Program, w: usize, channels: i32) -> (r: Result<usize, PlanError>)
    requires
        old(p).wf(),
        w < old(p)@.len(),
        0 <= channels <= SOURCE_CHANNELS,
    ensures
        final(p).yields(old(p)@, r, tail_matrix(old(p)@[w as int], channels)),
{
    proof {
        reveal(tail_matrix);
    }
    let a = add_tap(p, w, 6)?;
    let b = add_tap(p, w, 5)?;
    let c = add_tap(p, w, 4)?;
    let parts: Vec<usize> = vec![a, b, c];
    assert(operands(p@, parts@) =~= seq![p@[a as int], p@[b as int], p@[c as int]]);
    let taps = p.concat(parts, 1)?;
    let turned = p.reverse_axes(taps)?;
    let dims: Vec<i32> = vec![SOURCE_CHANNELS, TAIL_TAPS * channels];
    assert(dims@ =~= seq![SOURCE_CHANNELS, (TAIL_TAPS * channels) as i32]);
    p.reshape(turned, dims)
}

/// The name of a part of the upsampler of stage `index`.
pub open spec fn part(index: nat, name: Seq<char>) -> Seq<char> {
    numbered("ups."@, index, name)
}

/// The fault of a checkpoint whose source convolution cannot be prepared.
pub open spec fn matrices_fault(w: Option<Tensor>, channels: i32) -> Option<LoadFault> {
    match w {
        Some(t) => match after(head_matrix(t, channels), tail_matrix(t, channels)) {
            Ok(_) => None,
            Err(e) => Some(LoadFault::Plan(e)),
        },
        None => None,
    }
}

/// The fault of a checkpoint without the array `key` that is a bias.
pub open spec fn bias_fault(entries: Entries, key: Seq<char>) -> Option<LoadFault> {
    if stored(entries, key) is Some {
        None
    } else {
        Some(LoadFault::MissingBias)
    }
}

/// The fault of a checkpoint from which the upsampler of stage `index` cannot be built.
pub open spec fn upsampler_fault(entries: Entries, index: nat, channels: i32) -> Option<LoadFault> {
    let noise = part(index, ".convolution_noise"@);
    first_fault(
        weight_fault(entries, weight_key(noise)),
        first_fault(
            matrices_fault(stored(entries, weight_key(noise)), channels),
            first_fault(
                bias_fault(entries, bias_key(noise)),
                first_fault(
                    weight_fault(entries, part(index, ".julius_filter"@)),
                    weight_fault(entries, weight_key(part(index, ".convolution_after"@))),
                ),
            ),
        ),
    )
}

/// `a` is the result of a preparation that gave `prepared`, and holds `o`.
pub open spec fn is_prepared(a: ArrayRef, prepared: Seq<Tensor>, o: Outcome) -> bool {
    match a.source {
        Source::Prepared(k) => a.wf() && k < prepared.len() && a.shape@ == prepared[k as int].shape
            && operand(prepared, k) == o,
        _ => false,
    }
}

/// A resampling stage.
#[derive(Debug, PartialEq, Eq)]
pub struct ResampleUpsampler {
    pub scale_factor: i32,
    pub total_scale_factor: i32,
    pub channels: i32,
    pub source_head_weight: ArrayRef,
    pub source_tail_weight: ArrayRef,
    pub source_bias: ArrayRef,
    pub julius_filter: ArrayRef,
    pub kernel: MetalResampleKernel,
    pub convolution_after: Conv1d,
}

/// The source convolved at the higher rate, without its bias: the phases of each frame one
/// after the other.
#[verifier::opaque]
pub open spec fn spread_source(
    source: Tensor,
    head_weight: Tensor,
    tail_weight: Tensor,
    total: int,
    channels: i32,
) -> Outcome {
    let batch = source.shape[0];
    let frames = source.shape[1];
    let head = reshape(
        matmul(Ok(source), Ok(head_weight)),
        seq![batch, frames, HEAD_TAPS, channels],
    );
    let shifted = concat2(
        slice(Ok(source), 1, 1, frames as int),
        zeros(seq![batch, 1, SOURCE_CHANNELS]),
        1,
    );
    let tail = reshape(
        matmul(shifted, Ok(tail_weight)),
        seq![batch, frames, TAIL_TAPS, channels],
    );
    let empty = zeros(seq![batch, frames, (total - TAPS) as i32, channels]);
    if frames * total > i32::MAX {
        Err(PlanError::Refused)
    } else {
        after(
            head,
            after(
                tail,
                reshape(
                    concat3(head, empty, tail, 2),
                    seq![batch, (frames * total) as i32, channels],
                ),
            ),
        )
    }
}

impl ResampleUpsampler {
    pub open spec fn wf(self) -> bool {
        &&& self.source_head_weight.wf()
        &&& self.source_tail_weight.wf()
        &&& self.source_bias.wf()
        &&& self.julius_filter.wf()
        &&& self.convolution_after.wf()
        &&& TAPS <= self.total_scale_factor <= 512
        &&& 0 <= self.channels
    }

    /// The upsampler of stage `index` has what `entries` stores, prepared by a program that
    /// gave `prepared`, and the device kernel of the resamplers.
    pub open spec fn reads(self, entries: Entries, prepared: Seq<Tensor>, index: nat) -> bool {
        let noise = part(index, ".convolution_noise"@);
        let w = stored(entries, weight_key(noise));
        &&& self.wf()
        &&& self.kernel.wf()
        &&& w is Some
        &&& is_prepared(
            self.source_head_weight,
            prepared,
            evaluated(head_matrix(w->0, self.channels)),
        )
        &&& is_prepared(
            self.source_tail_weight,
            prepared,
            evaluated(tail_matrix(w->0, self.channels)),
        )
        &&& stored(entries, bias_key(noise)) == Some(self.source_bias.tensor())
        &&& stored(entries, part(index, ".julius_filter"@)) == Some(self.julius_filter.tensor())
        &&& self.convolution_after.reads(entries, part(index, ".convolution_after"@))
    }

    /// The upsampler is built with these numbers.
    pub open spec fn has(
        self,
        scale_factor: int,
        total_scale_factor: int,
        input_channels: int,
        output_channels: int,
    ) -> bool {
        &&& self.scale_factor == scale_factor
        &&& self.total_scale_factor == total_scale_factor
        &&& self.channels == input_channels
        &&& self.convolution_after.has(input_channels, output_channels, 1, 0, 1)
    }

    /// The source convolved at the higher rate.
    pub open spec fn source_filtered(self, source: Tensor) -> Outcome {
        plus(
            spread_source(
                source,
                self.source_head_weight.tensor(),
                self.source_tail_weight.tensor(),
                self.total_scale_factor as int,
                self.channels,
            ),
            self.source_bias.outcome(),
        )
    }

    /// What the stage makes of `x` and a source.
    pub open spec fn apply(self, x: Outcome, source: Tensor) -> Outcome {
        self.convolution_after.apply(
            resample(
                x,
                self.source_filtered(source),
                self.julius_filter.tensor(),
                self.scale_factor as int,
            ),
        )
    }

    /// Without an input there is no output.
    pub proof fn lemma_apply_error(self, x: Outcome, source: Tensor)
        requires
            x is Err,
        ensures
            self.apply(x, source) == x,
    {
    }

    /// Builds the upsampler of stage `index`, and adds its preparation to a program.
    pub(crate) fn load(
        weights: &WeightTable,
        prepared: &mut Program,
        index: usize,
        scale_factor: i32,
        total_scale_factor: i32,
        input_channels: i32,
        output_channels: i32,
    ) -> (r: Result<ResampleUpsampler, LoadError>)
        requires
            weights.wf(),
            old(prepared).wf(),
            TAPS <= total_scale_factor <= 512,
            0 <= input_channels <= SOURCE_CHANNELS,
        ensures
            final(prepared).wf(),
            extends(old(prepared)@, final(prepared)@),
            match r {
                Ok(up) => upsampler_fault(weights@, index as nat, input_channels) is None
                    && up.reads(weights@, final(prepared)@, index as nat) && up.has(
                    scale_factor as int,
                    total_scale_factor as int,
                    input_channels as int,
                    output_channels as int,
                ),
                Err(e) => upsampler_fault(weights@, index as nat, input_channels) == Some(e@),
            },
    {
        let prefix = numbered_text("ups.", index, ".convolution_noise");
        let noise = conv1d_layer(
            weights,
            prefix.as_str(),
            SOURCE_CHANNELS,
            input_channels,
            TAPS,
            3,
            1,
        )?;
        let w = noise.weight.read(prepared);
        let ghost t = prepared@[w as int];
        let head = match add_head_matrix(prepared, w, input_channels) {
            Ok(head) => head,
            Err(e) => {
                return Err(LoadError::Plan(e));
            },
        };
        let tail = match add_tail_matrix(prepared, w, input_channels) {
            Ok(tail) => tail,
            Err(e) => {
                return Err(LoadError::Plan(e));
            },
        };
        let head = prepared.eval(head);
        let tail = prepared.eval(tail);
        proof {
            prepared.lemma_valid(head as int);
            prepared.lemma_valid(tail as int);
        }
        let source_head_weight = ArrayRef {
            source: Source::Prepared(head),
            shape: copy_shape(prepared.shape(head)),
        };
        let source_tail_weight = ArrayRef {
            source: Source::Prepared(tail),
            shape: copy_shape(prepared.shape(tail)),
        };
        let source_bias = match noise.bias {
            Some(b) => b,
            None => {
                return Err(LoadError::MissingBias);
            },
        };
        let julius_filter = weights.weight(numbered_text("ups.", index, ".julius_filter"))?;
        let prefix = numbered_text("ups.", index, ".convolution_after");
        let convolution_after = conv1d_layer(
            weights,
            prefix.as_str(),
            input_channels,
            output_channels,
            1,
            0,
            1,
        )?;
        Ok(
            ResampleUpsampler {
                scale_factor,
                total_scale_factor,
                channels: input_channels,
                source_head_weight,
                source_tail_weight,
                source_bias,
                julius_filter,
                kernel: MetalResampleKernel::new(),
                convolution_after,
            },
        )
    }

    /// Adds [`spread_source`] to a program.
    fn add_spread_source(&self, p: &mut Program, source: usize) -> (r: Result<usize, PlanError>)
        requires
            self.wf(),
            old(p).wf(),
            source < old(p)@.len(),
            old(p)@[source as int].shape.len() >= 2,
        ensures
            final(p).yields(
                old(p)@,
                r,
                spread_source(
                    old(p)@[source as int],
                    self.source_head_weight.tensor(),
                    self.source_tail_weight.tensor(),
                    self.total_scale_factor as int,
                    self.channels,
                ),
            ),
    {
        proof {
            reveal(spread_source);
            p.lemma_valid(source as int);
        }
        let ghost s = p@[source as int];
        let batch: i32 = p.shape(source)[0];
        let frames: i32 = p.shape(source)[1];
        let total: i32 = self.total_scale_factor;
        proof {
            let (f, t) = (frames as int, total as int);
            assert(0 <= f * t <= 0x7fff_ffff * 512) by (nonlinear_arith)
                requires
                    0 <= f <= 0x7fff_ffff,
                    0 <= t <= 512,
            ;
        }
        let length: i64 = (frames as i64) * (total as i64);
        if length > i32::MAX as i64 {
            return Err(PlanError::Refused);
        }
        let head = self.add_head(p, source, batch, frames)?;
        let tail = self.add_tail(p, source, batch, frames)?;
        let rest: i32 = total - TAPS;
        let dims: Vec<i32> = vec![batch, frames, rest, self.channels];
        assert(dims@ =~= seq![s.shape[0], s.shape[1], (total - TAPS) as i32, self.channels]);
        let empty = p.zeros(dims)?;
        let parts: Vec<usize> = vec![head, empty, tail];
        assert(operands(p@, parts@) =~= seq![
            p@[head as int],
            p@[empty as int],
            p@[tail as int],
        ]);
        let phases = p.concat(parts, 2)?;
        let dims: Vec<i32> = vec![batch, length as i32, self.channels];
        assert(dims@ =~= seq![s.shape[0], (s.shape[1] * total) as i32, self.channels]);
        p.reshape(phases, dims)
    }

    /// Adds the head phases of each frame to a program.
    fn add_head(&self, p: &mut Program, source: usize, batch: i32, frames: i32) -> (r: Result<
        usize,
        PlanError,
    >)
        requires
            self.wf(),
            old(p).wf(),
            source < old(p)@.len(),
        ensures
            final(p).yields(
                old(p)@,
                r,
                reshape(
                    matmul(operand(old(p)@, source), self.source_head_weight.outcome()),
                    seq![batch, frames, HEAD_TAPS, self.channels],
                ),
            ),
    {
        let weight = self.source_head_weight.read(p);
        let phases = p.matmul(source, weight)?;
        let dims: Vec<i32> = vec![batch, frames, HEAD_TAPS, self.channels];
        assert(dims@ =~= seq![batch, frames, HEAD_TAPS, self.channels]);
        p.reshape(phases, dims)
    }

    /// Adds the tail phases of each frame to a program.
    fn add_tail(&self, p: &mut Program, source: usize, batch: i32, frames: i32) -> (r: Result<
        usize,
        PlanError,
    >)
        requires
            self.wf(),
            old(p).wf(),
            source < old(p)@.len(),
        ensures
            final(p).yields(
                old(p)@,
                r,
                reshape(
                    matmul(
                        concat2(
                            slice(operand(old(p)@, source), 1, 1, frames as int),
                            zeros(seq![batch, 1, SOURCE_CHANNELS]),
                            1,
                        ),
                        self.source_tail_weight.outcome(),
                    ),
                    seq![batch, frames, TAIL_TAPS, self.channels],
                ),
            ),
    {
        let next = p.slice(source, 1, 1, frames)?;
        let dims: Vec<i32> = vec![batch, 1, SOURCE_CHANNELS];
        assert(dims@ =~= seq![batch, 1, SOURCE_CHANNELS]);
        let last = p.zeros(dims)?;
        let parts: Vec<usize> = vec![next, last];
        assert(operands(p@, parts@) =~= seq![p@[next as int], p@[last as int]]);
        let shifted = p.concat(parts, 1)?;
        let weight = self.source_tail_weight.read(p);
        let phases = p.matmul(shifted, weight)?;
        let dims: Vec<i32> = vec![batch, frames, TAIL_TAPS, self.channels];
        assert(dims@ =~= seq![batch, frames, TAIL_TAPS, self.channels]);
        p.reshape(phases, dims)
    }

    /// Adds the stage to a program.
    pub(crate) fn forward(&self, p: &mut Program, input: usize, source: usize) -> (r: Result<
        usize,
        PlanError,
    >)
        requires
            self.wf(),
            old(p).wf(),
            input < old(p)@.len(),
            source < old(p)@.len(),
            old(p)@[source as int].shape.len() >= 2,
        ensures
            final(p).yields(
                old(p)@,
                r,
                self.apply(operand(old(p)@, input), old(p)@[source as int]),
            ),
    {
        let spread = self.add_spread_source(p, source)?;
        let bias = self.source_bias.read(p);
        let filtered = p.binary(BinaryOp::Add, spread, bias)?;
        let filter = self.julius_filter.read(p);
        let combined = self.kernel.forward(p, input, filtered, filter, self.scale_factor)?;
        self.convolution_after.forward(p, combined)
    }
}

} // verus!
