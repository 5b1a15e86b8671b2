//! Resampling stages in exact arithmetic: the source convolved at the higher rate.
use vstd::arithmetic::div_mod::lemma_mod_multiples_vanish;
use vstd::prelude::*;
use vstd::string::*;

use crate::config::{channels_before, lemma_channels, lemma_lengthening, lengthening, STAGES};
use crate::element::{element_of, lemma_factor_places, Element};
use crate::layers::weight_key;
use crate::metal::resample;
use crate::numbers::{added, Numbers};
use crate::pupu::{up_reads, PupuVocoder, INITIAL_CHANNELS};
use crate::pupu_laws::WIDEST;
use crate::shape::lemma_one_matrix;
use crate::signal::is_signal;
use crate::tensor::{matmul, Outcome, Tensor};
use crate::text::decimal;
use crate::upsampler::{
    head_matrix, part, spread_source, tail_matrix, ResampleUpsampler, HEAD_TAPS, SOURCE_CHANNELS,
    TAIL_TAPS, TAPS,
};
use crate::upsampler_laws::{
    held, lemma_can_prepare, lemma_head_element, lemma_matrices, lemma_next_frame_element,
    lemma_next_frames, lemma_phase_tap, lemma_spread_element, lemma_spread_source,
    lemma_tail_element, next_frames,
};
use crate::weights::{stored, ArrayRef, Entries};
use crate::HOP_SIZE;

verus! {

/// A sum of zeros.
proof fn lemma_zeros(xs: Seq<real>)
    requires
        forall|k: int| 0 <= k < xs.len() ==> #[trigger] xs[k] == 0 as real,
    ensures
        added(xs) == 0 as real,
    decreases xs.len(),
{
    if xs.len() > 0 {
        let front = xs.drop_last();
        assert forall|k: int| 0 <= k < front.len() implies #[trigger] front[k] == 0 as real by {
            assert(front[k] == xs[k]);
        }
        lemma_zeros(front);
        assert(xs[xs.len() - 1] == 0 as real);
    }
}

/// A sum with one number that is not zero.
proof fn lemma_single(xs: Seq<real>, a: int)
    requires
        0 <= a < xs.len(),
        forall|k: int| 0 <= k < xs.len() && k != a ==> #[trigger] xs[k] == 0 as real,
    ensures
        added(xs) == xs[a],
    decreases xs.len(),
{
    let front = xs.drop_last();
    assert forall|k: int| 0 <= k < front.len() && k != a implies #[trigger] front[k]
        == 0 as real by {
        assert(front[k] == xs[k]);
    }
    if a == xs.len() - 1 {
        lemma_zeros(front);
    } else {
        lemma_single(front, a);
        assert(xs[xs.len() - 1] == 0 as real);
    }
}

/// The steps that hold a frame of the source, under tap `j` at phase `p` of frame `f`.
proof fn lemma_frame_under_tap(frames: int, total: int, f: int, p: int, j: int)
    requires
        TAPS <= total,
        0 <= f < frames,
        0 <= p < total,
        0 <= j < TAPS,
    ensures
        ({
            let m = f * total + p + j - 3;
            let here = p < HEAD_TAPS && j == 3 - p;
            let next = p >= total - TAIL_TAPS && j == total + 3 - p && f + 1 < frames;
            &&& (0 <= m < frames * total && m % total == 0) == (here || next)
            &&& here ==> m / total == f
            &&& next ==> m / total == f + 1
        }),
{
    lemma_phase_tap(total, p, j);
    let distance = p + j - 3;
    let m = f * total + distance;
    assert(m == f * total + p + j - 3);
    lemma_mod_multiples_vanish(f, distance, total);
    assert(total * f == f * total) by (nonlinear_arith);
    assert(distance == 0 ==> m / total == f && m % total == 0 && 0 <= m < frames * total)
        by (nonlinear_arith)
        requires
            m == f * total + distance,
            total > 0,
            0 <= f < frames,
    ;
    assert(distance == total ==> m / total == f + 1 && m % total == 0 && 0 <= m && (m < frames
        * total <==> f + 1 < frames)) by (nonlinear_arith)
        requires
            m == f * total + distance,
            total > 0,
            0 <= f < frames,
    ;
}

/// The product of a row with a matrix, by the numbers in both.
proof fn lemma_row_value(
    numbers: Numbers,
    x: Outcome,
    w: Tensor,
    b: int,
    f: int,
    column: int,
    xs: Seq<real>,
)
    requires
        x is Ok,
        x->Ok_0.shape.len() == 3,
        x->Ok_0.shape[2] == SOURCE_CHANNELS,
        w.shape.len() == 2,
        w.shape[0] == SOURCE_CHANNELS,
        0 <= b < x->Ok_0.shape[0],
        xs.len() == SOURCE_CHANNELS,
        forall|s: int|
            0 <= s < SOURCE_CHANNELS ==> #[trigger] xs[s] == numbers.of(x, seq![b, f, s])
                * numbers.at(w, seq![s, column]),
    ensures
        numbers.of(matmul(x, Ok(w)), seq![b, f, column]) == added(xs),
{
    let y = matmul(x, Ok(w));
    lemma_one_matrix(x->Ok_0.shape, w.shape);
    let at = seq![b, f, column];
    let pairs = element_of(y, at)->Dot_0;
    assert(element_of(y, at) == Element::Dot(pairs));
    assert forall|s: int| 0 <= s < pairs.len() implies xs[s] == numbers.value(
        (#[trigger] pairs[s]).0,
    ) * numbers.value(pairs[s].1) by {
        lemma_factor_places(x->Ok_0.shape, w.shape, b, f, column, s);
    }
    numbers.lemma_products_value(pairs, xs);
}

/// The products of tap `tap` at step `n`.
spec fn tap_terms(
    numbers: Numbers,
    source: Tensor,
    w: Tensor,
    b: int,
    frame: int,
    tap: int,
    c: int,
) -> Seq<real> {
    Seq::new(
        SOURCE_CHANNELS as nat,
        |s: int| numbers.at(source, seq![b, frame, s]) * numbers.at(w, seq![c, tap, s]),
    )
}

/// A matrix holds the weight of tap `tap` from channel `s` to channel `c` at phase `phase`.
pub open spec fn holds_tap(
    numbers: Numbers,
    matrix: Tensor,
    w: Tensor,
    channels: i32,
    c: int,
    s: int,
    phase: int,
    tap: int,
) -> bool {
    numbers.at(matrix, seq![s, phase * channels + c]) == numbers.at(w, seq![c, tap, s])
}

/// The source convolved at the higher rate, when the matrices hold the taps of `w`: a
/// convolution of seven taps around each step, over the source with its frames `total` steps
/// apart and nothing between them.
pub proof fn lemma_spread_value(
    numbers: Numbers,
    source: Tensor,
    head_weight: Tensor,
    tail_weight: Tensor,
    w: Tensor,
    total: int,
    channels: i32,
    b: int,
    n: int,
    c: int,
)
    requires
        source.shape.len() == 3,
        source.shape[2] == SOURCE_CHANNELS,
        head_weight.shape == seq![SOURCE_CHANNELS, (HEAD_TAPS * channels) as i32],
        tail_weight.shape == seq![SOURCE_CHANNELS, (TAIL_TAPS * channels) as i32],
        TAPS <= total <= 512,
        1 <= channels <= SOURCE_CHANNELS,
        source.shape[1] * total <= i32::MAX,
        source.shape[0] * source.shape[1] * total * channels <= i32::MAX,
        forall|s: int, phase: int, tap: int|
            0 <= s < SOURCE_CHANNELS && 0 <= phase < HEAD_TAPS && tap == 3 - phase
                ==> #[trigger] holds_tap(numbers, head_weight, w, channels, c, s, phase, tap),
        forall|s: int, phase: int, tap: int|
            0 <= s < SOURCE_CHANNELS && 0 <= phase < TAIL_TAPS && tap == 6 - phase
                ==> #[trigger] holds_tap(numbers, tail_weight, w, channels, c, s, phase, tap),
        0 <= b < source.shape[0],
        0 <= n < source.shape[1] * total,
        0 <= c < channels,
    ensures
        numbers.of(
            spread_source(source, head_weight, tail_weight, total, channels),
            seq![b, n, c],
        ) == added(
            Seq::new(
                7,
                |tap: int|
                    {
                        let m = n + tap - 3;
                        if 0 <= m < source.shape[1] * total && m % total == 0 {
                            added(
                                Seq::new(
                                    1_536,
                                    |s: int|
                                        numbers.at(source, seq![b, m / total, s]) * numbers.at(
                                            w,
                                            seq![c, tap, s],
                                        ),
                                ),
                            )
                        } else {
                            0 as real
                        }
                    },
            ),
        ),
{
    let (f, p) = (n / total, n % total);
    let frames = source.shape[1] as int;
    assert(n == f * total + p && 0 <= p < total && 0 <= f < frames) by (nonlinear_arith)
        requires
            f == n / total,
            p == n % total,
            total > 0,
            0 <= n < frames * total,
    ;
    lemma_spread_element(source, head_weight, tail_weight, total, channels, b, f, p, c);
    lemma_next_frames(source);
    numbers.lemma_ends_of_expressions();
    let taps = Seq::new(
        7,
        |tap: int|
            {
                let m = n + tap - 3;
                if 0 <= m < source.shape[1] * total && m % total == 0 {
                    added(
                        Seq::new(
                            1_536,
                            |s: int|
                                numbers.at(source, seq![b, m / total, s]) * numbers.at(
                                    w,
                                    seq![c, tap, s],
                                ),
                        ),
                    )
                } else {
                    0 as real
                }
            },
    );
    let active = if p < HEAD_TAPS {
        3 - p
    } else if p >= total - TAIL_TAPS {
        total + 3 - p
    } else {
        TAPS as int
    };
    assert forall|tap: int| 0 <= tap < 7 && tap != active implies #[trigger] taps[tap]
        == 0 as real by {
        lemma_frame_under_tap(frames, total, f, p, tap);
    }
    if p < HEAD_TAPS {
        lemma_frame_under_tap(frames, total, f, p, active);
        let xs = tap_terms(numbers, source, w, b, f, active, c);
        let column = p * channels + c;
        assert forall|s: int| 0 <= s < SOURCE_CHANNELS implies #[trigger] xs[s] == numbers.of(
            Ok(source),
            seq![b, f, s],
        ) * numbers.at(head_weight, seq![s, column]) by {
            assert(holds_tap(numbers, head_weight, w, channels, c, s, p, 3 - p));
        }
        lemma_row_value(numbers, Ok(source), head_weight, b, f, column, xs);
        lemma_single(taps, active);
        let m = n + active - 3;
        assert(m / total == f);
        assert(xs =~= Seq::new(
            1_536,
            |s: int|
                numbers.at(source, seq![b, m / total, s]) * numbers.at(w, seq![c, active, s]),
        ));
    } else if p >= total - TAIL_TAPS {
        lemma_frame_under_tap(frames, total, f, p, active);
        let phase = p - (total - TAIL_TAPS);
        let column = phase * channels + c;
        let next = next_frames(source);
        let xs = if f + 1 < frames {
            tap_terms(numbers, source, w, b, f + 1, active, c)
        } else {
            Seq::new(SOURCE_CHANNELS as nat, |s: int| 0 as real)
        };
        assert forall|s: int| 0 <= s < SOURCE_CHANNELS implies #[trigger] xs[s] == numbers.of(
            next,
            seq![b, f, s],
        ) * numbers.at(tail_weight, seq![s, column]) by {
            lemma_next_frame_element(source, b, f, s);
            assert(holds_tap(numbers, tail_weight, w, channels, c, s, phase, 6 - phase));
            let y = numbers.at(tail_weight, seq![s, column]);
            assert((0 as real) * y == 0 as real) by (nonlinear_arith);
        }
        lemma_row_value(numbers, next, tail_weight, b, f, column, xs);
        lemma_single(taps, active);
        if f + 1 < frames {
            let m = n + active - 3;
            assert(m / total == f + 1);
            assert(xs =~= Seq::new(
                1_536,
                |s: int|
                    numbers.at(source, seq![b, m / total, s]) * numbers.at(
                        w,
                        seq![c, active, s],
                    ),
            ));
        } else {
            lemma_zeros(xs);
        }
    } else {
        lemma_zeros(taps);
    }
}

/// The name of the weight of the source convolution of a stage.
proof fn lemma_weight_name(index: nat)
    ensures
        weight_key(part(index, ".convolution_noise"@)) == "ups."@ + decimal(index)
            + ".convolution_noise.weight"@,
{
    reveal_strlit(".convolution_noise");
    reveal_strlit(".weight");
    reveal_strlit(".convolution_noise.weight");
    assert(".convolution_noise"@ + ".weight"@ =~= ".convolution_noise.weight"@);
    let name = "ups."@ + decimal(index);
    assert(name + ".convolution_noise"@ + ".weight"@ =~= name + (".convolution_noise"@
        + ".weight"@));
}

impl Numbers {
    /// The array holds what the preparation that gave `prepared` computed.
    pub open spec fn has_prepared(self, a: ArrayRef, prepared: Seq<Tensor>) -> bool {
        forall|i: Seq<int>| #[trigger] self.at(a.tensor(), i) == self.at(held(a, prepared), i)
    }
}

impl ResampleUpsampler {
    /// The source that a stage adds: the convolution of seven taps around each step, with the
    /// stored weight and bias, over the source with its frames as far apart as the stage makes
    /// them and nothing between them.
    pub proof fn lemma_source_value(
        self,
        numbers: Numbers,
        entries: Entries,
        prepared: Seq<Tensor>,
        index: nat,
        source: Tensor,
        b: int,
        n: int,
        c: int,
    )
        requires
            self.reads(entries, prepared, index),
            stored(entries, "ups."@ + decimal(index) + ".convolution_noise.weight"@)->0.shape
                == seq![self.channels, TAPS, SOURCE_CHANNELS],
            self.source_bias.shape@ == seq![self.channels],
            numbers.has_prepared(self.source_head_weight, prepared),
            numbers.has_prepared(self.source_tail_weight, prepared),
            1 <= self.channels <= SOURCE_CHANNELS,
            source.shape.len() == 3,
            source.shape[2] == SOURCE_CHANNELS,
            source.shape[1] * self.total_scale_factor <= i32::MAX,
            source.shape[0] * source.shape[1] * self.total_scale_factor * self.channels
                <= i32::MAX,
            0 <= b < source.shape[0],
            0 <= n < source.shape[1] * self.total_scale_factor,
            0 <= c < self.channels,
        ensures
            ({
                let w = stored(entries, "ups."@ + decimal(index) + ".convolution_noise.weight"@)->0;
                let total = self.total_scale_factor as int;
                numbers.of(self.source_filtered(source), seq![b, n, c]) == added(
                    Seq::new(
                        7,
                        |tap: int|
                            {
                                let m = n + tap - 3;
                                if 0 <= m < source.shape[1] * total && m % total == 0 {
                                    added(
                                        Seq::new(
                                            1_536,
                                            |s: int|
                                                numbers.at(source, seq![b, m / total, s])
                                                    * numbers.at(w, seq![c, tap, s]),
                                        ),
                                    )
                                } else {
                                    0 as real
                                }
                            },
                    ),
                ) + numbers.at(self.source_bias.tensor(), seq![c])
            }),
    {
        lemma_weight_name(index);
        let w = stored(entries, "ups."@ + decimal(index) + ".convolution_noise.weight"@)->0;
        let (head, tail) = (self.source_head_weight.tensor(), self.source_tail_weight.tensor());
        let (total, channels) = (self.total_scale_factor as int, self.channels);
        lemma_can_prepare(w, channels);
        lemma_matrices(w, channels);
        self.lemma_taps(numbers, entries, prepared, index, c);
        lemma_spread_value(numbers, source, head, tail, w, total, channels, b, n, c);
        assert(1 <= source.shape[1]) by (nonlinear_arith)
            requires
                0 <= n < source.shape[1] * total,
                1 <= total,
        ;
        lemma_spread_source(source, head, tail, total, channels);
        let spread = spread_source(source, head, tail, total, channels);
        numbers.lemma_bias(spread, self.source_bias, seq![b, n, c]);
    }

    /// The prepared matrices hold the taps of the stored weight.
    proof fn lemma_taps(
        self,
        numbers: Numbers,
        entries: Entries,
        prepared: Seq<Tensor>,
        index: nat,
        c: int,
    )
        requires
            self.reads(entries, prepared, index),
            stored(entries, weight_key(part(index, ".convolution_noise"@)))->0.shape == seq![
                self.channels,
                TAPS,
                SOURCE_CHANNELS,
            ],
            numbers.has_prepared(self.source_head_weight, prepared),
            numbers.has_prepared(self.source_tail_weight, prepared),
            1 <= self.channels <= SOURCE_CHANNELS,
            0 <= c < self.channels,
        ensures
            ({
                let w = stored(entries, weight_key(part(index, ".convolution_noise"@)))->0;
                let (head, tail) = (
                    self.source_head_weight.tensor(),
                    self.source_tail_weight.tensor(),
                );
                let channels = self.channels;
                &&& forall|s: int, phase: int, tap: int|
                    0 <= s < SOURCE_CHANNELS && 0 <= phase < HEAD_TAPS && tap == 3 - phase
                        ==> #[trigger] holds_tap(numbers, head, w, channels, c, s, phase, tap)
                &&& forall|s: int, phase: int, tap: int|
                    0 <= s < SOURCE_CHANNELS && 0 <= phase < TAIL_TAPS && tap == 6 - phase
                        ==> #[trigger] holds_tap(numbers, tail, w, channels, c, s, phase, tap)
            }),
    {
        let w = stored(entries, weight_key(part(index, ".convolution_noise"@)))->0;
        let (head, tail) = (self.source_head_weight.tensor(), self.source_tail_weight.tensor());
        let channels = self.channels;
        lemma_can_prepare(w, channels);
        let (first, last) = (head_matrix(w, channels), tail_matrix(w, channels));
        assert forall|s: int, phase: int, tap: int|
            0 <= s < SOURCE_CHANNELS && 0 <= phase < HEAD_TAPS && tap == 3 - phase implies
            #[trigger] holds_tap(numbers, head, w, channels, c, s, phase, tap) by {
            lemma_head_element(w, channels, s, phase, c);
            let i = seq![s, phase * channels + c];
            numbers.lemma_evaluated(first, i);
            assert(numbers.at(head, i) == numbers.at(held(self.source_head_weight, prepared), i));
        }
        assert forall|s: int, phase: int, tap: int|
            0 <= s < SOURCE_CHANNELS && 0 <= phase < TAIL_TAPS && tap == 6 - phase implies
            #[trigger] holds_tap(numbers, tail, w, channels, c, s, phase, tap) by {
            lemma_tail_element(w, channels, s, phase, c);
            let i = seq![s, phase * channels + c];
            numbers.lemma_evaluated(last, i);
            assert(numbers.at(tail, i) == numbers.at(held(self.source_tail_weight, prepared), i));
        }
    }
}

impl PupuVocoder {
    /// A stage resamples the signal together with the convolved source, and mixes the channels
    /// of the result.
    pub proof fn lemma_upsampled_value(
        self,
        numbers: Numbers,
        entries: Entries,
        hidden: Outcome,
        source: Tensor,
        stage: int,
        batch: int,
        frames: int,
        b: int,
        t: int,
        o: int,
    )
        requires
            self.reads(entries),
            self.conforms(),
            0 <= stage < STAGES,
            is_signal(Ok(source), batch, frames, INITIAL_CHANNELS as int),
            0 <= batch,
            1 <= frames,
            frames * HOP_SIZE <= i32::MAX,
            batch * frames * WIDEST <= i32::MAX,
            is_signal(
                hidden,
                batch,
                frames * lengthening(stage as nat),
                channels_before(INITIAL_CHANNELS as int, stage as nat),
            ),
            0 <= b < batch,
            0 <= t < frames * lengthening((stage + 1) as nat),
            0 <= o < channels_before(INITIAL_CHANNELS as int, (stage + 1) as nat),
        ensures
            ({
                let layer = self.upsamplers@[stage];
                let combined = resample(
                    hidden,
                    layer.source_filtered(source),
                    layer.julius_filter.tensor(),
                    layer.scale_factor as int,
                );
                numbers.of(self.upsampled(hidden, source, stage), seq![b, t, o])
                    == layer.convolution_after.convolved(
                    numbers,
                    |b1: int, t1: int, c1: int| numbers.of(combined, seq![b1, t1, c1]),
                    frames * lengthening((stage + 1) as nat),
                    b,
                    t,
                    o,
                )
            }),
    {
        lemma_channels(INITIAL_CHANNELS as int);
        lemma_lengthening(frames, (stage + 1) as nat);
        assert(stage == 0 || stage == 1 || stage == 2 || stage == 3 || stage == 4);
        let layer = self.upsamplers@[stage];
        assert(up_reads(layer, entries, self.preparation@, stage));
        let combined = resample(
            hidden,
            layer.source_filtered(source),
            layer.julius_filter.tensor(),
            layer.scale_factor as int,
        );
        let longer = frames * lengthening((stage + 1) as nat);
        layer.lemma_combined(entries, self.preparation@, stage, hidden, source, batch, frames);
        let given = |b1: int, t1: int, c1: int| numbers.of(combined, seq![b1, t1, c1]);
        layer.convolution_after.lemma_convolved(
            numbers,
            combined,
            given,
            batch,
            longer,
            b,
            t,
            o,
        );
    }
}

} // verus!
