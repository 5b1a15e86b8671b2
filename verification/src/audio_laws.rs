//! What holds of waveforms that are written and read, in exact arithmetic: which numbers come
//! back, and what the channels contribute.
use vstd::arithmetic::power2::{lemma2_to64, lemma_pow2_pos, pow2};
use vstd::prelude::*;

use crate::audio::{
    amplitude, flattened, full_scale, header_view, interleaved_input, lemma_mixdown_element, loads,
    mixdown, pcm16_header, quantized, wav_header, wav_samples, waveform_input, widened, AudioError,
    Decoded, LoadedAudio, SampleFormat, WavHeader,
};
use crate::element::{
    element, element_of, lemma_constant_element, lemma_places1, lemma_unary_element, unravel,
    Element,
};
use crate::exact::{
    bounded, exact, lemma_exact_unary, lemma_over_one, lemma_whole_value, rounded, total,
};
use crate::numbers::{added, Numbers};
use crate::shape::{lemma_volume1, reshape_shape, valid, volume};
use crate::signal::lemma_with_constant;
use crate::source::whole;
use crate::tensor::{times, unary, BinaryOp, Scalar, UnaryOp};
use crate::SAMPLE_RATE;

verus! {

/// The amplitude that a stored sample stands for.
pub open spec fn level(h: WavHeader, sample: real) -> real {
    match h.format {
        SampleFormat::Float => sample,
        SampleFormat::Int => sample / (pow2((h.bits_per_sample - 1) as nat) as int as real),
    }
}

/// The value of frame `f` of a mixdown, when `given` holds the samples by frame and channel.
pub open spec fn frame_value(
    frames: i32,
    h: WavHeader,
    f: int,
    given: spec_fn(Seq<int>) -> real,
) -> Option<real> {
    exact(element_of(mixdown(frames, h), seq![0, f]), given)
}

/// The amplitude of a sample.
proof fn lemma_level(frames: i32, h: WavHeader, f: int, c: int, given: spec_fn(Seq<int>) -> real)
    requires
        h.format is Int ==> h.bits_per_sample >= 1,
    ensures
        exact(amplitude(frames, h, f, c), given) == Some(level(h, given(seq![f, c]))),
{
    reveal_with_fuel(exact, 4);
    if h.format is Int {
        lemma_pow2_pos((h.bits_per_sample - 1) as nat);
    }
}

/// A frame of a file with one channel has the amplitude of its sample, and one of a file with
/// two channels the mean of the amplitudes of both.
pub proof fn lemma_frame_value(
    frames: i32,
    h: WavHeader,
    f: int,
    given: spec_fn(Seq<int>) -> real,
)
    requires
        h.format is Int ==> h.bits_per_sample >= 1,
        0 <= f < frames,
    ensures
        h.channels == 1 ==> frame_value(frames, h, f, given) == Some(level(h, given(seq![f, 0]))),
        h.channels == 2 ==> frame_value(frames, h, f, given) == Some(
            (level(h, given(seq![f, 0])) + level(h, given(seq![f, 1]))) / (2 as real),
        ),
{
    lemma_mixdown_element(frames, h, f);
    let terms = Seq::new(h.channels as nat, |c: int| amplitude(frames, h, f, c));
    let (first, second) = (level(h, given(seq![f, 0])), level(h, given(seq![f, 1])));
    assert(total(terms, 0, given) == Some(0 as real));
    if h.channels == 1 || h.channels == 2 {
        assert(terms[0] == amplitude(frames, h, f, 0));
        lemma_level(frames, h, f, 0, given);
        assert(total(terms, 1, given) == Some(0 as real + first));
    }
    if h.channels == 2 {
        assert(terms[1] == amplitude(frames, h, f, 1));
        lemma_level(frames, h, f, 1, given);
        assert(total(terms, 2, given) == Some(0 as real + first + second));
    }
    assert(frame_value(frames, h, f, given) == exact(Element::Mean(terms), given));
    if h.channels == 1 {
        lemma_over_one(0 as real + first, terms.len() as int as real);
    }
}

/// Two equal channels are mixed down to what one of them alone is.
pub proof fn lemma_equal_channels(
    frames: i32,
    mono: WavHeader,
    stereo: WavHeader,
    f: int,
    one: spec_fn(Seq<int>) -> real,
    two: spec_fn(Seq<int>) -> real,
)
    requires
        mono.channels == 1,
        stereo.channels == 2,
        mono.format == stereo.format,
        mono.bits_per_sample == stereo.bits_per_sample,
        mono.format is Int ==> mono.bits_per_sample >= 1,
        0 <= f < frames,
        two(seq![f, 0]) == one(seq![f, 0]),
        two(seq![f, 1]) == one(seq![f, 0]),
    ensures
        frame_value(frames, mono, f, one) is Some,
        frame_value(frames, stereo, f, two) == frame_value(frames, mono, f, one),
{
    lemma_frame_value(frames, mono, f, one);
    lemma_frame_value(frames, stereo, f, two);
}

/// Swapping two channels does not change what they are mixed down to.
pub proof fn lemma_swapped_channels(
    frames: i32,
    stereo: WavHeader,
    f: int,
    given: spec_fn(Seq<int>) -> real,
    swapped: spec_fn(Seq<int>) -> real,
)
    requires
        stereo.channels == 2,
        stereo.format is Int ==> stereo.bits_per_sample >= 1,
        0 <= f < frames,
        swapped(seq![f, 0]) == given(seq![f, 1]),
        swapped(seq![f, 1]) == given(seq![f, 0]),
    ensures
        frame_value(frames, stereo, f, given) is Some,
        frame_value(frames, stereo, f, swapped) == frame_value(frames, stereo, f, given),
{
    lemma_frame_value(frames, stereo, f, given);
    lemma_frame_value(frames, stereo, f, swapped);
}

/// `k` steps of 16-bit samples.
pub open spec fn steps(k: int) -> real {
    k as real / (32_768 as real)
}

/// The 16-bit sample of a number: the nearest multiple of one in 32768 between minus one and
/// one, or the largest sample.
pub open spec fn sample_of(x: real) -> int {
    let k = rounded(bounded(x, -(1 as real), 1 as real) * (32_768 as real));
    if k > i16::MAX {
        i16::MAX as int
    } else {
        k
    }
}

/// A sample differs from its number, brought to between minus one and one, by one in 32768 at
/// most, and not at all where the number is such a fraction.
pub proof fn lemma_sample_of(x: real)
    ensures
        i16::MIN <= sample_of(x) <= i16::MAX,
        ({
            let y = steps(sample_of(x));
            let near = bounded(x, -(1 as real), 1 as real);
            near - steps(1) <= y <= near + steps(1)
        }),
        forall|k: int|
            i16::MIN <= k <= i16::MAX && x == #[trigger] steps(k)
                ==> sample_of(x) == k,
{
    let near = bounded(x, -(1 as real), 1 as real);
    let scaled = near * (32_768 as real);
    let k = scaled.floor();
    assert(-(32_768 as real) <= scaled <= 32_768 as real);
    assert forall|k: int|
        i16::MIN <= k <= i16::MAX && x == #[trigger] steps(k) implies
        sample_of(x) == k by {
        assert(near == x);
        assert(scaled == k as real);
    }
}

/// Reading a file that was written gives back its samples, one frame for each. They are at
/// the rate of the vocoders already, and are divided by 32768.
pub proof fn lemma_written_file(
    bytes: Seq<u8>,
    samples: Seq<i16>,
    r: Result<LoadedAudio, AudioError>,
)
    requires
        wav_header(bytes) == Some(header_view(pcm16_header())),
        wav_samples(bytes) == Some(widened(samples)),
        samples.len() <= i32::MAX,
        loads(bytes, r),
    ensures
        match r {
            Ok(audio) => {
                &&& audio.header == pcm16_header()
                &&& audio.header.sample_rate == SAMPLE_RATE
                &&& full_scale(audio.header) == Scalar::PowerOfTwo(15)
                &&& match audio.decoded {
                    Decoded::Int { samples: read, mix } => read@ == widened(samples)
                        && mix.frames == samples.len() && mix.plan.computes(
                        mixdown(samples.len() as i32, pcm16_header()),
                    ),
                    Decoded::Float => false,
                }
            },
            Err(_) => false,
        },
{
    let audio = r->Ok_0;
    assert(audio.header.format is Int);
}

/// The bounds of amplitudes.
pub open spec fn amplitude_bounds() -> UnaryOp {
    UnaryOp::Clip(
        Scalar::Ratio { num: (-1) as i32, den: 1 },
        Scalar::Ratio { num: 1, den: 1 },
    )
}

/// The bounds of 16-bit samples.
pub open spec fn sample_bounds() -> UnaryOp {
    UnaryOp::Clip(
        Scalar::Ratio { num: (-32_768) as i32, den: 1 },
        Scalar::Ratio { num: 32_767, den: 1 },
    )
}

/// The 16-bit sample of an element.
pub open spec fn sample_element(x: Element) -> Element {
    let near = Element::Unary(amplitude_bounds(), Box::new(x));
    let factor = Element::Constant(Scalar::Ratio { num: 32_768, den: 1 });
    let scaled = Element::Binary(BinaryOp::Multiply, Box::new(near), Box::new(factor));
    let nearest = Element::Unary(UnaryOp::Round, Box::new(scaled));
    let limited = Element::Unary(sample_bounds(), Box::new(nearest));
    Element::Unary(UnaryOp::ToInt16, Box::new(limited))
}

/// The elements of an encoded waveform.
proof fn lemma_quantized_element(shape: Seq<i32>, n: int)
    requires
        valid(shape),
        volume(shape) <= i32::MAX,
        0 <= n < volume(shape),
    ensures
        ({
            let input = waveform_input(shape);
            let o = quantized(flattened(input));
            &&& o is Ok
            &&& o->Ok_0.shape == seq![volume(shape) as i32]
            &&& element_of(o, seq![n]) == sample_element(
                Element::Of(input, unravel(shape, n)),
            )
        }),
{
    reveal(reshape_shape);
    let count = volume(shape) as i32;
    lemma_volume1(count);
    let input = waveform_input(shape);
    let flat = flattened(input);
    assert(flat is Ok);
    lemma_places1(count, n);
    let at = seq![n];
    let i = unravel(shape, n);
    assert(element(input, i) == Element::Of(input, i));
    assert(element_of(flat, at) == element(input, i));
    let factor = Scalar::Ratio { num: 32_768, den: 1 };
    let near = unary(amplitude_bounds(), flat);
    let scaled = times(near, whole(32_768));
    lemma_with_constant(BinaryOp::Multiply, near, factor);
    lemma_constant_element(BinaryOp::Multiply, near, factor, at);
    let nearest = unary(UnaryOp::Round, scaled);
    let limited = unary(sample_bounds(), nearest);
    let narrow = unary(UnaryOp::ToInt16, limited);
    lemma_unary_element(amplitude_bounds(), flat, at);
    lemma_unary_element(UnaryOp::Round, scaled, at);
    lemma_unary_element(sample_bounds(), nearest, at);
    lemma_unary_element(UnaryOp::ToInt16, limited, at);
    assert(element_of(quantized(flat), at) == element_of(narrow, at));
}

/// The value of a 16-bit sample.
proof fn lemma_sample_element(x: Element, given: spec_fn(Seq<int>) -> real)
    requires
        exact(x, given) is Some,
    ensures
        exact(sample_element(x), given) == Some(sample_of(exact(x, given)->0) as real),
{
    let v = exact(x, given)->0;
    lemma_sample_of(v);
    lemma_whole_value((-1) as i32);
    lemma_whole_value(1);
    lemma_whole_value(32_768);
    lemma_whole_value((-32_768) as i32);
    lemma_whole_value(32_767);
    let y = bounded(v, -(1 as real), 1 as real);
    let near = Element::Unary(amplitude_bounds(), Box::new(x));
    let factor = Element::Constant(Scalar::Ratio { num: 32_768, den: 1 });
    let scaled = Element::Binary(BinaryOp::Multiply, Box::new(near), Box::new(factor));
    let nearest = Element::Unary(UnaryOp::Round, Box::new(scaled));
    let limited = Element::Unary(sample_bounds(), Box::new(nearest));
    lemma_exact_unary(amplitude_bounds(), x, given);
    assert(exact(near, given) == Some(y));
    assert(exact(factor, given) == Some(32_768 as real));
    assert(exact(scaled, given) == Some(y * (32_768 as real)));
    lemma_exact_unary(UnaryOp::Round, scaled, given);
    lemma_exact_unary(sample_bounds(), nearest, given);
    lemma_exact_unary(UnaryOp::ToInt16, limited, given);
    assert(exact(nearest, given) == Some(rounded(y * (32_768 as real)) as real));
    assert(exact(limited, given) == Some(sample_of(v) as real));
}

/// Sample `n` of an encoded waveform is that of its element `n`, in order.
pub proof fn lemma_quantized(shape: Seq<i32>, n: int, given: spec_fn(Seq<int>) -> real)
    requires
        valid(shape),
        volume(shape) <= i32::MAX,
        0 <= n < volume(shape),
    ensures
        ({
            let o = quantized(flattened(waveform_input(shape)));
            &&& o is Ok
            &&& o->Ok_0.shape == seq![volume(shape) as i32]
            &&& exact(element_of(o, seq![n]), given) == Some(
                sample_of(given(unravel(shape, n))) as real,
            )
        }),
{
    lemma_quantized_element(shape, n);
    let sample = Element::Of(waveform_input(shape), unravel(shape, n));
    assert(exact(sample, given) == Some(given(unravel(shape, n))));
    lemma_sample_element(sample, given);
}

/// Writing a waveform and reading the file gives every element back, brought to between minus
/// one and one, but for one in 32768 at most; and not even that where the elements are
/// multiples of one in 32768 below one.
pub proof fn lemma_written_waveform(
    shape: Seq<i32>,
    n: int,
    written: spec_fn(Seq<int>) -> real,
    read: spec_fn(Seq<int>) -> real,
)
    requires
        valid(shape),
        volume(shape) <= i32::MAX,
        0 <= n < volume(shape),
        exact(element_of(quantized(flattened(waveform_input(shape))), seq![n]), written) == Some(
            read(seq![n, 0]),
        ),
    ensures
        ({
            let x = written(unravel(shape, n));
            let near = bounded(x, -(1 as real), 1 as real);
            match frame_value(volume(shape) as i32, pcm16_header(), n, read) {
                Some(y) => near - steps(1) <= y <= near + steps(1) && forall|k: int|
                    i16::MIN <= k <= i16::MAX && x == #[trigger] steps(k)
                        ==> y == x,
                None => false,
            }
        }),
{
    lemma_quantized(shape, n, written);
    lemma_frame_value(volume(shape) as i32, pcm16_header(), n, read);
    lemma_sample_of(written(unravel(shape, n)));
    lemma2_to64();
    assert(pow2(15) == 32_768);
}

/// Every frame of a mixdown is the mean of its samples, whatever the number of channels.
/// Integers count in units of two to the power of one less than their bits.
pub proof fn lemma_mean_of_channels(numbers: Numbers, frames: i32, h: WavHeader, f: int)
    requires
        h.channels >= 1,
        h.format is Int ==> h.bits_per_sample >= 1,
        0 <= f < frames,
    ensures
        ({
            let unit = match h.format {
                SampleFormat::Float => 1 as real,
                SampleFormat::Int => pow2((h.bits_per_sample - 1) as nat) as int as real,
            };
            let samples = interleaved_input(frames, h.channels as i32);
            numbers.of(mixdown(frames, h), seq![0, f]) * (h.channels as int as real) == added(
                Seq::new(
                    h.channels as nat,
                    |c: int| numbers.at(samples, seq![f, c]) / unit,
                ),
            )
        }),
{
    lemma_mixdown_element(frames, h, f);
    let unit = match h.format {
        SampleFormat::Float => 1 as real,
        SampleFormat::Int => pow2((h.bits_per_sample - 1) as nat) as int as real,
    };
    let samples = interleaved_input(frames, h.channels as i32);
    let terms = Seq::new(h.channels as nat, |c: int| amplitude(frames, h, f, c));
    let xs = Seq::new(h.channels as nat, |c: int| numbers.at(samples, seq![f, c]) / unit);
    assert forall|c: int| 0 <= c < terms.len() implies numbers.value(#[trigger] terms[c])
        == xs[c] by {
        let sample = Element::Of(samples, seq![f, c]);
        assert(element(samples, seq![f, c]) == sample);
        if h.format is Int {
            let number = Element::Unary(UnaryOp::ToFloat32, Box::new(sample));
            numbers.lemma_unary_value(UnaryOp::ToFloat32, sample);
            let scale = Element::Constant(full_scale(h));
            numbers.lemma_binary_value(BinaryOp::Divide, number, scale);
            numbers.lemma_ends_of_expressions();
        } else {
            lemma_over_one(numbers.value(sample), unit);
        }
    }
    numbers.lemma_added_value(terms, xs);
    let (x, n) = (added(xs), h.channels as int as real);
    assert(x / n * n == x) by (nonlinear_arith)
        requires
            n >= 1 as real,
    ;
}

/// A 16-bit sample is the integer nearest to 32768 times its number, brought to between minus
/// one and one; of two it is the even one; and it is no larger than 32767.
pub proof fn lemma_nearest_sample(numbers: Numbers, shape: Seq<i32>, n: int)
    requires
        valid(shape),
        volume(shape) <= i32::MAX,
        0 <= n < volume(shape),
    ensures
        ({
            let x = numbers.at(waveform_input(shape), unravel(shape, n));
            let near = if x < -(1 as real) {
                -(1 as real)
            } else if x > 1 as real {
                1 as real
            } else {
                x
            };
            let y = numbers.of(quantized(flattened(waveform_input(shape))), seq![n]);
            let k = y.floor();
            let error = near * (32_768 as real) - y;
            let half = 1 as real / (2 as real);
            &&& y == k as real
            &&& -32_768 <= k <= 32_767
            &&& -half <= error
            &&& error <= half || k == 32_767
            &&& error == -half || (error == half && k < 32_767) ==> k % 2 == 0
        }),
{
    lemma_quantized_element(shape, n);
    let input = waveform_input(shape);
    let i = unravel(shape, n);
    assert(element(input, i) == Element::Of(input, i));
    let e = Element::Of(input, i);
    let near = Element::Unary(amplitude_bounds(), Box::new(e));
    let factor = Element::Constant(Scalar::Ratio { num: 32_768, den: 1 });
    let scaled = Element::Binary(BinaryOp::Multiply, Box::new(near), Box::new(factor));
    let nearest = Element::Unary(UnaryOp::Round, Box::new(scaled));
    let limited = Element::Unary(sample_bounds(), Box::new(nearest));
    numbers.lemma_unary_value(amplitude_bounds(), e);
    numbers.lemma_ends_of_expressions();
    numbers.lemma_binary_value(BinaryOp::Multiply, near, factor);
    numbers.lemma_unary_value(UnaryOp::Round, scaled);
    numbers.lemma_unary_value(sample_bounds(), nearest);
    numbers.lemma_unary_value(UnaryOp::ToInt16, limited);
    numbers.lemma_whole(1);
    numbers.lemma_whole((-1) as i32);
    numbers.lemma_whole(32_768);
    numbers.lemma_whole((-32_768) as i32);
    numbers.lemma_whole(32_767);
    let v = numbers.value(scaled);
    assert(-(32_768 as real) <= v <= 32_768 as real);
    let r = rounded(v);
    assert(-32_768 <= r <= 32_768);
    let s = if r > 32_767 {
        32_767
    } else {
        r
    };
    assert(numbers.value(limited) == s as real);
    assert((s as real).floor() == s);
    assert((-(s as real)).floor() == -s);
}

} // verus!
