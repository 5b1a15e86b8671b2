//! Waveforms in WAV files: decoding, mixing down, resampling, and encoding.
use vstd::prelude::*;
use vstd::string::*;

use crate::element::{element, element_of, lemma_constant_element, lemma_row_element, Element};
use crate::program::{Plan, Program};
use crate::shape::{
    element_count, lemma_volume1, lemma_volume2, reduce_shape, reshape_shape, valid, volume,
};
use crate::signal::{has_shape, lemma_with_constant};
use crate::source::whole;
use crate::tensor::{
    constant, evaluated, leaf, mean, over, reshape, times, unary, BinaryOp, Outcome, PlanError,
    Scalar, Source, Tensor, UnaryOp,
};
use crate::text::{decimal, decimal_text};
use crate::SAMPLE_RATE;

verus! {

/// An error of the WAV codec.
#[verifier::external_type_specification]
#[verifier::external_body]
pub struct ExHoundError(hound::Error);

/// How samples are stored.
#[derive(Clone, Copy, Debug, PartialEq, Eq, Structural)]
pub enum SampleFormat {
    Float,
    Int,
}

/// What a WAV file says of its samples.
#[derive(Clone, Copy, Debug, PartialEq, Eq, Structural)]
pub struct WavHeader {
    pub channels: u16,
    /// Frames per second.
    pub sample_rate: u32,
    pub bits_per_sample: u16,
    pub format: SampleFormat,
}

/// What the header of a WAV file says: channels, frames per second, bits per sample, and
/// whether the samples are integers. `None` where `hound::WavReader::new` fails.
pub uninterp spec fn wav_header(bytes: Seq<u8>) -> Option<(u16, u32, u16, bool)>;

/// The samples of a WAV file of integers, channels interleaved. `None` where
/// `hound::WavReader::new` fails or a sample cannot be read as an integer.
pub uninterp spec fn wav_samples(bytes: Seq<u8>) -> Option<Seq<i32>>;

/// The header as [`wav_header`] gives it.
pub open spec fn header_view(h: WavHeader) -> (u16, u32, u16, bool) {
    (h.channels, h.sample_rate, h.bits_per_sample, h.format is Int)
}

/// The channels that the header of a WAV file gives.
pub open spec fn channels_of(bytes: Seq<u8>) -> nat {
    match wav_header(bytes) {
        Some((channels, _, _, _)) => channels as nat,
        None => 0,
    }
}

/// Reads the header of a WAV file with `hound::WavReader::new` and `hound::WavReader::spec`.
///
/// The result depends on the bytes alone. A header that is accepted has at least one channel
/// and at least one bit per sample.
#[verifier::external_body]
fn read_header(bytes: &[u8]) -> (r: Result<WavHeader, hound::Error>)
    ensures
        match r {
            Ok(h) => wav_header(bytes@) == Some(header_view(h)) && h.channels >= 1
                && h.bits_per_sample >= 1,
            Err(_) => wav_header(bytes@) is None,
        },
{
    let spec = hound::WavReader::new(std::io::Cursor::new(bytes))?.spec();
    Ok(
        WavHeader {
            channels: spec.channels,
            sample_rate: spec.sample_rate,
            bits_per_sample: spec.bits_per_sample,
            format: match spec.sample_format {
                hound::SampleFormat::Float => SampleFormat::Float,
                hound::SampleFormat::Int => SampleFormat::Int,
            },
        },
    )
}

/// Reads the samples of a WAV file with `hound::WavReader::into_samples`.
///
/// The result depends on the bytes alone. It is there only where the header is, and holds
/// whole frames.
#[verifier::external_body]
fn read_samples(bytes: &[u8]) -> (r: Result<Vec<i32>, hound::Error>)
    ensures
        match r {
            Ok(samples) => wav_samples(bytes@) == Some(samples@) && wav_header(bytes@) is Some
                && samples@.len() % channels_of(bytes@) == 0,
            Err(_) => wav_samples(bytes@) is None,
        },
{
    hound::WavReader::new(std::io::Cursor::new(bytes))?.into_samples::<i32>().collect()
}

/// The low two bytes of a number, the lower first.
pub open spec fn le16(v: int) -> Seq<u8> {
    seq![(v % 256) as u8, (v / 256 % 256) as u8]
}

/// The low four bytes of a number, the lowest first.
pub open spec fn le32(v: int) -> Seq<u8> {
    le16(v) + le16(v / 65_536)
}

/// Two bytes for each sample.
pub open spec fn sample_bytes(samples: Seq<i16>) -> Seq<u8> {
    Seq::new(2 * samples.len(), |i: int| le16(samples[i / 2] as int)[i % 2])
}

/// The four bytes that mark the start of a chunk.
pub open spec fn tag(a: char, b: char, c: char, d: char) -> Seq<u8> {
    seq![a as u8, b as u8, c as u8, d as u8]
}

/// The description of 16-bit samples in a WAV file.
pub open spec fn format_chunk(h: WavHeader) -> Seq<u8> {
    tag('f', 'm', 't', ' ') + le32(16) + le16(1) + le16(h.channels as int) + le32(
        h.sample_rate as int,
    ) + le32(h.sample_rate * 2 * h.channels) + le16(2 * h.channels) + le16(16)
}

/// A WAV file of 16-bit samples.
pub open spec fn wav_file(h: WavHeader, samples: Seq<i16>) -> Seq<u8> {
    tag('R', 'I', 'F', 'F') + le32(36 + 2 * samples.len() as int) + tag('W', 'A', 'V', 'E')
        + format_chunk(h) + tag('d', 'a', 't', 'a') + le32(2 * samples.len() as int)
        + sample_bytes(samples)
}

/// A file of 16-bit samples with this header can hold `count` of them.
pub open spec fn can_hold(h: WavHeader, count: nat) -> bool {
    &&& h.format is Int
    &&& h.bits_per_sample == 16
    &&& 1 <= h.channels <= 2
    &&& 1 <= h.sample_rate
    &&& h.sample_rate * 2 * h.channels <= u32::MAX
    &&& count % (h.channels as nat) == 0
    &&& 36 + 2 * count <= u32::MAX
}

/// Writes a WAV file to memory with `hound::WavWriter`: `new`, `write_sample` for each
/// sample in order, and `finalize`.
///
/// Writing to memory does not fail. The bytes are those of a canonical WAV file, and reading
/// them gives back the header and the samples.
#[verifier::external_body]
fn write_wav(header: WavHeader, samples: &[i16]) -> (r: Result<Vec<u8>, hound::Error>)
    requires
        can_hold(header, samples@.len()),
    ensures
        match r {
            Ok(bytes) => bytes@ == wav_file(header, samples@) && wav_header(bytes@) == Some(
                header_view(header),
            ) && wav_samples(bytes@) == Some(widened(samples@)),
            Err(_) => false,
        },
{
    let sample_format = match header.format {
        SampleFormat::Float => hound::SampleFormat::Float,
        SampleFormat::Int => hound::SampleFormat::Int,
    };
    let WavHeader { channels, sample_rate, bits_per_sample, .. } = header;
    let spec = hound::WavSpec { channels, sample_rate, bits_per_sample, sample_format };
    let mut bytes = std::io::Cursor::new(Vec::new());
    let mut writer = hound::WavWriter::new(&mut bytes, spec)?;
    for sample in samples {
        writer.write_sample(*sample)?;
    }
    writer.finalize()?;
    Ok(bytes.into_inner())
}

/// The samples as wider integers.
pub open spec fn widened(samples: Seq<i16>) -> Seq<i32> {
    Seq::new(samples.len(), |i: int| samples[i] as i32)
}

/// Why a waveform cannot be used.
#[derive(Clone, Copy, Debug, PartialEq, Eq, Structural)]
pub enum AudioFault {
    /// The file has no channels.
    NoChannels,
    /// The last frame lacks samples.
    PartialFrame,
    /// There are more samples than an array can hold.
    TooLong,
    /// The resampler left samples over.
    Unconsumed,
    /// The resampler gave another number of samples than it should.
    Length { produced: u64, target: u64 },
}

impl AudioFault {
    /// The text shown for this error.
    pub open spec fn text(self) -> Seq<char> {
        match self {
            AudioFault::NoChannels => "WAV 文件没有音频通道"@,
            AudioFault::PartialFrame => "WAV 样本数无法按通道数整除"@,
            AudioFault::TooLong => "WAV 样本数超出数组范围"@,
            AudioFault::Unconsumed => "libsoxr 未消费全部输入样本"@,
            AudioFault::Length { produced, target } => "libsoxr 输出长度 "@ + decimal(
                produced as nat,
            ) + "，期望 "@ + decimal(target as nat),
        }
    }

    /// Returns [`AudioFault::text`].
    pub fn message(&self) -> (r: String)
        ensures
            r@ == self.text(),
    {
        match self {
            AudioFault::NoChannels => String::from_str("WAV 文件没有音频通道"),
            AudioFault::PartialFrame => String::from_str("WAV 样本数无法按通道数整除"),
            AudioFault::TooLong => String::from_str("WAV 样本数超出数组范围"),
            AudioFault::Unconsumed => String::from_str("libsoxr 未消费全部输入样本"),
            AudioFault::Length { produced, target } => {
                let mut s = String::from_str("libsoxr 输出长度 ");
                let number = decimal_text(*produced);
                s.append(number.as_str());
                s.append("，期望 ");
                let number = decimal_text(*target);
                s.append(number.as_str());
                s
            },
        }
    }
}

/// Why a WAV file cannot be read or written.
#[derive(Debug)]
pub enum AudioError {
    /// The codec refused it.
    Wav(hound::Error),
    Fault(AudioFault),
}

/// The samples given to a mixdown: a row for each frame, a column for each channel.
pub open spec fn interleaved_input(frames: i32, channels: i32) -> Tensor {
    leaf(Source::Input(0), seq![frames, channels])
}

/// The factor between the stored integers and the amplitudes: two to the power of one less
/// than the bits per sample.
pub open spec fn full_scale(h: WavHeader) -> Scalar {
    Scalar::PowerOfTwo((h.bits_per_sample - 1) as u16)
}

/// The amplitudes of samples: floating-point samples as they are, integers divided by
/// [`full_scale`].
pub open spec fn amplitudes(samples: Tensor, h: WavHeader) -> Outcome {
    match h.format {
        SampleFormat::Float => Ok(samples),
        SampleFormat::Int => over(
            unary(UnaryOp::ToFloat32, Ok(samples)),
            constant(full_scale(h)),
        ),
    }
}

/// The mean amplitude of all channels, as one row, evaluated.
pub open spec fn mixdown(frames: i32, h: WavHeader) -> Outcome {
    let samples = interleaved_input(frames, h.channels as i32);
    evaluated(reshape(mean(amplitudes(samples, h), 1), seq![1i32, frames]))
}

/// Amplitudes stand where the samples do.
proof fn lemma_amplitudes(frames: i32, h: WavHeader)
    ensures
        has_shape(
            amplitudes(interleaved_input(frames, h.channels as i32), h),
            seq![frames, h.channels as i32],
        ),
{
    let samples = unary(UnaryOp::ToFloat32, Ok(interleaved_input(frames, h.channels as i32)));
    lemma_with_constant(BinaryOp::Divide, samples, full_scale(h));
}

/// A mixdown has one row, with an element for each frame.
pub proof fn lemma_mixdown(frames: i32, h: WavHeader)
    requires
        0 <= frames,
    ensures
        has_shape(mixdown(frames, h), seq![1i32, frames]),
        has_shape(
            mean(amplitudes(interleaved_input(frames, h.channels as i32), h), 1),
            seq![frames],
        ),
{
    reveal(reduce_shape);
    reveal(reshape_shape);
    lemma_amplitudes(frames, h);
    assert(seq![frames, h.channels as i32].remove(1) =~= seq![frames]);
    lemma_volume1(frames);
    lemma_volume2(1, frames);
}

/// The amplitude of the sample of channel `c` in frame `f`.
pub open spec fn amplitude(frames: i32, h: WavHeader, f: int, c: int) -> Element {
    let sample = Element::Of(interleaved_input(frames, h.channels as i32), seq![f, c]);
    match h.format {
        SampleFormat::Float => sample,
        SampleFormat::Int => Element::Binary(
            BinaryOp::Divide,
            Box::new(Element::Unary(UnaryOp::ToFloat32, Box::new(sample))),
            Box::new(Element::Constant(full_scale(h))),
        ),
    }
}

/// The elements of [`amplitudes`].
proof fn lemma_amplitude(frames: i32, h: WavHeader, f: int, c: int)
    requires
        0 <= f < frames,
        0 <= c < h.channels,
    ensures
        element_of(
            amplitudes(interleaved_input(frames, h.channels as i32), h),
            seq![f, c],
        ) == amplitude(frames, h, f, c),
{
    let samples = interleaved_input(frames, h.channels as i32);
    lemma_amplitudes(frames, h);
    let numbers = unary(UnaryOp::ToFloat32, Ok(samples));
    assert(element(samples, seq![f, c]) == Element::Of(samples, seq![f, c]));
    if h.format is Int {
        lemma_constant_element(BinaryOp::Divide, numbers, full_scale(h), seq![f, c]);
    }
}

/// The mixdown of a frame is the mean of the amplitudes of its samples.
pub proof fn lemma_mixdown_element(frames: i32, h: WavHeader, f: int)
    requires
        0 <= f < frames,
    ensures
        element_of(mixdown(frames, h), seq![0, f]) == Element::Mean(
            Seq::new(h.channels as nat, |c: int| amplitude(frames, h, f, c)),
        ),
{
    lemma_mixdown(frames, h);
    lemma_amplitudes(frames, h);
    let levels = amplitudes(interleaved_input(frames, h.channels as i32), h);
    let means = mean(levels, 1);
    lemma_row_element(means, frames, f);
    let row = reshape(means, seq![1i32, frames]);
    assert(element_of(mixdown(frames, h), seq![0, f]) == element_of(row, seq![0, f]));
    let of_frame = Seq::new(
        h.channels as nat,
        |c: int| element_of(levels, seq![f].insert(1, c)),
    );
    assert(element_of(means, seq![f])->Mean_0 =~= of_frame);
    assert forall|c: int| 0 <= c < h.channels implies #[trigger] of_frame[c] == amplitude(
        frames,
        h,
        f,
        c,
    ) by {
        assert(seq![f].insert(1, c) =~= seq![f, c]);
        lemma_amplitude(frames, h, f, c);
    }
    assert(of_frame =~= Seq::new(h.channels as nat, |c: int| amplitude(frames, h, f, c)));
}

/// A waveform to be mixed down.
pub struct Mixdown {
    pub frames: i32,
    pub plan: Plan,
}

/// Why `count` samples of `channels` channels cannot be mixed down.
pub open spec fn mixdown_fault(channels: u16, count: nat) -> Option<AudioFault> {
    if channels == 0 {
        Some(AudioFault::NoChannels)
    } else if count % (channels as nat) != 0 {
        Some(AudioFault::PartialFrame)
    } else {
        None
    }
}

/// Samples can be mixed down exactly where there are channels and all frames are whole.
pub proof fn lemma_mixdown_fault(channels: u16, count: nat)
    ensures
        mixdown_fault(channels, count) == Some(AudioFault::NoChannels) <==> channels == 0,
        mixdown_fault(channels, count) == Some(AudioFault::PartialFrame) <==> channels > 0 && count
            as int % channels as int != 0,
        mixdown_fault(channels, count) is None <==> channels > 0 && count as int % channels as int
            == 0,
{
}

impl Mixdown {
    /// The plan mixes down `count` samples of a file with header `h`.
    pub open spec fn mixes(self, h: WavHeader, count: nat) -> bool {
        &&& 0 <= self.frames
        &&& self.frames * h.channels == count
        &&& self.plan.computes(mixdown(self.frames, h))
    }

    /// Plans the mixdown of `count` samples of a file with this header.
    pub fn plan(header: &WavHeader, count: usize) -> (r: Result<Mixdown, AudioFault>)
        requires
            count <= i32::MAX,
            header.format is Int ==> header.bits_per_sample >= 1,
        ensures
            match r {
                Ok(mix) => mixdown_fault(header.channels, count as nat) is None && mix.mixes(
                    *header,
                    count as nat,
                ),
                Err(e) => mixdown_fault(header.channels, count as nat) == Some(e),
            },
    {
        let channels: u16 = header.channels;
        if channels == 0 {
            return Err(AudioFault::NoChannels);
        }
        if count % (channels as usize) != 0 {
            return Err(AudioFault::PartialFrame);
        }
        let frames: i32 = (count / (channels as usize)) as i32;
        proof {
            let (n, c) = (count as int, channels as int);
            assert(n / c * c == n && 0 <= n / c <= n) by (nonlinear_arith)
                requires
                    n % c == 0,
                    0 <= n,
                    1 <= c,
            ;
        }
        let mut p = Program::new();
        let dims: Vec<i32> = vec![frames, channels as i32];
        assert(dims@ =~= seq![frames, channels as i32]);
        let samples = p.leaf(Source::Input(0), &dims);
        proof {
            lemma_amplitudes(frames, *header);
            lemma_mixdown(frames, *header);
        }
        let levels: usize = match header.format {
            SampleFormat::Float => samples,
            SampleFormat::Int => {
                let numbers = p.unary(UnaryOp::ToFloat32, samples);
                let scale = p.constant(Scalar::PowerOfTwo(header.bits_per_sample - 1));
                p.binary(BinaryOp::Divide, numbers, scale).unwrap()
            },
        };
        let mean = p.mean(levels, 1);
        let dims: Vec<i32> = vec![1, frames];
        assert(dims@ =~= seq![1i32, frames]);
        let row = p.reshape(mean.unwrap(), dims);
        let output = p.eval(row.unwrap());
        Ok(Mixdown { frames, plan: Plan { program: p, output } })
    }
}

/// The samples of a WAV file.
pub enum Decoded {
    /// Integers, channels interleaved, with the plan that scales them and mixes them down.
    Int { samples: Vec<i32>, mix: Mixdown },
    /// Single-precision numbers, still in the file.
    Float,
}

/// A WAV file that has been read.
pub struct LoadedAudio {
    pub header: WavHeader,
    pub decoded: Decoded,
}

/// `r` is what reading a WAV file gives: its header, and its samples with the plan of their
/// mixdown where they are integers; or why there is none.
pub open spec fn loads(bytes: Seq<u8>, r: Result<LoadedAudio, AudioError>) -> bool {
    &&& match (wav_header(bytes), wav_samples(bytes)) {
        (None, _) => r matches Err(AudioError::Wav(_)),
        (Some((_, _, _, true)), None) => r matches Err(AudioError::Wav(_)),
        (Some(h), Some(samples)) => if h.3 && samples.len() > i32::MAX {
            r matches Err(AudioError::Fault(AudioFault::TooLong))
        } else {
            r matches Ok(audio) && header_view(audio.header) == h && match audio.decoded {
                Decoded::Int { samples: s, mix } => h.3 && s@ == samples && mix.mixes(
                    audio.header,
                    samples.len(),
                ) && samples.len() % (h.0 as nat) == 0,
                Decoded::Float => !h.3,
            }
        },
        (Some(h), None) => r matches Ok(audio) && header_view(audio.header) == h
            && audio.decoded is Float,
    }
    &&& r matches Ok(audio) ==> audio.header.channels >= 1 && audio.header.bits_per_sample >= 1
}

/// Reads a WAV file and plans its mixdown.
pub fn load_mono_audio(bytes: &[u8]) -> (r: Result<LoadedAudio, AudioError>)
    ensures
        loads(bytes@, r),
{
    let header = match read_header(bytes) {
        Ok(header) => header,
        Err(e) => {
            return Err(AudioError::Wav(e));
        },
    };
    match header.format {
        SampleFormat::Float => Ok(LoadedAudio { header, decoded: Decoded::Float }),
        SampleFormat::Int => {
            let samples = match read_samples(bytes) {
                Ok(samples) => samples,
                Err(e) => {
                    return Err(AudioError::Wav(e));
                },
            };
            if samples.len() > i32::MAX as usize {
                return Err(AudioError::Fault(AudioFault::TooLong));
            }
            match Mixdown::plan(&header, samples.len()) {
                Ok(mix) => Ok(LoadedAudio { header, decoded: Decoded::Int { samples, mix } }),
                Err(e) => Err(AudioError::Fault(e)),
            }
        },
    }
}

/// The frames of a waveform of `frames` frames after resampling: as many as last as long,
/// rounded up.
pub open spec fn target_length(frames: int, sample_rate: int) -> int {
    (frames * SAMPLE_RATE + sample_rate - 1) / sample_rate
}

/// The frames after resampling last at least as long as the waveform, and one frame less
/// would not.
pub proof fn lemma_target_length(frames: int, sample_rate: int)
    requires
        0 <= frames,
        1 <= sample_rate,
    ensures
        target_length(frames, sample_rate) * sample_rate >= frames * SAMPLE_RATE,
        frames > 0 ==> (target_length(frames, sample_rate) - 1) * sample_rate < frames
            * SAMPLE_RATE,
        target_length(frames, sample_rate) >= 0,
        target_length(frames, sample_rate) <= frames * SAMPLE_RATE,
        target_length(frames, SAMPLE_RATE as int) == frames,
{
    let a = frames * SAMPLE_RATE;
    let t = target_length(frames, sample_rate);
    assert(t * sample_rate >= a && (t - 1) * sample_rate < a && 0 <= t <= a) by (nonlinear_arith)
        requires
            t == (a + sample_rate - 1) / sample_rate,
            a >= 0,
            sample_rate >= 1,
    ;
}

/// A waveform to be resampled.
#[derive(Clone, Copy, Debug, PartialEq, Eq)]
pub struct Resampling {
    /// Frames before.
    pub input_length: u64,
    /// Frames after.
    pub target_length: u64,
    /// Room for the resampler to write to.
    pub buffer_length: u64,
}

/// Room in the buffer beyond the frames that should come out.
pub const BUFFER_MARGIN: u64 = 512;

impl Resampling {
    /// The buffer holds the target.
    pub open spec fn wf(self) -> bool {
        self.buffer_length == self.target_length + BUFFER_MARGIN
    }

    /// Plans the resampling of a waveform; `None` where it has the right rate already.
    pub fn plan(frames: i32, sample_rate: u32) -> (r: Option<Resampling>)
        requires
            0 <= frames,
            1 <= sample_rate,
        ensures
            match r {
                Some(plan) => sample_rate != SAMPLE_RATE && plan.wf() && plan.input_length
                    == frames && plan.target_length == target_length(
                    frames as int,
                    sample_rate as int,
                ),
                None => sample_rate == SAMPLE_RATE,
            },
    {
        if sample_rate == SAMPLE_RATE {
            return None;
        }
        proof {
            lemma_target_length(frames as int, sample_rate as int);
        }
        let input_length: u64 = frames as u64;
        let rate: u64 = sample_rate as u64;
        let target_length: u64 = (input_length * (SAMPLE_RATE as u64) + rate - 1) / rate;
        let buffer_length: u64 = target_length + BUFFER_MARGIN;
        Some(Resampling { input_length, target_length, buffer_length })
    }

    /// After the resampler took `consumed` frames and wrote `written`: where it writes next.
    pub fn processed(&self, consumed: u64, written: u64) -> (r: Result<u64, AudioFault>)
        requires
            self.wf(),
            written <= self.buffer_length,
        ensures
            match r {
                Ok(start) => consumed == self.input_length && start == written,
                Err(e) => consumed != self.input_length && e == AudioFault::Unconsumed,
            },
    {
        if consumed == self.input_length {
            Ok(written)
        } else {
            Err(AudioFault::Unconsumed)
        }
    }

    /// After the resampler wrote `drained` frames more from `start` on: the length of the
    /// waveform.
    pub fn drained(&self, start: u64, drained: u64) -> (r: Result<u64, AudioFault>)
        requires
            self.wf(),
            start + drained <= self.buffer_length,
        ensures
            match r {
                Ok(produced) => produced == start + drained && produced == self.target_length,
                Err(e) => start + drained != self.target_length && e == (AudioFault::Length {
                    produced: (start + drained) as u64,
                    target: self.target_length,
                }),
            },
    {
        let produced: u64 = start + drained;
        if produced == self.target_length {
            Ok(produced)
        } else {
            Err(AudioFault::Length { produced, target: self.target_length })
        }
    }
}

/// The waveform given to an encoder.
pub open spec fn waveform_input(shape: Seq<i32>) -> Tensor {
    leaf(Source::Input(0), shape)
}

/// The elements of a waveform in order.
pub open spec fn flattened(audio: Tensor) -> Outcome {
    if volume(audio.shape) <= i32::MAX {
        reshape(Ok(audio), seq![volume(audio.shape) as i32])
    } else {
        Err(PlanError::Refused)
    }
}

/// Elements from minus one to one as 16-bit samples; others give the nearer of these. The
/// samples are evaluated.
pub open spec fn quantized(audio: Outcome) -> Outcome {
    let one = Scalar::Ratio { num: 1, den: 1 };
    let minus_one = Scalar::Ratio { num: (-1) as i32, den: 1 };
    let low = Scalar::Ratio { num: (-32_768) as i32, den: 1 };
    let high = Scalar::Ratio { num: 32_767, den: 1 };
    let scaled = unary(
        UnaryOp::Round,
        times(unary(UnaryOp::Clip(minus_one, one), audio), whole(32_768)),
    );
    evaluated(unary(UnaryOp::ToInt16, unary(UnaryOp::Clip(low, high), scaled)))
}

/// Plans the 16-bit samples of a waveform of this shape.
pub fn pcm16_plan(audio_shape: &Vec<i32>) -> (r: Result<Plan, PlanError>)
    requires
        valid(audio_shape@),
    ensures
        ({
            let o = quantized(flattened(waveform_input(audio_shape@)));
            match r {
                Ok(plan) => plan.computes(o),
                Err(e) => o == Err::<Tensor, PlanError>(e),
            }
        }),
{
    let count: i32 = match element_count(audio_shape) {
        Some(count) => {
            if count > i32::MAX as u64 {
                return Err(PlanError::Refused);
            }
            count as i32
        },
        None => {
            return Err(PlanError::Refused);
        },
    };
    let one = Scalar::Ratio { num: 1, den: 1 };
    let minus_one = Scalar::Ratio { num: -1, den: 1 };
    let mut p = Program::new();
    let audio = p.leaf(Source::Input(0), audio_shape);
    let dims: Vec<i32> = vec![count];
    assert(dims@ =~= seq![volume(audio_shape@) as i32]);
    let flat = p.reshape(audio, dims)?;
    let bounded = p.unary(UnaryOp::Clip(minus_one, one), flat);
    let scale = p.constant(Scalar::Ratio { num: 32_768, den: 1 });
    let scaled = p.binary(BinaryOp::Multiply, bounded, scale)?;
    let scaled = p.unary(UnaryOp::Round, scaled);
    let low = Scalar::Ratio { num: -32_768, den: 1 };
    let high = Scalar::Ratio { num: 32_767, den: 1 };
    let scaled = p.unary(UnaryOp::Clip(low, high), scaled);
    let pcm = p.unary(UnaryOp::ToInt16, scaled);
    let output = p.eval(pcm);
    Ok(Plan { program: p, output })
}

/// The header of an encoded waveform.
pub open spec fn pcm16_header() -> WavHeader {
    WavHeader {
        channels: 1,
        sample_rate: SAMPLE_RATE,
        bits_per_sample: 16,
        format: SampleFormat::Int,
    }
}

/// Encodes 16-bit samples as a WAV file with one channel.
///
/// Reading the file gives the samples back.
pub fn save_pcm16_wav(samples: &[i16]) -> (r: Result<Vec<u8>, AudioError>)
    requires
        36 + 2 * samples@.len() <= u32::MAX,
    ensures
        r matches Ok(bytes) && bytes@ == wav_file(pcm16_header(), samples@) && wav_header(bytes@)
            == Some(header_view(pcm16_header())) && wav_samples(bytes@) == Some(widened(samples@)),
{
    let header = WavHeader {
        channels: 1,
        sample_rate: SAMPLE_RATE,
        bits_per_sample: 16,
        format: SampleFormat::Int,
    };
    match write_wav(header, samples) {
        Ok(bytes) => Ok(bytes),
        Err(e) => Err(AudioError::Wav(e)),
    }
}

} // verus!
