//! The mel spectrogram that both vocoders start from.
use vstd::prelude::*;
use vstd::string::*;

use crate::element::{element, element_of, lemma_places2, lemma_three_parts};
use crate::program::{operand, operands, Program};
use crate::shape::{
    axis_total, broadcast, concat_shape, extent, lemma_one_matrix, lemma_volume2, lemma_volume3,
    matmul_shape, reshape_shape, rfft_shape, slice_shape, valid, volume, windows_shape,
};
use crate::signal::{has_shape, is_signal, lemma_broadcast3, lemma_same_shape, lemma_with_constant};
use crate::tensor::{
    binary, concat3, constant, matmul, plus, reshape, reverse, rfft, shapes_of, slice, times, unary,
    windows, BinaryOp, Outcome, PlanError, Scalar, Tensor, UnaryOp,
};
use crate::weights::{
    first_fault, preprocess_fault, stored, ArrayRef, Entries, LoadError, LoadFault, WeightTable,
};
use crate::MEL_BINS;

verus! {

/// Points of one spectrum.
pub const FFT_SIZE: i32 = 2_048;

/// Samples from the start of one spectrum to the start of the next.
pub const HOP: i32 = 512;

/// Reflected samples added at each end of the waveform.
pub const PAD: i32 = 768;

/// The least magnitude whose logarithm is taken.
pub open spec fn magnitude_floor() -> Scalar {
    Scalar::Ratio { num: 1, den: 100_000 }
}

/// How many windows a padded waveform holds.
pub open spec fn frame_count(padded_length: int) -> int {
    if padded_length >= FFT_SIZE {
        (padded_length - FFT_SIZE) / HOP as int + 1
    } else {
        1 - (FFT_SIZE - padded_length) / HOP as int
    }
}

/// Turns waveforms into logarithmic mel spectrograms.
#[derive(Debug, PartialEq, Eq)]
pub struct MelSpectrogram {
    pub mel_basis: ArrayRef,
    pub hann_window: ArrayRef,
}

/// The waveform with its ends reflected.
pub open spec fn reflected(audio: Tensor) -> Outcome {
    let length = audio.shape[1];
    concat3(
        reverse(slice(Ok(audio), 1, 1, PAD + 1), 1),
        Ok(audio),
        reverse(slice(Ok(audio), 1, length - PAD - 1, length - 1), 1),
        1,
    )
}

/// The windows of a waveform.
#[verifier::opaque]
pub open spec fn framed(audio: Tensor) -> Outcome {
    match reflected(audio) {
        Ok(padded) => windows(
            Ok(padded),
            audio.shape[0] as int,
            frame_count(padded.shape[1] as int),
            FFT_SIZE as int,
            padded.shape[1] as int,
            HOP as int,
        ),
        Err(e) => Err(e),
    }
}

/// The magnitudes of a spectrum.
pub open spec fn magnitude(spectrum: Outcome) -> Outcome {
    unary(
        UnaryOp::Sqrt,
        plus(
            unary(UnaryOp::Square, unary(UnaryOp::Real, spectrum)),
            unary(UnaryOp::Square, unary(UnaryOp::Imag, spectrum)),
        ),
    )
}

/// The fault of a checkpoint without the arrays of the mel spectrogram.
pub open spec fn mel_fault(entries: Entries) -> Option<LoadFault> {
    first_fault(
        preprocess_fault(entries, "preprocess.mel_basis"@),
        preprocess_fault(entries, "preprocess.hann_window"@),
    )
}

impl MelSpectrogram {
    pub open spec fn wf(self) -> bool {
        self.mel_basis.wf() && self.hann_window.wf()
    }

    /// The arrays are those that `entries` stores.
    pub open spec fn reads(self, entries: Entries) -> bool {
        &&& self.wf()
        &&& stored(entries, "preprocess.mel_basis"@) == Some(self.mel_basis.tensor())
        &&& stored(entries, "preprocess.hann_window"@) == Some(self.hann_window.tensor())
    }

    /// The windowed spectra of a waveform.
    pub open spec fn spectrum(self, audio: Tensor) -> Outcome {
        rfft(
            times(framed(audio), reshape(self.hann_window.outcome(), seq![1i32, 1, FFT_SIZE])),
            FFT_SIZE as int,
        )
    }

    /// The logarithmic mel spectrogram of a waveform.
    pub open spec fn apply(self, audio: Tensor) -> Outcome {
        unary(
            UnaryOp::Log,
            binary(
                BinaryOp::Maximum,
                matmul(magnitude(self.spectrum(audio)), self.mel_basis.outcome()),
                constant(magnitude_floor()),
            ),
        )
    }

    /// Takes the window and the mel basis out of a checkpoint.
    pub fn from_weights(weights: &WeightTable) -> (r: Result<MelSpectrogram, LoadError>)
        requires
            weights.wf(),
        ensures
            match r {
                Ok(mel) => mel_fault(weights@) is None && mel.reads(weights@),
                Err(e) => mel_fault(weights@) == Some(e@),
            },
    {
        let basis_key = String::from_str("preprocess.mel_basis");
        let mel_basis = match weights.get(&basis_key) {
            Some(a) => a,
            None => {
                return Err(LoadError::MissingPreprocess(basis_key));
            },
        };
        let window_key = String::from_str("preprocess.hann_window");
        let hann_window = match weights.get(&window_key) {
            Some(a) => a,
            None => {
                return Err(LoadError::MissingPreprocess(window_key));
            },
        };
        Ok(MelSpectrogram { mel_basis, hann_window })
    }

    /// Adds the windows of a waveform to a program.
    fn frames(p: &mut Program, audio: usize) -> (r: Result<usize, PlanError>)
        requires
            old(p).wf(),
            audio < old(p)@.len(),
            old(p)@[audio as int].shape.len() >= 2,
        ensures
            final(p).yields(old(p)@, r, framed(old(p)@[audio as int])),
    {
        proof {
            p.lemma_valid(audio as int);
            reveal(framed);
        }
        let ghost x = p@[audio as int];
        let batch: i32 = p.shape(audio)[0];
        let length: i32 = p.shape(audio)[1];
        let start = p.slice(audio, 1, 1, PAD + 1)?;
        let left = p.reverse(start, 1)?;
        let end = p.slice(audio, 1, length - PAD - 1, length - 1)?;
        let right = p.reverse(end, 1)?;
        let parts: Vec<usize> = vec![left, audio, right];
        let ghost before = p@;
        assert(operands(before, parts@) =~= seq![before[left as int], x, before[right as int]]);
        let padded = p.concat(parts, 1)?;
        assert(Ok::<Tensor, PlanError>(p@[padded as int]) == reflected(x));
        proof {
            p.lemma_valid(padded as int);
            reveal(concat_shape);
            reveal(slice_shape);
        }
        let padded_length: i32 = p.shape(padded)[1];
        let frames: i32 = if padded_length >= FFT_SIZE {
            (padded_length - FFT_SIZE) / HOP + 1
        } else {
            1 - (FFT_SIZE - padded_length) / HOP
        };
        p.windows(padded, batch, frames, FFT_SIZE, padded_length, HOP)
    }

    /// Adds the magnitudes of node `spectrum` to a program.
    fn magnitudes(p: &mut Program, spectrum: usize) -> (r: Result<usize, PlanError>)
        requires
            old(p).wf(),
            spectrum < old(p)@.len(),
        ensures
            final(p).yields(old(p)@, r, magnitude(operand(old(p)@, spectrum))),
    {
        let re = p.unary(UnaryOp::Real, spectrum);
        let re = p.unary(UnaryOp::Square, re);
        let im = p.unary(UnaryOp::Imag, spectrum);
        let im = p.unary(UnaryOp::Square, im);
        let power = p.binary(BinaryOp::Add, re, im)?;
        Ok(p.unary(UnaryOp::Sqrt, power))
    }

    /// Adds the mel spectrogram of node `audio` to a program.
    #[verifier::rlimit(30)]
    pub fn forward(&self, p: &mut Program, audio: usize) -> (r: Result<usize, PlanError>)
        requires
            self.wf(),
            old(p).wf(),
            audio < old(p)@.len(),
            old(p)@[audio as int].shape.len() >= 2,
        ensures
            final(p).yields(old(p)@, r, self.apply(old(p)@[audio as int])),
    {
        let framed = Self::frames(p, audio)?;
        let window = self.hann_window.read(p);
        let dims: Vec<i32> = vec![1, 1, FFT_SIZE];
        assert(dims@ =~= seq![1i32, 1, FFT_SIZE]);
        let window = p.reshape(window, dims)?;
        let windowed = p.binary(BinaryOp::Multiply, framed, window)?;
        let spectrum = p.rfft(windowed, FFT_SIZE)?;
        let magnitude = Self::magnitudes(p, spectrum)?;
        let basis = self.mel_basis.read(p);
        let mel = p.matmul(magnitude, basis)?;
        let floor = p.constant(Scalar::Ratio { num: 1, den: 100_000 });
        let bounded = p.binary(BinaryOp::Maximum, mel, floor)?;
        Ok(p.unary(UnaryOp::Log, bounded))
    }
}

impl MelSpectrogram {
    /// A mel spectrogram is the product of the magnitudes, with a row for each window, and the
    /// mel basis.
    pub proof fn lemma_shape(self, audio: Tensor)
        requires
            valid(audio.shape),
            audio.shape.len() >= 2,
            self.apply(audio) is Ok,
        ensures
            reflected(audio) is Ok,
            Some(self.apply(audio)->Ok_0.shape) == matmul_shape(
                seq![
                    audio.shape[0],
                    frame_count(reflected(audio)->Ok_0.shape[1] as int) as i32,
                    (FFT_SIZE / 2 + 1) as i32,
                ],
                self.mel_basis.shape@,
            ),
            self.apply(audio)->Ok_0.shape.len() >= 2,
    {
        reveal(framed);
        reveal(windows_shape);
        reveal(reshape_shape);
        reveal(broadcast);
        reveal(rfft_shape);
        reveal(matmul_shape);
        reveal(concat_shape);
        let padded = reflected(audio)->Ok_0;
        let frames = frame_count(padded.shape[1] as int);
        let f = framed(audio)->Ok_0;
        assert(f.shape =~= seq![audio.shape[0], frames as i32, FFT_SIZE]);
        let window = reshape(self.hann_window.outcome(), seq![1i32, 1, FFT_SIZE])->Ok_0;
        assert(window.shape =~= seq![1i32, 1, FFT_SIZE]);
        let windowed = times(Ok(f), Ok(window))->Ok_0;
        assert forall|i: int| 0 <= i < 3 implies windowed.shape[i] == f.shape[i] by {
            assert(extent(f.shape, 3, i) == f.shape[i]);
            assert(extent(window.shape, 3, i) == window.shape[i]);
        }
        assert(windowed.shape =~= f.shape);
        let spectrum = self.spectrum(audio)->Ok_0;
        assert(spectrum.shape =~= f.shape.update(2, 1025));
        let m = magnitude(Ok(spectrum))->Ok_0;
        assert forall|i: int| 0 <= i < 3 implies m.shape[i] == spectrum.shape[i] by {
            assert(extent(spectrum.shape, 3, i) == spectrum.shape[i]);
        }
        assert(m.shape =~= spectrum.shape);
        assert(m.shape =~= seq![audio.shape[0], frames as i32, (FFT_SIZE / 2 + 1) as i32]);
        let mel = matmul(Ok(m), self.mel_basis.outcome());
        assert(mel->Ok_0.shape.len() >= 2);
        lemma_with_constant(BinaryOp::Maximum, mel, magnitude_floor());
    }
}

/// Reflecting adds [`PAD`] samples at each end of a waveform that is long enough.
pub proof fn lemma_reflected(audio: Tensor)
    requires
        audio.shape.len() == 2,
        PAD < audio.shape[1],
        audio.shape[1] + 2 * PAD <= i32::MAX,
    ensures
        has_shape(reflected(audio), seq![audio.shape[0], (audio.shape[1] + 2 * PAD) as i32]),
{
    reveal(slice_shape);
    reveal(concat_shape);
    let (batch, length) = (audio.shape[0], audio.shape[1]);
    let left = reverse(slice(Ok(audio), 1, 1, PAD + 1), 1)->Ok_0;
    let right = reverse(slice(Ok(audio), 1, length - PAD - 1, length - 1), 1)->Ok_0;
    assert(left.shape =~= seq![batch, PAD]);
    assert(right.shape =~= seq![batch, PAD]);
    let shapes = shapes_of(seq![left, audio, right]);
    reveal_with_fuel(axis_total, 4);
    assert(shapes.drop_last().drop_last().drop_last() =~= Seq::<Seq<i32>>::empty());
    assert(axis_total(shapes, 1) == length + 2 * PAD);
    assert(concat_shape(shapes, 1)->0 =~= seq![batch, (length + 2 * PAD) as i32]);
}

/// The windows of a waveform: one for each hop, none of which reads past its row.
pub proof fn lemma_framed(audio: Tensor)
    requires
        valid(audio.shape),
        audio.shape.len() == 2,
        PAD < audio.shape[1],
        audio.shape[1] + 2 * PAD <= i32::MAX,
    ensures
        is_signal(
            framed(audio),
            audio.shape[0] as int,
            audio.shape[1] as int / HOP as int,
            FFT_SIZE as int,
        ),
{
    reveal(framed);
    reveal(windows_shape);
    lemma_reflected(audio);
    let (batch, length) = (audio.shape[0], audio.shape[1]);
    let padded = reflected(audio)->Ok_0;
    let row = padded.shape[1];
    lemma_volume2(batch, row);
    let frames = frame_count(row as int);
    assert(frames == length as int / HOP as int);
    assert((frames - 1) * HOP + FFT_SIZE <= row);
    let (b, r) = (batch as int, row as int);
    assert((b - 1) * r + r == b * r) by (nonlinear_arith);
    assert(0 <= b * r <= 0x7fff_ffff * 0x7fff_ffff) by (nonlinear_arith)
        requires
            0 <= b <= 0x7fff_ffff,
            0 <= r <= 0x7fff_ffff,
    ;
}

impl MelSpectrogram {
    /// The window has a weight for each point of a spectrum, and the basis a row for each
    /// magnitude and a column for each band.
    pub open spec fn conforms(self) -> bool {
        &&& volume(self.hann_window.shape@) == FFT_SIZE
        &&& self.mel_basis.shape@ =~= seq![(FFT_SIZE / 2 + 1) as i32, MEL_BINS as i32]
    }

    /// A waveform has a mel frame for each whole hop.
    pub proof fn lemma_frames(self, audio: Tensor)
        requires
            self.conforms(),
            valid(audio.shape),
            audio.shape.len() == 2,
            PAD < audio.shape[1],
            audio.shape[1] + 2 * PAD <= i32::MAX,
        ensures
            is_signal(
                self.apply(audio),
                audio.shape[0] as int,
                audio.shape[1] as int / HOP as int,
                MEL_BINS as int,
            ),
    {
        reveal(reshape_shape);
        reveal(rfft_shape);
        lemma_framed(audio);
        let f = framed(audio)->Ok_0;
        lemma_volume3(1, 1, FFT_SIZE);
        let window = reshape(self.hann_window.outcome(), seq![1i32, 1, FFT_SIZE]);
        assert(window is Ok);
        lemma_broadcast3(f.shape, window->Ok_0.shape);
        let windowed = times(Ok(f), window);
        assert(windowed->Ok_0.shape =~= f.shape);
        let spectrum = self.spectrum(audio)->Ok_0;
        assert(spectrum.shape =~= f.shape.update(2, 1025));
        lemma_same_shape(
            BinaryOp::Add,
            unary(UnaryOp::Square, unary(UnaryOp::Real, Ok(spectrum))),
            unary(UnaryOp::Square, unary(UnaryOp::Imag, Ok(spectrum))),
        );
        let m = magnitude(Ok(spectrum));
        let mel = matmul(m, self.mel_basis.outcome());
        lemma_one_matrix(m->Ok_0.shape, self.mel_basis.shape@);
        assert(mel is Ok);
        assert(mel->Ok_0.shape =~= seq![f.shape[0], f.shape[1], MEL_BINS as i32]);
        lemma_with_constant(BinaryOp::Maximum, mel, magnitude_floor());
    }
}

/// The sample of a waveform of `length` samples that stands at position `p`: positions before
/// the first sample and after the last are reflected at it.
pub open spec fn mirror(p: int, length: int) -> int {
    if p < 0 {
        -p
    } else if p >= length {
        2 * (length - 1) - p
    } else {
        p
    }
}

/// The reflected waveform starts [`PAD`] samples before the waveform, and is its own mirror
/// image at each end.
pub proof fn lemma_reflected_element(audio: Tensor, b: int, p: int)
    requires
        audio.shape.len() == 2,
        PAD < audio.shape[1],
        audio.shape[1] + 2 * PAD <= i32::MAX,
        0 <= p < audio.shape[1] + 2 * PAD,
    ensures
        element_of(reflected(audio), seq![b, p]) == element(
            audio,
            seq![b, mirror(p - PAD, audio.shape[1] as int)],
        ),
{
    reveal(slice_shape);
    lemma_reflected(audio);
    let length = audio.shape[1];
    let start = slice(Ok(audio), 1, 1, PAD + 1);
    let left = reverse(start, 1)->Ok_0;
    let end = slice(Ok(audio), 1, length - PAD - 1, length - 1);
    let right = reverse(end, 1)->Ok_0;
    let parts = seq![left, audio, right];
    lemma_three_parts(left, audio, right, 1, p);
    let i = seq![b, p];
    if p < PAD {
        assert(i.update(1, p) =~= i);
        let j = i.update(1, PAD - 1 - p);
        assert(j.update(1, j[1] + 1) =~= seq![b, mirror(p - PAD, length as int)]);
        assert(element(left, i) == element_of(start, j));
    } else if p < PAD + length {
        assert(i.update(1, p - PAD) =~= seq![b, mirror(p - PAD, length as int)]);
    } else {
        let q = p - PAD - length;
        let j = i.update(1, q);
        let k = j.update(1, PAD - 1 - q);
        assert(k.update(1, k[1] + (length - PAD - 1)) =~= seq![b, mirror(p - PAD, length as int)]);
        assert(element(right, j) == element_of(end, k));
    }
}

/// Point `k` of window `t` is the sample [`HOP`] times `t` plus `k` minus [`PAD`] of the
/// waveform, reflected at its ends.
pub proof fn lemma_window_element(audio: Tensor, b: int, t: int, k: int)
    requires
        valid(audio.shape),
        audio.shape.len() == 2,
        PAD < audio.shape[1],
        audio.shape[1] + 2 * PAD <= i32::MAX,
        0 <= b < audio.shape[0],
        0 <= t < audio.shape[1] as int / HOP as int,
        0 <= k < FFT_SIZE,
    ensures
        element_of(framed(audio), seq![b, t, k]) == element(
            audio,
            seq![b, mirror(t * HOP + k - PAD, audio.shape[1] as int)],
        ),
{
    reveal(framed);
    reveal(windows_shape);
    lemma_reflected(audio);
    lemma_framed(audio);
    let padded = reflected(audio)->Ok_0;
    let row = padded.shape[1];
    let p = t * HOP + k;
    lemma_places2(audio.shape[0], row, b, p);
    lemma_reflected_element(audio, b, p);
    assert(padded.shape =~= seq![audio.shape[0], row]);
    assert(element_of(framed(audio), seq![b, t, k]) == element(padded, seq![b, p]));
}

} // verus!
