//! Mel spectrograms in exact arithmetic: logarithms of weighted sums over the spectra of the
//! windows.
use vstd::prelude::*;

use crate::element::{
    element, element_of, lemma_factor_places, lemma_places3, lemma_stretched_element, unravel,
    within, Element,
};
use crate::mel::{
    framed, lemma_framed, lemma_window_element, magnitude, magnitude_floor, mirror, MelSpectrogram,
    FFT_SIZE, HOP, PAD,
};
use crate::numbers::{added, Numbers};
use crate::shape::{lemma_one_matrix, lemma_volume3, reshape_shape, rfft_shape, valid};
use crate::signal::{has_shape, lemma_broadcast3, lemma_same_shape, lemma_with_constant};
use crate::tensor::{
    binary, constant, matmul, plus, reshape, times, unary, BinaryOp, Outcome, Tensor, UnaryOp,
};
use crate::MEL_BINS;

verus! {

impl MelSpectrogram {
    /// The windows, weighted.
    spec fn windowed(self, audio: Tensor) -> Outcome {
        times(framed(audio), reshape(self.hann_window.outcome(), seq![1i32, 1, FFT_SIZE]))
    }

    /// The points of window `t`.
    spec fn points(self, numbers: Numbers, audio: Tensor, b: int, t: int) -> Seq<real> {
        Seq::new(
            FFT_SIZE as nat,
            |j: int|
                numbers.at(audio, seq![b, mirror(t * HOP + j - PAD, audio.shape[1] as int)])
                    * numbers.at(
                    self.hann_window.tensor(),
                    unravel(self.hann_window.shape@, j),
                ),
        )
    }

    /// The shape of the weighted windows.
    proof fn lemma_windowed_shape(self, audio: Tensor)
        requires
            self.conforms(),
            valid(audio.shape),
            audio.shape.len() == 2,
            PAD < audio.shape[1],
            audio.shape[1] + 2 * PAD <= i32::MAX,
        ensures
            ({
                let s = seq![
                    audio.shape[0],
                    (audio.shape[1] as int / HOP as int) as i32,
                    FFT_SIZE,
                ];
                &&& has_shape(framed(audio), s)
                &&& has_shape(self.windowed(audio), s)
                &&& has_shape(
                    reshape(self.hann_window.outcome(), seq![1i32, 1, FFT_SIZE]),
                    seq![1i32, 1, FFT_SIZE],
                )
            }),
    {
        reveal(reshape_shape);
        lemma_framed(audio);
        lemma_volume3(1, 1, FFT_SIZE);
        let f = framed(audio)->Ok_0;
        let window = reshape(self.hann_window.outcome(), seq![1i32, 1, FFT_SIZE]);
        lemma_broadcast3(f.shape, window->Ok_0.shape);
        let s = seq![audio.shape[0], (audio.shape[1] as int / HOP as int) as i32, FFT_SIZE];
        assert(f.shape =~= s);
        assert(self.windowed(audio)->Ok_0.shape =~= s);
    }

    /// The elements of the weighted windows.
    proof fn lemma_windowed(self, numbers: Numbers, audio: Tensor, b: int, t: int, j: int)
        requires
            self.conforms(),
            valid(audio.shape),
            audio.shape.len() == 2,
            PAD < audio.shape[1],
            audio.shape[1] + 2 * PAD <= i32::MAX,
            0 <= b < audio.shape[0],
            0 <= t < audio.shape[1] as int / HOP as int,
            0 <= j < FFT_SIZE,
        ensures
            numbers.of(self.windowed(audio), seq![b, t, j]) == self.points(
                numbers,
                audio,
                b,
                t,
            )[j],
    {
        self.lemma_windowed_shape(audio);
        lemma_window_element(audio, b, t, j);
        let f = framed(audio);
        let window = reshape(self.hann_window.outcome(), seq![1i32, 1, FFT_SIZE]);
        lemma_places3(1, 1, FFT_SIZE, 0, 0, j);
        let at = seq![b, t, j];
        assert(element_of(window, seq![0, 0, j]) == element(
            self.hann_window.tensor(),
            unravel(self.hann_window.shape@, j),
        ));
        lemma_stretched_element(BinaryOp::Multiply, f, window, at, at, seq![0, 0, j]);
        numbers.lemma_binary_value(
            BinaryOp::Multiply,
            element_of(f, at),
            element_of(window, seq![0, 0, j]),
        );
    }

    /// The shapes of the spectra and of their magnitudes.
    proof fn lemma_magnitude_shape(self, audio: Tensor)
        requires
            self.conforms(),
            valid(audio.shape),
            audio.shape.len() == 2,
            PAD < audio.shape[1],
            audio.shape[1] + 2 * PAD <= i32::MAX,
        ensures
            ({
                let s = seq![audio.shape[0], (audio.shape[1] as int / HOP as int) as i32, 1_025];
                &&& has_shape(self.spectrum(audio), s)
                &&& has_shape(magnitude(self.spectrum(audio)), s)
                &&& magnitude(self.spectrum(audio)) == unary(
                    UnaryOp::Sqrt,
                    plus(
                        unary(UnaryOp::Square, unary(UnaryOp::Real, self.spectrum(audio))),
                        unary(UnaryOp::Square, unary(UnaryOp::Imag, self.spectrum(audio))),
                    ),
                )
            }),
    {
        reveal(rfft_shape);
        self.lemma_windowed_shape(audio);
        let s = seq![audio.shape[0], (audio.shape[1] as int / HOP as int) as i32, 1_025];
        let spectrum = self.spectrum(audio);
        assert(spectrum->Ok_0.shape =~= s);
        lemma_same_shape(
            BinaryOp::Add,
            unary(UnaryOp::Square, unary(UnaryOp::Real, spectrum)),
            unary(UnaryOp::Square, unary(UnaryOp::Imag, spectrum)),
        );
    }

    /// The magnitudes of the spectrum of a window.
    proof fn lemma_magnitude(self, numbers: Numbers, audio: Tensor, b: int, t: int, k: int)
        requires
            self.conforms(),
            valid(audio.shape),
            audio.shape.len() == 2,
            PAD < audio.shape[1],
            audio.shape[1] + 2 * PAD <= i32::MAX,
            0 <= b < audio.shape[0],
            0 <= t < audio.shape[1] as int / HOP as int,
            0 <= k < 1_025,
        ensures
            ({
                let xs = self.points(numbers, audio, b, t);
                let (re, im) = (numbers.cosine_part(xs, k), numbers.sine_part(xs, k));
                numbers.of(magnitude(self.spectrum(audio)), seq![b, t, k]) == (numbers.root)(
                    re * re + im * im,
                )
            }),
    {
        self.lemma_windowed_shape(audio);
        self.lemma_magnitude_shape(audio);
        let at = seq![b, t, k];
        let spectrum = self.spectrum(audio);
        let windowed = self.windowed(audio);
        let xs = self.points(numbers, audio, b, t);
        let e = element_of(spectrum, at);
        let points = e->Spectrum_0;
        assert(e == Element::Spectrum(points, k));
        assert(points.len() == FFT_SIZE);
        assert forall|j: int| 0 <= j < points.len() implies numbers.value(#[trigger] points[j])
            == xs[j] by {
            assert(at.drop_last().push(j) =~= seq![b, t, j]);
            assert(points[j] == element_of(windowed, seq![b, t, j]));
            self.lemma_windowed(numbers, audio, b, t, j);
        }
        numbers.lemma_spectrum_value(points, k, xs);
        let (re, im) = (unary(UnaryOp::Real, spectrum), unary(UnaryOp::Imag, spectrum));
        assert(element_of(re, at) == Element::Unary(UnaryOp::Real, Box::new(e)));
        assert(element_of(im, at) == Element::Unary(UnaryOp::Imag, Box::new(e)));
        numbers.lemma_unary(UnaryOp::Square, re, at);
        numbers.lemma_unary(UnaryOp::Square, im, at);
        let (re2, im2) = (unary(UnaryOp::Square, re), unary(UnaryOp::Square, im));
        assert(within(re2->Ok_0.shape, at));
        numbers.lemma_binary(BinaryOp::Add, re2, im2, at);
        assert(element_of(plus(re2, im2), at) is Binary);
        numbers.lemma_unary(UnaryOp::Sqrt, plus(re2, im2), at);
        let y = numbers.sine_part(xs, k);
        assert((-y) * (-y) == y * y) by (nonlinear_arith);
    }

    /// Band `m` of mel frame `t` is the logarithm of the sum over the spectrum of the window
    /// that starts 768 samples before sample 512 times `t`: the magnitudes, each times its
    /// weight in the band. A sum below one in 100000 counts as that. The samples of the window
    /// are reflected at the ends of the waveform, and weighted by the window function.
    pub proof fn lemma_mel_value(self, numbers: Numbers, audio: Tensor, b: int, t: int, m: int)
        requires
            self.conforms(),
            valid(audio.shape),
            audio.shape.len() == 2,
            PAD < audio.shape[1],
            audio.shape[1] + 2 * PAD <= i32::MAX,
            0 <= b < audio.shape[0],
            0 <= t < audio.shape[1] as int / 512,
            0 <= m < 128,
        ensures
            ({
                let length = audio.shape[1] as int;
                let xs = Seq::new(
                    2_048,
                    |j: int|
                        {
                            let p = t * 512 + j - 768;
                            let q = if p < 0 {
                                -p
                            } else if p >= length {
                                2 * (length - 1) - p
                            } else {
                                p
                            };
                            numbers.at(audio, seq![b, q]) * numbers.at(
                                self.hann_window.tensor(),
                                unravel(self.hann_window.shape@, j),
                            )
                        },
                );
                let band = added(
                    Seq::new(
                        1_025,
                        |k: int|
                            (numbers.root)(
                                numbers.cosine_part(xs, k) * numbers.cosine_part(xs, k)
                                    + numbers.sine_part(xs, k) * numbers.sine_part(xs, k),
                            ) * numbers.at(self.mel_basis.tensor(), seq![k, m]),
                    ),
                );
                let least = 1 as real / (100_000 as real);
                numbers.of(self.apply(audio), seq![b, t, m]) == (numbers.logarithm)(
                    if band < least {
                        least
                    } else {
                        band
                    },
                )
            }),
    {
        let length = audio.shape[1] as int;
        self.lemma_magnitude_shape(audio);
        let basis = self.mel_basis.tensor();
        let loud = magnitude(self.spectrum(audio));
        lemma_one_matrix(loud->Ok_0.shape, basis.shape);
        let product = matmul(loud, Ok(basis));
        let frames = (length / HOP as int) as i32;
        assert(product->Ok_0.shape =~= seq![audio.shape[0], frames, MEL_BINS as i32]);
        let at = seq![b, t, m];
        let xs = self.points(numbers, audio, b, t);
        let terms = Seq::new(
            1_025,
            |k: int|
                (numbers.root)(
                    numbers.cosine_part(xs, k) * numbers.cosine_part(xs, k) + numbers.sine_part(
                        xs,
                        k,
                    ) * numbers.sine_part(xs, k),
                ) * numbers.at(basis, seq![k, m]),
        );
        let pairs = element_of(product, at)->Dot_0;
        assert(pairs.len() == 1_025);
        assert forall|k: int| 0 <= k < pairs.len() implies terms[k] == numbers.value(
            (#[trigger] pairs[k]).0,
        ) * numbers.value(pairs[k].1) by {
            lemma_factor_places(loud->Ok_0.shape, basis.shape, b, t, m, k);
            self.lemma_magnitude(numbers, audio, b, t, k);
        }
        numbers.lemma_products_value(pairs, terms);
        assert(numbers.of(product, at) == added(terms));
        lemma_with_constant(BinaryOp::Maximum, product, magnitude_floor());
        numbers.lemma_constant(BinaryOp::Maximum, product, magnitude_floor(), at);
        let raised = binary(BinaryOp::Maximum, product, constant(magnitude_floor()));
        assert(element_of(raised, at) is Binary);
        numbers.lemma_unary(UnaryOp::Log, raised, at);
        let ys = Seq::new(
            2_048,
            |j: int|
                {
                    let p = t * 512 + j - 768;
                    let q = if p < 0 {
                        -p
                    } else if p >= length {
                        2 * (length - 1) - p
                    } else {
                        p
                    };
                    numbers.at(audio, seq![b, q]) * numbers.at(
                        self.hann_window.tensor(),
                        unravel(self.hann_window.shape@, j),
                    )
                },
        );
        assert(ys =~= xs);
        assert(terms =~= Seq::new(
            1_025,
            |k: int|
                (numbers.root)(
                    numbers.cosine_part(ys, k) * numbers.cosine_part(ys, k) + numbers.sine_part(
                        ys,
                        k,
                    ) * numbers.sine_part(ys, k),
                ) * numbers.at(self.mel_basis.tensor(), seq![k, m]),
        ));
    }
}

} // verus!
