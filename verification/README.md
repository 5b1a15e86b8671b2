# mlx-vocoders

Inference for two neural vocoders, written in Verus: PC-NSF-HiFiGAN, which follows a given
pitch, and the alias-free Pupu-Vocoder. The library decides everything about an inference
ahead of the device: which weights a checkpoint has to have, which array operation follows
which, what shapes they have, how the device kernels are launched, and why something cannot
be done. What it returns is a `Program`, a list of operations with shapes. Running one takes
one call into MLX for each operation.

## Layout

- `src/shape.rs`, `src/tensor.rs`, `src/program.rs`: shapes, expressions, and programs. A
  program is proved to compute an expression; `src/element.rs` says where the elements of an
  expression come from, and `src/signal.rs` how layers change the shapes of signals.
- `src/weights.rs`, `src/layers.rs`, `src/config.rs`: checkpoints, convolutions, and the
  numbers that both models share.
- `src/mel.rs`, `src/source.rs`, `src/f0.rs`: mel spectrograms, the harmonic source, and the
  alignment of pitch contours.
- `src/pc_nsf.rs`, `src/pupu.rs`, `src/upsampler.rs`: the models. `*_laws.rs` hold what is
  proved of them beyond the contracts: which checkpoints load, which inferences succeed, the
  shapes of the results, that the phases of a resampling stage are a convolution, and, by way
  of `src/substitution.rs`, that a waveform is inferred by its mel spectrogram.
- `src/metal.rs`, `src/kernel_call.rs`: the device kernels, their launches, and the protocols
  of creating and of calling one.
- `src/audio.rs`: WAV files. The codec is `hound`; what it returns is trusted as its doc
  comments say. `src/audio_laws.rs` says what comes back of a waveform that is written, in the
  exact arithmetic of `src/exact.rs`.
- `src/report.rs`, `src/text.rs`: timings, file names and texts.
- `app/`: the same interface on MLX arrays and files.
- `tests/`: tests, among them a small interpreter that runs programs on numbers.

Floating point stays outside: the library fixes which numbers are combined how, not what
their single-precision results are.
