//! Inference plans for two neural vocoders.
use vstd::prelude::*;

pub mod audio;
pub mod audio_laws;
pub mod config;
pub mod element;
pub mod exact;
pub mod f0;
pub mod f0_laws;
pub mod kernel_call;
pub mod layer_laws;
pub mod layers;
pub mod mel;
pub mod mel_laws;
pub mod metal;
pub mod numbers;
pub mod pc_nsf;
pub mod pc_nsf_laws;
pub mod pc_nsf_values;
pub mod program;
pub mod pupu;
pub mod pupu_laws;
pub mod pupu_mel_laws;
pub mod pupu_values;
pub mod report;
pub mod shape;
pub mod signal;
pub mod source;
pub mod source_laws;
pub mod substitution;
pub mod tensor;
pub mod text;
pub mod upsampler;
pub mod upsampler_laws;
pub mod upsampler_values;
pub mod weights;

verus! {

/// Samples per second of every waveform the vocoders read and write.
pub const SAMPLE_RATE: u32 = 44_100;

/// Waveform samples per mel frame.
pub const HOP_SIZE: usize = 512;

/// Bands of the mel spectrogram.
pub const MEL_BINS: usize = 128;

} // verus!
