use mlx_vocoders::audio::{
    load_mono_audio, pcm16_plan, save_pcm16_wav, AudioError, AudioFault, Decoded, Mixdown,
    Resampling, SampleFormat, WavHeader,
};
use mlx_vocoders::program::Op;
use mlx_vocoders::tensor::{BinaryOp, PlanError, Scalar, UnaryOp};
use mlx_vocoders::SAMPLE_RATE;

fn wav(spec: hound::WavSpec, samples: &[i32]) -> Vec<u8> {
    let mut bytes = std::io::Cursor::new(Vec::new());
    let mut writer = hound::WavWriter::new(&mut bytes, spec).unwrap();
    for sample in samples {
        writer.write_sample(*sample).unwrap();
    }
    writer.finalize().unwrap();
    bytes.into_inner()
}

#[test]
fn encoded_files_have_the_canonical_header() {
    let bytes = save_pcm16_wav(&[1, -2, 0x1234]).unwrap();
    let mut expected = Vec::new();
    expected.extend_from_slice(b"RIFF");
    expected.extend_from_slice(&42u32.to_le_bytes());
    expected.extend_from_slice(b"WAVEfmt ");
    expected.extend_from_slice(&16u32.to_le_bytes());
    expected.extend_from_slice(&1u16.to_le_bytes());
    expected.extend_from_slice(&1u16.to_le_bytes());
    expected.extend_from_slice(&44_100u32.to_le_bytes());
    expected.extend_from_slice(&88_200u32.to_le_bytes());
    expected.extend_from_slice(&2u16.to_le_bytes());
    expected.extend_from_slice(&16u16.to_le_bytes());
    expected.extend_from_slice(b"data");
    expected.extend_from_slice(&6u32.to_le_bytes());
    expected.extend_from_slice(&[1, 0, 0xfe, 0xff, 0x34, 0x12]);
    assert_eq!(bytes, expected);
}

#[test]
fn a_file_without_samples_can_be_encoded() {
    let bytes = save_pcm16_wav(&[]).unwrap();
    assert_eq!(bytes.len(), 44);
    match load_mono_audio(&bytes).unwrap().decoded {
        Decoded::Int { samples, mix } => {
            assert!(samples.is_empty());
            assert_eq!(mix.frames, 0);
        }
        Decoded::Float => panic!("not a float file"),
    }
}

#[test]
fn reading_gives_back_what_was_written() {
    let samples = [0i16, 1, -1, i16::MAX, i16::MIN, 12345, -12345];
    let bytes = save_pcm16_wav(&samples).unwrap();
    let audio = load_mono_audio(&bytes).unwrap();
    assert_eq!(
        audio.header,
        WavHeader {
            channels: 1,
            sample_rate: SAMPLE_RATE,
            bits_per_sample: 16,
            format: SampleFormat::Int,
        }
    );
    match audio.decoded {
        Decoded::Int { samples: read, mix } => {
            assert_eq!(read, samples.iter().map(|s| *s as i32).collect::<Vec<i32>>());
            assert_eq!(mix.frames, 7);
        }
        Decoded::Float => panic!("not a float file"),
    }
}

#[test]
fn stereo_files_are_mixed_down() {
    let spec = hound::WavSpec {
        channels: 2,
        sample_rate: 48_000,
        bits_per_sample: 24,
        sample_format: hound::SampleFormat::Int,
    };
    let bytes = wav(spec, &[1, 2, 3, -8_388_608, 5, 6]);
    let audio = load_mono_audio(&bytes).unwrap();
    assert_eq!(audio.header.channels, 2);
    assert_eq!(audio.header.sample_rate, 48_000);
    assert_eq!(audio.header.bits_per_sample, 24);
    match audio.decoded {
        Decoded::Int { samples, mix } => {
            assert_eq!(samples, vec![1, 2, 3, -8_388_608, 5, 6]);
            assert_eq!(mix.frames, 3);
            let program = &mix.plan.program;
            assert_eq!(program.shape(0), &vec![3, 2]);
            assert_eq!(program.shape(mix.plan.output), &vec![1, 3]);
            assert!(program
                .nodes
                .iter()
                .any(|node| node.op == Op::Constant(Scalar::PowerOfTwo(23))));
        }
        Decoded::Float => panic!("not a float file"),
    }
}

#[test]
fn float_files_are_left_to_the_caller() {
    let spec = hound::WavSpec {
        channels: 1,
        sample_rate: 44_100,
        bits_per_sample: 32,
        sample_format: hound::SampleFormat::Float,
    };
    let mut bytes = std::io::Cursor::new(Vec::new());
    let mut writer = hound::WavWriter::new(&mut bytes, spec).unwrap();
    writer.write_sample(0.5f32).unwrap();
    writer.finalize().unwrap();
    let audio = load_mono_audio(&bytes.into_inner()).unwrap();
    assert_eq!(audio.header.format, SampleFormat::Float);
    assert!(matches!(audio.decoded, Decoded::Float));
}

#[test]
fn files_that_are_not_wav_are_refused() {
    assert!(matches!(load_mono_audio(&[]).err(), Some(AudioError::Wav(_))));
    assert!(matches!(load_mono_audio(b"RIFX").err(), Some(AudioError::Wav(_))));
    let mut bytes = save_pcm16_wav(&[1, 2, 3]).unwrap();
    bytes.truncate(46);
    assert!(matches!(load_mono_audio(&bytes).err(), Some(AudioError::Wav(_))));
}

#[test]
fn mixdowns_need_whole_frames() {
    let header = |channels: u16| WavHeader {
        channels,
        sample_rate: 48_000,
        bits_per_sample: 24,
        format: SampleFormat::Int,
    };
    assert_eq!(Mixdown::plan(&header(0), 4).err(), Some(AudioFault::NoChannels));
    assert_eq!(Mixdown::plan(&header(3), 4).err(), Some(AudioFault::PartialFrame));
    assert_eq!(Mixdown::plan(&header(2), 4).map(|mix| mix.frames), Ok(2));
}

#[test]
fn waveforms_at_the_right_rate_are_not_resampled() {
    assert_eq!(Resampling::plan(1000, SAMPLE_RATE), None);
}

#[test]
fn resampled_lengths_are_rounded_up() {
    let cases = [(1, 48_000), (48_000, 48_000), (48_001, 48_000), (7, 8_000), (0, 96_000)];
    for (frames, rate) in cases {
        let plan = Resampling::plan(frames, rate).unwrap();
        let expected = (frames as f64 * 44_100.0 / rate as f64).ceil() as u64;
        assert_eq!(plan.target_length, expected);
        assert_eq!(plan.buffer_length, expected + 512);
        assert_eq!(plan.input_length, frames as u64);
    }
    assert_eq!(Resampling::plan(48_001, 48_000).unwrap().target_length, 44_101);
    assert_eq!(
        Resampling::plan(i32::MAX, 1).unwrap().target_length,
        (i32::MAX as f64 * 44_100.0).ceil() as u64
    );
}

#[test]
fn the_resampler_has_to_take_everything() {
    let plan = Resampling::plan(48_000, 48_000).unwrap();
    assert_eq!(plan.processed(48_000, 44_000), Ok(44_000));
    assert_eq!(plan.processed(47_999, 44_000), Err(AudioFault::Unconsumed));
}

#[test]
fn the_resampler_has_to_give_the_right_length() {
    let plan = Resampling::plan(48_000, 48_000).unwrap();
    assert_eq!(plan.drained(44_000, 100), Ok(44_100));
    assert_eq!(
        plan.drained(44_000, 99),
        Err(AudioFault::Length { produced: 44_099, target: 44_100 })
    );
}

#[test]
fn samples_are_clipped_scaled_and_rounded() {
    let plan = pcm16_plan(&vec![1, 1024, 1]).unwrap();
    assert_eq!(plan.program.shape(plan.output), &vec![1024]);
    let ratio = |num: i32| Scalar::Ratio { num, den: 1 };
    let ops: Vec<&Op> = plan.program.nodes.iter().map(|node| &node.op).collect();
    assert_eq!(ops[1], &Op::Reshape { input: 0, dims: vec![1024] });
    assert_eq!(ops[2], &Op::Unary(UnaryOp::Clip(ratio(-1), ratio(1)), 1));
    assert_eq!(ops[3], &Op::Constant(ratio(32_768)));
    assert_eq!(ops[4], &Op::Binary(BinaryOp::Multiply, 2, 3));
    assert_eq!(ops[5], &Op::Unary(UnaryOp::Round, 4));
    assert_eq!(ops[6], &Op::Unary(UnaryOp::Clip(ratio(-32_768), ratio(32_767)), 5));
    assert_eq!(ops[7], &Op::Unary(UnaryOp::ToInt16, 6));
    assert_eq!(ops[8], &Op::Eval(7));
}

#[test]
fn waveforms_with_too_many_samples_are_refused() {
    assert_eq!(pcm16_plan(&vec![2, i32::MAX]).err(), Some(PlanError::Refused));
}
