use mlx_vocoders::metal::{
    MetalActivationKernel, MetalResampleKernel, ACTIVATION_TILE, ACTIVATION_TILE_SIZE,
};
use mlx_vocoders::program::{Launch, Op, Program};
use mlx_vocoders::pupu::PupuVocoder;
use mlx_vocoders::tensor::{KernelKind, PlanError, Source};
use mlx_vocoders::weights::{LoadError, Weight, WeightTable};

fn weight(name: String, shape: &[i32]) -> Weight {
    Weight { name, shape: shape.to_vec() }
}

fn layer(weights: &mut Vec<Weight>, prefix: &str, shape: [i32; 3]) {
    weights.push(weight(format!("{}.weight", prefix), &shape));
    weights.push(weight(format!("{}.bias", prefix), &shape[..1]));
}

fn activation(weights: &mut Vec<Weight>, prefix: &str, channels: i32) {
    weights.push(weight(format!("{}.act.alpha", prefix), &[channels]));
    weights.push(weight(format!("{}.act.beta", prefix), &[channels]));
    weights.push(weight(format!("{}.upsample.filter", prefix), &[1, 1, 12]));
    weights.push(weight(format!("{}.downsample.lowpass.filter", prefix), &[1, 1, 12]));
}

fn checkpoint() -> WeightTable {
    let mut weights = vec![
        weight("preprocess.mel_basis".to_string(), &[1025, 128]),
        weight("preprocess.hann_window".to_string(), &[2048]),
    ];
    layer(&mut weights, "conv_pre", [1536, 7, 128]);
    let mut channels = 1536;
    for stage in 0..5 {
        let up = format!("ups.{}", stage);
        layer(&mut weights, &format!("{}.convolution_noise", up), [channels, 7, 1536]);
        weights.push(weight(format!("{}.julius_filter", up), &[1, 33]));
        layer(&mut weights, &format!("{}.convolution_after", up), [channels / 2, 1, channels]);
        channels /= 2;
        for (branch, kernel) in [3, 7, 11].into_iter().enumerate() {
            let block = format!("resblocks.{}", stage * 3 + branch);
            for l in 0..3 {
                let shape = [channels, kernel, channels];
                layer(&mut weights, &format!("{}.convs1.{}", block, l), shape);
                layer(&mut weights, &format!("{}.convs2.{}", block, l), shape);
            }
            for n in 0..6 {
                activation(&mut weights, &format!("{}.activations.{}", block, n), channels);
            }
        }
    }
    activation(&mut weights, "activation_post", 48);
    layer(&mut weights, "conv_post", [1, 7, 48]);
    WeightTable { weights }
}

fn without(key: &str) -> WeightTable {
    let mut table = checkpoint();
    table.weights.retain(|w| w.name != key);
    table
}

fn with_shape(key: &str, shape: &[i32]) -> WeightTable {
    let mut table = checkpoint();
    for w in table.weights.iter_mut() {
        if w.name == key {
            w.shape = shape.to_vec();
        }
    }
    table
}

#[test]
fn the_stages_resample_by_their_rates() {
    let model = PupuVocoder::load(&checkpoint()).ok().unwrap();
    assert_eq!(model.upsamplers.len(), 5);
    assert_eq!(model.resblocks.len(), 15);
    let scales: Vec<(i32, i32, i32)> = model
        .upsamplers
        .iter()
        .map(|up| (up.scale_factor, up.total_scale_factor, up.channels))
        .collect();
    assert_eq!(
        scales,
        vec![(8, 8, 1536), (8, 64, 768), (2, 128, 384), (2, 256, 192), (2, 512, 96)]
    );
    assert_eq!(model.resblocks[14].activations.len(), 6);
    assert_eq!(model.conv_post.input_channels, 48);
}

#[test]
fn loading_prepares_the_source_convolutions() {
    let model = PupuVocoder::load(&checkpoint()).ok().unwrap();
    let up = &model.upsamplers[1];
    assert_eq!(up.source_head_weight.shape, vec![1536, 4 * 768]);
    assert_eq!(up.source_tail_weight.shape, vec![1536, 3 * 768]);
    match up.source_head_weight.source {
        Source::Prepared(node) => {
            assert_eq!(model.preparation.shape(node), &vec![1536, 4 * 768]);
            assert!(matches!(model.preparation.nodes[node].op, Op::Eval(_)));
        }
        _ => panic!("not prepared"),
    }
}

#[test]
fn missing_arrays_are_named() {
    for key in [
        "conv_pre.weight",
        "ups.0.convolution_noise.weight",
        "ups.3.julius_filter",
        "ups.4.convolution_after.weight",
        "resblocks.0.convs1.0.weight",
        "resblocks.6.activations.5.act.alpha",
        "resblocks.6.activations.5.act.beta",
        "resblocks.14.activations.0.upsample.filter",
        "resblocks.14.activations.1.downsample.lowpass.filter",
        "activation_post.act.alpha",
        "conv_post.weight",
    ] {
        assert_eq!(
            PupuVocoder::load(&without(key)).err(),
            Some(LoadError::MissingWeight(key.to_string()))
        );
    }
    assert_eq!(
        PupuVocoder::load(&without("preprocess.hann_window")).err(),
        Some(LoadError::MissingPreprocess("preprocess.hann_window".to_string()))
    );
}

#[test]
fn source_convolutions_need_a_bias() {
    assert_eq!(
        PupuVocoder::load(&without("ups.2.convolution_noise.bias")).err(),
        Some(LoadError::MissingBias)
    );
}

#[test]
fn source_convolutions_of_another_shape_are_refused() {
    let table = with_shape("ups.2.convolution_noise.weight", &[384, 6, 1536]);
    assert_eq!(PupuVocoder::load(&table).err(), Some(LoadError::Plan(PlanError::Refused)));
}

#[test]
fn the_waveform_is_cut_to_the_target() {
    let model = PupuVocoder::load(&checkpoint()).ok().unwrap();
    for (target, length) in [(44_100, 44_032), (44_032, 44_032), (1000, 1000), (0, 0)] {
        let plan = model.infer(&vec![1, 44_100], target).unwrap();
        assert_eq!(plan.program.shape(plan.output), &vec![1, length, 1]);
    }
}

#[test]
fn a_mel_spectrogram_can_be_given() {
    let model = PupuVocoder::load(&checkpoint()).ok().unwrap();
    let plan = model.infer_mel(&vec![1, 86, 128], 44_100).unwrap();
    assert_eq!(plan.program.shape(plan.output), &vec![1, 44_032, 1]);
    assert_eq!(
        model.infer_mel(&vec![1, 86, 80], 44_100).err(),
        Some(PlanError::Refused)
    );
}

#[test]
fn resamplings_fit_the_device_index() {
    let model = PupuVocoder::load(&checkpoint()).ok().unwrap();
    let most = i32::MAX / 49_152;
    assert!(model.infer_mel(&vec![1, most, 128], 0).is_ok());
    assert_eq!(
        model.infer_mel(&vec![1, most + 1, 128], 0).err(),
        Some(PlanError::Refused)
    );
}

#[test]
fn a_mel_basis_may_have_leading_axes() {
    let table = with_shape("preprocess.mel_basis", &[1, 1025, 128]);
    let model = PupuVocoder::load(&table).ok().unwrap();
    let features = model.infer_with_features(&vec![2, 1024]).unwrap();
    assert_eq!(features.program.shape(features.mel), &vec![2, 2, 128]);
    assert_eq!(features.program.shape(features.output), &vec![2, 1024, 1]);
    let table = with_shape("preprocess.mel_basis", &[3, 1025, 128]);
    let model = PupuVocoder::load(&table).ok().unwrap();
    let features = model.infer_with_features(&vec![1, 1024]).unwrap();
    assert_eq!(features.program.shape(features.output), &vec![3, 1024, 1]);
    assert_eq!(model.infer(&vec![2, 1024], 10).err(), Some(PlanError::Refused));
    let table = with_shape("preprocess.mel_basis", &[1025]);
    let model = PupuVocoder::load(&table).ok().unwrap();
    assert_eq!(model.infer(&vec![1, 1024], 10).err(), Some(PlanError::Refused));
}

#[test]
fn a_waveform_is_inferred_by_its_mel_spectrogram() {
    let model = PupuVocoder::load(&checkpoint()).ok().unwrap();
    let mel = model.infer_with_features(&vec![1, 2048]).unwrap().mel;
    let whole = model.infer(&vec![1, 2048], 1000).ok().unwrap();
    let by_mel = model.infer_mel(&vec![1, 4, 128], 1000).ok().unwrap();
    assert_eq!(whole.program.nodes.len(), mel + by_mel.program.nodes.len());
    assert_eq!(whole.output, mel + by_mel.output);
    for (i, node) in by_mel.program.nodes.iter().enumerate().skip(1) {
        let other = &whole.program.nodes[mel + i];
        assert_eq!(node.shape, other.shape);
        let moved: Vec<usize> = node.op.operands().iter().map(|k| mel + k).collect();
        assert_eq!(moved, other.op.operands());
    }
}

#[test]
fn fewer_samples_are_a_prefix() {
    let model = PupuVocoder::load(&checkpoint()).ok().unwrap();
    for target in [0, 1, 1000, 2048, 5000] {
        let plan = model.infer_mel(&vec![1, 4, 128], target).ok().unwrap();
        let length = (target as i32).min(2048);
        assert_eq!(plan.program.shape(plan.output), &vec![1, length, 1]);
        match plan.program.nodes[plan.output].op {
            Op::Slice { input, axis, start, stop } => {
                assert_eq!((input, axis), (plan.output - 1, 1));
                assert_eq!((start, stop), (0, target as i32));
            }
            _ => panic!("not a cut"),
        }
    }
}

#[test]
fn features_hold_every_stage() {
    let model = PupuVocoder::load(&checkpoint()).ok().unwrap();
    let features = model.infer_with_features(&vec![1, 44_100]).unwrap();
    let shape = |node: usize| features.program.shape(node).clone();
    assert_eq!(shape(features.mel), vec![1, 86, 128]);
    assert_eq!(shape(features.conv_pre), vec![1, 86, 1536]);
    assert_eq!(features.resblocks.len(), 15);
    assert_eq!(features.stages.len(), 5);
    let lengths = [8, 64, 128, 256, 512];
    for stage in 0..5 {
        let expected = vec![1, 86 * lengths[stage], 1536 >> (stage + 1)];
        assert_eq!(shape(features.stages[stage]), expected);
        assert_eq!(shape(features.resblocks[stage * 3 + 2]), expected);
    }
    assert_eq!(shape(features.output), vec![1, 44_032, 1]);
}

#[test]
fn every_stage_starts_its_kernels() {
    let model = PupuVocoder::load(&checkpoint()).ok().unwrap();
    let features = model.infer_with_features(&vec![1, 1024]).unwrap();
    let count = |kind: KernelKind| {
        features
            .program
            .nodes
            .iter()
            .filter(|node| match &node.op {
                Op::Kernel { launch, .. } => launch.kernel == kind,
                _ => false,
            })
            .count()
    };
    assert_eq!(count(KernelKind::Resample), 5);
    assert_eq!(count(KernelKind::Activation), 15 * 6 + 1);
}

fn launch(p: &Program, node: usize) -> &Launch {
    match &p.nodes[node].op {
        Op::Kernel { launch, .. } => launch,
        _ => panic!("not a kernel"),
    }
}

fn activate(shape: &[i32]) -> Result<(Program, usize), PlanError> {
    let mut p = Program::new();
    let x = p.leaf(Source::Input(0), &shape.to_vec());
    let a = p.leaf(Source::Input(1), &vec![4]);
    let f = p.leaf(Source::Input(2), &vec![12]);
    let node = MetalActivationKernel::new().forward(&mut p, x, a, a, f, f)?;
    Ok((p, node))
}

#[test]
fn activations_are_launched_in_tiles() {
    for (length, threads) in [(1, 128), (128, 128), (129, 256), (1000, 1024)] {
        let (p, node) = activate(&[2, length, 4]).ok().unwrap();
        let launch = launch(&p, node);
        assert_eq!(launch.grid, [threads, 4, 2]);
        assert_eq!(launch.thread_group, [128, 1, 1]);
        assert_eq!(launch.output_shape, vec![2, length, 4]);
        let args: Vec<(&str, i32)> =
            launch.template_args.iter().map(|arg| (arg.name, arg.value)).collect();
        assert_eq!(
            args,
            vec![
                ("TILE_SIZE", 128),
                ("ACTIVATION_TILE_SIZE", 267),
                ("LENGTH", length),
                ("CHANNELS", 4),
            ]
        );
    }
}

#[test]
fn activations_check_their_input() {
    assert_eq!(activate(&[2, 4]).err(), Some(PlanError::ActivationRank));
    assert_eq!(activate(&[2, 0, 4]).err(), Some(PlanError::ActivationEmpty));
    assert_eq!(activate(&[2, 4, 0]).err(), Some(PlanError::ActivationEmpty));
    assert_eq!(activate(&[1, i32::MAX, 1]).err(), Some(PlanError::Refused));
}

fn resample(
    input: &[i32],
    source: &[i32],
    filter: &[i32],
    scale: i32,
) -> Result<(Program, usize), PlanError> {
    let mut p = Program::new();
    let x = p.leaf(Source::Input(0), &input.to_vec());
    let s = p.leaf(Source::Input(1), &source.to_vec());
    let f = p.leaf(Source::Input(2), &filter.to_vec());
    let node = MetalResampleKernel::new().forward(&mut p, x, s, f, scale)?;
    Ok((p, node))
}

#[test]
fn resamplings_have_a_thread_for_each_element() {
    let (p, node) = resample(&[2, 3, 5], &[2, 24, 5], &[1, 33], 8).ok().unwrap();
    let launch = launch(&p, node);
    assert_eq!(launch.grid, [240, 1, 1]);
    assert_eq!(launch.thread_group, [256, 1, 1]);
    let args: Vec<(&str, i32)> =
        launch.template_args.iter().map(|arg| (arg.name, arg.value)).collect();
    assert_eq!(
        args,
        vec![
            ("INPUT_LENGTH", 3),
            ("OUTPUT_LENGTH", 24),
            ("CHANNELS", 5),
            ("SCALE_FACTOR", 8),
            ("FILTER_LENGTH", 33),
            ("FILTER_HALF", 16),
        ]
    );
    assert_eq!(p.shape(node), &vec![2, 24, 5]);
}

#[test]
fn resamplings_check_their_inputs() {
    let error = |a: &[i32], b: &[i32], f: &[i32], scale: i32| resample(a, b, f, scale).err();
    assert_eq!(error(&[3, 5], &[2, 24, 5], &[1, 33], 8), Some(PlanError::ResampleRank));
    assert_eq!(error(&[2, 3, 5], &[24, 5], &[1, 33], 8), Some(PlanError::ResampleRank));
    assert_eq!(error(&[1, 3, 5], &[2, 24, 5], &[1, 33], 8), Some(PlanError::ResampleMismatch));
    assert_eq!(error(&[2, 3, 4], &[2, 24, 5], &[1, 33], 8), Some(PlanError::ResampleMismatch));
    assert_eq!(error(&[2, 3, 5], &[2, 24, 5], &[1, 33], 2), Some(PlanError::ResampleLength));
    assert_eq!(error(&[2, 3, 5], &[2, 24, 5], &[33], 8), Some(PlanError::Refused));
}

#[test]
fn kernels_are_named_after_their_inputs() {
    let kernel = MetalActivationKernel::new().kernel;
    assert_eq!(kernel.name, "pupu_activation_1d");
    assert_eq!((kernel.output_name, kernel.header), ("out", ""));
    assert!(kernel.ensure_row_contiguous);
    assert!(!kernel.atomic_outputs);
    assert_eq!(kernel.input_names, vec!["input", "alpha", "beta", "up_filter", "down_filter"]);
    assert!(kernel.source.contains("threadgroup float activation_tile[ACTIVATION_TILE_SIZE];"));
    let kernel = MetalResampleKernel::new().kernel;
    assert_eq!(kernel.name, "pupu_resample_combine");
    assert_eq!(kernel.input_names, vec!["input", "source", "filter"]);
    let result = "out[element] = input_lowpass + source_value - source_lowpass;";
    assert!(kernel.source.contains(result));
}

#[test]
fn resampling_threads_read_inside_their_arrays() {
    let (batch, length, channels, scale, taps) = (2usize, 5usize, 3usize, 8usize, 33i32);
    let output = length * scale;
    for element in 0..batch * output * channels {
        let channel = element % channels;
        let position = element / channels;
        let (time, row) = (position % output, position / output);
        assert_eq!((row * output + time) * channels + channel, element);
        for tap in 0..taps {
            let step = (time as i32 + tap - (taps - 1) / 2).clamp(0, output as i32 - 1) as usize;
            assert!((row * output + step) * channels + channel < batch * output * channels);
            if step % scale == 0 {
                let read = (row * length + step / scale) * channels + channel;
                assert!(read < batch * length * channels);
            }
        }
    }
}

#[test]
fn activation_threads_read_inside_their_tile() {
    let tile = ACTIVATION_TILE * 2 + 11;
    assert_eq!(tile, ACTIVATION_TILE_SIZE);
    for lane in 0..ACTIVATION_TILE {
        for tap in 0..12 {
            assert!(lane * 2 + tap < ACTIVATION_TILE_SIZE);
        }
    }
}
