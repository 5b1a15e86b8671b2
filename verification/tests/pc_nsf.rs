use mlx_vocoders::mel::MelSpectrogram;
use mlx_vocoders::pc_nsf::{InferError, PcNsfHifigan};
use mlx_vocoders::program::{Op, Program};
use mlx_vocoders::tensor::{PlanError, Scalar, Source, UnaryOp};
use mlx_vocoders::weights::{LoadError, Weight, WeightTable};
use mlx_vocoders::{HOP_SIZE, MEL_BINS};

fn weight(name: String, shape: &[i32]) -> Weight {
    Weight { name, shape: shape.to_vec() }
}

fn layer(weights: &mut Vec<Weight>, prefix: &str, shape: [i32; 3]) {
    weights.push(weight(format!("{}.weight", prefix), &shape));
    weights.push(weight(format!("{}.bias", prefix), &shape[..1]));
}

fn checkpoint() -> WeightTable {
    let mut weights = vec![
        weight("preprocess.mel_basis".to_string(), &[1025, 128]),
        weight("preprocess.hann_window".to_string(), &[2048]),
    ];
    layer(&mut weights, "conv_pre", [512, 7, 128]);
    let mut channels = 512;
    for (stage, kernel) in [16, 16, 4, 4, 4].into_iter().enumerate() {
        layer(&mut weights, &format!("ups.{}", stage), [channels / 2, kernel, channels]);
        channels /= 2;
        for (branch, kernel) in [3, 7, 11].into_iter().enumerate() {
            for l in 0..3 {
                let index = stage * 3 + branch;
                let shape = [channels, kernel, channels];
                layer(&mut weights, &format!("resblocks.{}.convs1.{}", index, l), shape);
                layer(&mut weights, &format!("resblocks.{}.convs2.{}", index, l), shape);
            }
        }
    }
    layer(&mut weights, "source_conv", [128, 1, 1]);
    layer(&mut weights, "conv_post", [1, 7, 16]);
    WeightTable { weights }
}

fn without(key: &str) -> WeightTable {
    let mut table = checkpoint();
    table.weights.retain(|w| w.name != key);
    table
}

#[test]
fn the_model_has_five_stages_and_fifteen_blocks() {
    let model = PcNsfHifigan::load(&checkpoint()).unwrap();
    assert_eq!(model.upsamplers.len(), 5);
    assert_eq!(model.resblocks.len(), 15);
    let up = &model.upsamplers[0];
    assert_eq!((up.kernel_size, up.stride, up.padding), (16, 8, 4));
    let up = &model.upsamplers[4];
    assert_eq!((up.input_channels, up.output_channels), (32, 16));
    assert_eq!((up.kernel_size, up.stride, up.padding), (4, 2, 1));
    let conv = &model.resblocks[5].convs1[2];
    assert_eq!((conv.kernel_size, conv.padding, conv.dilation), (11, 25, 5));
    let conv = &model.resblocks[5].convs2[2];
    assert_eq!((conv.kernel_size, conv.padding, conv.dilation), (11, 5, 1));
    assert_eq!(model.conv_post.input_channels, 16);
}

#[test]
fn missing_weights_are_named() {
    for key in [
        "conv_pre.weight",
        "ups.0.weight",
        "ups.4.weight",
        "resblocks.0.convs1.0.weight",
        "resblocks.14.convs2.2.weight",
        "source_conv.weight",
        "conv_post.weight",
    ] {
        assert_eq!(
            PcNsfHifigan::load(&without(key)).err(),
            Some(LoadError::MissingWeight(key.to_string()))
        );
    }
    for key in ["preprocess.mel_basis", "preprocess.hann_window"] {
        assert_eq!(
            PcNsfHifigan::load(&without(key)).err(),
            Some(LoadError::MissingPreprocess(key.to_string()))
        );
    }
}

#[test]
fn the_first_missing_weight_is_named() {
    let empty = WeightTable { weights: Vec::new() };
    assert_eq!(
        PcNsfHifigan::load(&empty).err(),
        Some(LoadError::MissingPreprocess("preprocess.mel_basis".to_string()))
    );
    let mut table = without("conv_post.weight");
    table.weights.retain(|w| w.name != "resblocks.7.convs1.1.weight");
    assert_eq!(
        PcNsfHifigan::load(&table).err(),
        Some(LoadError::MissingWeight("resblocks.7.convs1.1.weight".to_string()))
    );
}

#[test]
fn biases_may_be_missing() {
    let mut table = checkpoint();
    table.weights.retain(|w| !w.name.ends_with(".bias"));
    let model = PcNsfHifigan::load(&table).unwrap();
    assert!(model.conv_pre.bias.is_none());
    assert!(model.infer(&vec![1, 44_100], &vec![1, 86]).is_ok());
}

#[test]
fn the_waveform_has_a_hop_of_samples_for_each_frame() {
    let model = PcNsfHifigan::load(&checkpoint()).unwrap();
    for length in [769, 1024, 44_100, 100_000] {
        let frames = length / HOP_SIZE as i32;
        let plan = model.infer(&vec![2, length], &vec![2, frames]).unwrap();
        assert_eq!(
            plan.program.shape(plan.output),
            &vec![2, frames * HOP_SIZE as i32, 1]
        );
        assert!(matches!(plan.program.nodes[plan.output].op, Op::Eval(_)));
    }
}

#[test]
fn short_waveforms_are_refused() {
    let model = PcNsfHifigan::load(&checkpoint()).unwrap();
    assert_eq!(
        model.infer(&vec![1, 100], &vec![1, 1]).err(),
        Some(InferError::Plan(PlanError::Refused))
    );
}

#[test]
fn a_contour_of_another_length_is_refused() {
    let model = PcNsfHifigan::load(&checkpoint()).unwrap();
    assert_eq!(
        model.infer(&vec![1, 44_100], &vec![1, 85]).err(),
        Some(InferError::F0Mismatch { f0_shape: vec![1, 85], mel_shape: vec![1, 86, 128] })
    );
    assert_eq!(
        model.infer(&vec![1, 44_100], &vec![86]).err(),
        Some(InferError::F0Mismatch { f0_shape: vec![86], mel_shape: vec![1, 86, 128] })
    );
}

#[test]
fn intermediate_results_are_kept_on_request() {
    let model = PcNsfHifigan::load(&checkpoint()).unwrap();
    let features = model.infer_with_features(&vec![1, 44_100], &vec![1, 86]).unwrap();
    let shape = |node: usize| features.program.shape(node).clone();
    assert_eq!(shape(features.mel), vec![1, 86, MEL_BINS as i32]);
    assert_eq!(shape(features.f0), vec![1, 86]);
    assert_eq!(shape(features.source), vec![1, 86 * 64, 1]);
    assert_eq!(shape(features.conv_pre), vec![1, 86, 512]);
    assert_eq!(features.resblocks.len(), 15);
    assert_eq!(features.stages.len(), 5);
    let lengths = [8, 64, 128, 256, 512];
    for stage in 0..5 {
        let expected = vec![1, 86 * lengths[stage], 512 >> (stage + 1)];
        assert_eq!(shape(features.stages[stage]), expected);
        for branch in 0..3 {
            assert_eq!(shape(features.resblocks[stage * 3 + branch]), expected);
        }
    }
    assert_eq!(shape(features.output), vec![1, 86 * 512, 1]);
}

#[test]
fn keeping_results_does_not_change_the_program() {
    let model = PcNsfHifigan::load(&checkpoint()).unwrap();
    let plan = model.infer(&vec![1, 44_100], &vec![1, 86]).unwrap();
    let features = model.infer_with_features(&vec![1, 44_100], &vec![1, 86]).unwrap();
    assert_eq!(plan.output, features.output);
    assert_eq!(plan.program.nodes.len(), features.program.nodes.len());
    for (a, b) in plan.program.nodes.iter().zip(&features.program.nodes) {
        assert_eq!(a.op, b.op);
        assert_eq!(a.shape, b.shape);
    }
}

fn depends_on(program: &Program, node: usize, source: Source) -> bool {
    let op = &program.nodes[node].op;
    *op == Op::Leaf(source) || op.operands().iter().any(|i| depends_on(program, *i, source))
}

#[test]
fn the_pitch_enters_at_the_second_stage() {
    let model = PcNsfHifigan::load(&checkpoint()).unwrap();
    let features = model.infer_with_features(&vec![1, 1024], &vec![1, 2]).unwrap();
    let program = &features.program;
    for node in [features.mel, features.conv_pre]
        .iter()
        .chain(&features.resblocks[..3])
        .chain(&features.stages[..1])
    {
        assert!(!depends_on(program, *node, Source::Input(1)));
    }
    assert!(depends_on(program, features.stages[1], Source::Input(1)));
    assert!(depends_on(program, features.source, Source::Input(1)));
    assert!(!depends_on(program, features.source, Source::Input(0)));
    for i in 0..checkpoint().weights.len() {
        assert!(!depends_on(program, features.source, Source::Weight(i)));
    }
}

#[test]
fn slopes_differ_inside_and_at_the_end() {
    let model = PcNsfHifigan::load(&checkpoint()).unwrap();
    let plan = model.infer(&vec![1, 1024], &vec![1, 2]).unwrap();
    let slopes: Vec<Scalar> = plan
        .program
        .nodes
        .iter()
        .filter_map(|node| match node.op {
            Op::Unary(UnaryOp::LeakyRelu(slope), _) => Some(slope),
            _ => None,
        })
        .collect();
    assert_eq!(slopes.len(), 5 + 15 * 6 + 1);
    let inner = Scalar::Ratio { num: 1, den: 10 };
    assert!(slopes[..95].iter().all(|slope| *slope == inner));
    assert_eq!(slopes[95], Scalar::Ratio { num: 1, den: 100 });
}

#[test]
fn mel_frames_are_whole_hops() {
    let mel = MelSpectrogram::from_weights(&checkpoint()).unwrap();
    for (length, frames) in [(769, 1), (1023, 1), (1024, 2), (44_100, 86)] {
        let mut p = Program::new();
        let audio = p.leaf(Source::Input(0), &vec![3, length]);
        let node = mel.forward(&mut p, audio).unwrap();
        assert_eq!(p.shape(node), &vec![3, frames, 128]);
    }
}

#[test]
fn a_basis_of_another_size_is_refused() {
    let mut table = checkpoint();
    table.weights[0].shape = vec![513, 128];
    let mel = MelSpectrogram::from_weights(&table).unwrap();
    let mut p = Program::new();
    let audio = p.leaf(Source::Input(0), &vec![1, 44_100]);
    assert_eq!(mel.forward(&mut p, audio), Err(PlanError::Refused));
}
