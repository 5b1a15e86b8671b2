use std::collections::HashMap;

use mlx_vocoders::audio::{load_mono_audio, pcm16_plan, Decoded, Mixdown, SampleFormat, WavHeader};
use mlx_vocoders::f0::FcpeEstimator;
use mlx_vocoders::mel::MelSpectrogram;
use mlx_vocoders::pc_nsf::PcNsfHifigan;
use mlx_vocoders::program::{Op, Program};
use mlx_vocoders::pupu::PupuVocoder;
use mlx_vocoders::tensor::{BinaryOp, KernelKind, Scalar, Source, UnaryOp};
use mlx_vocoders::weights::{Weight, WeightTable};

#[derive(Clone, Debug)]
struct Array {
    shape: Vec<i32>,
    re: Vec<f32>,
    im: Vec<f32>,
}

fn array(shape: &[i32], re: Vec<f32>) -> Array {
    assert_eq!(shape.iter().map(|n| *n as usize).product::<usize>(), re.len());
    Array { shape: shape.to_vec(), re, im: Vec::new() }
}

fn build(shape: &[i32], f: impl Fn(&[usize]) -> f32) -> Array {
    let count = shape.iter().map(|n| *n as usize).product::<usize>();
    let mut re = Vec::with_capacity(count);
    let mut index = vec![0usize; shape.len()];
    for _ in 0..count {
        re.push(f(&index));
        for axis in (0..shape.len()).rev() {
            index[axis] += 1;
            if index[axis] < shape[axis] as usize {
                break;
            }
            index[axis] = 0;
        }
    }
    array(shape, re)
}

impl Array {
    fn at(&self, index: &[usize]) -> f32 {
        let mut flat = 0;
        for (i, n) in index.iter().zip(&self.shape) {
            flat = flat * *n as usize + i;
        }
        self.re[flat]
    }

    fn stretched(&self, index: &[usize]) -> f32 {
        let skip = index.len() - self.shape.len();
        let inner: Vec<usize> = index[skip..]
            .iter()
            .zip(&self.shape)
            .map(|(i, n)| if *n == 1 { 0 } else { *i })
            .collect();
        self.at(&inner)
    }

    fn map(&self, f: impl Fn(f32) -> f32) -> Array {
        array(&self.shape, self.re.iter().map(|x| f(*x)).collect())
    }
}

fn number(value: Scalar) -> f32 {
    match value {
        Scalar::Ratio { num, den } => num as f32 / den as f32,
        Scalar::Int(n) => n as f32,
        Scalar::PowerOfTwo(n) => 2.0f32.powi(i32::from(n)),
        Scalar::TwoPi => 2.0 * std::f32::consts::PI,
        Scalar::FrameStep => (512.0f32 / 44_100.0) / (160.0f32 / 16_000.0),
    }
}

fn clamp(n: i32, p: i32) -> usize {
    let q = if p < 0 { p + n } else { p };
    q.max(0).min(n) as usize
}

struct Machine<'a> {
    program: &'a Program,
    leaves: HashMap<Source, Array>,
    done: HashMap<usize, Array>,
}

impl<'a> Machine<'a> {
    fn new(program: &'a Program) -> Machine<'a> {
        Machine { program, leaves: HashMap::new(), done: HashMap::new() }
    }

    fn run(&mut self, node: usize) -> Array {
        if let Some(done) = self.done.get(&node) {
            return done.clone();
        }
        let shape = self.program.nodes[node].shape.clone();
        let result = self.compute(node, &shape);
        assert_eq!(result.shape, shape);
        self.done.insert(node, result.clone());
        result
    }

    fn compute(&mut self, node: usize, shape: &[i32]) -> Array {
        let program = self.program;
        match &program.nodes[node].op {
            Op::Leaf(source) => self.leaves[source].clone(),
            Op::Constant(value) => array(&[], vec![number(*value)]),
            Op::Range { start, .. } => build(shape, |i| (*start + i[0] as i32) as f32),
            Op::Zeros { .. } => build(shape, |_| 0.0),
            Op::Unary(op, a) => {
                let x = self.run(*a);
                match op {
                    UnaryOp::Real => array(&x.shape, x.re.clone()),
                    UnaryOp::Imag => array(&x.shape, x.im.clone()),
                    UnaryOp::Square => x.map(|v| v * v),
                    UnaryOp::Sqrt => x.map(f32::sqrt),
                    UnaryOp::Log => x.map(f32::ln),
                    UnaryOp::Floor => x.map(f32::floor),
                    UnaryOp::Round => x.map(f32::round_ties_even),
                    UnaryOp::Sin => x.map(f32::sin),
                    UnaryOp::Tanh => x.map(f32::tanh),
                    UnaryOp::ToFloat32 => x,
                    UnaryOp::ToInt32 | UnaryOp::ToInt16 => x.map(f32::trunc),
                    UnaryOp::LeakyRelu(slope) => {
                        x.map(|v| if v > 0.0 { v } else { v * number(*slope) })
                    }
                    UnaryOp::Clip(low, high) => x.map(|v| v.max(number(*low)).min(number(*high))),
                }
            }
            Op::Binary(op, a, b) => {
                let (x, y) = (self.run(*a), self.run(*b));
                build(shape, |i| {
                    let (u, v) = (x.stretched(i), y.stretched(i));
                    match op {
                        BinaryOp::Add => u + v,
                        BinaryOp::Subtract => u - v,
                        BinaryOp::Multiply => u * v,
                        BinaryOp::Divide => u / v,
                        BinaryOp::Remainder => u.rem_euclid(v),
                        BinaryOp::Maximum => u.max(v),
                        BinaryOp::Minimum => u.min(v),
                    }
                })
            }
            Op::Slice { input, axis, start, .. } => {
                let x = self.run(*input);
                let first = clamp(x.shape[*axis], *start);
                build(shape, |i| {
                    let mut j = i.to_vec();
                    j[*axis] += first;
                    x.at(&j)
                })
            }
            Op::Reverse { input, axis } => {
                let x = self.run(*input);
                build(shape, |i| {
                    let mut j = i.to_vec();
                    j[*axis] = x.shape[*axis] as usize - 1 - j[*axis];
                    x.at(&j)
                })
            }
            Op::Concat { parts, axis } => {
                let parts: Vec<Array> = parts.iter().map(|p| self.run(*p)).collect();
                build(shape, |i| {
                    let mut j = i.to_vec();
                    for part in &parts {
                        let n = part.shape[*axis] as usize;
                        if j[*axis] < n {
                            return part.at(&j);
                        }
                        j[*axis] -= n;
                    }
                    unreachable!()
                })
            }
            Op::Reshape { input, dims } => array(dims, self.run(*input).re),
            Op::ReverseAxes(a) => {
                let x = self.run(*a);
                build(shape, |i| x.at(&[i[2], i[1], i[0]]))
            }
            Op::Windows { input, row, hop, .. } => {
                let x = self.run(*input);
                build(shape, |i| x.re[i[0] * *row as usize + i[1] * *hop as usize + i[2]])
            }
            Op::Stretch { input, .. } => {
                let x = self.run(*input);
                build(shape, |i| x.stretched(i))
            }
            Op::Pad { input, axis, before, .. } => {
                let x = self.run(*input);
                build(shape, |i| {
                    let p = i[*axis] as i32 - *before;
                    if p < 0 || p >= x.shape[*axis] {
                        return 0.0;
                    }
                    let mut j = i.to_vec();
                    j[*axis] = p as usize;
                    x.at(&j)
                })
            }
            Op::MatMul(a, b) => {
                let (x, w) = (self.run(*a), self.run(*b));
                let inner = w.shape[0] as usize;
                let columns = w.shape[1] as usize;
                let mut re = Vec::with_capacity(x.re.len() / inner * columns);
                for row in x.re.chunks(inner) {
                    let mut sums = vec![0.0f32; columns];
                    for (k, v) in row.iter().enumerate() {
                        if *v != 0.0 {
                            let weights = &w.re[k * columns..(k + 1) * columns];
                            for (s, u) in sums.iter_mut().zip(weights) {
                                *s += v * u;
                            }
                        }
                    }
                    re.extend_from_slice(&sums);
                }
                array(shape, re)
            }
            Op::Rfft { input, points } => {
                let x = self.run(*input);
                let n = *points as usize;
                let (mut re, mut im) = (Vec::new(), Vec::new());
                for window in x.re.chunks(n) {
                    for k in 0..n / 2 + 1 {
                        let (mut c, mut s) = (0.0f64, 0.0f64);
                        for (j, v) in window.iter().enumerate() {
                            let turn = (j * k % n) as f64 / n as f64 * 2.0 * std::f64::consts::PI;
                            c += *v as f64 * turn.cos();
                            s -= *v as f64 * turn.sin();
                        }
                        re.push(c as f32);
                        im.push(s as f32);
                    }
                }
                Array { shape: shape.to_vec(), re, im }
            }
            Op::CumSum { input, axis } => {
                let x = self.run(*input);
                build(shape, |i| {
                    let mut j = i.to_vec();
                    let mut sum = 0.0;
                    for p in 0..=i[*axis] {
                        j[*axis] = p;
                        sum += x.at(&j);
                    }
                    sum
                })
            }
            Op::Mean { input, axis } => {
                let x = self.run(*input);
                let n = x.shape[*axis] as usize;
                build(shape, |i| {
                    let mut j = i.to_vec();
                    j.insert(*axis, 0);
                    let mut sum = 0.0;
                    for p in 0..n {
                        j[*axis] = p;
                        sum += x.at(&j);
                    }
                    sum / n as f32
                })
            }
            Op::Pick { input, index, axis } => {
                let (x, at) = (self.run(*input), self.run(*index));
                build(shape, |i| {
                    let mut j = i.to_vec();
                    j[*axis] = at.at(i) as usize;
                    x.at(&j)
                })
            }
            Op::Eval(a) => self.run(*a),
            Op::Conv { .. } | Op::ConvTranspose { .. } | Op::Kernel { .. } => {
                panic!("node {} has to be given", node)
            }
        }
    }
}

fn weight(name: &str, shape: &[i32]) -> Weight {
    Weight { name: name.to_string(), shape: shape.to_vec() }
}

fn close(a: f32, b: f32, tolerance: f32) {
    assert!((a - b).abs() <= tolerance, "{} is not {}", a, b);
}

fn mel_spectrogram() -> MelSpectrogram {
    let table = WeightTable {
        weights: vec![
            weight("preprocess.mel_basis", &[1025, 128]),
            weight("preprocess.hann_window", &[2048]),
        ],
    };
    MelSpectrogram::from_weights(&table).unwrap()
}

#[test]
fn windows_read_the_reflected_waveform() {
    let length = 1600i32;
    let mut p = Program::new();
    let audio = p.leaf(Source::Input(0), &vec![2, length]);
    mel_spectrogram().forward(&mut p, audio).unwrap();
    let node = p.nodes.iter().position(|n| matches!(n.op, Op::Windows { .. })).unwrap();
    let mut machine = Machine::new(&p);
    let value = |i: &[usize]| (i[0] * 10_000 + i[1]) as f32;
    machine.leaves.insert(Source::Input(0), build(&[2, length], value));
    let windows = machine.run(node);
    assert_eq!(windows.shape, vec![2, 3, 2048]);
    for b in 0..2 {
        for t in 0..3 {
            for k in 0..2048 {
                let mut sample = t as i32 * 512 + k as i32 - 768;
                if sample < 0 {
                    sample = -sample;
                }
                if sample >= length {
                    sample = 2 * (length - 1) - sample;
                }
                assert_eq!(windows.at(&[b, t, k]), (b as i32 * 10_000 + sample) as f32);
            }
        }
    }
}

#[test]
fn a_sine_gives_one_bright_band() {
    let length = 1024i32;
    let mut p = Program::new();
    let audio = p.leaf(Source::Input(0), &vec![1, length]);
    let node = mel_spectrogram().forward(&mut p, audio).unwrap();
    let mut machine = Machine::new(&p);
    let turn = |i: usize| i as f32 / 2048.0 * 2.0 * std::f32::consts::PI;
    machine.leaves.insert(
        Source::Input(0),
        build(&[1, length], |i| (turn(i[1] * 32 % 2048)).cos()),
    );
    machine.leaves.insert(
        Source::Weight(0),
        build(&[1025, 128], |i| if i[0] == i[1] { 1.0 } else { 0.0 }),
    );
    machine.leaves.insert(Source::Weight(1), build(&[2048], |i| 0.5 - 0.5 * turn(i[0]).cos()));
    let mel = machine.run(node);
    assert_eq!(mel.shape, vec![1, 2, 128]);
    let row: Vec<f32> = (0..128).map(|k| mel.at(&[0, 0, k])).collect();
    close(row[32], 512.0f32.ln(), 0.05);
    close(row[31], 256.0f32.ln(), 0.05);
    assert_eq!(row[100], 1e-5f32.ln().max(row[100]));
    assert!(row[100] < 1.0);
}

fn pc_checkpoint() -> WeightTable {
    let mut weights = vec![
        weight("preprocess.mel_basis", &[1025, 128]),
        weight("preprocess.hann_window", &[2048]),
        weight("conv_pre.weight", &[512, 7, 128]),
    ];
    let mut channels = 512;
    for (stage, kernel) in [16, 16, 4, 4, 4].into_iter().enumerate() {
        weights.push(weight(&format!("ups.{}.weight", stage), &[channels / 2, kernel, channels]));
        channels /= 2;
        for (branch, kernel) in [3, 7, 11].into_iter().enumerate() {
            for l in 0..3 {
                let block = format!("resblocks.{}", stage * 3 + branch);
                let shape = [channels, kernel, channels];
                weights.push(weight(&format!("{}.convs1.{}.weight", block, l), &shape));
                weights.push(weight(&format!("{}.convs2.{}.weight", block, l), &shape));
            }
        }
    }
    weights.push(weight("source_conv.weight", &[128, 1, 1]));
    weights.push(weight("conv_post.weight", &[1, 7, 16]));
    WeightTable { weights }
}

#[test]
fn the_source_is_a_sine_of_the_summed_pitch() {
    let model = PcNsfHifigan::load(&pc_checkpoint()).unwrap();
    let frames = 5;
    let features = model.infer_with_features(&vec![1, 2600], &vec![1, frames]).unwrap();
    let pitch = [220.0f32, 230.0, 200.0, 440.0, 410.0];
    let mut machine = Machine::new(&features.program);
    machine.leaves.insert(Source::Input(1), array(&[1, frames], pitch.to_vec()));
    let source = machine.run(features.source);
    assert_eq!(source.shape, vec![1, frames * 64, 1]);
    let mut start = 0.0f64;
    for f in 0..frames as usize {
        let s0 = pitch[f] as f64 / 5512.5;
        let change = if f + 1 < frames as usize {
            (pitch[f + 1] - pitch[f]) as f64 / 5512.5
        } else {
            0.0
        };
        let phase = |n: f64| s0 * n + 0.5 * change * n * (n - 1.0) / 64.0;
        for n in 1..=64 {
            let turns = start + phase(n as f64);
            let expected = (turns * 2.0 * std::f64::consts::PI).sin();
            let actual = source.at(&[0, f * 64 + n - 1, 0]);
            close(actual, expected as f32, 1e-3);
        }
        start += phase(64.0);
    }
}

fn pupu_checkpoint() -> WeightTable {
    let mut weights = vec![
        weight("preprocess.mel_basis", &[1025, 128]),
        weight("preprocess.hann_window", &[2048]),
        weight("conv_pre.weight", &[1536, 7, 128]),
    ];
    let mut channels = 1536;
    let activation = |weights: &mut Vec<Weight>, prefix: &str, channels: i32| {
        weights.push(weight(&format!("{}.act.alpha", prefix), &[channels]));
        weights.push(weight(&format!("{}.act.beta", prefix), &[channels]));
        weights.push(weight(&format!("{}.upsample.filter", prefix), &[12]));
        weights.push(weight(&format!("{}.downsample.lowpass.filter", prefix), &[12]));
    };
    for stage in 0..5 {
        let up = format!("ups.{}", stage);
        weights.push(weight(&format!("{}.convolution_noise.weight", up), &[channels, 7, 1536]));
        weights.push(weight(&format!("{}.convolution_noise.bias", up), &[channels]));
        weights.push(weight(&format!("{}.julius_filter", up), &[1, 33]));
        let shape = [channels / 2, 1, channels];
        weights.push(weight(&format!("{}.convolution_after.weight", up), &shape));
        channels /= 2;
        for (branch, kernel) in [3, 7, 11].into_iter().enumerate() {
            let block = format!("resblocks.{}", stage * 3 + branch);
            for l in 0..3 {
                let shape = [channels, kernel, channels];
                weights.push(weight(&format!("{}.convs1.{}.weight", block, l), &shape));
                weights.push(weight(&format!("{}.convs2.{}.weight", block, l), &shape));
            }
            for n in 0..6 {
                activation(&mut weights, &format!("{}.activations.{}", block, n), channels);
            }
        }
    }
    activation(&mut weights, "activation_post", 48);
    weights.push(weight("conv_post.weight", &[1, 7, 48]));
    WeightTable { weights }
}

#[test]
fn the_phases_of_a_stage_are_a_convolution_over_the_spread_source() {
    let table = pupu_checkpoint();
    let model = PupuVocoder::load(&table).ok().unwrap();
    let (frames, total, channels) = (3usize, 512usize, 96usize);
    let noise = table
        .weights
        .iter()
        .position(|w| w.name == "ups.4.convolution_noise.weight")
        .unwrap();
    let taps = |i: &[usize]| ((i[0] * 31 + i[1] * 17 + i[2] * 7) % 23) as f32 - 11.0;
    let weights = build(&[96, 7, 1536], taps);

    let up = &model.upsamplers[4];
    let mut machine = Machine::new(&model.preparation);
    machine.leaves.insert(Source::Weight(noise), weights.clone());
    let mut prepared = HashMap::new();
    for reference in [&up.source_head_weight, &up.source_tail_weight] {
        match reference.source {
            Source::Prepared(node) => {
                prepared.insert(reference.source, machine.run(node));
            }
            _ => panic!("not prepared"),
        }
    }

    let features = model.infer_with_features(&vec![1, 1600]).unwrap();
    let program = &features.program;
    let filtered = program
        .nodes
        .iter()
        .filter_map(|node| match &node.op {
            Op::Kernel { launch, inputs } if launch.kernel == KernelKind::Resample => {
                Some(inputs[1])
            }
            _ => None,
        })
        .last()
        .unwrap();
    let source = build(&[1, 3, 1536], |i| ((i[1] * 5 + i[2] * 3) % 7) as f32 - 3.0);
    let mut machine = Machine::new(program);
    machine.done.insert(features.conv_pre, source.clone());
    machine.leaves.extend(prepared);
    let bias = table
        .weights
        .iter()
        .position(|w| w.name == "ups.4.convolution_noise.bias")
        .unwrap();
    machine.leaves.insert(Source::Weight(bias), build(&[96], |i| i[0] as f32 * 0.25));
    let spread = machine.run(filtered);
    assert_eq!(spread.shape, vec![1, (frames * total) as i32, channels as i32]);

    for time in (0..8).chain(505..520).chain(1020..1040).chain(1528..1536) {
        for o in [0, 1, 50, 95] {
            let mut expected = o as f32 * 0.25;
            for j in 0..7 {
                let position = time as i32 + j as i32 - 3;
                if position >= 0
                    && position < (frames * total) as i32
                    && position % total as i32 == 0
                {
                    for s in 0..1536 {
                        expected += weights.at(&[o, j, s])
                            * source.at(&[0, position as usize / total, s]);
                    }
                }
            }
            close(spread.at(&[0, time, o]), expected, 1e-2);
        }
    }
}

#[test]
fn contours_are_interpolated_and_held() {
    let (source_frames, available, target) = (10i32, 8i32, 12i32);
    let plan = FcpeEstimator::load()
        .estimate(&vec![1, source_frames, 1], available, target)
        .unwrap();
    let contour = |i: usize| 100.0 + (i * i) as f32;
    let mut machine = Machine::new(&plan.program);
    machine.leaves.insert(
        Source::Input(0),
        build(&[1, source_frames, 1], |i| contour(i[1])),
    );
    let aligned = machine.run(plan.output);
    assert_eq!(aligned.shape, vec![1, target]);
    let step = (512.0f32 / 44_100.0) / (160.0f32 / 16_000.0);
    let expected = |t: usize| {
        let place = t as f32 * step;
        let left = place.floor() as usize;
        let right = (left + 1).min(source_frames as usize - 1);
        contour(left) + (contour(right) - contour(left)) * (place - left as f32)
    };
    for t in 0..target as usize {
        close(aligned.at(&[0, t]), expected(t.min(available as usize - 1)), 1e-3);
    }
}

#[test]
fn short_contours_are_only_interpolated() {
    let plan = FcpeEstimator::load().estimate(&vec![1, 10], 8, 5).unwrap();
    assert_eq!(plan.program.shape(plan.output), &vec![1, 5]);
    let plan = FcpeEstimator::load().estimate(&vec![1, 10], 8, 8).unwrap();
    assert_eq!(plan.program.shape(plan.output), &vec![1, 8]);
    let plan = FcpeEstimator::load().estimate(&vec![1, 10], 8, -3).unwrap();
    assert_eq!(plan.program.shape(plan.output), &vec![1, 0]);
    assert!(FcpeEstimator::load().estimate(&vec![1, 1], 0, 5).is_err());
    assert!(FcpeEstimator::load().estimate(&vec![2, 10], 8, 5).is_err());
}

#[test]
fn the_estimator_is_set_up_for_speech() {
    let estimator = FcpeEstimator::load();
    assert_eq!(estimator.sample_rate, 16_000);
    assert_eq!(estimator.fft_size, 1_024);
    assert_eq!(estimator.mel_bins, 128);
    assert_eq!((estimator.low, estimator.high), (0, 8_000));
    assert_eq!(estimator.decoder, "local_argmax");
    assert_eq!(number(estimator.threshold), 0.006);
    assert!(estimator.interpolate);
}

#[test]
fn channels_are_averaged() {
    let header = WavHeader {
        channels: 2,
        sample_rate: 44_100,
        bits_per_sample: 32,
        format: SampleFormat::Float,
    };
    let mix = Mixdown::plan(&header, 6).ok().unwrap();
    let mut machine = Machine::new(&mix.plan.program);
    machine.leaves.insert(
        Source::Input(0),
        array(&[3, 2], vec![1.0, 3.0, -1.0, 1.0, 0.5, 0.25]),
    );
    let mono = machine.run(mix.plan.output);
    assert_eq!(mono.shape, vec![1, 3]);
    assert_eq!(mono.re, vec![2.0, 0.0, 0.375]);
}

fn loaded(channels: u16, bits_per_sample: u16, samples: &[i32]) -> Array {
    let spec = hound::WavSpec {
        channels,
        sample_rate: 44_100,
        bits_per_sample,
        sample_format: hound::SampleFormat::Int,
    };
    let mut bytes = std::io::Cursor::new(Vec::new());
    let mut writer = hound::WavWriter::new(&mut bytes, spec).unwrap();
    for sample in samples {
        writer.write_sample(*sample).unwrap();
    }
    writer.finalize().unwrap();
    let audio = load_mono_audio(&bytes.into_inner()).unwrap();
    match audio.decoded {
        Decoded::Int { samples, mix } => {
            let mut machine = Machine::new(&mix.plan.program);
            let values = samples.iter().map(|sample| *sample as f32).collect();
            machine
                .leaves
                .insert(Source::Input(0), array(&[mix.frames, channels as i32], values));
            machine.run(mix.plan.output)
        }
        Decoded::Float => panic!("not a float file"),
    }
}

#[test]
fn integers_are_divided_by_their_full_scale() {
    let mono = loaded(2, 16, &[16_384, 0, -32_768, -32_768]);
    assert_eq!(mono.shape, vec![1, 2]);
    assert_eq!(mono.re, vec![0.25, -1.0]);
    let mono = loaded(1, 24, &[4_194_304, -8_388_608, 0]);
    assert_eq!(mono.shape, vec![1, 3]);
    assert_eq!(mono.re, vec![0.5, -1.0, 0.0]);
    let mono = loaded(1, 8, &[64, -128]);
    assert_eq!(mono.re, vec![0.5, -1.0]);
    let mono = loaded(1, 32, &[i32::MIN, 1 << 30]);
    assert_eq!(mono.re, vec![-1.0, 0.5]);
}

#[test]
fn equal_and_swapped_channels_mix_down_alike() {
    let mono = loaded(1, 16, &[3, -7, 32_767]);
    let doubled = loaded(2, 16, &[3, 3, -7, -7, 32_767, 32_767]);
    assert_eq!(mono.re, doubled.re);
    let stereo = loaded(2, 16, &[3, 100, -7, 25, 32_767, -32_768]);
    let swapped = loaded(2, 16, &[100, 3, 25, -7, -32_768, 32_767]);
    assert_eq!(stereo.re, swapped.re);
}

#[test]
fn written_waveforms_are_read_back() {
    let samples = vec![0.25, -1.0, 1.0, -3.0, 0.3, -0.7, 12_345.0 / 32_768.0, 1.5 / 32_768.0];
    let plan = pcm16_plan(&vec![1, 8, 1]).unwrap();
    let mut machine = Machine::new(&plan.program);
    machine.leaves.insert(Source::Input(0), array(&[1, 8, 1], samples.clone()));
    let pcm: Vec<i32> = machine.run(plan.output).re.iter().map(|x| *x as i32).collect();
    let read = loaded(1, 16, &pcm);
    assert_eq!(read.shape, vec![1, 8]);
    for (x, y) in samples.iter().zip(&read.re) {
        assert!((x.max(-1.0).min(1.0) - y).abs() <= 1.0 / 32_768.0);
    }
    assert_eq!(read.re[0], 0.25);
    assert_eq!(read.re[1], -1.0);
    assert_eq!(read.re[6], 12_345.0 / 32_768.0);
}

#[test]
fn fewer_frames_are_a_prefix() {
    let aligned = |target: i32| {
        let plan = FcpeEstimator::load().estimate(&vec![1, 10], 8, target).unwrap();
        let mut machine = Machine::new(&plan.program);
        machine.leaves.insert(
            Source::Input(0),
            build(&[1, 10], |i| 80.0 + (i[1] * i[1] * 3) as f32),
        );
        machine.run(plan.output).re
    };
    let long = aligned(12);
    for target in 1..12 {
        assert_eq!(aligned(target), long[..target as usize].to_vec());
    }
}

#[test]
fn elements_are_quantized() {
    let plan = pcm16_plan(&vec![1, 7, 1]).unwrap();
    let mut machine = Machine::new(&plan.program);
    let samples = vec![0.0, 1.0, -1.0, 2.0, -3.0, 0.5, 1.5 / 32_768.0];
    machine.leaves.insert(Source::Input(0), array(&[1, 7, 1], samples));
    let pcm = machine.run(plan.output);
    assert_eq!(pcm.re, vec![0.0, 32_767.0, -32_768.0, 32_767.0, -32_768.0, 16_384.0, 2.0]);
}
