//! The device kernels: their sources, and how they are started.
use vstd::prelude::*;

use crate::program::{operand, operands, Launch, Program, TemplateArg};
use crate::shape::{copy_shape, element_count, lemma_volume3, valid, volume};
use crate::tensor::{launched, KernelKind, LaunchView, Outcome, PlanError, Tensor};

verus! {

/// The name under which a kernel returns its result.
pub const OUTPUT_NAME: &'static str = "out";

/// The code before a kernel.
pub const EMPTY: &'static str = "";

/// What the device compiles for one kernel.
#[derive(Debug, PartialEq, Eq)]
pub struct MetalKernel {
    pub name: &'static str,
    pub input_names: Vec<&'static str>,
    pub output_name: &'static str,
    pub source: &'static str,
    /// The code before the kernel.
    pub header: &'static str,
    /// Whether inputs are copied first where their rows are not contiguous.
    pub ensure_row_contiguous: bool,
    /// Whether threads may add to the same element of the result.
    pub atomic_outputs: bool,
}

impl MetalKernel {
    /// The kernel has one result, no code before it, and reads contiguous inputs.
    pub open spec fn wf(self) -> bool {
        &&& self.output_name@ == OUTPUT_NAME@
        &&& self.header@ == EMPTY@
        &&& self.ensure_row_contiguous
        &&& !self.atomic_outputs
    }

    /// A kernel with one result, of which each thread writes its own elements, and which reads
    /// contiguous inputs.
    pub fn new(name: &'static str, input_names: Vec<&'static str>, source: &'static str) -> (r:
        MetalKernel)
        ensures
            r.name == name,
            r.input_names == input_names,
            r.source == source,
            r.wf(),
    {
        MetalKernel {
            name,
            input_names,
            output_name: OUTPUT_NAME,
            source,
            header: EMPTY,
            ensure_row_contiguous: true,
            atomic_outputs: false,
        }
    }
}

/// Time steps that one group of threads computes.
pub const ACTIVATION_TILE: i32 = 128;

/// Intermediate values that one group of threads shares: two per time step, and the
/// reach of the second filter.
pub const ACTIVATION_TILE_SIZE: i32 = ACTIVATION_TILE * 2 + 11;

/// Threads of one group of the resampling kernel.
pub const RESAMPLE_GROUP: i32 = 256;

/// The activation kernel: doubles the rate, applies the periodic activation averaged
/// between neighbouring values, and halves the rate.
pub const ACTIVATION_SOURCE: &'static str = "
    uint lane = thread_index_in_threadgroup;
    uint block = threadgroup_position_in_grid.x;
    uint channel = threadgroup_position_in_grid.y;
    uint batch = threadgroup_position_in_grid.z;
    uint time = block * TILE_SIZE + lane;
    float alpha_value = metal::exp(alpha[channel]);
    float beta_value = metal::exp(beta[channel]);
    threadgroup float activation_tile[ACTIVATION_TILE_SIZE];

    for (uint tile_index = lane; tile_index < ACTIVATION_TILE_SIZE; tile_index += TILE_SIZE) {
        int high_time = int(block * TILE_SIZE * 2 + tile_index) - 5;
        high_time = metal::clamp(high_time, 0, LENGTH * 2 - 1);
        float current = 0.0f;
        float previous = 0.0f;
        int current_raw = 15 + high_time;
        int current_parity = current_raw & 1;
        int current_base = (current_raw - current_parity) / 2;

        for (int index = 0; index < 6; ++index) {
            int tap = current_parity + index * 2;
            int input_time = metal::clamp(current_base - index - 5, 0, LENGTH - 1);
            current += input[(batch * LENGTH + input_time) * CHANNELS + channel] * up_filter[tap];
        }
        if (high_time > 0) {
            int previous_raw = current_raw - 1;
            int previous_parity = previous_raw & 1;
            int previous_base = (previous_raw - previous_parity) / 2;
            for (int index = 0; index < 6; ++index) {
                int tap = previous_parity + index * 2;
                int input_time = metal::clamp(previous_base - index - 5, 0, LENGTH - 1);
                previous += input[(batch * LENGTH + input_time) * CHANNELS + channel] * up_filter[tap];
            }
        }

        current *= 2.0f;
        previous *= 2.0f;
        float delta = current - previous;
        float sum = current + previous;
        float sinc_argument = alpha_value * delta / M_PI_F;
        float sinc_phase = sinc_argument * M_PI_F;
        float sinc = sinc_phase == 0.0f ? 1.0f : metal::sin(sinc_phase) / sinc_phase;
        float periodic = 1.0f - metal::cos(alpha_value * sum) * sinc;
        activation_tile[tile_index] = sum / 2.0f + periodic / ((beta_value + 1e-9f) * 2.0f);
    }

    threadgroup_barrier(mem_flags::mem_threadgroup);
    if (time < LENGTH) {
        float value = 0.0f;
        for (uint tap = 0; tap < 12; ++tap) {
            value += activation_tile[lane * 2 + tap] * down_filter[tap];
        }
        out[(batch * LENGTH + time) * CHANNELS + channel] = value;
    }
";

/// The resampling kernel: low-passes the input and takes the rest from the source.
pub const RESAMPLE_SOURCE: &'static str = "
    uint element = thread_position_in_grid.x;
    uint channel = element % CHANNELS;
    uint position = element / CHANNELS;
    uint time = position % OUTPUT_LENGTH;
    uint batch = position / OUTPUT_LENGTH;
    float input_lowpass = 0.0f;
    float source_lowpass = 0.0f;

    for (int tap = 0; tap < FILTER_LENGTH; ++tap) {
        int filtered_time = metal::clamp(int(time) + tap - FILTER_HALF, 0, OUTPUT_LENGTH - 1);
        float coefficient = filter[tap];
        if (filtered_time % SCALE_FACTOR == 0) {
            int input_time = filtered_time / SCALE_FACTOR;
            input_lowpass += input[(batch * INPUT_LENGTH + input_time) * CHANNELS + channel] * coefficient;
        }
        source_lowpass += source[(batch * OUTPUT_LENGTH + filtered_time) * CHANNELS + channel] * coefficient;
    }

    float source_value = source[(batch * OUTPUT_LENGTH + time) * CHANNELS + channel];
    out[element] = input_lowpass + source_value - source_lowpass;
";

/// The groups of threads that cover `length` time steps.
pub open spec fn tiles(length: int) -> int {
    (length + ACTIVATION_TILE - 1) / ACTIVATION_TILE as int
}

/// Why an activation of this shape cannot start.
pub open spec fn activation_fault(shape: Seq<i32>) -> Option<PlanError> {
    if shape.len() != 3 {
        Some(PlanError::ActivationRank)
    } else if shape[1] <= 0 || shape[2] <= 0 {
        Some(PlanError::ActivationEmpty)
    } else if shape[1] + ACTIVATION_TILE > i32::MAX {
        Some(PlanError::Refused)
    } else {
        None
    }
}

/// How the activation of an array of this shape starts.
pub open spec fn activation_launch(shape: Seq<i32>) -> LaunchView {
    LaunchView {
        kernel: KernelKind::Activation,
        output_shape: shape,
        grid: ((tiles(shape[1] as int) * ACTIVATION_TILE) as i32, shape[2], shape[0]),
        thread_group: (ACTIVATION_TILE, 1, 1),
        template_args: seq![
            ("TILE_SIZE"@, ACTIVATION_TILE),
            ("ACTIVATION_TILE_SIZE"@, ACTIVATION_TILE_SIZE),
            ("LENGTH"@, shape[1]),
            ("CHANNELS"@, shape[2]),
        ],
    }
}

/// The activation of `x` with these parameters and filters.
pub open spec fn activation(
    x: Outcome,
    alpha: Tensor,
    beta: Tensor,
    up_filter: Tensor,
    down_filter: Tensor,
) -> Outcome {
    match x {
        Ok(t) => match activation_fault(t.shape) {
            None => Ok(
                launched(
                    activation_launch(t.shape),
                    seq![t, alpha, beta, up_filter, down_filter],
                ),
            ),
            Some(e) => Err(e),
        },
        Err(e) => Err(e),
    }
}

/// The device kernel of the activations.
#[derive(Debug, PartialEq, Eq)]
pub struct MetalActivationKernel {
    pub kernel: MetalKernel,
}

impl MetalActivationKernel {
    /// The kernel has its name, the names of its inputs, and its source.
    pub open spec fn wf(self) -> bool {
        &&& self.kernel.wf()
        &&& self.kernel.name@ == "pupu_activation_1d"@
        &&& self.kernel.input_names@ == seq!["input", "alpha", "beta", "up_filter", "down_filter"]
        &&& self.kernel.source@ == ACTIVATION_SOURCE@
    }

    /// What the device compiles.
    pub fn new() -> (r: MetalActivationKernel)
        ensures
            r.wf(),
    {
        let input_names: Vec<&'static str> = vec![
            "input",
            "alpha",
            "beta",
            "up_filter",
            "down_filter",
        ];
        assert(input_names@ =~= seq!["input", "alpha", "beta", "up_filter", "down_filter"]);
        MetalActivationKernel {
            kernel: MetalKernel::new("pupu_activation_1d", input_names, ACTIVATION_SOURCE),
        }
    }

    /// How the kernel starts on an array of this shape.
    fn launch(shape: &Vec<i32>) -> (r: Result<Launch, PlanError>)
        requires
            valid(shape@),
        ensures
            match r {
                Ok(launch) => activation_fault(shape@) is None && launch@ == activation_launch(
                    shape@,
                ),
                Err(e) => activation_fault(shape@) == Some(e),
            },
    {
        if shape.len() != 3 {
            return Err(PlanError::ActivationRank);
        }
        let batch: i32 = shape[0];
        let length: i32 = shape[1];
        let channels: i32 = shape[2];
        if length <= 0 || channels <= 0 {
            return Err(PlanError::ActivationEmpty);
        }
        if length > i32::MAX - ACTIVATION_TILE {
            return Err(PlanError::Refused);
        }
        let blocks: i32 = (length + ACTIVATION_TILE - 1) / ACTIVATION_TILE;
        let launch = Launch {
            kernel: KernelKind::Activation,
            output_shape: copy_shape(shape),
            grid: [blocks * ACTIVATION_TILE, channels, batch],
            thread_group: [ACTIVATION_TILE, 1, 1],
            template_args: vec![
                TemplateArg { name: "TILE_SIZE", value: ACTIVATION_TILE },
                TemplateArg { name: "ACTIVATION_TILE_SIZE", value: ACTIVATION_TILE_SIZE },
                TemplateArg { name: "LENGTH", value: length },
                TemplateArg { name: "CHANNELS", value: channels },
            ],
        };
        assert(launch@.template_args =~= activation_launch(shape@).template_args);
        Ok(launch)
    }

    /// Adds an activation to a program.
    pub fn forward(
        &self,
        p: &mut Program,
        input: usize,
        alpha: usize,
        beta: usize,
        up_filter: usize,
        down_filter: usize,
    ) -> (r: Result<usize, PlanError>)
        requires
            old(p).wf(),
            input < old(p)@.len(),
            alpha < old(p)@.len(),
            beta < old(p)@.len(),
            up_filter < old(p)@.len(),
            down_filter < old(p)@.len(),
        ensures
            final(p).yields(
                old(p)@,
                r,
                activation(
                    operand(old(p)@, input),
                    old(p)@[alpha as int],
                    old(p)@[beta as int],
                    old(p)@[up_filter as int],
                    old(p)@[down_filter as int],
                ),
            ),
    {
        proof {
            p.lemma_valid(input as int);
        }
        let launch = Self::launch(p.shape(input))?;
        let inputs: Vec<usize> = vec![input, alpha, beta, up_filter, down_filter];
        assert(operands(p@, inputs@) =~= seq![
            p@[input as int],
            p@[alpha as int],
            p@[beta as int],
            p@[up_filter as int],
            p@[down_filter as int],
        ]);
        Ok(p.kernel(launch, inputs))
    }
}

/// The positions on either side of the middle of a filter.
pub open spec fn filter_half(filter_length: int) -> int {
    if filter_length > 0 {
        (filter_length - 1) / 2
    } else {
        0
    }
}

/// Why a resampling of arrays of these shapes cannot start.
pub open spec fn resample_fault(
    input: Seq<i32>,
    output: Seq<i32>,
    filter: Seq<i32>,
    scale_factor: int,
) -> Option<PlanError> {
    if input.len() != 3 || output.len() != 3 {
        Some(PlanError::ResampleRank)
    } else if input[0] != output[0] || input[2] != output[2] {
        Some(PlanError::ResampleMismatch)
    } else if input[1] * scale_factor != output[1] {
        Some(PlanError::ResampleLength)
    } else if filter.len() < 2 || volume(output) > i32::MAX {
        Some(PlanError::Refused)
    } else {
        None
    }
}

/// How the resampling of an array of shape `input` to shape `output` starts.
pub open spec fn resample_launch(
    input: Seq<i32>,
    output: Seq<i32>,
    filter: Seq<i32>,
    scale_factor: int,
) -> LaunchView {
    LaunchView {
        kernel: KernelKind::Resample,
        output_shape: output,
        grid: (volume(output) as i32, 1, 1),
        thread_group: (RESAMPLE_GROUP, 1, 1),
        template_args: seq![
            ("INPUT_LENGTH"@, input[1]),
            ("OUTPUT_LENGTH"@, output[1]),
            ("CHANNELS"@, output[2]),
            ("SCALE_FACTOR"@, scale_factor as i32),
            ("FILTER_LENGTH"@, filter[1]),
            ("FILTER_HALF"@, filter_half(filter[1] as int) as i32),
        ],
    }
}

/// The low frequencies of `x`, resampled, with the high frequencies of `source`.
pub open spec fn resample(
    x: Outcome,
    source: Outcome,
    filter: Tensor,
    scale_factor: int,
) -> Outcome {
    match (x, source) {
        (Ok(t), Ok(s)) => match resample_fault(t.shape, s.shape, filter.shape, scale_factor) {
            None => Ok(
                launched(
                    resample_launch(t.shape, s.shape, filter.shape, scale_factor),
                    seq![t, s, filter],
                ),
            ),
            Some(e) => Err(e),
        },
        (Ok(_), Err(e)) => Err(e),
        (Err(e), _) => Err(e),
    }
}

/// The device kernel of the resamplers.
#[derive(Debug, PartialEq, Eq)]
pub struct MetalResampleKernel {
    pub kernel: MetalKernel,
}

impl MetalResampleKernel {
    /// The kernel has its name, the names of its inputs, and its source.
    pub open spec fn wf(self) -> bool {
        &&& self.kernel.wf()
        &&& self.kernel.name@ == "pupu_resample_combine"@
        &&& self.kernel.input_names@ == seq!["input", "source", "filter"]
        &&& self.kernel.source@ == RESAMPLE_SOURCE@
    }

    /// What the device compiles.
    pub fn new() -> (r: MetalResampleKernel)
        ensures
            r.wf(),
    {
        let input_names: Vec<&'static str> = vec!["input", "source", "filter"];
        assert(input_names@ =~= seq!["input", "source", "filter"]);
        MetalResampleKernel {
            kernel: MetalKernel::new("pupu_resample_combine", input_names, RESAMPLE_SOURCE),
        }
    }

    /// How the kernel starts on arrays of these shapes.
    fn launch(
        input: &Vec<i32>,
        output: &Vec<i32>,
        filter: &Vec<i32>,
        scale_factor: i32,
    ) -> (r: Result<Launch, PlanError>)
        requires
            valid(input@),
            valid(output@),
            valid(filter@),
        ensures
            match r {
                Ok(launch) => resample_fault(
                    input@,
                    output@,
                    filter@,
                    scale_factor as int,
                ) is None && launch@ == resample_launch(
                    input@,
                    output@,
                    filter@,
                    scale_factor as int,
                ),
                Err(e) => resample_fault(input@, output@, filter@, scale_factor as int) == Some(e),
            },
    {
        if input.len() != 3 || output.len() != 3 {
            return Err(PlanError::ResampleRank);
        }
        if input[0] != output[0] || input[2] != output[2] {
            return Err(PlanError::ResampleMismatch);
        }
        proof {
            let (n, s) = (input@[1] as int, scale_factor as int);
            assert(-0x8000_0000 * 0x7fff_ffff <= n * s <= 0x7fff_ffff * 0x7fff_ffff)
                by (nonlinear_arith)
                requires
                    0 <= n <= 0x7fff_ffff,
                    -0x8000_0000 <= s <= 0x7fff_ffff,
            ;
        }
        if (input[1] as i64) * (scale_factor as i64) != output[1] as i64 {
            return Err(PlanError::ResampleLength);
        }
        if filter.len() < 2 {
            return Err(PlanError::Refused);
        }
        let elements: i32 = match element_count(output) {
            Some(count) => {
                if count > i32::MAX as u64 {
                    return Err(PlanError::Refused);
                }
                count as i32
            },
            None => {
                return Err(PlanError::Refused);
            },
        };
        let filter_length: i32 = filter[1];
        let half: i32 = if filter_length > 0 {
            (filter_length - 1) / 2
        } else {
            0
        };
        let launch = Launch {
            kernel: KernelKind::Resample,
            output_shape: copy_shape(output),
            grid: [elements, 1, 1],
            thread_group: [RESAMPLE_GROUP, 1, 1],
            template_args: vec![
                TemplateArg { name: "INPUT_LENGTH", value: input[1] },
                TemplateArg { name: "OUTPUT_LENGTH", value: output[1] },
                TemplateArg { name: "CHANNELS", value: output[2] },
                TemplateArg { name: "SCALE_FACTOR", value: scale_factor },
                TemplateArg { name: "FILTER_LENGTH", value: filter_length },
                TemplateArg { name: "FILTER_HALF", value: half },
            ],
        };
        assert(launch@.template_args =~= resample_launch(
            input@,
            output@,
            filter@,
            scale_factor as int,
        ).template_args);
        Ok(launch)
    }

    /// Adds a resampling to a program.
    pub fn forward(
        &self,
        p: &mut Program,
        input: usize,
        source: usize,
        filter: usize,
        scale_factor: i32,
    ) -> (r: Result<usize, PlanError>)
        requires
            old(p).wf(),
            input < old(p)@.len(),
            source < old(p)@.len(),
            filter < old(p)@.len(),
        ensures
            final(p).yields(
                old(p)@,
                r,
                resample(
                    operand(old(p)@, input),
                    operand(old(p)@, source),
                    old(p)@[filter as int],
                    scale_factor as int,
                ),
            ),
    {
        proof {
            p.lemma_valid(input as int);
            p.lemma_valid(source as int);
            p.lemma_valid(filter as int);
        }
        let launch = Self::launch(p.shape(input), p.shape(source), p.shape(filter), scale_factor)?;
        let inputs: Vec<usize> = vec![input, source, filter];
        assert(operands(p@, inputs@) =~= seq![
            p@[input as int],
            p@[source as int],
            p@[filter as int],
        ]);
        Ok(p.kernel(launch, inputs))
    }
}

/// Where the element of a signal lies in memory.
pub open spec fn flat_index(shape: Seq<i32>, batch: int, time: int, channel: int) -> int {
    (batch * shape[1] + time) * shape[2] + channel
}

/// The elements of a signal lie in its memory.
pub proof fn lemma_flat_index(shape: Seq<i32>, batch: int, time: int, channel: int)
    requires
        shape.len() == 3,
        0 <= batch < shape[0],
        0 <= time < shape[1],
        0 <= channel < shape[2],
    ensures
        0 <= flat_index(shape, batch, time, channel) < volume(shape),
{
    assert(shape =~= seq![shape[0], shape[1], shape[2]]);
    lemma_volume3(shape[0], shape[1], shape[2]);
    let (b, n, c) = (shape[0] as int, shape[1] as int, shape[2] as int);
    let row = batch * n + time;
    assert(0 <= row && row + 1 <= b * n) by (nonlinear_arith)
        requires
            row == batch * n + time,
            0 <= batch,
            batch + 1 <= b,
            0 <= time,
            time + 1 <= n,
    ;
    assert(0 <= row * c + channel && row * c + channel < b * n * c) by (nonlinear_arith)
        requires
            0 <= row,
            row + 1 <= b * n,
            0 <= channel < c,
    ;
}

/// `x`, or the nearer of the bounds.
pub open spec fn clamped_to(x: int, low: int, high: int) -> int {
    if x < low {
        low
    } else if x > high {
        high
    } else {
        x
    }
}

/// The threads of an activation: their groups cover every time step, and no group lies
/// behind the last.
pub proof fn lemma_activation_grid(shape: Seq<i32>)
    requires
        activation_fault(shape) is None,
    ensures
        ({
            let launch = activation_launch(shape);
            &&& launch.grid.0 == tiles(shape[1] as int) * ACTIVATION_TILE
            &&& shape[1] <= launch.grid.0 < shape[1] + ACTIVATION_TILE
            &&& launch.grid.1 == shape[2]
            &&& launch.grid.2 == shape[0]
        }),
{
}

/// The index arithmetic of [`ACTIVATION_SOURCE`], written out here by hand: nothing ties it to
/// that text.
///
/// The thread at `lane` of group `block` computes one time step. The entries `lane * 2 + tap`
/// of a tile lie inside it, and stand for the twelve steps at twice the rate from five before
/// its own on. A time that is clamped to the input lies inside the input, and the time of the
/// thread inside the output.
pub proof fn lemma_activation_thread(
    shape: Seq<i32>,
    block: int,
    lane: int,
    channel: int,
    batch: int,
    tap: int,
    offset: int,
)
    requires
        activation_fault(shape) is None,
        0 <= block,
        0 <= lane < ACTIVATION_TILE,
        block * ACTIVATION_TILE + lane < shape[1],
        0 <= channel < shape[2],
        0 <= batch < shape[0],
        0 <= tap < 12,
    ensures
        ({
            let time = block * ACTIVATION_TILE + lane;
            let entry = lane * 2 + tap;
            &&& 0 <= entry < ACTIVATION_TILE_SIZE
            &&& block * ACTIVATION_TILE * 2 + entry - 5 == time * 2 + tap - 5
            &&& 0 <= flat_index(
                shape,
                batch,
                clamped_to(offset, 0, shape[1] - 1),
                channel,
            ) < volume(shape)
            &&& 0 <= flat_index(shape, batch, time, channel) < volume(shape)
        }),
{
    lemma_flat_index(shape, batch, clamped_to(offset, 0, shape[1] - 1), channel);
    lemma_flat_index(shape, batch, block * ACTIVATION_TILE + lane, channel);
}

/// The index arithmetic of [`RESAMPLE_SOURCE`], written out here by hand: nothing ties it to
/// that text.
///
/// Thread `element` stands for the element of the output that lies there. The step under tap
/// `tap` of its filter lies inside the source, and inside the input where it is one of the
/// input.
pub proof fn lemma_resample_thread(
    input: Seq<i32>,
    output: Seq<i32>,
    filter: Seq<i32>,
    scale_factor: int,
    element: int,
    tap: int,
)
    requires
        valid(output),
        resample_fault(input, output, filter, scale_factor) is None,
        1 <= scale_factor,
        0 <= element < volume(output),
    ensures
        ({
            let channel = element % output[2] as int;
            let position = element / output[2] as int;
            let time = position % output[1] as int;
            let batch = position / output[1] as int;
            let step = clamped_to(
                time + tap - filter_half(filter[1] as int),
                0,
                output[1] - 1,
            );
            &&& element < resample_launch(input, output, filter, scale_factor).grid.0
            &&& flat_index(output, batch, time, channel) == element
            &&& 0 <= flat_index(output, batch, step, channel) < volume(output)
            &&& step % scale_factor == 0 ==> 0 <= flat_index(
                input,
                batch,
                step / scale_factor,
                channel,
            ) < volume(input)
        }),
{
    assert(output =~= seq![output[0], output[1], output[2]]);
    lemma_volume3(output[0], output[1], output[2]);
    let (b, n, c) = (output[0] as int, output[1] as int, output[2] as int);
    if b * n * c > 0 {
        assert(b > 0 && n > 0 && c > 0) by (nonlinear_arith)
            requires
                b * n * c > 0,
                b >= 0,
                n >= 0,
                c >= 0,
        ;
    }
    let channel = element % c;
    let position = element / c;
    let time = position % n;
    let batch = position / n;
    assert(element == position * c + channel && 0 <= channel < c && 0 <= position && position < b
        * n) by (nonlinear_arith)
        requires
            0 <= element < b * n * c,
            c > 0,
            channel == element % c,
            position == element / c,
    ;
    assert(position == batch * n + time && 0 <= time < n && 0 <= batch && batch < b)
        by (nonlinear_arith)
        requires
            0 <= position < b * n,
            n > 0,
            time == position % n,
            batch == position / n,
    ;
    let step = clamped_to(time + tap - filter_half(filter[1] as int), 0, n - 1);
    lemma_flat_index(output, batch, step, channel);
    if step % scale_factor == 0 {
        let m = input[1] as int;
        let earlier = step / scale_factor;
        assert(0 <= earlier && earlier < m) by (nonlinear_arith)
            requires
                0 <= step < m * scale_factor,
                scale_factor >= 1,
                earlier == step / scale_factor,
        ;
        lemma_flat_index(input, batch, earlier, channel);
    }
}

/// An activation is refused exactly where its input does not have three axes, has no time
/// steps or no channels, or has more time steps than whole groups of threads can count.
pub proof fn lemma_activation_fault(shape: Seq<i32>)
    ensures
        activation_fault(shape) == Some(PlanError::ActivationRank) <==> shape.len() != 3,
        activation_fault(shape) == Some(PlanError::ActivationEmpty) <==> shape.len() == 3 && (
        shape[1] < 1 || shape[2] < 1),
        activation_fault(shape) == Some(PlanError::Refused) <==> shape.len() == 3 && shape[2] >= 1
            && shape[1] > i32::MAX - 128,
        activation_fault(shape) is None <==> shape.len() == 3 && shape[2] >= 1 && 1 <= shape[1]
            <= i32::MAX - 128,
{
}

/// A resampling is refused exactly where an input does not have three axes, they differ in rows
/// or channels, the lengths do not have the ratio of the scale factor, the filter has fewer
/// than two axes, or there are more elements than a device index can hold.
pub proof fn lemma_resample_fault(
    input: Seq<i32>,
    output: Seq<i32>,
    filter: Seq<i32>,
    scale_factor: int,
)
    ensures
        ({
            let fault = resample_fault(input, output, filter, scale_factor);
            let ranks = input.len() == 3 && output.len() == 3;
            let match_up = ranks && input[0] == output[0] && input[2] == output[2];
            let lengths = match_up && output[1] == scale_factor * input[1];
            &&& fault == Some(PlanError::ResampleRank) <==> !ranks
            &&& fault == Some(PlanError::ResampleMismatch) <==> ranks && !match_up
            &&& fault == Some(PlanError::ResampleLength) <==> match_up && !lengths
            &&& fault == Some(PlanError::Refused) <==> lengths && (filter.len() < 2 || volume(
                output,
            ) > i32::MAX)
            &&& fault is None <==> lengths && filter.len() >= 2 && volume(output) <= i32::MAX
        }),
{
    if input.len() == 3 {
        let (a, b) = (input[1] as int, scale_factor);
        assert(a * b == b * a) by (nonlinear_arith);
    }
}

} // verus!
