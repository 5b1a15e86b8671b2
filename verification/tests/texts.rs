use mlx_vocoders::audio::AudioFault;
use mlx_vocoders::kernel_call::KernelError;
use mlx_vocoders::pc_nsf::InferError;
use mlx_vocoders::report::{resblock_file_name, sorted, stage_file_name, summary, Timing};
use mlx_vocoders::tensor::PlanError;
use mlx_vocoders::text::{decimal_text, joined_text, listed_text, numbered_text, signed_text};
use mlx_vocoders::weights::LoadError;

#[test]
fn numbers_are_written_in_decimal() {
    assert_eq!(decimal_text(0), "0");
    assert_eq!(decimal_text(9), "9");
    assert_eq!(decimal_text(1234567890), "1234567890");
    assert_eq!(decimal_text(u64::MAX), "18446744073709551615");
    assert_eq!(signed_text(-42), "-42");
    assert_eq!(signed_text(i32::MIN), "-2147483648");
    assert_eq!(numbered_text("resblocks.", 14, ".convs1."), "resblocks.14.convs1.");
    assert_eq!(joined_text("a", "b"), "ab");
}

#[test]
fn lists_are_written_in_brackets() {
    assert_eq!(listed_text(&vec![]), "[]");
    assert_eq!(listed_text(&vec![7]), "[7]");
    assert_eq!(listed_text(&vec![1, 86, 128]), "[1, 86, 128]");
    assert_eq!(listed_text(&vec![-1, 10]), format!("{:?}", [-1, 10]));
}

#[test]
fn plan_errors_have_their_texts() {
    assert_eq!(PlanError::ActivationRank.message(), "Activation1d 输入必须是三维数组");
    assert_eq!(PlanError::ActivationEmpty.message(), "Activation1d 输入维度必须大于零");
    assert_eq!(PlanError::ResampleRank.message(), "resample 输入必须是三维数组");
    assert_eq!(
        PlanError::ResampleMismatch.message(),
        "resample 的 batch 和 channel 必须一致"
    );
    assert_eq!(
        PlanError::ResampleLength.message(),
        "resample 输出长度与 scale factor 不匹配"
    );
    assert_eq!(PlanError::Refused.message(), "数组形状与运算不匹配");
}

#[test]
fn load_errors_have_their_texts() {
    assert_eq!(
        LoadError::MissingPreprocess("preprocess.mel_basis".to_string()).message(),
        "缺少 preprocess.mel_basis"
    );
    assert_eq!(
        LoadError::MissingWeight("conv_pre.weight".to_string()).message(),
        "缺少权重 conv_pre.weight"
    );
    assert_eq!(LoadError::MissingBias.message(), "Pupu convolution_noise 缺少 bias");
    assert_eq!(LoadError::Plan(PlanError::Refused).message(), "数组形状与运算不匹配");
}

#[test]
fn audio_faults_have_their_texts() {
    assert_eq!(AudioFault::NoChannels.message(), "WAV 文件没有音频通道");
    assert_eq!(AudioFault::PartialFrame.message(), "WAV 样本数无法按通道数整除");
    assert_eq!(AudioFault::TooLong.message(), "WAV 样本数超出数组范围");
    assert_eq!(AudioFault::Unconsumed.message(), "libsoxr 未消费全部输入样本");
    assert_eq!(
        AudioFault::Length { produced: 12, target: 345 }.message(),
        "libsoxr 输出长度 12，期望 345"
    );
}

#[test]
fn other_errors_have_their_texts() {
    assert_eq!(KernelError::Create.message(), "创建 Metal kernel 失败");
    assert_eq!(KernelError::Apply.message(), "执行 Metal kernel 失败");
    let mismatch = InferError::F0Mismatch { f0_shape: vec![1, 85], mel_shape: vec![1, 86, 128] };
    assert_eq!(mismatch.message(), "F0 shape [1, 85] 与 mel shape [1, 86, 128] 不匹配");
    assert_eq!(
        InferError::Plan(PlanError::Refused).message(),
        "数组形状与运算不匹配"
    );
}

#[test]
fn timings_are_summed_up() {
    assert_eq!(summary(&vec![]), None);
    assert_eq!(summary(&vec![7]), Some(Timing { min: 7, median: 7, total: 7 }));
    assert_eq!(summary(&vec![9, 1, 5]), Some(Timing { min: 1, median: 5, total: 15 }));
    assert_eq!(summary(&vec![4, 9, 1, 5]), Some(Timing { min: 1, median: 4, total: 19 }));
    let large = vec![u64::MAX, u64::MAX];
    let expected = Timing { min: u64::MAX, median: u64::MAX, total: 2 * u64::MAX as u128 };
    assert_eq!(summary(&large), Some(expected));
    assert_eq!(sorted(&vec![3, 1, 2, 1]), vec![1, 1, 2, 3]);
}

#[test]
fn files_are_named_after_stage_and_block() {
    assert_eq!(resblock_file_name(0), "stage_0_resblock_0.npy");
    assert_eq!(resblock_file_name(14), "stage_4_resblock_2.npy");
    assert_eq!(stage_file_name(3), "stage_3.npy");
}
