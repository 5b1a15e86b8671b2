use mlx_vocoders::config::{TOTAL_UPSAMPLE_RATES, UPSAMPLE_RATES};
use mlx_vocoders::mel::{FFT_SIZE, HOP, PAD};
use mlx_vocoders::program::Program;
use mlx_vocoders::shape::{
    broadcast_shapes, convolved_shape, differs_only_on, element_count, is_valid, product_shape,
    reshapes_to, same_shape, sliced_shape, stretches_to, transpose_convolved_shape, windows_fit,
};
use mlx_vocoders::source::SOURCE_UPSAMPLE;
use mlx_vocoders::tensor::{BinaryOp, PlanError, Scalar, Source, UnaryOp};
use mlx_vocoders::weights::{LoadError, Weight, WeightTable};
use mlx_vocoders::{HOP_SIZE, SAMPLE_RATE};

#[test]
fn broadcasting_stretches_ones() {
    assert_eq!(broadcast_shapes(&vec![2, 1, 4], &vec![3, 1]), Some(vec![2, 3, 4]));
    assert_eq!(broadcast_shapes(&vec![2, 3], &vec![4]), None);
    assert_eq!(broadcast_shapes(&vec![], &vec![5, 1]), Some(vec![5, 1]));
    assert_eq!(broadcast_shapes(&vec![0, 3], &vec![1, 3]), Some(vec![0, 3]));
}

#[test]
fn element_counts_are_products() {
    assert_eq!(element_count(&vec![]), Some(1));
    assert_eq!(element_count(&vec![2, 3, 5]), Some(30));
    assert_eq!(element_count(&vec![i32::MAX, i32::MAX, i32::MAX, 0]), Some(0));
    assert_eq!(element_count(&vec![i32::MAX, i32::MAX, i32::MAX]), None);
}

#[test]
fn negative_extents_are_not_valid() {
    assert!(is_valid(&vec![0, 1, 2]));
    assert!(!is_valid(&vec![0, -1]));
}

#[test]
fn slices_clamp_their_ends() {
    let shape = vec![1, 100];
    assert_eq!(sliced_shape(&shape, 1, 1, 769), Some(vec![1, 99]));
    assert_eq!(sliced_shape(&shape, 1, -1, 100), Some(vec![1, 1]));
    assert_eq!(sliced_shape(&shape, 1, 0, -1), Some(vec![1, 99]));
    assert_eq!(sliced_shape(&shape, 1, -669, 99), Some(vec![1, 99]));
    assert_eq!(sliced_shape(&shape, 1, 50, 20), Some(vec![1, 0]));
    assert_eq!(sliced_shape(&shape, 2, 0, 1), None);
}

#[test]
fn reshapes_keep_the_elements() {
    assert!(reshapes_to(&vec![2, 6], &vec![3, 4]));
    assert!(!reshapes_to(&vec![2, 6], &vec![3, 5]));
    assert!(!reshapes_to(&vec![2, 6], &vec![-3, -4]));
    assert!(stretches_to(&vec![1, 1], &vec![1, 7]));
    assert!(!stretches_to(&vec![1, 2], &vec![1, 7]));
    assert!(same_shape(&vec![1, 2], &vec![1, 2]));
    assert!(!same_shape(&vec![1, 2], &vec![1, 2, 1]));
    assert!(differs_only_on(&vec![1, 2, 3], &vec![1, 9, 3], 1));
    assert!(!differs_only_on(&vec![1, 2, 3], &vec![1, 9, 3], 0));
}

#[test]
fn windows_stay_inside_the_array() {
    assert!(windows_fit(&vec![2, 3584], 2, 4, 2048, 3584, 512));
    assert!(!windows_fit(&vec![2, 3583], 2, 4, 2048, 3584, 512));
    assert!(!windows_fit(&vec![1, 298], 1, -2, 2048, 298, 512));
    assert!(windows_fit(&vec![1, 1367], 1, 0, 2048, 1367, 512));
}

#[test]
fn convolutions_have_their_lengths() {
    assert_eq!(convolved_shape(&vec![1, 9, 4], &vec![8, 7, 4], 1, 3, 1), Some(vec![1, 9, 8]));
    assert_eq!(convolved_shape(&vec![1, 9, 4], &vec![4, 11, 4], 1, 25, 5), Some(vec![1, 9, 4]));
    assert_eq!(convolved_shape(&vec![1, 9, 4], &vec![8, 7, 5], 1, 3, 1), None);
    assert_eq!(convolved_shape(&vec![1, 2, 4], &vec![8, 7, 4], 1, 0, 1), None);
    assert_eq!(
        transpose_convolved_shape(&vec![1, 9, 4], &vec![2, 16, 4], 8, 4),
        Some(vec![1, 72, 2])
    );
    assert_eq!(transpose_convolved_shape(&vec![1, 0, 4], &vec![2, 16, 4], 8, 4), None);
}

#[test]
fn matrix_products_broadcast_leading_axes() {
    assert_eq!(product_shape(&vec![2, 3], &vec![3, 4]), Some(vec![2, 4]));
    assert_eq!(product_shape(&vec![5, 2, 3], &vec![3, 4]), Some(vec![5, 2, 4]));
    assert_eq!(product_shape(&vec![5, 2, 3], &vec![1, 3, 4]), Some(vec![5, 2, 4]));
    assert_eq!(product_shape(&vec![1, 2, 3], &vec![7, 5, 3, 4]), Some(vec![7, 5, 2, 4]));
    assert_eq!(product_shape(&vec![5, 2, 3], &vec![6, 3, 4]), None);
    assert_eq!(product_shape(&vec![5, 2, 3], &vec![4, 3]), None);
}

#[test]
fn factors_of_one_axis_are_a_row_or_a_column() {
    assert_eq!(product_shape(&vec![3], &vec![3, 4]), Some(vec![4]));
    assert_eq!(product_shape(&vec![3], &vec![6, 3, 4]), Some(vec![6, 4]));
    assert_eq!(product_shape(&vec![5, 2, 3], &vec![3]), Some(vec![5, 2]));
    assert_eq!(product_shape(&vec![3], &vec![3]), Some(vec![]));
    assert_eq!(product_shape(&vec![], &vec![3]), None);
    assert_eq!(product_shape(&vec![3], &vec![]), None);
}

#[test]
fn programs_refuse_operands_that_do_not_fit() {
    let mut p = Program::new();
    let a = p.leaf(Source::Input(0), &vec![2, 3]);
    let b = p.leaf(Source::Input(1), &vec![4]);
    assert_eq!(p.binary(BinaryOp::Add, a, b), Err(PlanError::Refused));
    assert_eq!(p.concat(vec![a, b], 0), Err(PlanError::Refused));
    assert_eq!(p.matmul(a, b), Err(PlanError::Refused));
    assert_eq!(p.mean(b, 1), Err(PlanError::Refused));
    assert_eq!(p.reverse_axes(a), Err(PlanError::Refused));
    assert_eq!(p.reverse(b, 1), Err(PlanError::Refused));
    assert_eq!(p.cumsum(b, 1), Err(PlanError::Refused));
    assert_eq!(p.pad(b, 0, -1, 0), Err(PlanError::Refused));
    assert_eq!(p.pad(b, 0, i32::MAX, 0), Err(PlanError::Refused));
    assert_eq!(p.zeros(vec![-1]), Err(PlanError::Refused));
    assert_eq!(p.rfft(a, 0), Err(PlanError::Refused));
    assert_eq!(p.pick(a, b, 1), Err(PlanError::Refused));
    assert_eq!(p.nodes.len(), 2);
}

#[test]
fn programs_record_the_shapes_of_their_results() {
    let mut p = Program::new();
    let a = p.leaf(Source::Input(0), &vec![2, 3]);
    let c = p.constant(Scalar::Int(7));
    assert_eq!(p.shape(c), &Vec::<i32>::new());
    let sum = p.binary(BinaryOp::Add, a, c).unwrap();
    assert_eq!(p.shape(sum), &vec![2, 3]);
    let floor = p.unary(UnaryOp::Floor, sum);
    let joined = p.concat(vec![a, floor, a], 0).unwrap();
    assert_eq!(p.shape(joined), &vec![6, 3]);
    let wide = p.pad(joined, 1, 1, 2).unwrap();
    assert_eq!(p.shape(wide), &vec![6, 6]);
    let spectrum = p.rfft(wide, 8).unwrap();
    assert_eq!(p.shape(spectrum), &vec![6, 5]);
    let mean = p.mean(spectrum, 0).unwrap();
    assert_eq!(p.shape(mean), &vec![5]);
    let numbers = p.range(1, 65).unwrap();
    assert_eq!(p.shape(numbers), &vec![64]);
    let none = p.range(0, -5).unwrap();
    assert_eq!(p.shape(none), &vec![0]);
}

#[test]
fn results_are_needed_until_their_last_use() {
    let mut p = Program::new();
    let a = p.leaf(Source::Input(0), &vec![2, 3]);
    let b = p.unary(UnaryOp::Floor, a);
    let c = p.binary(BinaryOp::Add, a, b).unwrap();
    let d = p.concat(vec![c, b, c], 0).unwrap();
    assert_eq!(p.last_uses(), vec![c, d, d, d]);
    assert_eq!(p.nodes[d].op.operands(), vec![c, b, c]);
}

#[test]
fn the_rates_multiply_to_a_hop() {
    let mut total = 1;
    for stage in 0..5 {
        total *= UPSAMPLE_RATES[stage];
        assert_eq!(total, TOTAL_UPSAMPLE_RATES[stage]);
    }
    assert_eq!(total as usize, HOP_SIZE);
    assert_eq!(TOTAL_UPSAMPLE_RATES[1], SOURCE_UPSAMPLE);
    assert_eq!(HOP as usize, HOP_SIZE);
    assert_eq!(PAD, (FFT_SIZE - HOP) / 2);
    assert_eq!(SAMPLE_RATE as i32 * SOURCE_UPSAMPLE * 2 / HOP, 11_025);
}

#[test]
fn the_first_array_of_a_name_is_read() {
    let named = |name: &str, shape: &[i32]| Weight {
        name: name.to_string(),
        shape: shape.to_vec(),
    };
    let table = WeightTable { weights: vec![named("a", &[1]), named("b", &[2]), named("b", &[3])] };
    let found = table.get(&"b".to_string()).unwrap();
    assert_eq!(found.source, Source::Weight(1));
    assert_eq!(found.shape, vec![2]);
    assert_eq!(table.get(&"c".to_string()), None);
    assert_eq!(
        table.weight("c".to_string()),
        Err(LoadError::MissingWeight("c".to_string()))
    );
}
