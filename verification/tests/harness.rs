use relu_kernels::error::KernelError;
use relu_kernels::harness::{run_with_config, time_algorithm, Kernel, Workload};
use relu_kernels::sparsity::Ratio;

fn sample_workload() -> Workload {
    let weights = vec![vec![1, -2, 0], vec![4, 5, 6], vec![0, 0, -9]];
    Workload::prepare(3, vec![2, -1, 3], weights).unwrap()
}

#[test]
fn the_kernels_have_a_fixed_order() {
    assert_eq!(
        Kernel::all(),
        vec![
            Kernel::BasicMap,
            Kernel::MapWithCheck,
            Kernel::BasicLoop,
            Kernel::LoopWithCheck,
            Kernel::FlattenedLoopWithCheck,
            Kernel::DoubleCheckedLoop,
            Kernel::DenseArray,
            Kernel::SimdLanes,
            Kernel::SparseCsr,
        ]
    );
}

#[test]
fn every_kernel_has_its_label() {
    let labels: Vec<String> = Kernel::all().iter().map(|k| k.label()).collect();
    assert_eq!(
        labels,
        vec![
            "Basic map",
            "Map with check",
            "Basic loop",
            "Loop with check",
            "Flattened loop with check",
            "Double-checked loop",
            "Dense-array vectorized",
            "SIMD-lane kernel",
            "Sparse CSR kernel",
        ]
    );
}

#[test]
fn every_kernel_runs_on_the_rectified_input() {
    let workload = sample_workload();
    for kernel in Kernel::all() {
        let out = workload.run(kernel);
        if kernel == Kernel::MapWithCheck {
            assert_eq!(out, vec![2, 0, 0]);
        } else {
            assert_eq!(out, vec![2, -4, -27]);
        }
    }
}

#[test]
fn a_timed_run_returns_the_kernel_output() {
    let workload = sample_workload();
    let (out, _elapsed) = workload.time(Kernel::SparseCsr);
    assert_eq!(out, vec![2, -4, -27]);
}

#[test]
fn all_kernels_are_timed_in_order() {
    let timings = sample_workload().time_all();
    let kernels: Vec<Kernel> = timings.iter().map(|t| t.kernel).collect();
    assert_eq!(kernels, Kernel::all());
}

#[test]
fn the_workload_reports_its_sparsity() {
    let workload = sample_workload();
    let weights = workload.weights_sparsity().unwrap();
    assert_eq!((weights.numerator(), weights.denominator()), (3, 9));
    let activations = workload.activations_sparsity().unwrap();
    assert_eq!((activations.numerator(), activations.denominator()), (1, 3));
}

#[test]
fn an_empty_workload_runs_and_has_no_sparsity() {
    let workload = Workload::prepare(0, Vec::new(), Vec::new()).unwrap();
    for kernel in Kernel::all() {
        assert_eq!(workload.run(kernel), Vec::<i128>::new());
    }
    assert!(workload.weights_sparsity().is_none());
    assert!(workload.activations_sparsity().is_none());
}

#[test]
fn a_workload_refuses_lengths_that_disagree() {
    let square = vec![vec![1, 2], vec![3, 4]];
    assert!(matches!(
        Workload::prepare(2, vec![1, 2, 3], square.clone()),
        Err(KernelError::DimensionMismatch)
    ));
    assert!(matches!(
        Workload::prepare(3, vec![1, 2, 3], square),
        Err(KernelError::DimensionMismatch)
    ));
    let wide = vec![vec![1, 2, 3], vec![4, 5, 6]];
    assert!(matches!(Workload::prepare(2, vec![1, 2], wide), Err(KernelError::DimensionMismatch)));
}

#[test]
fn a_workload_refuses_ragged_rows() {
    let ragged = vec![vec![1, 2], vec![3]];
    assert!(matches!(Workload::prepare(2, vec![1, 2], ragged), Err(KernelError::ConversionError)));
}

#[test]
fn time_algorithm_returns_the_result_of_the_call() {
    let (value, _elapsed) = time_algorithm(|| 6 * 7);
    assert_eq!(value, 42);
}

#[test]
fn a_configuration_reports_rank_sparsity_and_one_time_per_kernel() {
    let quarter = Ratio::new(1, 4).unwrap();
    let report = run_with_config(5, || -3, || 2, quarter).unwrap();
    assert_eq!(report.rank, 5);
    let kernels: Vec<Kernel> = report.timings.iter().map(|t| t.kernel).collect();
    assert_eq!(kernels, Kernel::all());
    let weights = report.weights_sparsity.unwrap();
    assert_eq!(weights.denominator(), 25);
    assert!(weights.numerator() <= 25);
    let activations = report.activations_sparsity.unwrap();
    assert_eq!((activations.numerator(), activations.denominator()), (5, 5));
}

#[test]
fn a_configuration_with_certain_zeros_has_weight_sparsity_one() {
    let always = Ratio::new(1, 1).unwrap();
    let report = run_with_config(4, || 1, || 9, always).unwrap();
    assert!(report.weights_sparsity.unwrap().is_one());
    assert!(report.activations_sparsity.unwrap().is_zero());
}

#[test]
fn a_configuration_without_zeros_has_weight_sparsity_zero() {
    let never = Ratio::new(0, 1).unwrap();
    let report = run_with_config(4, || 1, || 9, never).unwrap();
    assert!(report.weights_sparsity.unwrap().is_zero());
}

#[test]
fn a_configuration_of_rank_zero_reports_no_sparsity() {
    let half = Ratio::new(1, 2).unwrap();
    let report = run_with_config(0, || 1, || 1, half).unwrap();
    assert_eq!(report.rank, 0);
    assert_eq!(report.timings.len(), 9);
    assert!(report.weights_sparsity.is_none());
    assert!(report.activations_sparsity.is_none());
}

#[test]
fn a_rank_too_large_for_the_layouts_is_refused() {
    let half = Ratio::new(1, 2).unwrap();
    assert!(matches!(
        run_with_config(usize::MAX, || 1, || 1, half),
        Err(KernelError::ConversionError)
    ));
}
