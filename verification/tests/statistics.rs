use binned_statistic::binnedstatistic::{BinnedStatistic, BinnedStatisticExt, MergeError, SampleError};
use binned_statistic::grid::Grid;
use binned_statistic::model::{Ratio, StatError};
use binned_statistic::moments::{mean_from_sums, variance_from};

fn square_grid() -> Grid {
    Grid::from_edges(vec![vec![-10, 0, 10], vec![-10, 0, 10]]).unwrap()
}

#[test]
fn two_samples_in_one_bin() {
    let mut store = BinnedStatistic::new(square_grid());
    assert_eq!(store.add_sample(&vec![5, 6], 1), Ok(()));
    assert_eq!(store.add_sample(&vec![5, 6], 2), Ok(()));
    assert_eq!(store.counts().cells(), vec![0, 0, 0, 2]);
    assert_eq!(store.sum().cells(), vec![0, 0, 0, 3]);
    assert_eq!(
        store.mean(),
        vec![None, None, None, Some(Ratio { num: 3, den: 2 })]
    );
    assert_eq!(store.min(), vec![None, None, None, Some(1)]);
    assert_eq!(store.max(), vec![None, None, None, Some(2)]);
}

#[test]
fn sample_outside_the_grid_changes_nothing() {
    let mut store = BinnedStatistic::new(square_grid());
    assert_eq!(store.add_sample(&vec![50, 50], 7), Err(SampleError::BinNotFound));
    assert_eq!(store.counts().cells(), vec![0, 0, 0, 0]);
    assert_eq!(store.sum().cells(), vec![0, 0, 0, 0]);
    assert_eq!(store.mean(), vec![None, None, None, None]);
    assert_eq!(store.min(), vec![None, None, None, None]);
    assert_eq!(store.max(), vec![None, None, None, None]);
    assert_eq!(store.variance(), vec![Ok(None), Ok(None), Ok(None), Ok(None)]);
}

#[test]
fn outside_sample_after_accepted_ones_changes_nothing() {
    let mut store = BinnedStatistic::new(square_grid());
    store.add_sample(&vec![-5, 5], 4).unwrap();
    store.add_sample(&vec![-5, 5], 9).unwrap();
    let counts = store.counts().cells();
    let sums = store.sum().cells();
    let mins = store.min();
    let maxs = store.max();
    let variance = store.variance();
    assert_eq!(store.add_sample(&vec![10, 0], 3), Err(SampleError::BinNotFound));
    assert_eq!(store.add_sample(&vec![0, -11], 3), Err(SampleError::BinNotFound));
    assert_eq!(store.counts().cells(), counts);
    assert_eq!(store.sum().cells(), sums);
    assert_eq!(store.min(), mins);
    assert_eq!(store.max(), maxs);
    assert_eq!(store.variance(), variance);
}

#[test]
fn single_sample_with_one_degree_given_up_has_zero_variance() {
    let mut store = BinnedStatistic::with_ddof(square_grid(), 1);
    assert_eq!(store.ddof(), 1);
    store.add_sample(&vec![-1, -1], 42).unwrap();
    assert_eq!(
        store.variance(),
        vec![Ok(Some(Ratio { num: 0, den: 1 })), Ok(None), Ok(None), Ok(None)]
    );
    assert_eq!(store.variance_at(&vec![0, 0]), Ok(Some(Ratio { num: 0, den: 1 })));
    assert_eq!(store.variance_at(&vec![1, 0]), Ok(None));
}

#[test]
fn variance_needs_enough_samples() {
    let mut store = BinnedStatistic::with_ddof(square_grid(), 2);
    store.add_sample(&vec![-1, -1], 42).unwrap();
    store.add_sample(&vec![1, 1], 1).unwrap();
    store.add_sample(&vec![1, 1], 2).unwrap();
    store.add_sample(&vec![1, 1], 3).unwrap();
    assert_eq!(
        store.variance(),
        vec![
            Err(StatError::InvalidDegreesOfFreedom),
            Ok(None),
            Ok(None),
            Ok(Some(Ratio { num: 6, den: 3 }))
        ]
    );
    assert_eq!(
        store.variance_at(&vec![0, 0]),
        Err(StatError::InvalidDegreesOfFreedom)
    );
    store.add_sample(&vec![-1, -1], 44).unwrap();
    assert_eq!(store.variance()[0], Ok(Some(Ratio { num: 0, den: 1 })));
    store.add_sample(&vec![-1, -1], 46).unwrap();
    // sum 132, squares 5816: (3 * 5816 - 132 * 132) / (3 * 1) = 24 / 3
    assert_eq!(store.variance()[0], Ok(Some(Ratio { num: 24, den: 3 })));
    assert_eq!(store.variance_at(&vec![0, 0]), Ok(Some(Ratio { num: 24, den: 3 })));
    assert_eq!(store.squares().cells(), vec![5816, 0, 0, 14]);
}

#[test]
fn population_variance_matches_two_pass_value() {
    let values: Vec<i64> = vec![2, 4, 4, 4, 5, 5, 7, 9];
    let mut store = BinnedStatistic::new(square_grid());
    for v in values.iter() {
        store.add_sample(&vec![0, 0], *v).unwrap();
    }
    // mean 5, squared deviations sum to 32, population variance 4
    let n = values.len() as i128;
    let total: i128 = values.iter().map(|v| *v as i128).sum();
    let deviations: i128 = values.iter().map(|v| (n * (*v as i128) - total).pow(2)).sum();
    let variance = store.variance()[3].unwrap().unwrap();
    assert_eq!(variance, Ratio { num: 256, den: 64 });
    assert_eq!(variance.num * n * n * n, deviations * variance.den as i128);
    assert_eq!(store.mean()[3], Some(Ratio { num: 40, den: 8 }));
}

#[test]
fn counts_sum_to_accepted_samples() {
    let samples = vec![
        vec![-10, -10],
        vec![9, 9],
        vec![10, 0],
        vec![0, 0],
        vec![-1, 0],
        vec![0, -1],
        vec![-11, 3],
    ];
    let mut store = BinnedStatistic::new(square_grid());
    let mut accepted = 0usize;
    for (i, s) in samples.iter().enumerate() {
        if store.add_sample(s, i as i64).is_ok() {
            accepted += 1;
        }
    }
    assert_eq!(accepted, 5);
    assert_eq!(store.counts().cells(), vec![1, 1, 1, 2]);
    assert_eq!(store.counts().cells().iter().sum::<usize>(), accepted);
    assert_eq!(store.sum().cells(), vec![0, 4, 5, 4]);
}

#[test]
fn bins_are_left_closed_and_right_open() {
    let grid = Grid::from_edges(vec![vec![0, 5, 20]]).unwrap();
    assert_eq!(grid.ndim(), 1);
    assert_eq!(grid.shape(), &vec![2]);
    assert_eq!(grid.index_of(&vec![0]), Some(vec![0]));
    assert_eq!(grid.index_of(&vec![4]), Some(vec![0]));
    assert_eq!(grid.index_of(&vec![5]), Some(vec![1]));
    assert_eq!(grid.index_of(&vec![19]), Some(vec![1]));
    assert_eq!(grid.index_of(&vec![20]), None);
    assert_eq!(grid.index_of(&vec![-1]), None);
    assert_eq!(grid.axis_edges(0), &vec![0, 5, 20]);
}

#[test]
fn grids_need_increasing_edges() {
    assert!(Grid::from_edges(vec![vec![0, 1], vec![3]]).is_none());
    assert!(Grid::from_edges(vec![vec![0, 0]]).is_none());
    assert!(Grid::from_edges(vec![vec![2, 1, 3]]).is_none());
    assert!(Grid::from_edges(vec![vec![]]).is_none());
    assert!(Grid::from_edges(vec![vec![i64::MIN, 0, i64::MAX]]).is_some());
    assert!(Grid::from_edges(vec![]).is_some());
}

#[test]
fn grid_without_axes_has_one_bin() {
    let grid = Grid::from_edges(vec![]).unwrap();
    let mut store = BinnedStatistic::new(grid);
    assert_eq!(store.ndim(), 0);
    store.add_sample(&vec![], 5).unwrap();
    assert_eq!(store.counts().cells(), vec![1]);
    assert_eq!(store.sum().cells(), vec![5]);
}

#[test]
fn cells_are_in_row_major_order() {
    let grid = Grid::from_edges(vec![vec![0, 1, 2], vec![0, 1, 2, 3], vec![0, 1, 2]]).unwrap();
    assert_eq!(grid.shape(), &vec![2, 3, 2]);
    let mut store = BinnedStatistic::new(grid);
    assert_eq!(store.ndim(), 3);
    store.add_sample(&vec![1, 2, 0], 8).unwrap();
    store.add_sample(&vec![0, 1, 1], -3).unwrap();
    let mut counts = vec![0usize; 12];
    counts[10] = 1;
    counts[3] = 1;
    let mut sums = vec![0i64; 12];
    sums[10] = 8;
    sums[3] = -3;
    assert_eq!(store.counts().cells(), counts);
    assert_eq!(store.sum().cells(), sums);
    assert_eq!(store.min()[3], Some(-3));
    assert_eq!(store.max()[10], Some(8));
    assert_eq!(store.min()[0], None);
}

#[test]
fn extrema_follow_the_values() {
    let mut store = BinnedStatistic::new(square_grid());
    for v in [5, -7, 12, 0] {
        store.add_sample(&vec![-3, -3], v).unwrap();
    }
    assert_eq!(store.min()[0], Some(-7));
    assert_eq!(store.max()[0], Some(12));
    let mut positive = BinnedStatistic::new(square_grid());
    positive.add_sample(&vec![-3, -3], 9).unwrap();
    assert_eq!(positive.min()[0], Some(9));
    assert_eq!(positive.max()[0], Some(9));
}

#[test]
fn full_bin_turns_sample_away() {
    let mut store = BinnedStatistic::new(square_grid());
    assert_eq!(store.add_sample(&vec![1, 1], i64::MAX), Ok(()));
    assert_eq!(store.add_sample(&vec![1, 1], 1), Err(SampleError::Overflow));
    assert_eq!(store.counts().cells(), vec![0, 0, 0, 1]);
    assert_eq!(store.sum().cells(), vec![0, 0, 0, i64::MAX]);
    assert_eq!(store.add_sample(&vec![1, 1], -1), Ok(()));
    assert_eq!(store.counts().cells(), vec![0, 0, 0, 2]);
    assert_eq!(store.sum().cells(), vec![0, 0, 0, i64::MAX - 1]);
    let mut low = BinnedStatistic::new(square_grid());
    assert_eq!(low.add_sample(&vec![-1, -1], i64::MIN), Ok(()));
    assert_eq!(low.add_sample(&vec![-1, -1], -1), Err(SampleError::Overflow));
    assert_eq!(low.sum().cells(), vec![i64::MIN, 0, 0, 0]);
    assert_eq!(low.min()[0], Some(i64::MIN));
}

#[test]
fn large_values_are_taken_while_count_and_sum_fit() {
    let mut store = BinnedStatistic::new(square_grid());
    assert_eq!(store.add_sample(&vec![1, 1], 3_000_000_000), Ok(()));
    assert_eq!(
        store.variance(),
        vec![Ok(None), Ok(None), Ok(None), Ok(Some(Ratio { num: 0, den: 1 }))]
    );
    assert_eq!(store.add_sample(&vec![1, 1], 1_000_000_000), Ok(()));
    assert_eq!(store.counts().cells(), vec![0, 0, 0, 2]);
    assert_eq!(store.sum().cells(), vec![0, 0, 0, 4_000_000_000]);
    assert_eq!(store.mean()[3], Some(Ratio { num: 4_000_000_000, den: 2 }));
    assert_eq!(store.min()[3], Some(1_000_000_000));
    assert_eq!(store.max()[3], Some(3_000_000_000));
    // two values 2 * 10^9 apart: population variance 10^18
    assert_eq!(
        store.variance()[3],
        Ok(Some(Ratio { num: 4_000_000_000_000_000_000, den: 4 }))
    );
    assert_eq!(store.add_sample(&vec![1, 1], 2), Ok(()));
    assert_eq!(store.counts().cells(), vec![0, 0, 0, 3]);
    assert_eq!(
        store.variance_at(&vec![1, 1]),
        Ok(Some(Ratio { num: 13_999_999_984_000_000_008, den: 9 }))
    );
}

#[test]
fn one_large_value_has_zero_variance() {
    let mut store = BinnedStatistic::new(square_grid());
    store.add_sample(&vec![1, 1], 4_000_000_000).unwrap();
    store.add_sample(&vec![-1, -1], 3).unwrap();
    store.add_sample(&vec![-1, -1], 5).unwrap();
    assert_eq!(
        store.variance(),
        vec![
            Ok(Some(Ratio { num: 4, den: 4 })),
            Ok(None),
            Ok(None),
            Ok(Some(Ratio { num: 0, den: 1 }))
        ]
    );
    assert_eq!(store.squares().cells(), vec![34, 0, 0, 16_000_000_000_000_000_000]);
    assert_eq!(store.counts().cells(), vec![2, 0, 0, 1]);
    assert_eq!(store.mean()[0], Some(Ratio { num: 8, den: 2 }));
}

#[test]
fn variance_too_large_stays_in_its_bin() {
    let mut store = BinnedStatistic::new(square_grid());
    store.add_sample(&vec![1, 1], i64::MAX).unwrap();
    assert_eq!(store.variance_at(&vec![1, 1]), Ok(Some(Ratio { num: 0, den: 1 })));
    store.add_sample(&vec![1, 1], -i64::MAX).unwrap();
    store.add_sample(&vec![-1, -1], 3).unwrap();
    store.add_sample(&vec![-1, -1], 5).unwrap();
    let square = (i64::MAX as u128) * (i64::MAX as u128);
    assert_eq!(store.squares().cells(), vec![34, 0, 0, 2 * square]);
    assert_eq!(
        store.variance(),
        vec![
            Ok(Some(Ratio { num: 4, den: 4 })),
            Ok(None),
            Ok(None),
            Err(StatError::VarianceTooLarge)
        ]
    );
    assert_eq!(store.variance_at(&vec![1, 1]), Err(StatError::VarianceTooLarge));
    assert_eq!(store.variance_at(&vec![0, 0]), Ok(Some(Ratio { num: 4, den: 4 })));
    for v in [i64::MAX, -i64::MAX, i64::MAX] {
        store.add_sample(&vec![1, 1], v).unwrap();
    }
    assert_eq!(store.counts().cells(), vec![2, 0, 0, 5]);
    assert_eq!(store.sum().cells(), vec![8, 0, 0, i64::MAX]);
    assert_eq!(store.squares().cells(), vec![34, 0, 0, u128::MAX]);
    assert_eq!(store.variance_at(&vec![1, 1]), Err(StatError::VarianceTooLarge));
}

#[test]
fn rows_inside_the_grid_are_all_counted() {
    let rows = vec![vec![5, 6], vec![5, 6], vec![50, 6]];
    let store = rows
        .binned_statistic(square_grid(), &vec![3_000_000_000, 1_000_000_000, 7])
        .unwrap();
    assert_eq!(store.counts().cells(), vec![0, 0, 0, 2]);
    assert_eq!(store.sum().cells(), vec![0, 0, 0, 4_000_000_000]);
}

#[test]
fn rows_that_a_bin_cannot_take_are_reported() {
    let rows = vec![vec![5, 6], vec![50, 6], vec![5, 6]];
    let built = rows.binned_statistic(square_grid(), &vec![i64::MAX, 1, 1]);
    assert!(matches!(built, Err(SampleError::Overflow)));
    let built = BinnedStatistic::from_samples(square_grid(), &rows, &vec![i64::MAX, 1, -1]);
    assert_eq!(built.unwrap().sum().cells(), vec![0, 0, 0, i64::MAX - 1]);
}

#[test]
fn merge_is_associative() {
    let a = || BinnedStatistic::from_samples(square_grid(), &vec![vec![1, 1], vec![-1, 1]], &vec![4, -2]).unwrap();
    let b = || BinnedStatistic::from_samples(square_grid(), &vec![vec![1, 1]], &vec![4_000_000_000]).unwrap();
    let c = || BinnedStatistic::from_samples(square_grid(), &vec![vec![-1, 1], vec![-1, -1]], &vec![9, 1]).unwrap();
    let left = a().merge(b()).ok().unwrap().merge(c()).ok().unwrap();
    let right = a().merge(b().merge(c()).ok().unwrap()).ok().unwrap();
    assert_eq!(left.counts().cells(), vec![1, 2, 0, 2]);
    assert_eq!(left.sum().cells(), vec![1, 7, 0, 4_000_000_004]);
    assert_eq!(left.counts().cells(), right.counts().cells());
    assert_eq!(left.sum().cells(), right.sum().cells());
    assert_eq!(left.min(), right.min());
    assert_eq!(left.max(), right.max());
    assert_eq!(left.variance(), right.variance());
    assert_eq!(left.squares().cells(), right.squares().cells());
    assert_eq!(
        left.variance()[3],
        Ok(Some(Ratio { num: 15_999_999_968_000_000_016, den: 4 }))
    );
}

#[test]
fn merge_equals_concatenation() {
    let first = vec![vec![-5, -5], vec![5, 5], vec![5, 5], vec![20, 0]];
    let first_values = vec![1, 2, 3, 4];
    let second = vec![vec![5, -5], vec![5, 5], vec![-20, 0], vec![-5, -5]];
    let second_values = vec![10, 20, 30, -40];
    let a = BinnedStatistic::from_samples(square_grid(), &first, &first_values).unwrap();
    let b = BinnedStatistic::from_samples(square_grid(), &second, &second_values).unwrap();
    let mut all = first.clone();
    all.extend(second.clone());
    let mut all_values = first_values.clone();
    all_values.extend(second_values.clone());
    let c = BinnedStatistic::from_samples(square_grid(), &all, &all_values).unwrap();
    let mut reversed = second.clone();
    reversed.extend(first.clone());
    let mut reversed_values = second_values.clone();
    reversed_values.extend(first_values.clone());
    let d = BinnedStatistic::from_samples(square_grid(), &reversed, &reversed_values).unwrap();
    let merged = a.merge(b).ok().unwrap();
    assert_eq!(merged.counts().cells(), vec![2, 0, 1, 3]);
    assert_eq!(merged.sum().cells(), vec![-39, 0, 10, 25]);
    assert_eq!(merged.counts().cells(), c.counts().cells());
    assert_eq!(merged.sum().cells(), c.sum().cells());
    assert_eq!(merged.counts().cells(), d.counts().cells());
    assert_eq!(merged.sum().cells(), d.sum().cells());
    assert_eq!(merged.min(), c.min());
    assert_eq!(merged.max(), c.max());
    assert_eq!(merged.variance(), c.variance());
    assert_eq!(merged.min(), vec![Some(-40), None, Some(10), Some(2)]);
    assert_eq!(merged.max(), vec![Some(1), None, Some(10), Some(20)]);
}

#[test]
fn merge_needs_the_same_grid() {
    let a = BinnedStatistic::new(square_grid());
    let other = Grid::from_edges(vec![vec![-10, 0, 10], vec![-10, 0, 11]]).unwrap();
    let b = BinnedStatistic::new(other);
    assert!(!a.grid().same_as(b.grid()));
    assert!(matches!(a.merge(b), Err(MergeError::GridMismatch)));
}

#[test]
fn merge_reports_full_bins() {
    let mut a = BinnedStatistic::new(square_grid());
    let mut b = BinnedStatistic::new(square_grid());
    a.add_sample(&vec![1, 1], i64::MAX).unwrap();
    b.add_sample(&vec![1, 1], 1).unwrap();
    assert!(matches!(a.merge(b), Err(MergeError::Overflow)));
}

#[test]
fn merge_adds_counts_and_sums_of_large_values() {
    let mut a = BinnedStatistic::new(square_grid());
    let mut b = BinnedStatistic::new(square_grid());
    a.add_sample(&vec![1, 1], 3_000_000_000).unwrap();
    a.add_sample(&vec![-1, 1], 2).unwrap();
    b.add_sample(&vec![1, 1], 1_000_000_000).unwrap();
    b.add_sample(&vec![-1, 1], 4).unwrap();
    let m = a.merge(b).ok().unwrap();
    assert_eq!(m.counts().cells(), vec![0, 2, 0, 2]);
    assert_eq!(m.sum().cells(), vec![0, 6, 0, 4_000_000_000]);
    assert_eq!(m.min(), vec![None, Some(2), None, Some(1_000_000_000)]);
    assert_eq!(m.max(), vec![None, Some(4), None, Some(3_000_000_000)]);
    assert_eq!(
        m.variance(),
        vec![
            Ok(None),
            Ok(Some(Ratio { num: 4, den: 4 })),
            Ok(None),
            Ok(Some(Ratio { num: 4_000_000_000_000_000_000, den: 4 }))
        ]
    );
    assert_eq!(m.squares().cells(), vec![0, 20, 0, 10_000_000_000_000_000_000]);
    assert_eq!(m.grid().shape(), &vec![2, 2]);
    assert_eq!(m.ndim(), 2);
}

#[test]
fn merge_keeps_degrees_of_freedom_of_the_receiver() {
    let a = BinnedStatistic::with_ddof(square_grid(), 1);
    let b = BinnedStatistic::new(square_grid());
    let m = a.merge(b).ok().unwrap();
    assert_eq!(m.ddof(), 1);
    assert_eq!(m.counts().cells(), vec![0, 0, 0, 0]);
    assert!(m.grid().same_as(&square_grid()));
}

#[test]
fn rows_of_a_matrix_are_offered_in_order() {
    let rows = vec![vec![5, 6], vec![-5, 6], vec![50, 6], vec![5, 6]];
    let store = rows.binned_statistic(square_grid(), &vec![1, 10, 100, 1000]).unwrap();
    assert_eq!(store.counts().cells(), vec![0, 1, 0, 2]);
    assert_eq!(store.sum().cells(), vec![0, 10, 0, 1001]);
    assert_eq!(store.ddof(), 0);
}

#[test]
fn moments_from_sums() {
    assert_eq!(mean_from_sums(0, 0), None);
    assert_eq!(mean_from_sums(4, -6), Some(Ratio { num: -6, den: 4 }));
    assert_eq!(variance_from(0, 0, 0, 3), Ok(None));
    assert_eq!(variance_from(2, 10, 1, 0), Err(StatError::NegativeVariance));
    assert_eq!(variance_from(2, 0, u128::MAX, 0), Err(StatError::VarianceTooLarge));
    assert_eq!(variance_from(1, 0, 1 << 127, 0), Err(StatError::VarianceTooLarge));
    assert_eq!(
        variance_from(1, 0, (1 << 127) - 1, 0),
        Ok(Some(Ratio { num: i128::MAX, den: 1 }))
    );
    assert_eq!(variance_from(2, 10, u128::MAX, 2), Ok(Some(Ratio { num: 0, den: 1 })));
    assert_eq!(variance_from(1, 10, 100, 2), Err(StatError::InvalidDegreesOfFreedom));
    assert_eq!(variance_from(2, 10, 1, 2), Ok(Some(Ratio { num: 0, den: 1 })));
    assert_eq!(variance_from(2, 4, 10, 0), Ok(Some(Ratio { num: 4, den: 4 })));
    assert_eq!(variance_from(2, 4, 10, 1), Ok(Some(Ratio { num: 4, den: 2 })));
}

#[test]
fn statistics_of_a_bin_are_absent_together() {
    let mut store = BinnedStatistic::new(square_grid());
    store.add_sample(&vec![-1, 1], 3).unwrap();
    let counts = store.counts().cells();
    let mean = store.mean();
    let variance: Vec<Option<Ratio>> = store.variance().into_iter().map(|v| v.unwrap()).collect();
    let min = store.min();
    let max = store.max();
    for p in 0..4 {
        assert_eq!(counts[p] == 0, mean[p].is_none());
        assert_eq!(counts[p] == 0, variance[p].is_none());
        assert_eq!(counts[p] == 0, min[p].is_none());
        assert_eq!(counts[p] == 0, max[p].is_none());
    }
    assert_eq!(variance[1], Some(Ratio { num: 0, den: 1 }));
}

#[test]
fn grids_with_too_many_bins_are_refused() {
    let axis: Vec<i64> = (0..=1000).collect();
    let seven: Vec<Vec<i64>> = (0..7).map(|_| axis.clone()).collect();
    assert!(Grid::from_edges(seven).is_none());
    let two: Vec<Vec<i64>> = (0..2).map(|_| axis.clone()).collect();
    let grid = Grid::from_edges(two).unwrap();
    assert_eq!(grid.shape(), &vec![1000, 1000]);
    let mut store = BinnedStatistic::new(grid);
    store.add_sample(&vec![999, 0], 1).unwrap();
    assert_eq!(store.counts().cells()[999_000], 1);
}

#[test]
fn new_store_is_empty() {
    let store = BinnedStatistic::new(square_grid());
    assert_eq!(store.ndim(), 2);
    assert_eq!(store.ddof(), 0);
    assert_eq!(store.grid().shape(), &vec![2, 2]);
    assert_eq!(store.counts().cells(), vec![0, 0, 0, 0]);
    assert_eq!(store.sum().cells(), vec![0, 0, 0, 0]);
}

#[test]
fn incremental_variance_step_matches_sums() {
    // taking 7 into a bin that holds 1, 2, 3: n = 3, s = 6, q = 14
    let (n, s, q, x): (i128, i128, i128, i128) = (3, 6, 14, 7);
    let before = n * q - s * s;
    let after = (n + 1) * (q + x * x) - (s + x) * (s + x);
    assert_eq!(n * after, (n + 1) * before + (n * x - s) * (n * x - s));
    assert_eq!(
        variance_from(4, 13, 63, 0),
        Ok(Some(Ratio { num: after, den: 16 }))
    );
}

#[test]
fn order_of_rows_does_not_change_counts_and_sums() {
    let rows = vec![vec![5, 6], vec![-5, 6], vec![50, 6], vec![5, 6], vec![-5, -6]];
    let values = vec![1, 10, 100, 1000, 10000];
    let order = [3usize, 0, 4, 2, 1];
    let rearranged: Vec<Vec<i64>> = order.iter().map(|k| rows[*k].clone()).collect();
    let rearranged_values: Vec<i64> = order.iter().map(|k| values[*k]).collect();
    let a = BinnedStatistic::from_samples(square_grid(), &rows, &values).unwrap();
    let b = BinnedStatistic::from_samples(square_grid(), &rearranged, &rearranged_values).unwrap();
    assert_eq!(a.counts().cells(), vec![1, 1, 0, 2]);
    assert_eq!(a.sum().cells(), vec![10000, 10, 0, 1001]);
    assert_eq!(a.counts().cells(), b.counts().cells());
    assert_eq!(a.sum().cells(), b.sum().cells());
}

#[test]
fn merged_counts_sum_to_both_totals() {
    let rows_a = vec![vec![5, 6], vec![-5, 6], vec![5, 6]];
    let rows_b = vec![vec![-5, -6], vec![5, 6]];
    let a = BinnedStatistic::from_samples(square_grid(), &rows_a, &vec![1, 2, 3]).unwrap();
    let b = BinnedStatistic::from_samples(square_grid(), &rows_b, &vec![4, 5]).unwrap();
    let m = a.merge(b).ok().unwrap();
    assert_eq!(m.counts().cells().iter().sum::<usize>(), 3 + 2);
    assert_eq!(m.squares().cells(), vec![16, 4, 0, 35]);
}

#[test]
fn arrays_lend_their_cells() {
    let mut store = BinnedStatistic::new(square_grid());
    store.add_sample(&vec![5, -6], 7).unwrap();
    assert_eq!(store.counts().as_slice(), Some(&[0usize, 0, 1, 0][..]));
    assert_eq!(store.sum().as_slice(), Some(&[0i64, 0, 7, 0][..]));
    assert_eq!(store.squares().as_slice(), Some(&[0u128, 0, 49, 0][..]));
}
