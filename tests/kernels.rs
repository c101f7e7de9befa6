use filter_kernels::arrow_kernels as oracle;
use filter_kernels::filter as materialise;
use filter_kernels::filter_max as maximum;
use filter_kernels::filter_sum as summing;

fn sum_slice(values: &[u64]) -> u64 {
    values.iter().sum()
}

fn mask_of(len: usize, ids: &[u32]) -> Vec<bool> {
    let mut filter = vec![false; len];
    for &i in ids.iter() {
        filter[i as usize] = true;
    }
    filter
}

/// Deterministic pseudo-random sequence (64-bit linear congruential).
struct Lcg(u64);

impl Lcg {
    fn next(&mut self) -> u64 {
        self.0 = self.0.wrapping_mul(6364136223846793005).wrapping_add(1442695040888963407);
        self.0 >> 11
    }
}

#[test]
fn filter_materialise_values() {
    assert_eq!(
        materialise::filter_materialise_values((0..10).collect::<Vec<_>>().as_slice(), &[0, 1, 2, 3], vec![]),
        vec![0_u64, 1, 2, 3]
    );
}

#[test]
fn filter_materialise_values_arrow() {
    let values = (0..10).collect::<Vec<u64>>();
    let row_ids = mask_of(values.len(), &[0_u32, 4, 5, 8]);
    assert_eq!(oracle::filter_materialise_values_arrow(&values, &row_ids), vec![0, 4, 5, 8]);
}

#[test]
fn filter_materialise_values_simd() {
    let cases = vec![
        ((100..110).collect::<Vec<_>>(), vec![0_u32, 1, 2, 3], vec![100_u64, 101, 102, 103]),
        ((100..113).collect::<Vec<_>>(), vec![0, 12], vec![100_u64, 112]),
        (vec![1020, u64::MAX, u64::MAX, u64::MAX, u64::MAX], vec![1, 2, 3, 4], vec![u64::MAX; 4]),
        (vec![1020, u64::MAX, u64::MAX, u64::MAX, u64::MAX], vec![2], vec![u64::MAX]),
        (vec![1020, u64::MAX, u64::MAX, u64::MAX, 29], vec![4], vec![29]),
        ((100..1234).collect::<Vec<_>>(), (2..653).collect::<Vec<_>>(), (102..753).collect::<Vec<_>>()),
    ];

    for (values, row_ids, exp) in &cases {
        assert_eq!(&materialise::filter_materialise_values_simd(values, row_ids, vec![]), exp);
    }
}

#[test]
fn filter_max() {
    assert_eq!(maximum::filter_max((12..39).collect::<Vec<_>>().as_slice(), &[0, 1, 2, 6, 8]), 20);
}

#[test]
fn filter_max_arrow() {
    let values = (12..378).collect::<Vec<u64>>();
    let row_ids = mask_of(values.len(), &[16, 22, 23]);
    assert_eq!(oracle::filter_max_arrow(&values, &row_ids), 35);
}

#[test]
fn filter_max_simd() {
    let cases = vec![
        ((100..110).collect::<Vec<_>>(), vec![0_u32, 1, 2, 3], 103),
        ((100..113).collect::<Vec<_>>(), vec![0, 12], 112),
        (vec![20], vec![0_u32], 20),
        (vec![20, 10, 20, 3], vec![1, 3], 10),
        (vec![1020, 1023, 100, 3498, u32::MAX as u64], vec![0, 1, 2, 3, 4], u32::MAX as u64),
        (vec![1021, 1023, 100, 3498, u32::MAX as u64, 1020], vec![3, 4], u32::MAX as u64),
        ((100..1234).collect::<Vec<_>>(), vec![3, 2, 5, 10, 10, 11, 21], 121),
        (
            vec![
                21915, 99007, 8047, 46274, 90428, 11590, 24439, 44017, 80634, 73623, 28791, 34440,
                35442, 70, 53834, 19529, 74056, 6737, 42825, 4378, 78251, 39440, 45815, 199, 200,
            ],
            vec![11, 12, 13, 14, 15, 16, 17, 18, 19, 20, 21, 22, 24],
            78251,
        ),
    ];

    for (values, row_ids, exp) in &cases {
        assert_eq!(&maximum::filter_max_simd(values, row_ids), exp);
    }
}

#[test]
fn filter_sum() {
    assert_eq!(summing::filter_sum((0..10).collect::<Vec<_>>().as_slice(), &[0, 1, 2, 3]), 6);
}

#[test]
fn filter_sum_arrow() {
    let values = (0..10).collect::<Vec<u64>>();
    let row_ids = mask_of(values.len(), &[0_u32, 4, 5, 8]);
    assert_eq!(oracle::filter_sum_arrow(&values, &row_ids), 17);
}

#[test]
fn filter_sum_values_simd() {
    let cases = vec![
        ((100..110).collect::<Vec<_>>(), vec![0_u32, 1, 2, 3], sum_slice(&[100_u64, 101, 102, 103])),
        ((100..113).collect::<Vec<_>>(), vec![0, 12], sum_slice(&[100_u64, 112])),
        (
            vec![1020, 1023, 100, 3498, u32::MAX as u64],
            vec![1, 2, 3, 4],
            sum_slice(&[1023, 100, 3498, u32::MAX as u64]),
        ),
        (
            (100..1234).collect::<Vec<_>>(),
            (2..653).collect::<Vec<_>>(),
            sum_slice(&(102..753).collect::<Vec<_>>()),
        ),
    ];

    for (values, row_ids, exp) in &cases {
        assert_eq!(&summing::filter_sum_simd(values, row_ids), exp);
    }
}

#[test]
fn checked_sums_report_overflow() {
    let values = vec![u64::MAX, 1];
    assert_eq!(summing::filter_sum_checked(&values, &[0, 1]), None);
    assert_eq!(summing::filter_sum_simd_checked(&values, &[0, 1]), None);
    // overflow inside one lane of a full group
    let values = vec![u64::MAX, 0, 0, 0, 1, 0, 0, 0];
    assert_eq!(summing::filter_sum_simd_checked(&values, &[0, 1, 2, 3, 4, 5, 6, 7]), None);
    assert_eq!(summing::filter_sum_checked(&values, &[0, 1, 2, 3, 4, 5, 6, 7]), None);
    // overflow only when the lanes are combined
    let big = u64::MAX / 2 + 1;
    let values = vec![big, big, 0, 0];
    assert_eq!(summing::filter_sum_simd_checked(&values, &[0, 1, 2, 3]), None);
    // overflow only when the remainder is added
    let values = vec![u64::MAX, 0, 0, 0, 1];
    assert_eq!(summing::filter_sum_simd_checked(&values, &[0, 1, 2, 3, 4]), None);
}

#[test]
fn checked_sums_at_the_limit() {
    let values = vec![u64::MAX - 1, 1, 0, 0, 0];
    assert_eq!(summing::filter_sum_checked(&values, &[0, 1, 2, 3, 4]), Some(u64::MAX));
    assert_eq!(summing::filter_sum_simd_checked(&values, &[0, 1, 2, 3, 4]), Some(u64::MAX));
    assert_eq!(summing::filter_sum_simd(&values, &[0, 1, 2, 3, 4]), u64::MAX);
    assert_eq!(summing::filter_sum_checked(&values, &[]), Some(0));
    assert_eq!(summing::filter_sum_simd_checked(&values, &[]), Some(0));
}

#[test]
fn max_of_consecutive_values() {
    assert_eq!(maximum::filter_max_simd((12..39).collect::<Vec<_>>().as_slice(), &[0, 1, 2, 6, 8]), 20);
    assert_eq!(maximum::filter_max((100..110).collect::<Vec<_>>().as_slice(), &[0, 1, 2, 3]), 103);
    assert_eq!(maximum::filter_max_simd((100..110).collect::<Vec<_>>().as_slice(), &[0, 1, 2, 3]), 103);
}

#[test]
fn max_above_the_signed_range() {
    let values = vec![5, u64::MAX - 3, 7, 1 << 63, 9, 11, 2, 3, (1 << 63) + 1];
    let ids: Vec<u32> = (0..9).collect();
    assert_eq!(maximum::filter_max(&values, &ids), u64::MAX - 3);
    assert_eq!(maximum::filter_max_simd(&values, &ids), u64::MAX - 3);
    assert_eq!(maximum::filter_max_simd(&values, &[0, 2, 3, 4, 5, 6, 7, 8]), (1 << 63) + 1);
    assert_eq!(oracle::filter_max_arrow(&values, &mask_of(values.len(), &ids)), u64::MAX - 3);
}

#[test]
fn sum_of_first_four() {
    let values = (0..10).collect::<Vec<u64>>();
    assert_eq!(summing::filter_sum(&values, &[0, 1, 2, 3]), 6);
    assert_eq!(summing::filter_sum_simd(&values, &[0, 1, 2, 3]), 6);
}

#[test]
fn remainder_only_selection() {
    let values = vec![1020, u64::MAX, u64::MAX, u64::MAX, 29];
    assert_eq!(materialise::filter_materialise_values_simd(&values, &[4], vec![]), vec![29]);
    assert_eq!(materialise::filter_materialise_values(&values, &[4], vec![]), vec![29]);
    assert_eq!(summing::filter_sum_simd(&values, &[4]), 29);
    assert_eq!(maximum::filter_max_simd(&values, &[4]), 29);
    assert_eq!(maximum::filter_max_simd(&values, &[0, 4]), 1020);
    assert_eq!(summing::filter_sum_simd(&values, &[0, 4, 4]), 1078);
}

#[test]
fn empty_selection() {
    let values = vec![1, 2, 3];
    assert_eq!(materialise::filter_materialise_values(&values, &[], vec![9, 9]), Vec::<u64>::new());
    assert_eq!(materialise::filter_materialise_values_simd(&values, &[], vec![9, 9]), Vec::<u64>::new());
    assert_eq!(summing::filter_sum(&values, &[]), 0);
    assert_eq!(summing::filter_sum_simd(&values, &[]), 0);
    assert_eq!(oracle::filter_sum_arrow(&values, &[false, false, false]), 0);
    assert_eq!(oracle::filter_materialise_values_arrow(&values, &[false, false, false]), Vec::<u64>::new());
}

#[test]
fn destination_is_cleared_and_reused() {
    let values = vec![10, 20, 30, 40, 50];
    let dst = materialise::filter_materialise_values(&values, &[4, 0], vec![7, 7, 7, 7, 7, 7]);
    assert_eq!(dst, vec![50, 10]);
    let dst = materialise::filter_materialise_values_simd(&values, &[1, 2, 3, 4, 0], dst);
    assert_eq!(dst, vec![20, 30, 40, 50, 10]);
}

#[test]
fn order_follows_identifiers() {
    let values = vec![5, 1, 4, 2, 3, 9, 0];
    let ids = [6_u32, 0, 5, 1, 2];
    let reversed = [2_u32, 1, 5, 0, 6];
    assert_eq!(materialise::filter_materialise_values_simd(&values, &ids, vec![]), vec![0, 5, 9, 1, 4]);
    assert_eq!(materialise::filter_materialise_values_simd(&values, &reversed, vec![]), vec![4, 1, 9, 5, 0]);
    assert_eq!(materialise::filter_materialise_values(&values, &reversed, vec![]), vec![4, 1, 9, 5, 0]);
}

#[test]
fn strategies_agree_on_every_remainder() {
    let values: Vec<u64> = (0..40).map(|i| (i * 7919 + 13) % 1000).collect();
    for len in 0..=14_u32 {
        let ids: Vec<u32> = (0..len).map(|i| (i * 3 + 1) % 40).collect();
        let scalar = materialise::filter_materialise_values(&values, &ids, vec![]);
        assert_eq!(materialise::filter_materialise_values_simd(&values, &ids, vec![]), scalar);
        assert_eq!(summing::filter_sum(&values, &ids), summing::filter_sum_simd(&values, &ids));
        assert_eq!(summing::filter_sum(&values, &ids), sum_slice(&scalar));
        if len > 0 {
            assert_eq!(maximum::filter_max(&values, &ids), maximum::filter_max_simd(&values, &ids));
            assert_eq!(maximum::filter_max(&values, &ids), *scalar.iter().max().unwrap());
        }
    }
}

#[test]
fn strategies_agree_at_scale() {
    let n: usize = 1_000_000;
    let mut rng = Lcg(42);
    let values: Vec<u64> = (0..n).map(|_| rng.next() % 1_000_000_000).collect();

    let mut selections: Vec<Vec<u32>> = Vec::new();
    for density in [1_u64, 10, 50, 90] {
        let ids: Vec<u32> = (0..n as u32).filter(|_| rng.next() % 100 < density).collect();
        selections.push(ids);
    }
    for block in [1_usize, 7, 64, 1000] {
        let mut ids = Vec::new();
        let mut start = 0;
        while start < n {
            for i in start..(start + block).min(n) {
                ids.push(i as u32);
            }
            start += 2 * block + 3;
        }
        selections.push(ids);
    }

    for ids in &selections {
        let mask = mask_of(n, ids);
        let scalar = materialise::filter_materialise_values(&values, ids, vec![]);
        assert_eq!(materialise::filter_materialise_values_simd(&values, ids, vec![]), scalar);
        assert_eq!(oracle::filter_materialise_values_arrow(&values, &mask), scalar);

        let sum = summing::filter_sum(&values, ids);
        assert_eq!(summing::filter_sum_simd(&values, ids), sum);
        assert_eq!(oracle::filter_sum_arrow(&values, &mask), sum);

        let max = maximum::filter_max(&values, ids);
        assert_eq!(maximum::filter_max_simd(&values, ids), max);
        assert_eq!(oracle::filter_max_arrow(&values, &mask), max);
    }
}
