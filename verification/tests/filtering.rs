use itertools::Itertools;
use rand::distributions::Standard;
use rand::prelude::Distribution;
use rand::Rng;
use simd_itertools::element::SimdElement;
use simd_itertools::mask::CmpOp;
use simd_itertools::FilterSimd;
use simd_itertools::SimdFilter;
use std::fmt::Debug;

fn random_vec<T>(len: usize) -> Vec<T>
where
    T: SimdElement + Copy + Default,
    Standard: Distribution<T>,
{
    let mut v: Vec<T> = vec![T::default(); len];
    let mut rng = rand::thread_rng();
    for x in v.iter_mut() {
        *x = rng.gen()
    }
    v
}

fn filter_for_type<T>()
where
    T: SimdElement + PartialEq + PartialOrd + Copy + Default + Debug,
    Standard: Distribution<T>,
{
    for len in 0..200 {
        let ops = [CmpOp::Eq, CmpOp::Lt, CmpOp::Gt];
        let ops_scalar = [
            |x: &&T| **x == T::default(),
            |x: &&T| **x < T::default(),
            |x: &&T| **x > T::default(),
        ];

        for (op_simd, op_scalar) in ops.iter().zip(ops_scalar) {
            let v = random_vec::<T>(len);
            let ans = v.filter_simd(T::default(), *op_simd);
            let correct = v.iter().filter(op_scalar).cloned().collect_vec();
            assert_eq!(
                ans,
                correct,
                "Failed for length {}",
                len
            );
        }
    }
}

#[test]
fn filter_test_simd() {
    filter_for_type::<i8>();
    filter_for_type::<i16>();
    filter_for_type::<i32>();
    filter_for_type::<i64>();
    filter_for_type::<u8>();
    filter_for_type::<u16>();
    filter_for_type::<u32>();
    filter_for_type::<u64>();
    filter_for_type::<usize>();
    filter_for_type::<isize>();
}

#[test]
fn test_filter_exact_values() {
    let v = vec![5i32, -2, 7, 0, -9, 7, 3, 0, 1, -4, 12];
    assert_eq!(v.filter_simd(0, CmpOp::Eq), vec![0, 0]);
    assert_eq!(v.filter_simd(0, CmpOp::Lt), vec![-2, -9, -4]);
    assert_eq!(v.filter_simd(0, CmpOp::Gt), vec![5, 7, 7, 3, 1, 12]);
    assert_eq!(v.filter_simd(7, CmpOp::Eq), vec![7, 7]);
}

#[test]
fn test_filter_idempotent() {
    // Filtering the filter's own output returns it unchanged.
    for len in 0..60 {
        let v = random_vec::<i16>(len);
        for op in [CmpOp::Eq, CmpOp::Lt, CmpOp::Gt] {
            let once = v.filter_simd(0, op);
            let twice = once.filter_simd(0, op);
            assert_eq!(once, twice, "Failed for length {}", len);
        }
    }
}

#[test]
fn test_filter_dense_and_sparse() {
    // A sparse match pattern (most chunks all-zero masks) and a dense one
    // (every lane matches) both compact correctly.
    let sparse: Vec<u32> = (0..100u32).map(|x| if x % 31 == 0 { 1 } else { 5 }).collect();
    assert_eq!(
        sparse.filter_simd(1, CmpOp::Eq),
        vec![1, 1, 1, 1],
        "sparse"
    );
    let dense = vec![1u32; 100];
    assert_eq!(dense.filter_simd(1, CmpOp::Eq), dense, "dense");
}

#[test]
fn test_simd_filter_cursor() {
    let v = vec![0i64, 8, -3, 8, 8, 0, -1, 8, 2];
    let mut cursor = SimdFilter::new(v.clone(), 8, CmpOp::Eq);
    let mut seen = Vec::new();
    while let Some(x) = cursor.next() {
        seen.push(x);
    }
    assert_eq!(seen, vec![8, 8, 8, 8]);
    assert_eq!(cursor.next(), None);

    let mut negatives = SimdFilter::new(v, 0, CmpOp::Lt);
    assert_eq!(negatives.next(), Some(-3));
    assert_eq!(negatives.next(), Some(-1));
    assert_eq!(negatives.next(), None);
}
