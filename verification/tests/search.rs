use rand::distributions::Standard;
use rand::prelude::Distribution;
use rand::seq::SliceRandom;
use rand::Rng;
use simd_itertools::element::SimdElement;
use simd_itertools::ContainsSimd;
use simd_itertools::FindSimd;
use simd_itertools::PositionSimd;
use std::fmt::Debug;

fn random_vec_and_needle<T>(len: usize) -> (Vec<T>, T)
where
    T: SimdElement + PartialEq + Copy + Default + Debug,
    Standard: Distribution<T>,
{
    let mut v: Vec<T> = vec![T::default(); len];
    let mut rng = rand::thread_rng();
    for x in v.iter_mut() {
        *x = rng.gen()
    }
    let needle = match rng.gen_bool(0.5) {
        true => v.choose(&mut rng).cloned().unwrap_or(T::default()),
        false => loop {
            let n = rng.gen();
            if !v.contains(&n) {
                break n;
            }
        },
    };
    (v, needle)
}

fn contains_for_type<T>()
where
    T: SimdElement + PartialEq + Copy + Default + Debug,
    Standard: Distribution<T>,
{
    for len in 0..200 {
        for _ in 0..2 {
            let (v, needle) = random_vec_and_needle::<T>(len);
            let ans = v.contains_simd(&needle);
            let correct = v.contains(&needle);
            assert_eq!(
                ans,
                correct,
                "Failed for length {}",
                len
            );
        }
    }
}

#[test]
fn test_simd_contains() {
    contains_for_type::<i8>();
    contains_for_type::<i16>();
    contains_for_type::<i32>();
    contains_for_type::<i64>();
    contains_for_type::<u8>();
    contains_for_type::<u16>();
    contains_for_type::<u32>();
    contains_for_type::<u64>();
    contains_for_type::<usize>();
    contains_for_type::<isize>();
}

fn position_for_type<T>()
where
    T: SimdElement + PartialEq + Copy + Default + Debug,
    Standard: Distribution<T>,
{
    for len in 0..200 {
        for _ in 0..4 {
            let (v, needle) = random_vec_and_needle::<T>(len);
            let ans = v.position_simd(needle);
            let correct = v.iter().position(|x| *x == needle);
            assert_eq!(
                ans,
                correct,
                "Failed for length {}",
                len
            );
        }
    }
}

#[test]
fn position_test_simd() {
    position_for_type::<i8>();
    position_for_type::<i16>();
    position_for_type::<i32>();
    position_for_type::<i64>();
    position_for_type::<u8>();
    position_for_type::<u16>();
    position_for_type::<u32>();
    position_for_type::<u64>();
    position_for_type::<usize>();
    position_for_type::<isize>();
}

fn find_for_type<T>()
where
    T: SimdElement + PartialEq + Copy + Default + Debug,
    Standard: Distribution<T>,
{
    for len in 0..200 {
        for _ in 0..2 {
            let (v, needle) = random_vec_and_needle::<T>(len);
            let ans = v.find_simd(needle);
            let correct = v.iter().find(|x| **x == needle).copied();
            assert_eq!(
                ans,
                correct,
                "Failed for length {}",
                len
            );
        }
    }
}

#[test]
fn find_test_simd() {
    find_for_type::<i8>();
    find_for_type::<i16>();
    find_for_type::<i32>();
    find_for_type::<i64>();
    find_for_type::<u8>();
    find_for_type::<u16>();
    find_for_type::<u32>();
    find_for_type::<u64>();
    find_for_type::<usize>();
    find_for_type::<isize>();
}
