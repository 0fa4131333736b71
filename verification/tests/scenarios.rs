use simd_itertools::mask::CmpOp;
use simd_itertools::AllEqualSimd;
use simd_itertools::AllSimd;
use simd_itertools::AnySimd;
use simd_itertools::ArgmaxSimd;
use simd_itertools::ArgminSimd;
use simd_itertools::ArgminSimdFast;
use simd_itertools::ContainsSimd;
use simd_itertools::EqSimd;
use simd_itertools::FilterSimd;
use simd_itertools::FindSimd;
use simd_itertools::IsSortedSimd;
use simd_itertools::MaxSimd;
use simd_itertools::MinMaxSimd;
use simd_itertools::MinSimd;
use simd_itertools::PositionSimd;
use simd_itertools::LANE_COUNT;

#[test]
fn test_empty_defaults() {
    let v: Vec<i32> = Vec::new();
    assert_eq!(v.contains_simd(&0), false);
    assert_eq!(v.position_simd(0), None);
    assert_eq!(v.find_simd(0), None);
    assert_eq!(v.all_equal_simd(), true);
    assert_eq!(v.is_sorted_simd(), true);
    assert_eq!(v.min_simd(), None);
    assert_eq!(v.max_simd(), None);
    assert_eq!(v.minmax_simd(), None);
    assert_eq!(v.minmax_position_simd(), None);
    assert_eq!(v.argmin_simd(), None);
    assert_eq!(v.argmin_simd_fast(), None);
    assert_eq!(v.argmax_simd(), None);
    assert_eq!(v.argmax_simd_fast(), None);
    assert_eq!(v.filter_simd(0, CmpOp::Eq), Vec::<i32>::new());
    assert_eq!(v.all_simd(|x: i32| x > 0), true);
    assert_eq!(v.any_simd(|x: i32| x > 0), false);
    assert!(v.eq_simd(&Vec::new()));
}

#[test]
fn test_five_element_scenario() {
    let v = vec![5i32, 3, 3, 3, 9];
    assert_eq!(v.position_simd(3), Some(1));
    assert_eq!(v.contains_simd(&9), true);
    assert_eq!(v.filter_simd(3, CmpOp::Eq), vec![3, 3, 3]);
    assert_eq!(v.minmax_simd(), Some((3, 9)));
    assert_eq!(v.is_sorted_simd(), false);
}

#[test]
fn test_all_ones_scenario() {
    let v = vec![1u32, 1, 1, 1];
    assert_eq!(v.all_equal_simd(), true);
    assert_eq!(v.argmin_simd(), Some(0));
    assert_eq!(v.argmax_simd(), Some(0));
}

#[test]
fn test_lane_width_boundaries() {
    // Lengths of exactly one chunk and one element to either side exercise
    // the body/suffix boundary transitions.
    for len in [LANE_COUNT - 1, LANE_COUNT, LANE_COUNT + 1] {
        let v: Vec<u64> = (0..len as u64).collect();
        // The last element is only reachable through the suffix or the final
        // chunk, depending on the length.
        let last = (len - 1) as u64;
        assert_eq!(v.contains_simd(&last), true, "len {}", len);
        assert_eq!(v.contains_simd(&(len as u64)), false, "len {}", len);
        assert_eq!(v.position_simd(last), Some(len - 1), "len {}", len);
        assert_eq!(v.find_simd(0), Some(0), "len {}", len);
        assert_eq!(v.is_sorted_simd(), true, "len {}", len);
        assert_eq!(v.min_simd(), Some(0), "len {}", len);
        assert_eq!(v.max_simd(), Some(last), "len {}", len);
        assert_eq!(v.minmax_simd(), Some((0, last)), "len {}", len);
        assert_eq!(v.minmax_position_simd(), Some((0, len - 1)), "len {}", len);
        assert_eq!(v.argmin_simd(), Some(0), "len {}", len);
        assert_eq!(v.argmax_simd(), Some(len - 1), "len {}", len);
        assert_eq!(v.all_equal_simd(), false, "len {}", len);
        assert_eq!(v.filter_simd(last, CmpOp::Eq), vec![last], "len {}", len);
        assert_eq!(
            v.filter_simd(len as u64, CmpOp::Lt),
            v.clone(),
            "len {}",
            len
        );
        assert!(v.eq_simd(&v.clone()), "len {}", len);
        assert!(v.all_simd(|x: u64| x < len as u64), "len {}", len);
        assert!(v.any_simd(|x: u64| x == last), "len {}", len);

        let mut w = v.clone();
        w[len - 1] = 0;
        assert_eq!(w.is_sorted_simd(), len <= 2, "len {}", len);
        assert!(!w.eq_simd(&v) || len == 1, "len {}", len);
    }
}

#[test]
fn test_descending_pair_in_suffix() {
    // Sorted through every whole chunk, descending only in the suffix.
    let mut v: Vec<i8> = (-9..10).collect();
    assert_eq!(v.is_sorted_simd(), true);
    let n = v.len();
    v.swap(n - 2, n - 1);
    assert_eq!(v.is_sorted_simd(), false);
}
