use range_lock::{get_bounds, overlaps_any, RangeBound};
use std::ops::{Bound, RangeBounds};

fn bound(b: Bound<&usize>) -> RangeBound {
    match b {
        Bound::Included(x) => RangeBound::Included(*x),
        Bound::Excluded(x) => RangeBound::Excluded(*x),
        Bound::Unbounded => RangeBound::Unbounded,
    }
}

fn bounds_of(range: &impl RangeBounds<usize>, length: usize) -> (usize, usize) {
    get_bounds(bound(range.start_bound()), bound(range.end_bound()), length)
}

fn any(ranges: &[std::ops::Range<usize>], range: &impl RangeBounds<usize>) -> bool {
    overlaps_any(ranges, bound(range.start_bound()), bound(range.end_bound()))
}

#[test]
fn test_get_bounds() {
    assert_eq!(bounds_of(&(10..20), usize::MAX), (10, 20));
    assert_eq!(bounds_of(&(10..20), 0), (10, 20));
    assert_eq!(bounds_of(&(10..=20), 0), (10, 21));
    assert_eq!(bounds_of(&(..20), 0), (0, 20));
    assert_eq!(bounds_of(&(..=20), 0), (0, 21));
    assert_eq!(bounds_of(&(10..), 42), (10, 42));
    assert_eq!(bounds_of(&(..), 42), (0, 42));
}

#[test]
fn test_overlaps_any() {
    let mut a = Vec::new();
    a.push(0..1);
    a.push(4..6);
    assert!(any(&a, &(0..1)));
    assert!(!any(&a, &(1..2)));
    assert!(!any(&a, &(1..3)));
    assert!(!any(&a, &(2..4)));
    assert!(any(&a, &(3..5)));
    assert!(any(&a, &(4..6)));
    assert!(any(&a, &(5..7)));
    assert!(!any(&a, &(6..8)));
    assert!(!any(&a, &(7..9)));
}

#[test]
fn get_bounds_on_plain_bounds() {
    assert_eq!(
        get_bounds(RangeBound::Included(3), RangeBound::Excluded(9), 100),
        (3, 9)
    );
    assert_eq!(
        get_bounds(RangeBound::Unbounded, RangeBound::Included(usize::MAX - 1), 7),
        (0, usize::MAX)
    );
    assert_eq!(
        get_bounds(RangeBound::Included(usize::MAX), RangeBound::Unbounded, 7),
        (usize::MAX, 7)
    );
    assert_eq!(
        get_bounds(RangeBound::Unbounded, RangeBound::Unbounded, 0),
        (0, 0)
    );
}

#[test]
fn overlaps_any_with_open_ends() {
    let a = vec![10..20, 30..40];
    assert!(any(&a, &(..)));
    assert!(any(&a, &(39..)));
    assert!(!any(&a, &(40..)));
    assert!(!any(&a, &(..10)));
    assert!(any(&a, &(..=10)));
    assert!(!any(&a, &(20..30)));
    assert!(any(&a, &(20..=30)));
    let none: Vec<std::ops::Range<usize>> = Vec::new();
    assert!(!any(&none, &(..)));
}
