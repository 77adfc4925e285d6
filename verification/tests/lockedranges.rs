use range_lock::{overlaps, LockedRanges};

#[test]
fn test_overlaps() {
    assert!(overlaps(&(0..1), &(0..1)));
    assert!(!overlaps(&(0..1), &(1..2)));
    assert!(!overlaps(&(0..1), &(1..3)));
    assert!(!overlaps(&(0..1), &(2..4)));
    assert!(!overlaps(&(0..1), &(3..5)));
    assert!(!overlaps(&(0..1), &(4..6)));
    assert!(!overlaps(&(0..1), &(5..7)));
    assert!(!overlaps(&(0..1), &(6..8)));
    assert!(!overlaps(&(0..1), &(7..9)));

    assert!(!overlaps(&(4..6), &(0..1)));
    assert!(!overlaps(&(4..6), &(1..2)));
    assert!(!overlaps(&(4..6), &(1..3)));
    assert!(!overlaps(&(4..6), &(2..4)));
    assert!(overlaps(&(4..6), &(3..5)));
    assert!(overlaps(&(4..6), &(4..6)));
    assert!(overlaps(&(4..6), &(5..7)));
    assert!(!overlaps(&(4..6), &(6..8)));
    assert!(!overlaps(&(4..6), &(7..9)));
}

#[test]
fn test_lockedranges() {
    let mut lr = LockedRanges::new();
    assert!(lr.is_empty());
    assert!(lr.insert(&(10..20)));
    assert!(lr.insert(&(30..40)));
    assert!(lr.insert(&(100..200)));
    assert!(lr.insert(&(1000..2000)));
    assert!(lr.insert(&(10000..20000)));
    assert!(!lr.is_empty());

    assert!(!lr.insert(&(10..20)));
    assert!(!lr.insert(&(30..40)));
    assert!(!lr.insert(&(100..200)));
    assert!(!lr.insert(&(1000..2000)));
    assert!(!lr.insert(&(10000..20000)));

    assert!(!lr.insert(&(9..11)));
    assert!(!lr.insert(&(39..41)));
    assert!(!lr.insert(&(100..101)));
    assert!(!lr.insert(&(1999..2000)));
    assert!(!lr.insert(&(15000..16000)));

    lr.remove(&(100..200));

    assert!(!lr.insert(&(9..11)));
    assert!(!lr.insert(&(39..41)));
    assert!(lr.insert(&(100..101)));
    assert!(!lr.insert(&(1999..2000)));
    assert!(!lr.insert(&(15000..16000)));

    lr.remove(&(10..20));
    lr.remove(&(30..40));
    lr.remove(&(100..101));
    lr.remove(&(1000..2000));
    lr.remove(&(10000..20000));
    assert!(lr.is_empty());
}

#[test]
fn insert_refuses_and_leaves_the_set_unchanged() {
    let mut lr = LockedRanges::new();
    assert!(lr.insert(&(10..20)));
    // Refused: the set still holds 10..20 and nothing else.
    assert!(!lr.insert(&(15..30)));
    assert!(lr.insert(&(20..30)));
    assert!(lr.insert(&(0..10)));
    lr.remove(&(10..20));
    assert!(lr.insert(&(10..20)));
}

#[test]
fn insert_looks_past_ranges_that_start_inside() {
    // The range that overlaps is not the nearest one below the end of the new range.
    let mut lr = LockedRanges::new();
    assert!(lr.insert(&(0..5)));
    assert!(lr.insert(&(5..6)));
    assert!(lr.insert(&(6..7)));
    assert!(!lr.insert(&(4..100)));
    assert!(!lr.insert(&(0..1)));
    assert!(lr.insert(&(7..100)));
}

#[test]
fn insert_stops_at_a_range_that_ends_before() {
    let mut lr = LockedRanges::new();
    assert!(lr.insert(&(0..10)));
    assert!(lr.insert(&(20..30)));
    assert!(lr.insert(&(40..50)));
    // 30..40 touches its neighbours and overlaps none.
    assert!(lr.insert(&(30..40)));
    assert!(lr.insert(&(10..20)));
    assert!(!lr.insert(&(0..50)));
    assert!(!lr.insert(&(49..51)));
    assert!(lr.insert(&(50..51)));
}

#[test]
fn remove_frees_exactly_one_range() {
    let mut lr = LockedRanges::new();
    assert!(lr.insert(&(1..2)));
    assert!(lr.insert(&(2..3)));
    lr.remove(&(1..2));
    assert!(!lr.is_empty());
    assert!(!lr.insert(&(2..3)));
    assert!(lr.insert(&(1..2)));
    lr.remove(&(1..2));
    lr.remove(&(2..3));
    assert!(lr.is_empty());
}

#[test]
fn contains_tells_locked_ranges_by_both_ends() {
    let mut lr = LockedRanges::new();
    assert!(!lr.contains(&(10..20)));
    assert!(lr.insert(&(10..20)));
    assert!(lr.contains(&(10..20)));
    assert!(!lr.contains(&(10..19)));
    assert!(!lr.contains(&(11..20)));
    assert!(!lr.insert(&(10..19)));
    assert!(lr.contains(&(10..20)));
    lr.remove(&(10..20));
    assert!(!lr.contains(&(10..20)));
}

#[test]
fn insert_at_the_ends_of_the_index_space() {
    let mut lr = LockedRanges::new();
    assert!(lr.insert(&(usize::MAX - 1..usize::MAX)));
    assert!(lr.insert(&(0..1)));
    assert!(!lr.insert(&(0..usize::MAX)));
    assert!(lr.insert(&(1..usize::MAX - 1)));
    assert!(!lr.insert(&(5..6)));
    lr.remove(&(1..usize::MAX - 1));
    assert!(lr.insert(&(5..6)));
}
