use pree::growth::Growth;

#[test]
fn new_starts_empty() {
    let growth = Growth::new(7, 3);
    assert_eq!(growth.get_factor(), 7);
    assert_eq!(growth.get_amount(), 0);
    assert_eq!(growth.get_dormancy(), 3);
    assert!(!growth.is_fully_grown());
}

#[test]
fn new_segmented_uses_segment_size() {
    let growth = Growth::new_segmented(10, 5);
    assert_eq!(growth.get_factor(), 6553);
    assert_eq!(growth.get_amount(), 0);
    assert_eq!(growth.get_dormancy(), 5);
}

#[test]
fn segment_size_is_max_over_count() {
    assert_eq!(Growth::get_segment_size(1), 65535);
    assert_eq!(Growth::get_segment_size(10), 6553);
    assert_eq!(Growth::get_segment_size(30), 2184);
    assert_eq!(Growth::get_segment_size(65535), 1);
    assert_eq!(Growth::MAX, 65535);
}

#[test]
fn grow_pays_dormancy_first() {
    let mut growth = Growth::new(1, 10);
    growth.grow(4);
    assert_eq!(growth.get_dormancy(), 6);
    assert_eq!(growth.get_amount(), 0);
    growth.grow(10);
    assert_eq!(growth.get_dormancy(), 0);
    assert_eq!(growth.get_amount(), 4);
}

#[test]
fn grow_saturates_at_max() {
    let mut growth = Growth::new(1, 0);
    growth.grow(65000);
    growth.grow(1000);
    assert_eq!(growth.get_amount(), 65535);
    assert!(growth.is_fully_grown());
    growth.grow(65535);
    assert_eq!(growth.get_amount(), 65535);
}

#[test]
fn grow_factors_multiplies_by_factor() {
    let mut growth = Growth::new(100, 50);
    growth.grow_factors(3);
    assert_eq!(growth.get_dormancy(), 0);
    assert_eq!(growth.get_amount(), 250);
    assert_eq!(growth.get_grown_factor_count(), 2);
}

#[test]
fn grow_segments_grows_whole_segments() {
    let mut growth = Growth::new(1, 0);
    growth.grow_segments(10, 2);
    assert_eq!(growth.get_amount(), 13106);
    assert_eq!(growth.get_grown_segment_count(10), 2);
}

#[test]
fn set_dormancy_replaces_dormancy() {
    let mut growth = Growth::new(3, 1);
    growth.grow(5);
    growth.set_dormancy(Growth::MAX);
    assert_eq!(growth.get_dormancy(), 65535);
    assert_eq!(growth.get_amount(), 4);
    assert_eq!(growth.get_factor(), 3);
}

#[test]
fn amount_factor_is_total_unit_count() {
    assert_eq!(Growth::new(6553, 0).get_amount_factor(), 10);
    assert_eq!(Growth::new(1, 0).get_amount_factor(), 65535);
    assert_eq!(Growth::new(65535, 0).get_amount_factor(), 1);
}

#[test]
fn grown_counts() {
    let mut growth = Growth::new(1000, 0);
    growth.grow(4500);
    assert_eq!(growth.get_grown_factor_count(), 4);
    assert_eq!(growth.get_grown_segment_count(3), 0);
    growth.grow(20000);
    assert_eq!(growth.get_grown_segment_count(3), 1);
}

// Law: growing in two steps is growing by their sum.
#[test]
fn grow_is_additive() {
    for (dormancy, amount, first, second) in [
        (10u16, 0u16, 4u16, 10u16),
        (0, 60000, 3000, 3000),
        (500, 100, 200, 700),
        (65535, 0, 65535, 0),
        (7, 65535, 1, 1),
    ] {
        let mut two_steps = Growth::new(1, 0);
        two_steps.grow(amount);
        two_steps.set_dormancy(dormancy);
        let mut one_step = Growth::new(1, 0);
        one_step.grow(amount);
        one_step.set_dormancy(dormancy);

        two_steps.grow(first);
        two_steps.grow(second);
        one_step.grow(first + second);
        assert_eq!(two_steps.get_amount(), one_step.get_amount());
        assert_eq!(two_steps.get_dormancy(), one_step.get_dormancy());
    }
}

// Law: growing pays off exactly min(amount, what is owed).
#[test]
fn grow_pays_off_deficit() {
    let mut growth = Growth::new(1, 0);
    growth.grow(65000);
    growth.set_dormancy(100);
    // owed: 100 + 535 = 635
    growth.grow(300);
    assert_eq!(growth.get_dormancy() as u32 + (65535 - growth.get_amount() as u32), 335);
    growth.grow(1000);
    assert_eq!(growth.get_dormancy(), 0);
    assert!(growth.is_fully_grown());
}

// Law: while dormant, the amount does not change.
#[test]
fn dormancy_delays_growth() {
    let mut growth = Growth::new(1, 65535);
    for _ in 0..10 {
        growth.grow(6553);
        assert_eq!(growth.get_amount(), 0);
    }
    assert_eq!(growth.get_dormancy(), 5);
    growth.grow(6553);
    assert_eq!(growth.get_amount(), 6548);
}

// Law: growth never goes backwards, and full stays full.
#[test]
fn growth_is_monotone() {
    let mut growth = Growth::new(1, 3);
    let mut last_amount = growth.get_amount();
    let mut last_dormancy = growth.get_dormancy();
    for step in [0u16, 1, 2, 10, 65535, 5] {
        growth.grow(step);
        assert!(growth.get_amount() >= last_amount);
        assert!(growth.get_dormancy() <= last_dormancy);
        last_amount = growth.get_amount();
        last_dormancy = growth.get_dormancy();
    }
    assert!(growth.is_fully_grown());
    growth.grow(0);
    assert!(growth.is_fully_grown());
}

// Law: grown counts never exceed the full counts.
#[test]
fn grown_counts_bounded() {
    let mut growth = Growth::new(7, 0);
    growth.grow(65535);
    assert!(growth.get_grown_factor_count() <= growth.get_amount_factor());
    assert_eq!(growth.get_grown_factor_count(), 9362);
    assert_eq!(growth.get_grown_segment_count(400), 402);
    assert!(growth.get_grown_segment_count(400) <= 65535 / Growth::get_segment_size(400));
}
