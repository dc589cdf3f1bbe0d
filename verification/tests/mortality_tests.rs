use city_sim::mortality::{death_threshold, CERTAIN_DEATH_AGE, DEATH_SCALE};

#[test]
fn thresholds_match_the_formula_rounded_down() {
    // 0.12 * max((age - 30) / 30, 0.01)^2.25, in millionths
    assert_eq!(death_threshold(0), 3);
    assert_eq!(death_threshold(18), 3);
    assert_eq!(death_threshold(30), 3);
    assert_eq!(death_threshold(31), 56);
    assert_eq!(death_threshold(32), 271);
    assert_eq!(death_threshold(40), 10131);
    assert_eq!(death_threshold(45), 25226);
    assert_eq!(death_threshold(50), 48192);
    assert_eq!(death_threshold(60), 120000);
    assert_eq!(death_threshold(70), 229241);
    assert_eq!(death_threshold(75), 298804);
    assert_eq!(death_threshold(90), 570819);
    assert_eq!(death_threshold(100), 807474);
    assert_eq!(death_threshold(105), 943075);
    assert_eq!(death_threshold(106), 971603);
}

#[test]
fn death_is_certain_from_a_hundred_and_seven() {
    assert_eq!(CERTAIN_DEATH_AGE, 107);
    assert!(death_threshold(106) < DEATH_SCALE);
    assert_eq!(death_threshold(107), DEATH_SCALE);
    assert_eq!(death_threshold(108), DEATH_SCALE);
    assert_eq!(death_threshold(200), DEATH_SCALE);
    assert_eq!(death_threshold(u32::MAX), DEATH_SCALE);
}

#[test]
fn death_probability_never_falls_with_age() {
    let mut last = death_threshold(0);
    for age in 1..=250u32 {
        let next = death_threshold(age);
        assert!(next >= last, "threshold fell at age {}", age);
        last = next;
    }
}

#[test]
fn death_probability_rises_strictly_past_thirty() {
    for age in 30..107u32 {
        assert!(death_threshold(age + 1) > death_threshold(age));
    }
}

#[test]
fn thresholds_stay_close_to_the_real_formula() {
    for age in 0..=110u32 {
        let x = ((age as f64 - 30.0) / 30.0).max(0.01);
        let exact = (x.powf(2.25) * 0.12 * 1_000_000.0).min(1_000_000.0);
        let got = death_threshold(age) as f64;
        assert!((exact - got).abs() <= 1.0, "age {}: {} against {}", age, got, exact);
    }
}

#[test]
fn the_chance_of_death_rises_with_every_year_from_thirty_one() {
    assert_eq!(death_threshold(30), 3);
    assert_eq!(death_threshold(31), 56);
    for age in 31..107u32 {
        assert!(death_threshold(age) < death_threshold(age + 1), "age {}", age);
    }
    assert_eq!(death_threshold(106), 971_603);
    assert_eq!(death_threshold(107), 1_000_000);
    assert_eq!(death_threshold(108), 1_000_000);
}
