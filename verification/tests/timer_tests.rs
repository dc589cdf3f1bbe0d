use city_sim::debug_timer::new_debug_timer;
use std::time::{Duration, Instant};

fn wait(millis: u64) {
    let begun = Instant::now();
    while begun.elapsed() < Duration::from_millis(millis) {}
}

#[test]
fn a_new_timer_has_no_totals() {
    let timer = new_debug_timer();
    assert!(timer.times_millis.is_empty());
}

#[test]
fn record_adds_to_the_first_entry_of_the_label() {
    let mut timer = new_debug_timer();
    timer.record("friends", 5);
    timer.record("partners", 7);
    timer.record("friends", 11);
    assert_eq!(
        timer.times_millis,
        vec![("friends".to_string(), 16), ("partners".to_string(), 7)]
    );
}

#[test]
fn add_timestamp_records_one_entry_per_label() {
    let mut timer = new_debug_timer();
    timer.add_timestamp("a");
    timer.add_timestamp("b");
    wait(15);
    timer.add_timestamp("a");
    assert_eq!(timer.times_millis.len(), 2);
    assert_eq!(timer.times_millis[0].0, "a");
    assert_eq!(timer.times_millis[1].0, "b");
    assert!(timer.times_millis[0].1 >= 15);
    assert!(timer.times_millis[0].1 < 10_000);
}

#[test]
fn add_timestamp_starts_a_new_lap() {
    let mut timer = new_debug_timer();
    wait(30);
    timer.add_timestamp("slow");
    timer.add_timestamp("fast");
    assert!(timer.times_millis[0].1 >= 30);
    assert!(timer.times_millis[1].1 < 30);
}

#[test]
fn a_total_at_the_end_of_its_range_stays() {
    let mut timer = new_debug_timer();
    timer.record("full", u128::MAX);
    wait(3);
    timer.add_timestamp("full");
    assert_eq!(timer.times_millis, vec![("full".to_string(), u128::MAX)]);
}

#[test]
fn clear_forgets_every_total() {
    let mut timer = new_debug_timer();
    timer.record("x", 1);
    timer.clear();
    assert!(timer.times_millis.is_empty());
}

#[test]
fn a_new_label_always_gets_its_entry() {
    let mut timer = new_debug_timer();
    timer.record("old", u128::MAX);
    timer.add_timestamp("new");
    assert_eq!(timer.times_millis.len(), 2);
    assert_eq!(timer.times_millis[1].0, "new");
    assert_eq!(timer.times_millis[0], ("old".to_string(), u128::MAX));
}
