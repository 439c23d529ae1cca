use smart_road::cars::Traffic;
use smart_road::report::{secs_to_string, u64_to_string};
use smart_road::types::{Airt, Dimensions, Speed};

fn dims() -> Dimensions {
    Dimensions {
        window_width: 600,
        window_height: 600,
        half_width: 300,
        half_height: 300,
        lane_width: 50,
        speed: Speed { fast: 30, default: 20, slow: 10 },
    }
}

const NO_DATA: &str = "Crashes: 0\nNear misses: 0\nGive ways: 0\nCars passed: 0\nSlowest speed: N/A\nFastest speed: N/A\nMax time: N/A\nMin time: N/A";

#[test]
fn report_without_passed_vehicles_shows_no_data() {
    let traffic = Traffic::new();
    assert_eq!(traffic.format(), NO_DATA);
}

#[test]
fn report_shows_no_data_regardless_of_give_ways() {
    let mut traffic = Traffic::new();
    traffic.give_ways = 5;
    assert_eq!(traffic.format(), NO_DATA);
}

#[test]
fn report_after_a_real_run_is_not_the_no_data_form() {
    let d = dims();
    let mut traffic = Traffic::new();
    traffic.push_with_lane(Airt::Up, 1, &d);
    let mut ticks = 0;
    while !traffic.cars.is_empty() {
        traffic.update(&d);
        ticks += 1;
        assert!(ticks < 1000);
    }
    let report = traffic.format();
    assert!(report.contains("Cars passed: 1"));
    assert!(report.contains("Give ways: 0"));
    assert!(!report.contains("N/A"));
}

#[test]
fn report_formats_counters_and_times() {
    let traffic = Traffic {
        cars: Vec::new(),
        cars_passed: 3,
        give_ways: 0,
        max_time: 2_500_000_000,
        min_time: 1_230_000_000,
    };
    assert_eq!(
        traffic.format(),
        "Crashes: 0\nNear misses: 0\nGive ways: 0\nCars passed: 3\nSlowest speed: 250px/s\nFastest speed: 1000px/s\nMax time: 2.50s\nMin time: 1.23s"
    );
}

#[test]
fn report_with_give_ways_shows_zero_slowest_speed() {
    let traffic = Traffic {
        cars: Vec::new(),
        cars_passed: 12,
        give_ways: 7,
        max_time: 61_019_999_999,
        min_time: 999_999_999,
    };
    assert_eq!(
        traffic.format(),
        "Crashes: 0\nNear misses: 0\nGive ways: 7\nCars passed: 12\nSlowest speed: 0px/s\nFastest speed: 1000px/s\nMax time: 61.01s\nMin time: 0.99s"
    );
}

#[test]
fn decimal_rendering_of_counters() {
    assert_eq!(u64_to_string(0), "0");
    assert_eq!(u64_to_string(7), "7");
    assert_eq!(u64_to_string(10), "10");
    assert_eq!(u64_to_string(12345), "12345");
    assert_eq!(u64_to_string(1_000_000), "1000000");
    assert_eq!(u64_to_string(u64::MAX), "18446744073709551615");
}

#[test]
fn decimal_rendering_of_durations() {
    assert_eq!(secs_to_string(0), "0.00");
    assert_eq!(secs_to_string(9_999_999), "0.00");
    assert_eq!(secs_to_string(10_000_000), "0.01");
    assert_eq!(secs_to_string(999_999_999), "0.99");
    assert_eq!(secs_to_string(1_000_000_000), "1.00");
    assert_eq!(secs_to_string(12_345_678_901), "12.34");
}

#[test]
fn fresh_simulation_has_sentinel_statistics() {
    let traffic = Traffic::new();
    assert!(traffic.cars.is_empty());
    assert_eq!(traffic.cars_passed, 0);
    assert_eq!(traffic.give_ways, 0);
    assert_eq!(traffic.max_time, 0);
    assert_eq!(traffic.min_time, u64::MAX);
}
