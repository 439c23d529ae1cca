use smart_road::cars::{Car, Direction, Traffic};
use smart_road::types::{Airt, Dimensions, Speed};

fn dims() -> Dimensions {
    Dimensions {
        window_width: 600,
        window_height: 600,
        half_width: 300,
        half_height: 300,
        lane_width: 50,
        speed: Speed { fast: 30, default: 20, slow: 10 },
    }
}

fn make_car(x: i32, y: i32, start: Airt, end: Airt, speed: i32, vertical: bool, index: usize) -> Car {
    Car {
        x,
        y,
        color_code: 0,
        direction: Direction { start, end },
        speed,
        vertical,
        gone: false,
        index,
        birthday: 1,
    }
}

#[test]
fn lone_north_bound_vehicle_passes_without_contention() {
    let d = dims();
    assert!(d.is_wf());
    let mut traffic = Traffic::new();
    traffic.push_with_lane(Airt::Up, 1, &d);
    assert_eq!(traffic.cars.len(), 1);
    let mut ticks = 0;
    while !traffic.cars.is_empty() {
        traffic.update(&d);
        ticks += 1;
        assert!(ticks < 1000, "vehicle never retired");
    }
    assert_eq!(traffic.cars_passed, 1);
    assert_eq!(traffic.give_ways, 0);
    assert!(traffic.max_time > 0, "elapsed transit time must be positive");
    assert_eq!(traffic.max_time, traffic.min_time);
}

#[test]
fn second_vehicle_gives_way_while_first_moves() {
    let d = dims();
    // Both head up the same column; the follower is fast enough that its
    // prospective footprint overlaps the leader's freshly claimed position.
    let leader = make_car(300, 300, Airt::Up, Airt::Up, 20, true, 0);
    let follower = make_car(300, 360, Airt::Up, Airt::Up, 50, true, 1);
    let mut traffic = Traffic {
        cars: vec![leader, follower],
        cars_passed: 0,
        give_ways: 0,
        max_time: 0,
        min_time: u64::MAX,
    };
    traffic.advance_at(100, &d);
    assert_eq!(traffic.give_ways, 1);
    assert_eq!(traffic.cars_passed, 0);
    assert_eq!(traffic.cars[0].y, 280, "the leader still moves");
    assert_eq!(traffic.cars[1].y, 360, "the follower is blocked in place");
}

#[test]
fn left_turn_flips_axis_exactly_once_from_every_approach() {
    let d = dims();
    // Lane 0 is the turn lane of each entry approach; the exit's travel axis
    // tells whether the vehicle ends on the vertical or horizontal axis.
    let cases = [
        (Airt::Up, Airt::Left),
        (Airt::Down, Airt::Left),
        (Airt::Right, Airt::Up),
        (Airt::Left, Airt::Up),
    ];
    for (entry, expected_exit) in cases {
        let mut traffic = Traffic::new();
        traffic.push_with_lane(entry, 0, &d);
        assert_eq!(traffic.cars[0].direction.start, entry);
        assert_eq!(traffic.cars[0].direction.end, expected_exit);
        let mut flips = 0;
        let mut axis = traffic.cars[0].vertical;
        let mut ticks = 0;
        while !traffic.cars.is_empty() {
            traffic.update(&d);
            if let Some(car) = traffic.cars.first() {
                if car.vertical != axis {
                    flips += 1;
                    axis = car.vertical;
                }
            }
            ticks += 1;
            assert!(ticks < 1000, "vehicle never retired");
        }
        assert_eq!(flips, 1, "axis flag must flip exactly once");
        let exit_is_vertical = matches!(expected_exit, Airt::Up | Airt::Down);
        assert_eq!(axis, exit_is_vertical, "final axis must match the exit");
        assert_eq!(traffic.cars_passed, 1);
    }
}

#[test]
fn each_blocked_tick_counts_one_give_way() {
    let d = dims();
    let leader = make_car(300, 300, Airt::Up, Airt::Up, 10, true, 0);
    let follower = make_car(300, 360, Airt::Up, Airt::Up, 50, true, 1);
    let mut traffic = Traffic {
        cars: vec![leader, follower],
        cars_passed: 0,
        give_ways: 0,
        max_time: 0,
        min_time: u64::MAX,
    };
    // The slow leader opens the gap by 10 pixels a tick; the follower's
    // prospective move overlaps the leader's fresh claim for three ticks.
    for expected in [1, 2, 3] {
        traffic.advance_at(100, &d);
        assert_eq!(traffic.give_ways, expected);
        assert_eq!(traffic.cars[1].y, 360);
    }
    traffic.advance_at(100, &d);
    assert_eq!(traffic.give_ways, 3);
    assert_eq!(traffic.cars[0].y, 260);
    assert_eq!(traffic.cars[1].y, 310);
}

#[test]
fn advancing_an_empty_simulation_changes_nothing() {
    let d = dims();
    let mut traffic = Traffic::new();
    traffic.update(&d);
    traffic.advance_at(55, &d);
    assert!(traffic.cars.is_empty());
    assert_eq!(traffic.cars_passed, 0);
    assert_eq!(traffic.give_ways, 0);
    assert_eq!(traffic.max_time, 0);
    assert_eq!(traffic.min_time, u64::MAX);
}

#[test]
fn indices_match_positions_after_every_advance() {
    let d = dims();
    let mut traffic = Traffic::new();
    traffic.push_with_lane(Airt::Up, 0, &d);
    traffic.push_with_lane(Airt::Down, 1, &d);
    traffic.push_with_lane(Airt::Left, 2, &d);
    traffic.push_with_lane(Airt::Right, 0, &d);
    for _ in 0..200 {
        traffic.update(&d);
        for (i, car) in traffic.cars.iter().enumerate() {
            assert_eq!(car.index, i);
            assert!(!car.gone);
        }
    }
}

fn push_all_lanes(traffic: &mut Traffic, d: &Dimensions) {
    for entry in [Airt::Up, Airt::Down, Airt::Left, Airt::Right] {
        for lane in 0..3u8 {
            traffic.push_with_lane(entry, lane, d);
        }
    }
}

#[test]
fn give_ways_counter_never_decreases() {
    let d = dims();
    let mut traffic = Traffic::new();
    // Cross traffic through the middle guarantees some contention.
    push_all_lanes(&mut traffic, &d);
    let mut previous = traffic.give_ways;
    for _ in 0..300 {
        traffic.update(&d);
        assert!(traffic.give_ways >= previous);
        previous = traffic.give_ways;
    }
}

#[test]
fn passed_grows_by_the_number_of_departed_vehicles() {
    let d = dims();
    // Two vehicles leave the area on the same tick.
    let going_up = make_car(300, -10, Airt::Up, Airt::Up, 20, true, 0);
    let going_down = make_car(200, 580, Airt::Down, Airt::Down, 20, true, 1);
    let staying = make_car(250, 300, Airt::Down, Airt::Down, 20, true, 2);
    let mut traffic = Traffic {
        cars: vec![going_up, going_down, staying],
        cars_passed: 5,
        give_ways: 0,
        max_time: 0,
        min_time: u64::MAX,
    };
    traffic.advance_at(100, &d);
    assert_eq!(traffic.cars_passed, 7);
    assert_eq!(traffic.cars.len(), 1);
    assert_eq!(traffic.cars[0].index, 0);
    assert_eq!(traffic.cars[0].direction.start, Airt::Down);
}

#[test]
fn retired_vehicles_record_elapsed_between_extremes() {
    let d = dims();
    let early = make_car(300, -10, Airt::Up, Airt::Up, 20, true, 0);
    let mut late = make_car(200, 580, Airt::Down, Airt::Down, 20, true, 1);
    late.birthday = 60;
    let mut traffic = Traffic {
        cars: vec![early, late],
        cars_passed: 0,
        give_ways: 0,
        max_time: 0,
        min_time: u64::MAX,
    };
    traffic.advance_at(100, &d);
    // Transit times are 99 and 40 nanoseconds.
    assert_eq!(traffic.max_time, 99);
    assert_eq!(traffic.min_time, 40);
    assert!(traffic.min_time <= traffic.max_time);
}

#[test]
fn footprints_never_overlap_after_a_tick() {
    let d = dims();
    let w = d.lane_width;
    let mut traffic = Traffic::new();
    // The twelve spawn cells are pairwise disjoint, so the non-overlap
    // invariant holds as the run begins.
    push_all_lanes(&mut traffic, &d);
    for _ in 0..300 {
        traffic.update(&d);
        for a in traffic.cars.iter() {
            for b in traffic.cars.iter() {
                if a.index != b.index {
                    let overlap = a.x < b.x + w && a.x + w > b.x && a.y < b.y + w && a.y + w > b.y;
                    assert!(!overlap, "footprints of {} and {} overlap", a.index, b.index);
                }
            }
        }
    }
}
