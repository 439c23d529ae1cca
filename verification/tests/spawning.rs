use smart_road::cars::{Car, Traffic};
use smart_road::types::{Airt, Dimensions, Speed};

fn dims() -> Dimensions {
    Dimensions {
        window_width: 600,
        window_height: 600,
        half_width: 300,
        half_height: 300,
        lane_width: 50,
        speed: Speed { fast: 30, default: 20, slow: 10 },
    }
}

fn check_spawn(
    entry: Airt,
    lane: u8,
    x: i32,
    y: i32,
    exit: Airt,
    speed: i32,
    color: usize,
    vertical: bool,
) {
    let d = dims();
    let car = Car::spawn_with_lane(entry, lane, 7, 42, &d);
    assert_eq!(car.x, x);
    assert_eq!(car.y, y);
    assert_eq!(car.direction.start, entry);
    assert_eq!(car.direction.end, exit);
    assert_eq!(car.speed, speed);
    assert_eq!(car.color_code, color);
    assert_eq!(car.vertical, vertical);
    assert_eq!(car.index, 7);
    assert_eq!(car.birthday, 42);
    assert!(!car.gone);
}

#[test]
fn spawn_table_up_entries() {
    check_spawn(Airt::Up, 0, 300, 550, Airt::Left, 20, 0, true);
    check_spawn(Airt::Up, 1, 350, 550, Airt::Up, 30, 0, true);
    check_spawn(Airt::Up, 2, 400, 550, Airt::Right, 10, 0, true);
}

#[test]
fn spawn_table_down_entries() {
    check_spawn(Airt::Down, 0, 150, 0, Airt::Left, 10, 1, true);
    check_spawn(Airt::Down, 1, 200, 0, Airt::Down, 30, 1, true);
    check_spawn(Airt::Down, 2, 250, 0, Airt::Right, 20, 1, true);
}

#[test]
fn spawn_table_right_entries() {
    check_spawn(Airt::Right, 0, 0, 300, Airt::Up, 20, 2, false);
    check_spawn(Airt::Right, 1, 0, 350, Airt::Right, 30, 2, false);
    check_spawn(Airt::Right, 2, 0, 400, Airt::Down, 10, 2, false);
}

#[test]
fn spawn_table_left_entries() {
    check_spawn(Airt::Left, 0, 550, 150, Airt::Up, 10, 3, false);
    check_spawn(Airt::Left, 1, 550, 200, Airt::Left, 30, 3, false);
    check_spawn(Airt::Left, 2, 550, 250, Airt::Down, 20, 3, false);
}

#[test]
fn push_appends_one_vehicle_in_spawn_order() {
    let d = dims();
    let mut traffic = Traffic::new();
    traffic.push(Airt::Up, &d);
    traffic.push(Airt::Left, &d);
    traffic.push(Airt::Down, &d);
    assert_eq!(traffic.cars.len(), 3);
    assert_eq!(traffic.cars[0].direction.start, Airt::Up);
    assert_eq!(traffic.cars[1].direction.start, Airt::Left);
    assert_eq!(traffic.cars[2].direction.start, Airt::Down);
    for (i, car) in traffic.cars.iter().enumerate() {
        assert_eq!(car.index, i);
        assert!(!car.gone);
        assert!(car.birthday > 0, "the clock must stamp the spawn");
        assert!([10, 20, 30].contains(&car.speed));
    }
}

#[test]
fn random_spawns_stay_on_the_table_and_cover_it() {
    let d = dims();
    let mut traffic = Traffic::new();
    for _ in 0..200 {
        traffic.push_random(&d);
    }
    assert_eq!(traffic.cars.len(), 200);
    let mut seen_entries = [false; 4];
    let mut seen_speeds = [false; 3];
    for (i, car) in traffic.cars.iter().enumerate() {
        assert_eq!(car.index, i);
        assert!(car.color_code < 4);
        let entry = match car.direction.start {
            Airt::Up => 0,
            Airt::Down => 1,
            Airt::Left => 2,
            Airt::Right => 3,
        };
        seen_entries[entry] = true;
        let tier = match car.speed {
            10 => 0,
            20 => 1,
            30 => 2,
            other => panic!("speed {} is not a spawn-table tier", other),
        };
        seen_speeds[tier] = true;
    }
    // 200 uniform draws miss an approach or a lane only with vanishing
    // probability; a broken random source would fail here.
    assert!(seen_entries.iter().all(|&s| s));
    assert!(seen_speeds.iter().all(|&s| s));
}

#[test]
fn lone_random_vehicle_matches_a_spawn_cell() {
    let d = dims();
    let mut traffic = Traffic::new();
    traffic.push_random(&d);
    let car = &traffic.cars[0];
    let cells = [
        (300, 550),
        (350, 550),
        (400, 550),
        (150, 0),
        (200, 0),
        (250, 0),
        (0, 300),
        (0, 350),
        (0, 400),
        (550, 150),
        (550, 200),
        (550, 250),
    ];
    assert!(cells.contains(&(car.x, car.y)));
}
