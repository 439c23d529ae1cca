use vstd::prelude::*;

use crate::host;
use crate::model::{
    car_wf, claim_conflict, claims_bounded, claims_view, compact, dir_ok, elapsed_since,
    initial_claims, lemma_compact_wf, lemma_run_pass_wf, lemma_start_pass_wf, next_move,
    no_overlap, off_area, pass_wf, run_pass, sat_inc, sim_wf, spec_push, spec_spawn, spec_tick,
    square_overlap, start_pass, step_car, CarModel, PassModel, SimModel,
};
use crate::report::{secs_to_string, spec_report, u64_to_string};
use crate::types::{Airt, Dimensions};

verus! {

/// The two fixed approaches of one vehicle: where it entered, and where it
/// leaves once it has resolved its turn.
#[derive(Debug, Clone, Copy)]
pub struct Direction {
    pub start: Airt,
    pub end: Airt,
}

/// One vehicle.  Its square footprint of side `lane_width` has its top-left
/// corner at (x, y); `vertical` is the primary travel axis flag, flipped at
/// most once, at the turn waypoint; `index` is the vehicle's position in the
/// owning collection; `birthday` is the spawn timestamp in nanoseconds.
#[derive(Debug, Clone, Copy)]
pub struct Car {
    pub x: i32,
    pub y: i32,
    pub color_code: usize,
    pub direction: Direction,
    pub speed: i32,
    pub vertical: bool,
    pub gone: bool,
    pub index: usize,
    pub birthday: u64,
}

impl View for Car {
    type V = CarModel;

    open spec fn view(&self) -> CarModel {
        CarModel {
            x: self.x as int,
            y: self.y as int,
            color_code: self.color_code as int,
            start: self.direction.start,
            end: self.direction.end,
            speed: self.speed as int,
            vertical: self.vertical,
            gone: self.gone,
            index: self.index as int,
            birthday: self.birthday as int,
        }
    }
}

/// The intersection simulation: the vehicles in spawn order, and the
/// accumulated statistics.
pub struct Traffic {
    pub cars: Vec<Car>,
    pub cars_passed: u64,
    pub give_ways: u64,
    pub max_time: u64,
    pub min_time: u64,
}

impl View for Traffic {
    type V = SimModel;

    open spec fn view(&self) -> SimModel {
        SimModel {
            cars: self.cars@.map_values(|c: Car| c@),
            passed: self.cars_passed as int,
            give_ways: self.give_ways as int,
            max_time: self.max_time as int,
            min_time: self.min_time as int,
        }
    }
}

impl Car {
    /// Spawn with a chosen entry lane (0 turns left, 1 goes straight, 2 turns
    /// right), placed and tiered by the fixed spawn table.  Public so that a
    /// host or a test can spawn deterministically; `spawn` draws the lane at
    /// random.
    pub fn spawn_with_lane(
        initial_direction: Airt,
        lane: u8,
        index: usize,
        birthday: u64,
        dimensions: &Dimensions,
    ) -> (c: Car)
        requires
            lane < 3,
            dimensions.wf(),
        ensures
            c@ == spec_spawn(
                initial_direction,
                lane as int,
                index as int,
                birthday as int,
                *dimensions,
            ),
            car_wf(c@),
            c@.index == index as int,
    {
        let (x, y, final_direction, speed, color_code, vertical): (
            i32,
            i32,
            Airt,
            i32,
            usize,
            bool,
        ) = match initial_direction {
            Airt::Up => {
                if lane == 0 {
                    (
                        dimensions.half_width,
                        dimensions.window_height - dimensions.lane_width,
                        Airt::Left,
                        dimensions.speed.default,
                        0,
                        true,
                    )
                } else if lane == 1 {
                    (
                        dimensions.half_width + dimensions.lane_width,
                        dimensions.window_height - dimensions.lane_width,
                        Airt::Up,
                        dimensions.speed.fast,
                        0,
                        true,
                    )
                } else {
                    (
                        dimensions.half_width + 2 * dimensions.lane_width,
                        dimensions.window_height - dimensions.lane_width,
                        Airt::Right,
                        dimensions.speed.slow,
                        0,
                        true,
                    )
                }
            },
            Airt::Down => {
                if lane == 0 {
                    (
                        dimensions.half_width - 3 * dimensions.lane_width,
                        0,
                        Airt::Left,
                        dimensions.speed.slow,
                        1,
                        true,
                    )
                } else if lane == 1 {
                    (
                        dimensions.half_width - 2 * dimensions.lane_width,
                        0,
                        Airt::Down,
                        dimensions.speed.fast,
                        1,
                        true,
                    )
                } else {
                    (
                        dimensions.half_width - dimensions.lane_width,
                        0,
                        Airt::Right,
                        dimensions.speed.default,
                        1,
                        true,
                    )
                }
            },
            Airt::Right => {
                if lane == 0 {
                    (0, dimensions.half_height, Airt::Up, dimensions.speed.default, 2, false)
                } else if lane == 1 {
                    (
                        0,
                        dimensions.half_height + dimensions.lane_width,
                        Airt::Right,
                        dimensions.speed.fast,
                        2,
                        false,
                    )
                } else {
                    (
                        0,
                        dimensions.half_height + 2 * dimensions.lane_width,
                        Airt::Down,
                        dimensions.speed.slow,
                        2,
                        false,
                    )
                }
            },
            Airt::Left => {
                if lane == 0 {
                    (
                        dimensions.window_width - dimensions.lane_width,
                        dimensions.half_height - 3 * dimensions.lane_width,
                        Airt::Up,
                        dimensions.speed.slow,
                        3,
                        false,
                    )
                } else if lane == 1 {
                    (
                        dimensions.window_width - dimensions.lane_width,
                        dimensions.half_height - 2 * dimensions.lane_width,
                        Airt::Left,
                        dimensions.speed.fast,
                        3,
                        false,
                    )
                } else {
                    (
                        dimensions.window_width - dimensions.lane_width,
                        dimensions.half_height - dimensions.lane_width,
                        Airt::Down,
                        dimensions.speed.default,
                        3,
                        false,
                    )
                }
            },
        };
        Car {
            x,
            y,
            color_code,
            direction: Direction { start: initial_direction, end: final_direction },
            speed,
            vertical,
            gone: false,
            index,
            birthday,
        }
    }

    /// One path-following step: the prospective position for the next tick,
    /// per `next_move`.  At the turn waypoint this also flips the primary
    /// axis flag — even if the move is then blocked, exactly as the tick
    /// rules have it.
    fn calculate_new_position(&mut self, dimensions: &Dimensions) -> (pos: (i32, i32))
        requires
            dimensions.wf(),
            -2_000_000 <= old(self).x <= 2_000_000,
            -2_000_000 <= old(self).y <= 2_000_000,
            1 <= old(self).speed <= 100_000,
            dir_ok(old(self).direction.start, old(self).direction.end),
        ensures
            (pos.0 as int, pos.1 as int, final(self).vertical) == next_move(
                old(self)@,
                *dimensions,
            ),
            final(self)@ == (CarModel { vertical: final(self).vertical, ..old(self)@ }),
    {
        let mut new_x = self.x;
        let mut new_y = self.y;

        match self.direction.start {
            Airt::Up => match self.direction.end {
                Airt::Left => {
                    if self.y > dimensions.half_height - dimensions.lane_width {
                        new_y = self.y - self.speed;
                    } else {
                        new_y = dimensions.half_height - dimensions.lane_width;
                        self.vertical = false;
                        new_x = self.x - self.speed;
                    }
                },
                Airt::Up => {
                    new_y = self.y - self.speed;
                },
                Airt::Right => {
                    if self.y > dimensions.half_height + 2 * dimensions.lane_width {
                        new_y = self.y - self.speed;
                    } else {
                        new_y = dimensions.half_height + 2 * dimensions.lane_width;
                        self.vertical = false;
                        new_x = self.x + self.speed;
                    }
                },
                Airt::Down => {
                    proof {
                        assert(false);
                    }
                },
            },
            Airt::Down => match self.direction.end {
                Airt::Left => {
                    if self.y < dimensions.half_height - 3 * dimensions.lane_width {
                        new_y = self.y + self.speed;
                    } else {
                        new_y = dimensions.half_height - 3 * dimensions.lane_width;
                        new_x = self.x - self.speed;
                        self.vertical = false;
                    }
                },
                Airt::Down => {
                    new_y = self.y + self.speed;
                },
                Airt::Right => {
                    if self.y < dimensions.half_height {
                        new_y = self.y + self.speed;
                    } else {
                        new_y = dimensions.half_height;
                        new_x = self.x + self.speed;
                        self.vertical = false;
                    }
                },
                Airt::Up => {
                    proof {
                        assert(false);
                    }
                },
            },
            Airt::Left => match self.direction.end {
                Airt::Up => {
                    if self.x > dimensions.half_width + 2 * dimensions.lane_width {
                        new_x = self.x - self.speed;
                    } else {
                        new_x = dimensions.half_width + 2 * dimensions.lane_width;
                        self.vertical = true;
                        new_y = self.y - self.speed;
                    }
                },
                Airt::Left => {
                    new_x = self.x - self.speed;
                },
                Airt::Down => {
                    if self.x > dimensions.half_width - dimensions.lane_width {
                        new_x = self.x - self.speed;
                    } else {
                        new_x = dimensions.half_width - dimensions.lane_width;
                        self.vertical = true;
                        new_y = self.y + self.speed;
                    }
                },
                Airt::Right => {
                    proof {
                        assert(false);
                    }
                },
            },
            Airt::Right => match self.direction.end {
                Airt::Up => {
                    if self.x < dimensions.half_width {
                        new_x = self.x + self.speed;
                    } else {
                        new_x = dimensions.half_width;
                        self.vertical = true;
                        new_y = self.y - self.speed;
                    }
                },
                Airt::Right => {
                    new_x = self.x + self.speed;
                },
                Airt::Down => {
                    if self.x < dimensions.half_width - 3 * dimensions.lane_width {
                        new_x = self.x + self.speed;
                    } else {
                        new_x = dimensions.half_width - 3 * dimensions.lane_width;
                        self.vertical = true;
                        new_y = self.y + self.speed;
                    }
                },
                Airt::Left => {
                    proof {
                        assert(false);
                    }
                },
            },
        }

        (new_x, new_y)
    }

    /// Whether the prospective footprint at (new_x, new_y) overlaps any
    /// other vehicle's claimed position; the vehicle's own claim is skipped
    /// by index.
    fn will_collide(
        &self,
        new_x: i32,
        new_y: i32,
        prospective_positions: &Vec<(i32, i32, usize)>,
        dimensions: &Dimensions,
    ) -> (r: bool)
        requires
            dimensions.wf(),
            -2_100_000 <= new_x <= 2_100_000,
            -2_100_000 <= new_y <= 2_100_000,
            claims_bounded(claims_view(prospective_positions@)),
        ensures
            r == claim_conflict(
                new_x as int,
                new_y as int,
                self@.index,
                claims_view(prospective_positions@),
                dimensions.lane_width as int,
            ),
    {
        let ghost cv = claims_view(prospective_positions@);
        let ghost w = dimensions.lane_width as int;
        let mut j: usize = 0;
        while j < prospective_positions.len()
            invariant
                dimensions.wf(),
                -2_100_000 <= new_x <= 2_100_000,
                -2_100_000 <= new_y <= 2_100_000,
                cv == claims_view(prospective_positions@),
                w == dimensions.lane_width as int,
                claims_bounded(cv),
                j <= prospective_positions@.len(),
                forall|t: int|
                    0 <= t < j ==> !((#[trigger] cv[t]).2 != self@.index && square_overlap(
                        new_x as int,
                        new_y as int,
                        cv[t].0,
                        cv[t].1,
                        w,
                    )),
            decreases prospective_positions@.len() - j,
        {
            let other = prospective_positions[j];
            proof {
                assert(cv[j as int] == (other.0 as int, other.1 as int, other.2 as int));
                assert(-2_000_000 <= cv[j as int].0 <= 2_000_000);
                assert(-2_000_000 <= cv[j as int].1 <= 2_000_000);
            }
            if other.2 != self.index {
                if new_x < other.0 + dimensions.lane_width
                    && new_x + dimensions.lane_width > other.0
                    && new_y < other.1 + dimensions.lane_width
                    && new_y + dimensions.lane_width > other.1 {
                    proof {
                        assert(cv[j as int].2 != self@.index && square_overlap(
                            new_x as int,
                            new_y as int,
                            cv[j as int].0,
                            cv[j as int].1,
                            w,
                        ));
                    }
                    return true;
                }
            }
            j += 1;
        }
        false
    }

    /// One vehicle's share of a tick: retire it if it has left the area
    /// (recording its transit time), otherwise move it unless the move would
    /// overlap another claimed position.  Returns false exactly when the
    /// vehicle had to give way.
    fn update(
        &mut self,
        prospective_positions: &mut Vec<(i32, i32, usize)>,
        cars_passed: &mut u64,
        max_time: &mut u64,
        min_time: &mut u64,
        now: u64,
        dimensions: &Dimensions,
    ) -> (moved: bool)
        requires
            dimensions.wf(),
            car_wf(old(self)@),
            old(self).index < old(prospective_positions)@.len(),
            claims_bounded(claims_view(old(prospective_positions)@)),
        ensures
            ({
                let c = old(self)@;
                let cv0 = claims_view(old(prospective_positions)@);
                let w = dimensions.lane_width as int;
                let e = elapsed_since(now as int, c.birthday);
                let nm = next_move(c, *dimensions);
                if off_area(c, *dimensions) {
                    &&& moved == true
                    &&& final(self)@ == (CarModel { gone: true, ..c })
                    &&& final(prospective_positions)@ == old(prospective_positions)@
                    &&& *final(cars_passed) as int == sat_inc(*old(cars_passed) as int)
                    &&& *final(max_time) as int == (if (*old(max_time) as int) < e {
                        e
                    } else {
                        *old(max_time) as int
                    })
                    &&& *final(min_time) as int == (if (*old(min_time) as int) > e {
                        e
                    } else {
                        *old(min_time) as int
                    })
                } else if claim_conflict(nm.0, nm.1, c.index, cv0, w) {
                    &&& moved == false
                    &&& final(self)@ == (CarModel { vertical: nm.2, ..c })
                    &&& final(prospective_positions)@ == old(prospective_positions)@
                    &&& *final(cars_passed) == *old(cars_passed)
                    &&& *final(max_time) == *old(max_time)
                    &&& *final(min_time) == *old(min_time)
                } else {
                    &&& moved == true
                    &&& final(self)@ == (CarModel { x: nm.0, y: nm.1, vertical: nm.2, ..c })
                    &&& claims_view(final(prospective_positions)@) == cv0.update(
                        c.index,
                        (nm.0, nm.1, c.index),
                    )
                    &&& *final(cars_passed) == *old(cars_passed)
                    &&& *final(max_time) == *old(max_time)
                    &&& *final(min_time) == *old(min_time)
                }
            }),
    {
        if self.x < 0 || self.x + dimensions.lane_width > dimensions.window_width || self.y < 0
            || self.y + dimensions.lane_width > dimensions.window_height {
            *cars_passed = if *cars_passed < u64::MAX {
                *cars_passed + 1
            } else {
                *cars_passed
            };
            self.gone = true;
            let elapsed = if now >= self.birthday {
                now - self.birthday
            } else {
                0
            };
            if *max_time < elapsed {
                *max_time = elapsed;
            }
            if *min_time > elapsed {
                *min_time = elapsed;
            }
            return true;
        }

        let (new_x, new_y) = self.calculate_new_position(dimensions);

        if self.will_collide(new_x, new_y, prospective_positions, dimensions) {
            return false;
        }

        prospective_positions.set(self.index, (new_x, new_y, self.index));

        self.x = new_x;
        self.y = new_y;

        proof {
            assert(claims_view(prospective_positions@) =~= claims_view(
                old(prospective_positions)@,
            ).update(old(self)@.index, (new_x as int, new_y as int, old(self)@.index)));
        }

        true
    }

    /// Spawn one vehicle entering from `initial_direction`: one of the three
    /// entry lanes is drawn uniformly at random, and the clock stamps the
    /// spawn time.
    pub fn spawn(initial_direction: Airt, index: usize, dimensions: &Dimensions) -> (c: Car)
        requires
            dimensions.wf(),
        ensures
            exists|lane: int, birthday: int|
                0 <= lane < 3 && 0 <= birthday <= u64::MAX && c@ == spec_spawn(
                    initial_direction,
                    lane,
                    index as int,
                    birthday,
                    *dimensions,
                ),
            car_wf(c@),
            c@.index == index as int,
    {
        let mut rng = host::fresh_rng();
        let r = host::rand_below(&mut rng, 3);
        let birthday = host::clock_nanos();
        let c = Self::spawn_with_lane(initial_direction, r as u8, index, birthday, dimensions);
        proof {
            assert(c@ == spec_spawn(
                initial_direction,
                r as int,
                index as int,
                birthday as int,
                *dimensions,
            ));
        }
        c
    }
}

impl Traffic {
    /// A state the simulation keeps between ticks: every vehicle live, in
    /// bounds, and stored under its own index.
    pub open spec fn wf(&self) -> bool {
        sim_wf(self@)
    }

    /// The empty simulation: no vehicles, zero counters, and the infinite
    /// sentinel on the minimum transit time so the first retirement sets it.
    pub fn new() -> (t: Traffic)
        ensures
            t@.cars.len() == 0,
            t@.passed == 0,
            t@.give_ways == 0,
            t@.max_time == 0,
            t@.min_time == u64::MAX,
            t.wf(),
    {
        Traffic {
            cars: Vec::new(),
            cars_passed: 0,
            give_ways: 0,
            max_time: 0,
            min_time: u64::MAX,
        }
    }

    /// Append one vehicle spawned from `initial_direction`, in a random entry
    /// lane, stamped with the current clock.
    pub fn push(&mut self, initial_direction: Airt, dimensions: &Dimensions)
        requires
            old(self).wf(),
            dimensions.wf(),
            old(self).cars.len() < usize::MAX,
        ensures
            final(self).wf(),
            exists|lane: int, birthday: int|
                0 <= lane < 3 && 0 <= birthday <= u64::MAX && final(self)@ == spec_push(
                    old(self)@,
                    initial_direction,
                    lane,
                    birthday,
                    *dimensions,
                ),
    {
        let index = self.cars.len();
        let car = Car::spawn(initial_direction, index, dimensions);
        self.cars.push(car);
        proof {
            assert(self@.cars =~= old(self)@.cars.push(car@));
            let (lane, birthday) = choose|lane: int, birthday: int|
                0 <= lane < 3 && 0 <= birthday <= u64::MAX && car@ == spec_spawn(
                    initial_direction,
                    lane,
                    index as int,
                    birthday,
                    *dimensions,
                );
            assert(self@ =~= spec_push(old(self)@, initial_direction, lane, birthday, *dimensions));
        }
    }

    /// Like `push`, but with the entry lane chosen by the caller instead of
    /// drawn at random.
    pub fn push_with_lane(&mut self, initial_direction: Airt, lane: u8, dimensions: &Dimensions)
        requires
            old(self).wf(),
            dimensions.wf(),
            lane < 3,
            old(self).cars.len() < usize::MAX,
        ensures
            final(self).wf(),
            exists|birthday: int|
                0 <= birthday <= u64::MAX && final(self)@ == spec_push(
                    old(self)@,
                    initial_direction,
                    lane as int,
                    birthday,
                    *dimensions,
                ),
    {
        let index = self.cars.len();
        let birthday = host::clock_nanos();
        let car = Car::spawn_with_lane(initial_direction, lane, index, birthday, dimensions);
        self.cars.push(car);
        proof {
            assert(self@.cars =~= old(self)@.cars.push(car@));
            assert(self@ =~= spec_push(
                old(self)@,
                initial_direction,
                lane as int,
                birthday as int,
                *dimensions,
            ));
        }
    }

    /// The formatted statistics snapshot for the display collaborator.
    /// With zero passed vehicles every time-based field reads "N/A",
    /// whatever `give_ways` holds; otherwise the give-way and passed counts
    /// and the two transit-time extremes, in seconds.  The crash, near-miss
    /// and speed lines are fixed display text, not computed quantities.
    pub fn format(&self) -> (s: String)
        ensures
            s@ == spec_report(self@),
    {
        if self.cars_passed == 0 {
            "Crashes: 0\nNear misses: 0\nGive ways: 0\nCars passed: 0\nSlowest speed: N/A\nFastest speed: N/A\nMax time: N/A\nMin time: N/A".to_owned()
        } else {
            let mut s = "Crashes: 0\nNear misses: 0\nGive ways: ".to_owned();
            let gw = u64_to_string(self.give_ways);
            s.append(gw.as_str());
            s.append("\nCars passed: ");
            let cp = u64_to_string(self.cars_passed);
            s.append(cp.as_str());
            s.append("\nSlowest speed: ");
            if self.give_ways == 0 {
                s.append("250");
            } else {
                s.append("0");
            }
            s.append("px/s\nFastest speed: 1000px/s\nMax time: ");
            let mx = secs_to_string(self.max_time);
            s.append(mx.as_str());
            s.append("s\nMin time: ");
            let mn = secs_to_string(self.min_time);
            s.append(mn.as_str());
            s.append("s");
            proof {
                assert(s@ =~= spec_report(self@));
            }
            s
        }
    }

    /// One simulation tick at time `now` (nanoseconds): every vehicle is
    /// processed once, strictly in index order — retired if its footprint has
    /// left the bounded area (recording its transit time), otherwise moved
    /// unless the move would overlap another vehicle's claimed position —
    /// then the retired vehicles are removed, order preserved, and every
    /// survivor's index is reassigned to its new position.  Earlier-spawned
    /// vehicles claim contested space first; later ones give way.
    pub fn advance_at(&mut self, now: u64, dimensions: &Dimensions)
        requires
            old(self).wf(),
            dimensions.wf(),
        ensures
            final(self).wf(),
            final(self)@ == spec_tick(old(self)@, *dimensions, now as int),
            final(self)@.give_ways >= old(self)@.give_ways,
            final(self)@.passed >= old(self)@.passed,
            final(self)@.max_time >= old(self)@.max_time,
            final(self)@.min_time <= old(self)@.min_time,
            forall|i: int|
                0 <= i < final(self)@.cars.len() ==> (#[trigger] final(self)@.cars[i]).index == i
                    && !final(self)@.cars[i].gone,
            no_overlap(old(self)@.cars, dimensions.lane_width as int) ==> no_overlap(
                final(self)@.cars,
                dimensions.lane_width as int,
            ),
    {
        let ghost m0 = self@;
        let ghost s0 = start_pass(m0);
        let ghost d = *dimensions;
        let ghost nowi = now as int;

        proof {
            lemma_start_pass_wf(m0, d);
        }

        let n = self.cars.len();

        // Claim every vehicle's current position under its own index.
        let mut prospective_positions: Vec<(i32, i32, usize)> = Vec::new();
        let mut i: usize = 0;
        while i < n
            invariant
                i <= n,
                n == self.cars@.len(),
                m0 == self@,
                prospective_positions@.len() == i,
                forall|t: int|
                    0 <= t < i ==> #[trigger] prospective_positions@[t] == (
                        self.cars@[t].x,
                        self.cars@[t].y,
                        self.cars@[t].index,
                    ),
            decreases n - i,
        {
            let car = self.cars[i];
            prospective_positions.push((car.x, car.y, car.index));
            i += 1;
        }

        proof {
            assert forall|t: int| 0 <= t < n implies claims_view(prospective_positions@)[t]
                == initial_claims(m0.cars)[t] by {
                assert(prospective_positions@[t] == (
                    self.cars@[t].x,
                    self.cars@[t].y,
                    self.cars@[t].index,
                ));
                assert(m0.cars[t] == self.cars@[t]@);
            };
            assert(claims_view(prospective_positions@) =~= initial_claims(m0.cars));
        }

        // The pass: each vehicle in turn, against the live claim array.
        let mut k: usize = 0;
        while k < n
            invariant
                k <= n,
                n == self.cars@.len(),
                prospective_positions@.len() == n,
                dimensions.wf(),
                d == *dimensions,
                nowi == now as int,
                sim_wf(m0),
                s0 == start_pass(m0),
                pass_wf(s0, d),
                s0.cars.len() == n,
                (PassModel {
                    cars: self.cars@.map_values(|c: Car| c@),
                    claims: claims_view(prospective_positions@),
                    passed: self.cars_passed as int,
                    give_ways: self.give_ways as int,
                    max_time: self.max_time as int,
                    min_time: self.min_time as int,
                }) == run_pass(s0, k as int, d, nowi),
            decreases n - k,
        {
            let ghost pre = run_pass(s0, k as int, d, nowi);
            proof {
                lemma_run_pass_wf(s0, k as int, d, nowi);
                assert(pre.cars[k as int] == s0.cars[k as int]);
                assert(car_wf(s0.cars[k as int]));
                assert forall|t: int|
                    0 <= t < n implies -2_000_000 <= (#[trigger] pre.claims[t]).0 <= 2_000_000
                        && -2_000_000 <= pre.claims[t].1 <= 2_000_000 by {
                    let ct = pre.cars[t];
                };
            }
            let mut car = self.cars[k];
            proof {
                assert(car@ == pre.cars[k as int]);
                assert(car@.index == k as int);
            }
            let r = car.update(
                &mut prospective_positions,
                &mut self.cars_passed,
                &mut self.max_time,
                &mut self.min_time,
                now,
                dimensions,
            );
            self.cars.set(k, car);
            if !r {
                self.give_ways = if self.give_ways < u64::MAX {
                    self.give_ways + 1
                } else {
                    self.give_ways
                };
            }
            proof {
                assert(prospective_positions@.len() == claims_view(
                    prospective_positions@,
                ).len());
                assert(claims_view(prospective_positions@).len() == n);
                assert(self.cars@.map_values(|c: Car| c@) =~= pre.cars.update(k as int, car@));
                assert((PassModel {
                    cars: self.cars@.map_values(|c: Car| c@),
                    claims: claims_view(prospective_positions@),
                    passed: self.cars_passed as int,
                    give_ways: self.give_ways as int,
                    max_time: self.max_time as int,
                    min_time: self.min_time as int,
                }) =~= step_car(pre, k as int, d, nowi));
                assert(run_pass(s0, k as int + 1, d, nowi) == step_car(pre, k as int, d, nowi));
            }
            k += 1;
        }

        let ghost sn = run_pass(s0, n as int, d, nowi);
        proof {
            lemma_run_pass_wf(s0, n as int, d, nowi);
        }

        // Compaction: drop the retired, keep order, reindex the survivors.
        let mut survivors: Vec<Car> = Vec::new();
        let mut j: usize = 0;
        while j < n
            invariant
                j <= n,
                n == self.cars@.len(),
                self.cars@.map_values(|c: Car| c@) == sn.cars,
                survivors@.map_values(|c: Car| c@) == compact(sn.cars.take(j as int)),
                survivors@.len() <= j,
            decreases n - j,
        {
            let mut c = self.cars[j];
            if !c.gone {
                c.index = survivors.len();
                survivors.push(c);
            }
            j += 1;
            proof {
                assert(sn.cars.take(j as int).drop_last() =~= sn.cars.take(j as int - 1));
                assert(sn.cars.take(j as int).last() == sn.cars[j as int - 1]);
                assert(sn.cars[j as int - 1] == self.cars@[j as int - 1]@);
                assert(survivors@.map_values(|c: Car| c@) =~= compact(sn.cars.take(j as int)));
            }
        }
        self.cars = survivors;

        proof {
            assert(sn.cars.take(n as int) =~= sn.cars);
            assert(self@.cars == compact(sn.cars));
            assert(m0.cars.len() == n);
            assert(self@ =~= spec_tick(m0, d, nowi));
            lemma_compact_wf(sn.cars);
            if no_overlap(m0.cars, d.lane_width as int) {
                crate::laws::lemma_tick_no_overlap(m0, d, nowi);
            }
        }
    }

    /// One simulation tick, stamped once with the current clock; see
    /// `advance_at` for what a tick does.
    pub fn update(&mut self, dimensions: &Dimensions)
        requires
            old(self).wf(),
            dimensions.wf(),
        ensures
            final(self).wf(),
            exists|now: u64| final(self)@ == spec_tick(old(self)@, *dimensions, now as int),
            final(self)@.give_ways >= old(self)@.give_ways,
            final(self)@.passed >= old(self)@.passed,
            final(self)@.max_time >= old(self)@.max_time,
            final(self)@.min_time <= old(self)@.min_time,
            forall|i: int|
                0 <= i < final(self)@.cars.len() ==> (#[trigger] final(self)@.cars[i]).index == i
                    && !final(self)@.cars[i].gone,
            no_overlap(old(self)@.cars, dimensions.lane_width as int) ==> no_overlap(
                final(self)@.cars,
                dimensions.lane_width as int,
            ),
    {
        let now = host::clock_nanos();
        self.advance_at(now, dimensions);
        proof {
            assert(self@ == spec_tick(old(self)@, *dimensions, now as int));
        }
    }

    /// Append one vehicle from a uniformly random entry approach.
    pub fn push_random(&mut self, dimensions: &Dimensions)
        requires
            old(self).wf(),
            dimensions.wf(),
            old(self).cars.len() < usize::MAX,
        ensures
            final(self).wf(),
            exists|dir: Airt, lane: int, birthday: int|
                0 <= lane < 3 && 0 <= birthday <= u64::MAX && final(self)@ == spec_push(
                    old(self)@,
                    dir,
                    lane,
                    birthday,
                    *dimensions,
                ),
    {
        let mut rng = host::fresh_rng();
        let r = host::rand_below(&mut rng, 4);
        let random_direction = if r == 0 {
            Airt::Up
        } else if r == 1 {
            Airt::Down
        } else if r == 2 {
            Airt::Left
        } else {
            Airt::Right
        };
        self.push(random_direction, dimensions);
    }
}

} // verus!
