use vstd::prelude::*;

use crate::types::{Airt, Dimensions};

verus! {

/// Mathematical image of one vehicle: the fields of `Car` with unbounded
/// integers, so that the tick specification can be stated without any
/// machine-arithmetic noise.
#[verifier::ext_equal]
pub struct CarModel {
    pub x: int,
    pub y: int,
    pub color_code: int,
    pub start: Airt,
    pub end: Airt,
    pub speed: int,
    pub vertical: bool,
    pub gone: bool,
    pub index: int,
    pub birthday: int,
}

/// Mathematical image of the whole simulation: the vehicle collection in
/// spawn order, and the four statistics counters.
#[verifier::ext_equal]
pub struct SimModel {
    pub cars: Seq<CarModel>,
    pub passed: int,
    pub give_ways: int,
    pub max_time: int,
    pub min_time: int,
}

/// The state in the middle of one tick's arbitration pass: the vehicles, the
/// claimed-position array (x, y, claimant index), and the counters.
#[verifier::ext_equal]
pub struct PassModel {
    pub cars: Seq<CarModel>,
    pub claims: Seq<(int, int, int)>,
    pub passed: int,
    pub give_ways: int,
    pub max_time: int,
    pub min_time: int,
}

/// Two lane-width squares with top-left corners (ax, ay) and (bx, by)
/// overlap; touching edges do not count.
pub open spec fn square_overlap(ax: int, ay: int, bx: int, by: int, w: int) -> bool {
    ax < bx + w && ax + w > bx && ay < by + w && ay + w > by
}

/// The vehicle's footprint lies fully or partly outside the window.
pub open spec fn off_area(c: CarModel, d: Dimensions) -> bool {
    c.x < 0 || c.x + d.lane_width > d.window_width || c.y < 0
        || c.y + d.lane_width > d.window_height
}

/// The entry/exit pairs of the fixed spawn table: a vehicle never reverses.
pub open spec fn dir_ok(start: Airt, end: Airt) -> bool {
    match start {
        Airt::Up => end != Airt::Down,
        Airt::Down => end != Airt::Up,
        Airt::Left => end != Airt::Right,
        Airt::Right => end != Airt::Left,
    }
}

/// One step of constant-speed path following: the prospective position and
/// primary-axis flag for the next tick.  A turning vehicle travels on its
/// entry axis until its primary coordinate reaches the destination lane's
/// centerline at the edge of the central box; that tick it snaps its primary
/// coordinate to the centerline exactly, flips its axis flag, and advances on
/// the new axis.  (For an entry/exit pair outside the spawn table the vehicle
/// is left in place; such a pair never arises, see `dir_ok`.)
pub open spec fn next_move(c: CarModel, d: Dimensions) -> (int, int, bool) {
    match c.start {
        Airt::Up => match c.end {
            Airt::Left => if c.y > d.half_height - d.lane_width {
                (c.x, c.y - c.speed, c.vertical)
            } else {
                (c.x - c.speed, d.half_height - d.lane_width, false)
            },
            Airt::Up => (c.x, c.y - c.speed, c.vertical),
            Airt::Right => if c.y > d.half_height + 2 * d.lane_width {
                (c.x, c.y - c.speed, c.vertical)
            } else {
                (c.x + c.speed, d.half_height + 2 * d.lane_width, false)
            },
            Airt::Down => (c.x, c.y, c.vertical),
        },
        Airt::Down => match c.end {
            Airt::Left => if c.y < d.half_height - 3 * d.lane_width {
                (c.x, c.y + c.speed, c.vertical)
            } else {
                (c.x - c.speed, d.half_height - 3 * d.lane_width, false)
            },
            Airt::Down => (c.x, c.y + c.speed, c.vertical),
            Airt::Right => if c.y < d.half_height {
                (c.x, c.y + c.speed, c.vertical)
            } else {
                (c.x + c.speed, d.half_height as int, false)
            },
            Airt::Up => (c.x, c.y, c.vertical),
        },
        Airt::Left => match c.end {
            Airt::Up => if c.x > d.half_width + 2 * d.lane_width {
                (c.x - c.speed, c.y, c.vertical)
            } else {
                (d.half_width + 2 * d.lane_width, c.y - c.speed, true)
            },
            Airt::Left => (c.x - c.speed, c.y, c.vertical),
            Airt::Down => if c.x > d.half_width - d.lane_width {
                (c.x - c.speed, c.y, c.vertical)
            } else {
                (d.half_width - d.lane_width, c.y + c.speed, true)
            },
            Airt::Right => (c.x, c.y, c.vertical),
        },
        Airt::Right => match c.end {
            Airt::Up => if c.x < d.half_width {
                (c.x + c.speed, c.y, c.vertical)
            } else {
                (d.half_width as int, c.y - c.speed, true)
            },
            Airt::Right => (c.x + c.speed, c.y, c.vertical),
            Airt::Down => if c.x < d.half_width - 3 * d.lane_width {
                (c.x + c.speed, c.y, c.vertical)
            } else {
                (d.half_width - 3 * d.lane_width, c.y + c.speed, true)
            },
            Airt::Left => (c.x, c.y, c.vertical),
        },
    }
}

/// The prospective footprint at (nx, ny) overlaps some claimed position other
/// than the claimant's own entry.
pub open spec fn claim_conflict(
    nx: int,
    ny: int,
    idx: int,
    claims: Seq<(int, int, int)>,
    w: int,
) -> bool {
    exists|j: int|
        0 <= j < claims.len() && claims[j].2 != idx && square_overlap(
            nx,
            ny,
            claims[j].0,
            claims[j].1,
            w,
        )
}

/// Increment that stops at the largest `u64`, so that a counter never wraps.
pub open spec fn sat_inc(a: int) -> int {
    if a < u64::MAX {
        a + 1
    } else {
        a
    }
}

/// Transit duration at retirement; 0 if the clock ran backwards.
pub open spec fn elapsed_since(now: int, birth: int) -> int {
    if now >= birth {
        now - birth
    } else {
        0
    }
}

/// Process vehicle `k`, strictly as the tick pass does:
/// 1. already off the area: retire it and record its transit time;
/// 2. otherwise, if its prospective footprint overlaps another claimed
///    position: it stays (one give-way), though its axis flag still follows
///    `next_move`;
/// 3. otherwise commit: update its claim and its position.
pub open spec fn step_car(s: PassModel, k: int, d: Dimensions, now: int) -> PassModel {
    let c = s.cars[k];
    if off_area(c, d) {
        let e = elapsed_since(now, c.birthday);
        PassModel {
            cars: s.cars.update(k, CarModel { gone: true, ..c }),
            passed: sat_inc(s.passed),
            max_time: if s.max_time < e {
                e
            } else {
                s.max_time
            },
            min_time: if s.min_time > e {
                e
            } else {
                s.min_time
            },
            ..s
        }
    } else {
        let m = next_move(c, d);
        let c2 = CarModel { vertical: m.2, ..c };
        if claim_conflict(m.0, m.1, c.index, s.claims, d.lane_width as int) {
            PassModel {
                cars: s.cars.update(k, c2),
                give_ways: sat_inc(s.give_ways),
                ..s
            }
        } else {
            PassModel {
                cars: s.cars.update(k, CarModel { x: m.0, y: m.1, ..c2 }),
                claims: s.claims.update(c.index, (m.0, m.1, c.index)),
                ..s
            }
        }
    }
}

/// The pass after processing vehicles `0 .. k`, in index order.
pub open spec fn run_pass(s: PassModel, k: int, d: Dimensions, now: int) -> PassModel
    decreases k,
{
    if k <= 0 {
        s
    } else {
        step_car(run_pass(s, k - 1, d, now), k - 1, d, now)
    }
}

/// The claimed positions at the start of a tick: every vehicle's current
/// position, under its own index.
pub open spec fn initial_claims(cars: Seq<CarModel>) -> Seq<(int, int, int)> {
    Seq::new(cars.len(), |i: int| (cars[i].x, cars[i].y, cars[i].index))
}

/// Remove the retired vehicles, keeping order, and reassign each survivor's
/// index to its new position.
pub open spec fn compact(cars: Seq<CarModel>) -> Seq<CarModel>
    decreases cars.len(),
{
    if cars.len() == 0 {
        Seq::empty()
    } else {
        let front = compact(cars.drop_last());
        let last = cars.last();
        if last.gone {
            front
        } else {
            front.push(CarModel { index: front.len() as int, ..last })
        }
    }
}

/// One whole simulation tick at time `now`: claim initialization, the
/// arbitration pass over all vehicles in index order, then compaction.
pub open spec fn spec_tick(m: SimModel, d: Dimensions, now: int) -> SimModel {
    let s1 = run_pass(start_pass(m), m.cars.len() as int, d, now);
    SimModel {
        cars: compact(s1.cars),
        passed: s1.passed,
        give_ways: s1.give_ways,
        max_time: s1.max_time,
        min_time: s1.min_time,
    }
}

/// The fixed spawn table.  Lane 0, 1, 2 of each entry approach turn left, go
/// straight, turn right; the spawn coordinate puts the vehicle on the lane
/// column or row its exit requires, at the entry edge of the window.
pub open spec fn spec_spawn(
    start: Airt,
    lane: int,
    index: int,
    birthday: int,
    d: Dimensions,
) -> CarModel {
    let (x, y, end, speed, color_code, vertical): (int, int, Airt, int, int, bool) = match start {
        Airt::Up => if lane == 0 {
            (
                d.half_width as int,
                d.window_height - d.lane_width,
                Airt::Left,
                d.speed.default as int,
                0,
                true,
            )
        } else if lane == 1 {
            (
                d.half_width + d.lane_width,
                d.window_height - d.lane_width,
                Airt::Up,
                d.speed.fast as int,
                0,
                true,
            )
        } else {
            (
                d.half_width + 2 * d.lane_width,
                d.window_height - d.lane_width,
                Airt::Right,
                d.speed.slow as int,
                0,
                true,
            )
        },
        Airt::Down => if lane == 0 {
            (d.half_width - 3 * d.lane_width, 0, Airt::Left, d.speed.slow as int, 1, true)
        } else if lane == 1 {
            (d.half_width - 2 * d.lane_width, 0, Airt::Down, d.speed.fast as int, 1, true)
        } else {
            (d.half_width - d.lane_width, 0, Airt::Right, d.speed.default as int, 1, true)
        },
        Airt::Right => if lane == 0 {
            (0, d.half_height as int, Airt::Up, d.speed.default as int, 2, false)
        } else if lane == 1 {
            (0, d.half_height + d.lane_width, Airt::Right, d.speed.fast as int, 2, false)
        } else {
            (0, d.half_height + 2 * d.lane_width, Airt::Down, d.speed.slow as int, 2, false)
        },
        Airt::Left => if lane == 0 {
            (
                d.window_width - d.lane_width,
                d.half_height - 3 * d.lane_width,
                Airt::Up,
                d.speed.slow as int,
                3,
                false,
            )
        } else if lane == 1 {
            (
                d.window_width - d.lane_width,
                d.half_height - 2 * d.lane_width,
                Airt::Left,
                d.speed.fast as int,
                3,
                false,
            )
        } else {
            (
                d.window_width - d.lane_width,
                d.half_height - d.lane_width,
                Airt::Down,
                d.speed.default as int,
                3,
                false,
            )
        },
    };
    CarModel {
        x,
        y,
        color_code,
        start,
        end,
        speed,
        vertical,
        gone: false,
        index,
        birthday,
    }
}

/// Appending one freshly spawned vehicle; nothing else changes.
pub open spec fn spec_push(
    m: SimModel,
    start: Airt,
    lane: int,
    birthday: int,
    d: Dimensions,
) -> SimModel {
    SimModel { cars: m.cars.push(spec_spawn(start, lane, m.cars.len() as int, birthday, d)), ..m }
}

/// A vehicle the simulation can hold: bounded coordinates and speed (so no
/// position computation leaves `i32`), a spawn-table direction pair, one of
/// the four color classes, and not yet retired.
pub open spec fn car_wf(c: CarModel) -> bool {
    &&& -2_000_000 <= c.x <= 2_000_000
    &&& -2_000_000 <= c.y <= 2_000_000
    &&& 1 <= c.speed <= 100_000
    &&& dir_ok(c.start, c.end)
    &&& 0 <= c.color_code < 4
    &&& !c.gone
    &&& 0 <= c.birthday <= u64::MAX
}

/// A well-formed simulation state between ticks: every vehicle is live,
/// within bounds, and stored under its own index; the counters fit in `u64`.
pub open spec fn sim_wf(m: SimModel) -> bool {
    &&& forall|i: int|
        0 <= i < m.cars.len() ==> car_wf(#[trigger] m.cars[i]) && m.cars[i].index == i
    &&& 0 <= m.passed <= u64::MAX
    &&& 0 <= m.give_ways <= u64::MAX
    &&& 0 <= m.max_time <= u64::MAX
    &&& 0 <= m.min_time <= u64::MAX
}

/// The mathematical image of the executable claimed-position array.
pub open spec fn claims_view(s: Seq<(i32, i32, usize)>) -> Seq<(int, int, int)> {
    s.map_values(|p: (i32, i32, usize)| (p.0 as int, p.1 as int, p.2 as int))
}

/// Every claimed position lies in the coordinate range vehicles can reach.
pub open spec fn claims_bounded(s: Seq<(int, int, int)>) -> bool {
    forall|j: int|
        0 <= j < s.len() ==> -2_000_000 <= (#[trigger] s[j]).0 <= 2_000_000 && -2_000_000 <= s[j].1
            <= 2_000_000
}

/// What holds of the arbitration state throughout a tick's pass: one claim
/// per vehicle, each claim under its owner's index and at its owner's exact
/// current position, every vehicle within bounds and on a spawn-table path,
/// and the counters within `u64`.
pub open spec fn pass_wf(s: PassModel, d: Dimensions) -> bool {
    &&& s.claims.len() == s.cars.len()
    &&& forall|j: int|
        0 <= j < s.cars.len() ==> {
            let c = #[trigger] s.cars[j];
            &&& -2_000_000 <= c.x <= 2_000_000
            &&& -2_000_000 <= c.y <= 2_000_000
            &&& 1 <= c.speed <= 100_000
            &&& dir_ok(c.start, c.end)
            &&& 0 <= c.color_code < 4
            &&& 0 <= c.birthday <= u64::MAX
            &&& c.index == j
            &&& s.claims[j] == (c.x, c.y, j)
        }
    &&& 0 <= s.passed <= u64::MAX
    &&& 0 <= s.give_ways <= u64::MAX
    &&& 0 <= s.max_time <= u64::MAX
    &&& 0 <= s.min_time <= u64::MAX
}

/// The pass state a tick starts from.
pub open spec fn start_pass(m: SimModel) -> PassModel {
    PassModel {
        cars: m.cars,
        claims: initial_claims(m.cars),
        passed: m.passed,
        give_ways: m.give_ways,
        max_time: m.max_time,
        min_time: m.min_time,
    }
}

/// No two distinct vehicles' footprints overlap.
pub open spec fn no_overlap(cars: Seq<CarModel>, w: int) -> bool {
    forall|i: int, j: int|
        0 <= i < cars.len() && 0 <= j < cars.len() && i != j ==> !square_overlap(
            (#[trigger] cars[i]).x,
            cars[i].y,
            (#[trigger] cars[j]).x,
            cars[j].y,
            w,
        )
}

/// No two distinct claimed positions overlap.
pub open spec fn claims_disjoint(claims: Seq<(int, int, int)>, w: int) -> bool {
    forall|i: int, j: int|
        0 <= i < claims.len() && 0 <= j < claims.len() && i != j ==> !square_overlap(
            (#[trigger] claims[i]).0,
            claims[i].1,
            (#[trigger] claims[j]).0,
            claims[j].1,
            w,
        )
}

/// A well-formed simulation state starts its tick in a well-formed pass.
pub proof fn lemma_start_pass_wf(m: SimModel, d: Dimensions)
    requires
        sim_wf(m),
    ensures
        pass_wf(start_pass(m), d),
{
    let s = start_pass(m);
    assert forall|j: int| 0 <= j < s.cars.len() implies {
        let c = #[trigger] s.cars[j];
        &&& -2_000_000 <= c.x <= 2_000_000
        &&& -2_000_000 <= c.y <= 2_000_000
        &&& 1 <= c.speed <= 100_000
        &&& dir_ok(c.start, c.end)
        &&& 0 <= c.color_code < 4
        &&& 0 <= c.birthday <= u64::MAX
        &&& c.index == j
        &&& s.claims[j] == (c.x, c.y, j)
    } by {
        let cj = m.cars[j];
        assert(car_wf(cj) && cj.index == j);
        assert(s.claims[j] == (cj.x, cj.y, cj.index));
    };
}

/// Vehicles that stand apart start their tick with disjoint claims.
pub proof fn lemma_start_claims_disjoint(m: SimModel, d: Dimensions)
    requires
        sim_wf(m),
        no_overlap(m.cars, d.lane_width as int),
    ensures
        claims_disjoint(start_pass(m).claims, d.lane_width as int),
{
    let s = start_pass(m);
    let w = d.lane_width as int;
    assert forall|i: int, j: int|
        0 <= i < s.claims.len() && 0 <= j < s.claims.len() && i != j implies !square_overlap(
        (#[trigger] s.claims[i]).0,
        s.claims[i].1,
        (#[trigger] s.claims[j]).0,
        s.claims[j].1,
        w,
    ) by {
        let ci = m.cars[i];
        let cj = m.cars[j];
        assert(s.claims[i] == (ci.x, ci.y, ci.index));
        assert(s.claims[j] == (cj.x, cj.y, cj.index));
        assert(!square_overlap(ci.x, ci.y, cj.x, cj.y, w));
    };
}

/// With every claim at its owner's position, disjoint claims mean disjoint
/// vehicles.
pub proof fn lemma_cars_no_overlap_from_claims(s: PassModel, d: Dimensions)
    requires
        pass_wf(s, d),
        claims_disjoint(s.claims, d.lane_width as int),
    ensures
        no_overlap(s.cars, d.lane_width as int),
{
    let w = d.lane_width as int;
    assert forall|i: int, j: int|
        0 <= i < s.cars.len() && 0 <= j < s.cars.len() && i != j implies !square_overlap(
        (#[trigger] s.cars[i]).x,
        s.cars[i].y,
        (#[trigger] s.cars[j]).x,
        s.cars[j].y,
        w,
    ) by {
        let ci = s.cars[i];
        let cj = s.cars[j];
        assert(s.claims[i] == (ci.x, ci.y, i));
        assert(s.claims[j] == (cj.x, cj.y, j));
        assert(!square_overlap(s.claims[i].0, s.claims[i].1, s.claims[j].0, s.claims[j].1, w));
    };
}

/// Processing one vehicle preserves the pass invariants, touches only that
/// vehicle's entry and claim, and moves the counters only in their one
/// direction.
pub proof fn lemma_step_pass_wf(s: PassModel, k: int, d: Dimensions, now: int)
    requires
        0 <= now <= u64::MAX,
        d.wf(),
        pass_wf(s, d),
        0 <= k < s.cars.len(),
    ensures
        pass_wf(step_car(s, k, d, now), d),
        step_car(s, k, d, now).cars.len() == s.cars.len(),
        step_car(s, k, d, now).claims.len() == s.claims.len(),
        forall|j: int|
            0 <= j < s.cars.len() && j != k ==> step_car(s, k, d, now).cars[j] == s.cars[j],
        forall|j: int|
            0 <= j < s.claims.len() && j != k ==> step_car(s, k, d, now).claims[j] == s.claims[j],
        step_car(s, k, d, now).give_ways >= s.give_ways,
        step_car(s, k, d, now).passed >= s.passed,
        step_car(s, k, d, now).max_time >= s.max_time,
        step_car(s, k, d, now).min_time <= s.min_time,
{
    let c = s.cars[k];
    let t = step_car(s, k, d, now);
    if !off_area(c, d) {
        let m = next_move(c, d);
        assert(0 <= c.x && c.x + d.lane_width <= d.window_width);
        assert(0 <= c.y && c.y + d.lane_width <= d.window_height);
        assert(-2_000_000 <= m.0 <= 2_000_000);
        assert(-2_000_000 <= m.1 <= 2_000_000);
    }
    assert forall|j: int| 0 <= j < t.cars.len() implies {
        let cj = #[trigger] t.cars[j];
        &&& -2_000_000 <= cj.x <= 2_000_000
        &&& -2_000_000 <= cj.y <= 2_000_000
        &&& 1 <= cj.speed <= 100_000
        &&& dir_ok(cj.start, cj.end)
        &&& 0 <= cj.color_code < 4
        &&& 0 <= cj.birthday <= u64::MAX
        &&& cj.index == j
        &&& t.claims[j] == (cj.x, cj.y, j)
    } by {
        let sj = s.cars[j];
        if j != k {
            assert(t.cars[j] == s.cars[j]);
            assert(t.claims[j] == s.claims[j]);
        }
    };
}

/// The pass invariants hold after any prefix of the pass, and the vehicles
/// not yet processed stand exactly as the tick found them.
pub proof fn lemma_run_pass_wf(s0: PassModel, k: int, d: Dimensions, now: int)
    requires
        0 <= now <= u64::MAX,
        d.wf(),
        pass_wf(s0, d),
        0 <= k <= s0.cars.len(),
    ensures
        pass_wf(run_pass(s0, k, d, now), d),
        run_pass(s0, k, d, now).cars.len() == s0.cars.len(),
        run_pass(s0, k, d, now).claims.len() == s0.claims.len(),
        forall|j: int|
            k <= j < s0.cars.len() ==> run_pass(s0, k, d, now).cars[j] == s0.cars[j],
        run_pass(s0, k, d, now).give_ways >= s0.give_ways,
        run_pass(s0, k, d, now).passed >= s0.passed,
        run_pass(s0, k, d, now).max_time >= s0.max_time,
        run_pass(s0, k, d, now).min_time <= s0.min_time,
    decreases k,
{
    if k > 0 {
        lemma_run_pass_wf(s0, k - 1, d, now);
        lemma_step_pass_wf(run_pass(s0, k - 1, d, now), k - 1, d, now);
    }
}

/// Compaction keeps only live vehicles, each well formed and stored under
/// its new position as its index.
pub proof fn lemma_compact_wf(cars: Seq<CarModel>)
    requires
        forall|j: int|
            0 <= j < cars.len() ==> {
                let c = #[trigger] cars[j];
                &&& -2_000_000 <= c.x <= 2_000_000
                &&& -2_000_000 <= c.y <= 2_000_000
                &&& 1 <= c.speed <= 100_000
                &&& dir_ok(c.start, c.end)
                &&& 0 <= c.color_code < 4
                &&& 0 <= c.birthday <= u64::MAX
            },
    ensures
        compact(cars).len() <= cars.len(),
        forall|i: int|
            0 <= i < compact(cars).len() ==> car_wf(#[trigger] compact(cars)[i]) && compact(
                cars,
            )[i].index == i,
    decreases cars.len(),
{
    if cars.len() > 0 {
        let front = cars.drop_last();
        assert(forall|j: int| 0 <= j < front.len() ==> #[trigger] front[j] == cars[j]);
        lemma_compact_wf(front);
    }
}

/// Every compacted vehicle stands where some original vehicle stood.
pub proof fn lemma_compact_positions(cars: Seq<CarModel>)
    ensures
        forall|i: int|
            0 <= i < compact(cars).len() ==> exists|j: int|
                0 <= j < cars.len() && (#[trigger] compact(cars)[i]).x == cars[j].x && compact(
                    cars,
                )[i].y == cars[j].y,
    decreases cars.len(),
{
    if cars.len() > 0 {
        let front = cars.drop_last();
        lemma_compact_positions(front);
        assert forall|i: int| 0 <= i < compact(cars).len() implies exists|j: int|
            0 <= j < cars.len() && (#[trigger] compact(cars)[i]).x == cars[j].x && compact(
                cars,
            )[i].y == cars[j].y by {
            if i < compact(front).len() {
                assert(compact(cars)[i] == compact(front)[i]);
                let j = choose|j: int|
                    0 <= j < front.len() && (#[trigger] compact(front)[i]).x == front[j].x
                        && compact(front)[i].y == front[j].y;
                assert(front[j] == cars[j]);
                assert(0 <= j < cars.len() && compact(cars)[i].x == cars[j].x && compact(
                    cars,
                )[i].y == cars[j].y);
            } else {
                let j = cars.len() - 1;
                assert(compact(cars)[i].x == cars[j].x && compact(cars)[i].y == cars[j].y);
            }
        };
    }
}

/// Compaction cannot create an overlap.
pub proof fn lemma_compact_no_overlap(cars: Seq<CarModel>, w: int)
    requires
        no_overlap(cars, w),
    ensures
        no_overlap(compact(cars), w),
    decreases cars.len(),
{
    if cars.len() > 0 {
        let front = cars.drop_last();
        assert(forall|j: int| 0 <= j < front.len() ==> #[trigger] front[j] == cars[j]);
        lemma_compact_no_overlap(front, w);
        if !cars.last().gone {
            lemma_compact_positions(front);
            let last = cars.last();
            assert forall|i: int| 0 <= i < compact(front).len() implies !square_overlap(
                (#[trigger] compact(front)[i]).x,
                compact(front)[i].y,
                last.x,
                last.y,
                w,
            ) by {
                let j = choose|j: int|
                    0 <= j < front.len() && (#[trigger] compact(front)[i]).x == front[j].x
                        && compact(front)[i].y == front[j].y;
                assert(!square_overlap(cars[j].x, cars[j].y, cars[cars.len() - 1].x, cars[
                    cars.len() - 1
                ].y, w));
            };
        }
    }
}

/// One step keeps the claimed positions pairwise disjoint: a vehicle commits
/// a move only after checking its prospective footprint against every other
/// claim.
pub proof fn lemma_step_claims_disjoint(s: PassModel, k: int, d: Dimensions, now: int)
    requires
        d.wf(),
        pass_wf(s, d),
        0 <= k < s.cars.len(),
        claims_disjoint(s.claims, d.lane_width as int),
    ensures
        claims_disjoint(step_car(s, k, d, now).claims, d.lane_width as int),
{
    let w = d.lane_width as int;
    let c = s.cars[k];
    if !off_area(c, d) {
        let m = next_move(c, d);
        if !claim_conflict(m.0, m.1, c.index, s.claims, w) {
            let cl2 = step_car(s, k, d, now).claims;
            assert(cl2 == s.claims.update(k, (m.0, m.1, k)));
            assert forall|i: int, j: int|
                0 <= i < cl2.len() && 0 <= j < cl2.len() && i != j implies !square_overlap(
                (#[trigger] cl2[i]).0,
                cl2[i].1,
                (#[trigger] cl2[j]).0,
                cl2[j].1,
                w,
            ) by {
                if i == k {
                    let cj = s.cars[j];
                    assert(s.claims[j].2 == j);
                    assert(!(s.claims[j].2 != c.index && square_overlap(
                        m.0,
                        m.1,
                        s.claims[j].0,
                        s.claims[j].1,
                        w,
                    )));
                } else if j == k {
                    let ci = s.cars[i];
                    assert(s.claims[i].2 == i);
                    assert(!(s.claims[i].2 != c.index && square_overlap(
                        m.0,
                        m.1,
                        s.claims[i].0,
                        s.claims[i].1,
                        w,
                    )));
                } else {
                    assert(cl2[i] == s.claims[i] && cl2[j] == s.claims[j]);
                }
            };
        }
    }
}

/// The whole pass keeps the claimed positions pairwise disjoint.
pub proof fn lemma_run_claims_disjoint(s0: PassModel, k: int, d: Dimensions, now: int)
    requires
        0 <= now <= u64::MAX,
        d.wf(),
        pass_wf(s0, d),
        0 <= k <= s0.cars.len(),
        claims_disjoint(s0.claims, d.lane_width as int),
    ensures
        claims_disjoint(run_pass(s0, k, d, now).claims, d.lane_width as int),
    decreases k,
{
    if k > 0 {
        lemma_run_claims_disjoint(s0, k - 1, d, now);
        lemma_run_pass_wf(s0, k - 1, d, now);
        lemma_step_claims_disjoint(run_pass(s0, k - 1, d, now), k - 1, d, now);
    }
}

} // verus!
