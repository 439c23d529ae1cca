use vstd::prelude::*;

use crate::model::{
    claim_conflict, compact, elapsed_since, lemma_cars_no_overlap_from_claims,
    lemma_compact_no_overlap, lemma_compact_wf, lemma_run_claims_disjoint, lemma_run_pass_wf,
    lemma_start_claims_disjoint, lemma_start_pass_wf, lemma_step_pass_wf, next_move, no_overlap,
    off_area, pass_wf, run_pass, sim_wf, spec_tick, start_pass, CarModel, PassModel, SimModel,
};
use crate::types::Dimensions;

verus! {

/// Law: a tick preserves footprint disjointness — if no two vehicles'
/// footprints overlap when the tick starts, no two overlap when it
/// completes.  A vehicle commits a move only after checking its prospective
/// footprint against every other claimed position, and compaction only
/// removes vehicles.
pub proof fn lemma_tick_no_overlap(m: SimModel, d: Dimensions, now: int)
    requires
        0 <= now <= u64::MAX,
        d.wf(),
        sim_wf(m),
        no_overlap(m.cars, d.lane_width as int),
    ensures
        no_overlap(spec_tick(m, d, now).cars, d.lane_width as int),
{
    let n = m.cars.len() as int;
    let s0 = start_pass(m);
    lemma_start_pass_wf(m, d);
    lemma_start_claims_disjoint(m, d);
    lemma_run_pass_wf(s0, n, d, now);
    lemma_run_claims_disjoint(s0, n, d, now);
    lemma_cars_no_overlap_from_claims(run_pass(s0, n, d, now), d);
    lemma_compact_no_overlap(run_pass(s0, n, d, now).cars, d.lane_width as int);
}

/// Law: immediately after a tick, no vehicle is retired and every vehicle is
/// stored under its own index — compaction reassigns every survivor's index
/// to its new position.
pub proof fn lemma_tick_reindexes(m: SimModel, d: Dimensions, now: int)
    requires
        0 <= now <= u64::MAX,
        d.wf(),
        sim_wf(m),
    ensures
        forall|i: int|
            0 <= i < spec_tick(m, d, now).cars.len() ==> (#[trigger] spec_tick(
                m,
                d,
                now,
            ).cars[i]).index == i && !spec_tick(m, d, now).cars[i].gone,
{
    let n = m.cars.len() as int;
    let s0 = start_pass(m);
    lemma_start_pass_wf(m, d);
    lemma_run_pass_wf(s0, n, d, now);
    lemma_compact_wf(run_pass(s0, n, d, now).cars);
}

/// Vehicle `k` attempts and fails to move at its turn in the pass: it is
/// still on the area, but its prospective footprint overlaps a claim.
pub open spec fn blocked_at(s0: PassModel, k: int, d: Dimensions, now: int) -> bool {
    let s = run_pass(s0, k, d, now);
    let c = s.cars[k];
    !off_area(c, d) && claim_conflict(
        next_move(c, d).0,
        next_move(c, d).1,
        c.index,
        s.claims,
        d.lane_width as int,
    )
}

/// How many of the first `k` vehicles attempt and fail to move in the pass.
pub open spec fn count_blocked(s0: PassModel, k: int, d: Dimensions, now: int) -> int
    decreases k,
{
    if k <= 0 {
        0
    } else {
        count_blocked(s0, k - 1, d, now) + if blocked_at(s0, k - 1, d, now) {
            1int
        } else {
            0int
        }
    }
}

/// How many of the first `k` vehicles stand off the bounded area (and so
/// retire this tick).
pub open spec fn count_departing(cars: Seq<CarModel>, d: Dimensions, k: int) -> int
    decreases k,
{
    if k <= 0 {
        0
    } else {
        count_departing(cars, d, k - 1) + if off_area(cars[k - 1], d) {
            1int
        } else {
            0int
        }
    }
}

/// How many of the first `k` vehicles are marked retired.
pub open spec fn count_gone(cars: Seq<CarModel>, k: int) -> int
    decreases k,
{
    if k <= 0 {
        0
    } else {
        count_gone(cars, k - 1) + if cars[k - 1].gone {
            1int
        } else {
            0int
        }
    }
}

proof fn lemma_run_give_ways(s0: PassModel, k: int, d: Dimensions, now: int)
    requires
        0 <= now <= u64::MAX,
        d.wf(),
        pass_wf(s0, d),
        0 <= k <= s0.cars.len(),
    ensures
        0 <= count_blocked(s0, k, d, now) <= k,
        run_pass(s0, k, d, now).give_ways >= s0.give_ways,
        s0.give_ways + k <= u64::MAX ==> run_pass(s0, k, d, now).give_ways == s0.give_ways
            + count_blocked(s0, k, d, now),
    decreases k,
{
    if k > 0 {
        lemma_run_give_ways(s0, k - 1, d, now);
        lemma_run_pass_wf(s0, k - 1, d, now);
        lemma_step_pass_wf(run_pass(s0, k - 1, d, now), k - 1, d, now);
    }
}

/// Law: across one tick, `give_ways` never decreases; and as long as the
/// counter is not saturated it grows by exactly the number of vehicles that
/// attempted and failed to move that tick.
pub proof fn lemma_tick_give_ways(m: SimModel, d: Dimensions, now: int)
    requires
        0 <= now <= u64::MAX,
        d.wf(),
        sim_wf(m),
    ensures
        spec_tick(m, d, now).give_ways >= m.give_ways,
        m.give_ways + m.cars.len() <= u64::MAX ==> spec_tick(m, d, now).give_ways == m.give_ways
            + count_blocked(start_pass(m), m.cars.len() as int, d, now),
{
    lemma_start_pass_wf(m, d);
    lemma_run_give_ways(start_pass(m), m.cars.len() as int, d, now);
}

proof fn lemma_run_passed(s0: PassModel, k: int, d: Dimensions, now: int)
    requires
        0 <= now <= u64::MAX,
        d.wf(),
        pass_wf(s0, d),
        forall|j: int| 0 <= j < s0.cars.len() ==> !(#[trigger] s0.cars[j]).gone,
        0 <= k <= s0.cars.len(),
    ensures
        0 <= count_departing(s0.cars, d, k) <= k,
        run_pass(s0, k, d, now).passed >= s0.passed,
        forall|j: int|
            0 <= j < k ==> (#[trigger] run_pass(s0, k, d, now).cars[j]).gone == off_area(
                s0.cars[j],
                d,
            ),
        s0.passed + k <= u64::MAX ==> run_pass(s0, k, d, now).passed == s0.passed
            + count_departing(s0.cars, d, k),
    decreases k,
{
    if k > 0 {
        lemma_run_passed(s0, k - 1, d, now);
        lemma_run_pass_wf(s0, k - 1, d, now);
        lemma_step_pass_wf(run_pass(s0, k - 1, d, now), k - 1, d, now);
        assert(run_pass(s0, k - 1, d, now).cars[k - 1] == s0.cars[k - 1]);
    }
}

proof fn lemma_count_gone_prefix(a: Seq<CarModel>, b: Seq<CarModel>, k: int)
    requires
        0 <= k <= a.len(),
        k <= b.len(),
        forall|j: int| 0 <= j < k ==> a[j] == b[j],
    ensures
        count_gone(a, k) == count_gone(b, k),
    decreases k,
{
    if k > 0 {
        lemma_count_gone_prefix(a, b, k - 1);
    }
}

proof fn lemma_compact_len(cars: Seq<CarModel>)
    ensures
        compact(cars).len() == cars.len() - count_gone(cars, cars.len() as int),
    decreases cars.len(),
{
    if cars.len() > 0 {
        let front = cars.drop_last();
        lemma_compact_len(front);
        lemma_count_gone_prefix(cars, front, front.len() as int);
    }
}

proof fn lemma_count_gone_matches_departing(
    a: Seq<CarModel>,
    b: Seq<CarModel>,
    d: Dimensions,
    k: int,
)
    requires
        0 <= k <= a.len(),
        k <= b.len(),
        forall|j: int| 0 <= j < k ==> (#[trigger] a[j]).gone == off_area(b[j], d),
    ensures
        count_gone(a, k) == count_departing(b, d, k),
    decreases k,
{
    if k > 0 {
        lemma_count_gone_matches_departing(a, b, d, k - 1);
    }
}

/// Law: across one tick, `passed` never decreases; as long as the counter is
/// not saturated it grows by exactly the number of vehicles whose footprint
/// stood off the bounded area as the tick began.  Exactly those vehicles are
/// removed by the same tick's compaction, so each is counted exactly once.
pub proof fn lemma_tick_passed(m: SimModel, d: Dimensions, now: int)
    requires
        0 <= now <= u64::MAX,
        d.wf(),
        sim_wf(m),
    ensures
        spec_tick(m, d, now).passed >= m.passed,
        m.passed + m.cars.len() <= u64::MAX ==> spec_tick(m, d, now).passed == m.passed
            + count_departing(m.cars, d, m.cars.len() as int),
        spec_tick(m, d, now).cars.len() == m.cars.len() - count_departing(
            m.cars,
            d,
            m.cars.len() as int,
        ),
{
    let n = m.cars.len() as int;
    let s0 = start_pass(m);
    lemma_start_pass_wf(m, d);
    lemma_run_passed(s0, n, d, now);
    lemma_run_pass_wf(s0, n, d, now);
    let sn = run_pass(s0, n, d, now);
    lemma_compact_len(sn.cars);
    lemma_count_gone_matches_departing(sn.cars, m.cars, d, n);
}

proof fn lemma_run_elapsed(s0: PassModel, k: int, d: Dimensions, now: int)
    requires
        0 <= now <= u64::MAX,
        d.wf(),
        pass_wf(s0, d),
        0 <= k <= s0.cars.len(),
    ensures
        forall|j: int|
            0 <= j < k && off_area(#[trigger] s0.cars[j], d) ==> run_pass(
                s0,
                k,
                d,
                now,
            ).min_time <= elapsed_since(now, s0.cars[j].birthday) && elapsed_since(
                now,
                s0.cars[j].birthday,
            ) <= run_pass(s0, k, d, now).max_time,
    decreases k,
{
    if k > 0 {
        lemma_run_elapsed(s0, k - 1, d, now);
        lemma_run_pass_wf(s0, k - 1, d, now);
        lemma_step_pass_wf(run_pass(s0, k - 1, d, now), k - 1, d, now);
        assert(run_pass(s0, k - 1, d, now).cars[k - 1] == s0.cars[k - 1]);
    }
}

/// Law: when a tick completes, every vehicle it retired has its recorded
/// transit time between the minimum and maximum extremes the statistics then
/// hold.
pub proof fn lemma_tick_elapsed_bounds(m: SimModel, d: Dimensions, now: int)
    requires
        0 <= now <= u64::MAX,
        d.wf(),
        sim_wf(m),
    ensures
        forall|j: int|
            0 <= j < m.cars.len() && off_area(#[trigger] m.cars[j], d) ==> spec_tick(
                m,
                d,
                now,
            ).min_time <= elapsed_since(now, m.cars[j].birthday) && elapsed_since(
                now,
                m.cars[j].birthday,
            ) <= spec_tick(m, d, now).max_time,
{
    lemma_start_pass_wf(m, d);
    lemma_run_elapsed(start_pass(m), m.cars.len() as int, d, now);
}

} // verus!
