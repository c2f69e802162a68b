//! The tick-driven simulation engine: per tick it pairs co-located vehicles
//! segment by segment, evaluates each unordered id pair at most once over
//! the whole run, advances every vehicle, and detects termination.

use vstd::prelude::*;
use crate::car::Car;
use crate::road::Road;
use crate::sim_checks::collision_check;

verus! {

/// One probabilistic evaluation, recorded for the whole run: the normalized
/// id pair, the segment it happened on, and its outcome.
pub struct EvalRecord {
    pub low_id: int,
    pub high_id: int,
    pub segment: int,
    pub collided: bool,
}

/// A collision the engine observed, kept for reporting: the two vehicle ids
/// (smaller first) and the segment index.
#[derive(Clone, Copy, PartialEq, Eq, Structural, Debug)]
pub struct CollisionEvent {
    pub first_id: usize,
    pub second_id: usize,
    pub segment: usize,
}

/// The engine is `Running` until every vehicle has exited the road.
#[derive(Clone, Copy, PartialEq, Eq, Structural, Debug)]
pub enum EngineState {
    Running,
    Finished,
}

/// How many of the recorded evaluations ended in a collision.
pub open spec fn count_collisions(s: Seq<EvalRecord>) -> nat
    decreases s.len(),
{
    if s.len() == 0 {
        0
    } else {
        count_collisions(s.drop_last()) + (if s.last().collided { 1nat } else { 0nat })
    }
}

pub proof fn lemma_count_collisions_le_len(s: Seq<EvalRecord>)
    ensures
        count_collisions(s) <= s.len(),
    decreases s.len(),
{
    if s.len() > 0 {
        lemma_count_collisions_le_len(s.drop_last());
    }
}

pub proof fn lemma_count_collisions_push(s: Seq<EvalRecord>, r: EvalRecord)
    ensures
        count_collisions(s.push(r)) == count_collisions(s) + (if r.collided { 1nat } else { 0nat }),
{
    assert(s.push(r).drop_last() =~= s);
}

/// A fleet the engine can run: every id is below the fleet size and unique,
/// every speed is at least one and small enough that no position can
/// overflow, and no position has drifted past one move beyond the road.
pub open spec fn fleet_ok(cars: Seq<Car>, road_len: int) -> bool {
    &&& forall|i: int| 0 <= i < cars.len() ==> (#[trigger] cars[i]).id < cars.len()
    &&& forall|i: int, j: int|
        0 <= i < j < cars.len() ==> cars[i].id != cars[j].id
    &&& forall|i: int| 0 <= i < cars.len() ==> (#[trigger] cars[i]).speed >= 1
    &&& forall|i: int| 0 <= i < cars.len() ==> (#[trigger] cars[i]).speed + road_len <= usize::MAX
    &&& forall|i: int|
        0 <= i < cars.len() ==> (#[trigger] cars[i]).current_road_index < road_len + cars[i].speed
}

/// Checks at run time that every vehicle of a fleet, taken alone, is one
/// the engine can run on a road of the given length.
fn fleet_elements_ok(cars: &Vec<Car>, road_len: usize) -> (r: bool)
    ensures
        r == (forall|i: int|
            0 <= i < cars@.len() ==> {
                &&& (#[trigger] cars@[i]).id < cars@.len()
                &&& cars@[i].speed >= 1
                &&& cars@[i].speed + road_len <= usize::MAX
                &&& cars@[i].current_road_index < road_len + cars@[i].speed
            }),
{
    let n = cars.len();
    let mut i: usize = 0;
    while i < n
        invariant
            i <= n,
            n == cars@.len(),
            forall|a: int|
                0 <= a < i ==> {
                    &&& (#[trigger] cars@[a]).id < cars@.len()
                    &&& cars@[a].speed >= 1
                    &&& cars@[a].speed + road_len <= usize::MAX
                    &&& cars@[a].current_road_index < road_len + cars@[a].speed
                },
        decreases n - i,
    {
        let c = cars[i];
        let fits = c.id < n && c.speed >= 1 && c.speed <= usize::MAX - road_len
            && c.current_road_index < road_len + c.speed;
        if !fits {
            return false;
        }
        i += 1;
    }
    true
}

/// Checks at run time that no two vehicles of a fleet share an id.
fn fleet_ids_distinct(cars: &Vec<Car>) -> (r: bool)
    ensures
        r == (forall|i: int, j: int| 0 <= i < j < cars@.len() ==> cars@[i].id != cars@[j].id),
{
    let n = cars.len();
    let mut i: usize = 0;
    while i < n
        invariant
            i <= n,
            n == cars@.len(),
            forall|a: int, b: int| 0 <= a < b < i ==> cars@[a].id != cars@[b].id,
        decreases n - i,
    {
        let mut j: usize = 0;
        while j < i
            invariant
                j <= i,
                i < n,
                n == cars@.len(),
                forall|a: int| 0 <= a < j ==> cars@[a].id != cars@[i as int].id,
            decreases i - j,
        {
            if cars[j].id == cars[i].id {
                return false;
            }
            j += 1;
        }
        i += 1;
    }
    true
}

/// Checks at run time that a fleet is one the engine can run: the condition
/// an unverified caller tests before building an engine.
pub fn fleet_ready(cars: &Vec<Car>, road_len: usize) -> (r: bool)
    ensures
        r == fleet_ok(cars@, road_len as int),
{
    fleet_elements_ok(cars, road_len) && fleet_ids_distinct(cars)
}

/// The simulation engine and all of its run-long state.
pub struct SimulationEngine {
    pub road: Vec<Road>,
    pub cars: Vec<Car>,
    /// Every normalized id pair that has ever been evaluated, in evaluation
    /// order; never cleared between segments or ticks.
    pub checked_pairs: Vec<(usize, usize)>,
    /// The collisions observed so far, for reporting.
    pub collision_events: Vec<CollisionEvent>,
    pub tick: u64,
    pub collisions: u64,
    pub safe_passes: u64,
    pub state: EngineState,
    /// The full evaluation history, one record per random draw.
    pub eval_log: Ghost<Seq<EvalRecord>>,
}

/// The normalized id pair of the `k`-th evaluation of a run's history.
pub open spec fn pair_of(log: Seq<EvalRecord>, k: int) -> (int, int) {
    (log[k].low_id, log[k].high_id)
}

/// The `k`-th evaluation is well formed: it mirrors the `k`-th checked pair,
/// its ids are an ordered pair of fleet ids, and its segment lies on the road.
pub open spec fn entry_ok(
    checked: Seq<(usize, usize)>,
    log: Seq<EvalRecord>,
    n_cars: int,
    road_len: int,
    k: int,
) -> bool {
    &&& checked[k].0 as int == log[k].low_id
    &&& checked[k].1 as int == log[k].high_id
    &&& 0 <= log[k].low_id < log[k].high_id < n_cars
    &&& 0 <= log[k].segment < road_len
}

pub open spec fn entries_ok(
    checked: Seq<(usize, usize)>,
    log: Seq<EvalRecord>,
    n_cars: int,
    road_len: int,
) -> bool {
    forall|k: int| 0 <= k < log.len() ==> #[trigger] entry_ok(checked, log, n_cars, road_len, k)
}

/// No unordered id pair is ever evaluated twice over a whole run.
pub open spec fn pairs_distinct(log: Seq<EvalRecord>) -> bool {
    forall|k1: int, k2: int| 0 <= k1 < k2 < log.len() ==> pair_of(log, k1) != pair_of(log, k2)
}

/// The `k`-th recorded collision event is an ordered pair of fleet ids on a
/// road segment.
pub open spec fn event_ok(events: Seq<CollisionEvent>, n_cars: int, road_len: int, k: int) -> bool {
    &&& (events[k].first_id as int) < (events[k].second_id as int)
    &&& (events[k].second_id as int) < n_cars
    &&& (events[k].segment as int) < road_len
}

pub open spec fn events_ok(events: Seq<CollisionEvent>, n_cars: int, road_len: int) -> bool {
    forall|k: int| 0 <= k < events.len() ==> #[trigger] event_ok(events, n_cars, road_len, k)
}

impl SimulationEngine {
    /// The engine's invariant, established at construction and preserved by
    /// every tick.
    pub open spec fn wf(self) -> bool {
        &&& self.road@.len() >= 1
        &&& fleet_ok(self.cars@, self.road@.len() as int)
        &&& self.checked_pairs@.len() == self.eval_log@.len()
        &&& self.eval_log@.len() <= usize::MAX
        &&& entries_ok(
            self.checked_pairs@,
            self.eval_log@,
            self.cars@.len() as int,
            self.road@.len() as int,
        )
        &&& pairs_distinct(self.eval_log@)
        &&& self.collisions == count_collisions(self.eval_log@)
        &&& self.collisions + self.safe_passes == self.eval_log@.len()
        &&& self.collision_events@.len() == self.collisions
        &&& events_ok(self.collision_events@, self.cars@.len() as int, self.road@.len() as int)
        &&& self.state == EngineState::Finished ==> forall|i: int|
            0 <= i < self.cars@.len() ==> (#[trigger] self.cars@[i]).current_road_index
                >= self.road@.len()
    }

    /// Builds an engine at the start of a run: tick zero, empty pair set,
    /// zeroed counters, `Running`.
    pub fn new(road: Vec<Road>, cars: Vec<Car>) -> (r: SimulationEngine)
        requires
            road@.len() >= 1,
            fleet_ok(cars@, road@.len() as int),
        ensures
            r.wf(),
            r.road == road,
            r.cars == cars,
            r.tick == 0,
            r.collisions == 0,
            r.safe_passes == 0,
            r.state == EngineState::Running,
            r.eval_log@.len() == 0,
            r.checked_pairs@.len() == 0,
            r.collision_events@.len() == 0,
    {
        SimulationEngine {
            road,
            cars,
            checked_pairs: Vec::new(),
            collision_events: Vec::new(),
            tick: 0,
            collisions: 0,
            safe_passes: 0,
            state: EngineState::Running,
            eval_log: Ghost(Seq::empty()),
        }
    }

    /// Evaluates one adjacent pair of co-located vehicles: normalizes the id
    /// pair, skips it if it was ever evaluated before, and otherwise draws
    /// once, counts the outcome, and marks the pair as checked for the rest
    /// of the run.
    fn evaluate_pair(&mut self, first: usize, second: usize, seg: usize)
        requires
            old(self).wf(),
            first < old(self).cars@.len(),
            second < old(self).cars@.len(),
            old(self).cars@[first as int].id < old(self).cars@[second as int].id,
            seg < old(self).road@.len(),
            old(self).cars@[first as int].current_road_index == seg,
            old(self).cars@[second as int].current_road_index == seg,
        ensures
            final(self).wf(),
            final(self).road == old(self).road,
            final(self).cars == old(self).cars,
            final(self).tick == old(self).tick,
            final(self).state == old(self).state,
            final(self).collisions >= old(self).collisions,
            final(self).safe_passes >= old(self).safe_passes,
            old(self).eval_log@.len() <= final(self).eval_log@.len()
                <= old(self).eval_log@.len() + 1,
            forall|k: int|
                0 <= k < old(self).eval_log@.len() ==> final(self).eval_log@[k]
                    == old(self).eval_log@[k],
            forall|k: int|
                old(self).eval_log@.len() <= k < final(self).eval_log@.len() ==> {
                    &&& final(self).eval_log@[k].low_id == old(self).cars@[first as int].id
                    &&& final(self).eval_log@[k].high_id == old(self).cars@[second as int].id
                    &&& final(self).eval_log@[k].segment == seg
                },
            log_has_pair(
                final(self).eval_log@,
                old(self).cars@[first as int].id as int,
                old(self).cars@[second as int].id as int,
            ),
    {
        let id1 = self.cars[first].id;
        let id2 = self.cars[second].id;
        let pair = if id1 < id2 {
            (id1, id2)
        } else {
            (id2, id1)
        };
        let already = pair_is_checked(&self.checked_pairs, pair.0, pair.1);
        if already {
            proof {
                let k = choose|k: int|
                    0 <= k < self.checked_pairs@.len() && self.checked_pairs@[k] == (
                        pair.0,
                        pair.1,
                    );
                assert(entry_ok(
                    self.checked_pairs@,
                    self.eval_log@,
                    self.cars@.len() as int,
                    self.road@.len() as int,
                    k,
                ));
                assert((self.eval_log@[k]).low_id == id1 as int && self.eval_log@[k].high_id
                    == id2 as int);
            }
        } else {
            let car_one = self.cars[first];
            let car_two = self.cars[second];
            let road_seg = self.road[seg];
            let collided = collision_check(&car_one, &car_two, &road_seg);
            proof {
                lemma_count_collisions_le_len(self.eval_log@);
                lemma_count_collisions_push(
                    self.eval_log@,
                    EvalRecord {
                        low_id: pair.0 as int,
                        high_id: pair.1 as int,
                        segment: seg as int,
                        collided,
                    },
                );
            }
            self.checked_pairs.push(pair);
            // materializes the machine bound on the grown pair list's length
            let watermark: usize = self.checked_pairs.len();
            proof {
                assert(self.checked_pairs@.len() == watermark);
            }
            self.eval_log = Ghost(
                self.eval_log@.push(
                    EvalRecord {
                        low_id: pair.0 as int,
                        high_id: pair.1 as int,
                        segment: seg as int,
                        collided,
                    },
                ),
            );
            if collided {
                self.collisions += 1;
                self.collision_events.push(
                    CollisionEvent { first_id: pair.0, second_id: pair.1, segment: seg },
                );
            } else {
                self.safe_passes += 1;
            }
            proof {
                let ol = old(self).eval_log@.len() as int;
                let n_cars = self.cars@.len() as int;
                let rl = self.road@.len() as int;
                assert forall|k: int|
                    0 <= k < self.eval_log@.len() implies #[trigger] entry_ok(
                    self.checked_pairs@,
                    self.eval_log@,
                    n_cars,
                    rl,
                    k,
                ) by {
                    if k < ol {
                        assert(entry_ok(
                            old(self).checked_pairs@,
                            old(self).eval_log@,
                            n_cars,
                            rl,
                            k,
                        ));
                    }
                }
                assert forall|k1: int, k2: int|
                    0 <= k1 < k2 < self.eval_log@.len() implies pair_of(self.eval_log@, k1)
                    != pair_of(self.eval_log@, k2) by {
                    assert(entry_ok(old(self).checked_pairs@, old(self).eval_log@, n_cars, rl, k1));
                    if k2 < ol {
                        assert(pair_of(old(self).eval_log@, k1) != pair_of(old(self).eval_log@, k2));
                    } else {
                        assert(old(self).checked_pairs@[k1] != (pair.0, pair.1));
                    }
                }
                assert forall|k: int|
                    0 <= k < self.collision_events@.len() implies #[trigger] event_ok(
                    self.collision_events@,
                    n_cars,
                    rl,
                    k,
                ) by {
                    if k < old(self).collision_events@.len() {
                        assert(event_ok(old(self).collision_events@, n_cars, rl, k));
                    }
                }
                assert((self.eval_log@[self.eval_log@.len() - 1]).low_id == id1 as int
                    && self.eval_log@[self.eval_log@.len() - 1].high_id == id2 as int);
            }
        }
    }
    /// One tick: pairs co-located vehicles on every segment in ascending
    /// order and evaluates each newly adjacent pair, then advances every
    /// vehicle that is still on the road, and finally checks termination.
    pub fn step(&mut self)
        requires
            old(self).wf(),
            old(self).tick < u64::MAX,
        ensures
            final(self).wf(),
            final(self).road == old(self).road,
            final(self).cars@.len() == old(self).cars@.len(),
            final(self).tick == old(self).tick + 1,
            forall|i: int|
                0 <= i < old(self).cars@.len() ==> {
                    &&& (#[trigger] final(self).cars@[i]).id == old(self).cars@[i].id
                    &&& final(self).cars@[i].speed == old(self).cars@[i].speed
                    &&& final(self).cars@[i].is_rule_breaker == old(self).cars@[i].is_rule_breaker
                },
            forall|i: int|
                0 <= i < old(self).cars@.len() && old(self).cars@[i].current_road_index
                    >= old(self).road@.len() ==> (#[trigger] final(self).cars@[i]).current_road_index
                    == old(self).cars@[i].current_road_index,
            forall|i: int|
                0 <= i < old(self).cars@.len() && old(self).cars@[i].current_road_index
                    < old(self).road@.len() ==> (#[trigger] final(self).cars@[i]).current_road_index
                    == old(self).cars@[i].current_road_index + old(self).cars@[i].speed,
            (final(self).state == EngineState::Finished) <==> (forall|i: int|
                0 <= i < final(self).cars@.len() ==> (#[trigger] final(self).cars@[i]).current_road_index
                    >= final(self).road@.len()),
            final(self).collisions >= old(self).collisions,
            final(self).safe_passes >= old(self).safe_passes,
            old(self).eval_log@.len() <= final(self).eval_log@.len(),
            forall|k: int|
                0 <= k < old(self).eval_log@.len() ==> final(self).eval_log@[k] == old(
                    self,
                ).eval_log@[k],
            forall|k: int|
                old(self).eval_log@.len() <= k < final(self).eval_log@.len()
                    ==> record_from_fleet(old(self).cars@, #[trigger] final(self).eval_log@[k]),
            forall|i: int, j: int, seg: int|
                0 <= seg < old(self).road@.len() && adjacent_on_segment(old(self).cars@, i, j, seg)
                    ==> log_has_pair(
                    final(self).eval_log@,
                    old(self).cars@[i].id as int,
                    old(self).cars@[j].id as int,
                ),
    {
        let ghost orig = *self;
        let road_len: usize = self.road.len();
        let n: usize = self.cars.len();
        self.tick += 1;

        // pairing: for each segment, walk the fleet ids in ascending order,
        // keep the previously seen co-located vehicle, and evaluate each
        // adjacent pair once
        let mut r: usize = 0;
        while r < road_len
            invariant
                self.wf(),
                self.road == orig.road,
                self.cars == orig.cars,
                self.tick == orig.tick + 1,
                self.state == orig.state,
                road_len == self.road@.len(),
                n == self.cars@.len(),
                r <= road_len,
                self.collisions >= orig.collisions,
                self.safe_passes >= orig.safe_passes,
                orig.eval_log@.len() <= self.eval_log@.len(),
                forall|k: int|
                    0 <= k < orig.eval_log@.len() ==> self.eval_log@[k] == orig.eval_log@[k],
                forall|k: int|
                    orig.eval_log@.len() <= k < self.eval_log@.len() ==> record_from_fleet(
                        orig.cars@,
                        #[trigger] self.eval_log@[k],
                    ),
                forall|i2: int, j2: int, seg: int|
                    0 <= seg < r && adjacent_on_segment(orig.cars@, i2, j2, seg)
                        ==> log_has_pair(
                        self.eval_log@,
                        orig.cars@[i2].id as int,
                        orig.cars@[j2].id as int,
                    ),
            decreases road_len - r,
        {
            let mut prev: Option<usize> = None;
            let mut v: usize = 0;
            while v < n
                invariant
                    self.wf(),
                    self.road == orig.road,
                    self.cars == orig.cars,
                    self.tick == orig.tick + 1,
                    self.state == orig.state,
                    road_len == self.road@.len(),
                    n == self.cars@.len(),
                    r < road_len,
                    v <= n,
                    self.collisions >= orig.collisions,
                    self.safe_passes >= orig.safe_passes,
                    orig.eval_log@.len() <= self.eval_log@.len(),
                    forall|k: int|
                        0 <= k < orig.eval_log@.len() ==> self.eval_log@[k] == orig.eval_log@[k],
                    forall|k: int|
                        orig.eval_log@.len() <= k < self.eval_log@.len() ==> record_from_fleet(
                            orig.cars@,
                            #[trigger] self.eval_log@[k],
                        ),
                    forall|i2: int, j2: int, seg: int|
                        0 <= seg < r && adjacent_on_segment(orig.cars@, i2, j2, seg)
                            ==> log_has_pair(
                            self.eval_log@,
                            orig.cars@[i2].id as int,
                            orig.cars@[j2].id as int,
                        ),
                    forall|i2: int, j2: int|
                        adjacent_on_segment(orig.cars@, i2, j2, r as int)
                            && orig.cars@[j2].id < v ==> log_has_pair(
                            self.eval_log@,
                            orig.cars@[i2].id as int,
                            orig.cars@[j2].id as int,
                        ),
                    match prev {
                        Some(p) => p < n && orig.cars@[p as int].current_road_index == r
                            && orig.cars@[p as int].id < v && (forall|k: int|
                            0 <= k < n && (#[trigger] orig.cars@[k]).current_road_index == r
                                ==> !(orig.cars@[p as int].id < orig.cars@[k].id < v)),
                        None => forall|k: int|
                            0 <= k < n && (#[trigger] orig.cars@[k]).current_road_index == r
                                ==> orig.cars@[k].id >= v,
                    },
                decreases n - v,
            {
                let ghost cs = orig.cars@;
                let ghost log0 = self.eval_log@;
                // the vehicle whose id is v, if any: ids are unique
                let mut found: Option<usize> = None;
                let mut i: usize = 0;
                while i < n
                    invariant
                        n == self.cars@.len(),
                        self.cars == orig.cars,
                        i <= n,
                        match found {
                            Some(f) => f < n && self.cars@[f as int].id == v,
                            None => forall|a: int| 0 <= a < i ==> self.cars@[a].id != v,
                        },
                    decreases n - i,
                {
                    if self.cars[i].id == v {
                        found = Some(i);
                    }
                    i += 1;
                }
                match found {
                    Some(ci) => {
                        if self.cars[ci].current_road_index == r {
                            match prev {
                                Some(p) => {
                                    self.evaluate_pair(p, ci, r);
                                    proof {
                                        assert forall|k: int|
                                            orig.eval_log@.len() <= k < self.eval_log@.len()
                                                implies record_from_fleet(
                                                cs,
                                                #[trigger] self.eval_log@[k],
                                            ) by {
                                            if k >= log0.len() {
                                                assert(cs[p as int].id
                                                    == self.eval_log@[k].low_id);
                                                assert(cs[ci as int].id
                                                    == self.eval_log@[k].high_id);
                                            }
                                        }
                                        assert forall|i2: int, j2: int, seg: int|
                                            0 <= seg < r && adjacent_on_segment(cs, i2, j2, seg)
                                                implies log_has_pair(
                                                self.eval_log@,
                                                cs[i2].id as int,
                                                cs[j2].id as int,
                                            ) by {
                                            lemma_log_extends(
                                                log0,
                                                self.eval_log@,
                                                cs[i2].id as int,
                                                cs[j2].id as int,
                                            );
                                        }
                                        assert forall|i2: int, j2: int|
                                            adjacent_on_segment(cs, i2, j2, r as int)
                                                && cs[j2].id < v + 1 implies log_has_pair(
                                                self.eval_log@,
                                                cs[i2].id as int,
                                                cs[j2].id as int,
                                            ) by {
                                            if cs[j2].id < v {
                                                lemma_log_extends(
                                                    log0,
                                                    self.eval_log@,
                                                    cs[i2].id as int,
                                                    cs[j2].id as int,
                                                );
                                            } else {
                                                // j2 can only be the vehicle whose id is v
                                                if j2 != ci as int {
                                                    if j2 < ci as int {
                                                        assert(cs[j2].id != cs[ci as int].id);
                                                    } else {
                                                        assert(cs[ci as int].id != cs[j2].id);
                                                    }
                                                }
                                                // and i2 the co-located vehicle just before it
                                                assert(cs[i2].current_road_index == r);
                                                if cs[i2].id < cs[p as int].id {
                                                    assert(!(cs[i2].id < cs[p as int].id
                                                        < cs[j2].id));
                                                }
                                                if cs[i2].id > cs[p as int].id {
                                                    assert(!(cs[p as int].id < cs[i2].id < v));
                                                }
                                                if i2 != p as int {
                                                    if i2 < p as int {
                                                        assert(cs[i2].id != cs[p as int].id);
                                                    } else {
                                                        assert(cs[p as int].id != cs[i2].id);
                                                    }
                                                }
                                            }
                                        }
                                    }
                                }
                                None => {
                                    proof {
                                        assert forall|i2: int, j2: int|
                                            adjacent_on_segment(cs, i2, j2, r as int)
                                                && cs[j2].id < v + 1 implies log_has_pair(
                                                self.eval_log@,
                                                cs[i2].id as int,
                                                cs[j2].id as int,
                                            ) by {
                                            if cs[j2].id == v {
                                                // no co-located vehicle carries a smaller id
                                                assert(cs[i2].current_road_index == r);
                                                assert(cs[i2].id >= v);
                                            }
                                        }
                                    }
                                }
                            }
                            prev = Some(ci);
                        } else {
                            proof {
                                // the one vehicle whose id is v stands elsewhere
                                assert forall|k: int|
                                    0 <= k < n && (#[trigger] cs[k]).current_road_index == r
                                        implies cs[k].id != v by {
                                    if k != ci as int {
                                        if k < ci as int {
                                            assert(cs[k].id != cs[ci as int].id);
                                        } else {
                                            assert(cs[ci as int].id != cs[k].id);
                                        }
                                    }
                                }
                                assert forall|i2: int, j2: int|
                                    adjacent_on_segment(cs, i2, j2, r as int) && cs[j2].id < v + 1
                                        implies log_has_pair(
                                        self.eval_log@,
                                        cs[i2].id as int,
                                        cs[j2].id as int,
                                    ) by {
                                    if cs[j2].id == v {
                                        assert(cs[j2].current_road_index == r);
                                    }
                                }
                            }
                        }
                    }
                    None => {
                        proof {
                            assert forall|k: int|
                                0 <= k < n && (#[trigger] cs[k]).current_road_index == r
                                    implies cs[k].id != v by {
                            }
                            assert forall|i2: int, j2: int|
                                adjacent_on_segment(cs, i2, j2, r as int) && cs[j2].id < v + 1
                                    implies log_has_pair(
                                    self.eval_log@,
                                    cs[i2].id as int,
                                    cs[j2].id as int,
                                ) by {
                                if cs[j2].id == v {
                                    assert(cs[j2].current_road_index == r);
                                }
                            }
                        }
                    }
                }
                v += 1;
            }
            proof {
                let cs = orig.cars@;
                assert forall|i2: int, j2: int, seg: int|
                    0 <= seg < r + 1 && adjacent_on_segment(cs, i2, j2, seg)
                        implies log_has_pair(
                        self.eval_log@,
                        cs[i2].id as int,
                        cs[j2].id as int,
                    ) by {
                    if seg == r {
                        assert(cs[j2].id < n);
                    }
                }
            }
            r += 1;
        }

        // movement: every vehicle still on the road advances by its speed,
        // exactly once per tick
        let mut i: usize = 0;
        while i < n
            invariant
                self.wf(),
                self.road == orig.road,
                self.tick == orig.tick + 1,
                self.state == orig.state,
                road_len == self.road@.len(),
                n == self.cars@.len(),
                n == orig.cars@.len(),
                i <= n,
                self.collisions >= orig.collisions,
                self.safe_passes >= orig.safe_passes,
                orig.eval_log@.len() <= self.eval_log@.len(),
                forall|k: int|
                    0 <= k < orig.eval_log@.len() ==> self.eval_log@[k] == orig.eval_log@[k],
                forall|k: int|
                    orig.eval_log@.len() <= k < self.eval_log@.len() ==> record_from_fleet(
                        orig.cars@,
                        #[trigger] self.eval_log@[k],
                    ),
                forall|i2: int, j2: int, seg: int|
                    0 <= seg < road_len && adjacent_on_segment(orig.cars@, i2, j2, seg)
                        ==> log_has_pair(
                        self.eval_log@,
                        orig.cars@[i2].id as int,
                        orig.cars@[j2].id as int,
                    ),
                forall|k: int| i <= k < n ==> self.cars@[k] == orig.cars@[k],
                forall|k: int|
                    0 <= k < i ==> {
                        &&& (#[trigger] self.cars@[k]).id == orig.cars@[k].id
                        &&& self.cars@[k].speed == orig.cars@[k].speed
                        &&& self.cars@[k].is_rule_breaker == orig.cars@[k].is_rule_breaker
                        &&& (orig.cars@[k].current_road_index >= road_len
                            ==> self.cars@[k].current_road_index
                                == orig.cars@[k].current_road_index)
                        &&& (orig.cars@[k].current_road_index < road_len
                            ==> self.cars@[k].current_road_index
                                == orig.cars@[k].current_road_index + orig.cars@[k].speed)
                    },
            decreases n - i,
        {
            let ghost before_cars = self.cars@;
            let c = self.cars[i];
            if c.current_road_index < road_len {
                let mut moved = c;
                moved.move_forward();
                self.cars[i] = moved;
            }
            proof {
                assert forall|a: int|
                    0 <= a < n implies (#[trigger] self.cars@[a]).id == before_cars[a].id
                    && self.cars@[a].speed == before_cars[a].speed
                    && self.cars@[a].is_rule_breaker == before_cars[a].is_rule_breaker
                    && self.cars@[a].current_road_index >= before_cars[a].current_road_index by {
                    if a != i {
                        assert(self.cars@[a] == before_cars[a]);
                    }
                }
                assert(fleet_ok(self.cars@, road_len as int));
                if self.state == EngineState::Finished {
                    assert forall|a: int|
                        0 <= a < n implies (#[trigger] self.cars@[a]).current_road_index
                        >= road_len by {
                        assert(before_cars[a].current_road_index >= road_len);
                    }
                }
            }
            i += 1;
        }

        // termination: the run is finished once every vehicle has exited
        let mut all_finished: bool = true;
        let mut i: usize = 0;
        while i < n
            invariant
                n == self.cars@.len(),
                road_len == self.road@.len(),
                i <= n,
                all_finished == (forall|k: int|
                    0 <= k < i ==> (#[trigger] self.cars@[k]).current_road_index >= road_len),
            decreases n - i,
        {
            if !self.cars[i].has_finished(road_len) {
                all_finished = false;
            }
            i += 1;
        }
        self.state = if all_finished {
            EngineState::Finished
        } else {
            EngineState::Running
        };
    }

    /// The final report: collisions as counted, and the safe-pass counter
    /// halved with round-half-up — the engine's deliberate display
    /// normalization on exit.
    pub fn report(&self) -> (r: (u64, u64))
        ensures
            r.0 == self.collisions,
            r.1 == crate::config::spec_round_div(self.safe_passes as int, 2),
    {
        (self.collisions, self.safe_passes / 2 + self.safe_passes % 2)
    }

    /// Runs ticks until every vehicle has exited the road. A fleet that
    /// starts at the road's entry finishes within the ceiling of road length
    /// over slowest speed, in ticks; an empty fleet finishes after one tick.
    pub fn run(&mut self)
        requires
            old(self).wf(),
            old(self).state == EngineState::Running,
            old(self).tick == 0,
            forall|i: int|
                0 <= i < old(self).cars@.len() ==> (#[trigger] old(self).cars@[i]).current_road_index == 0,
        ensures
            final(self).wf(),
            final(self).state == EngineState::Finished,
            final(self).road == old(self).road,
            final(self).cars@.len() == old(self).cars@.len(),
            forall|i: int|
                0 <= i < old(self).cars@.len() ==> {
                    &&& (#[trigger] final(self).cars@[i]).id == old(self).cars@[i].id
                    &&& final(self).cars@[i].speed == old(self).cars@[i].speed
                    &&& final(self).cars@[i].is_rule_breaker == old(self).cars@[i].is_rule_breaker
                    &&& final(self).cars@[i].current_road_index >= final(self).road@.len()
                },
            old(self).eval_log@.len() <= final(self).eval_log@.len(),
            forall|k: int|
                0 <= k < old(self).eval_log@.len() ==> final(self).eval_log@[k] == old(
                    self,
                ).eval_log@[k],
            old(self).cars@.len() > 0 ==> final(self).tick as int <= ceil_div(
                old(self).road@.len() as int,
                min_speed(old(self).cars@),
            ),
            old(self).cars@.len() == 0 ==> final(self).tick == 1,
            forall|i: int, j: int, seg: int|
                0 <= seg < old(self).road@.len() && adjacent_on_segment(old(self).cars@, i, j, seg)
                    ==> log_has_pair(
                    final(self).eval_log@,
                    old(self).cars@[i].id as int,
                    old(self).cars@[j].id as int,
                ),
    {
        let ghost orig = *self;
        let ghost l = orig.road@.len() as int;
        let ghost ms = min_speed(orig.cars@);
        let road_len: usize = self.road.len();
        proof {
            lemma_min_speed(orig.cars@);
            lemma_ceil_div_bounds(l, ms);
        }
        loop
            invariant_except_break
                self.state == EngineState::Running,
                orig.cars@.len() > 0 ==> (self.tick as int) < ceil_div(l, ms),
                orig.cars@.len() == 0 ==> self.tick == 0,
            invariant
                self.wf(),
                self.road == orig.road,
                self.cars@.len() == orig.cars@.len(),
                l == orig.road@.len(),
                l == road_len,
                ms == min_speed(orig.cars@),
                ms >= 1,
                1 <= ceil_div(l, ms) <= l,
                forall|i: int|
                    0 <= i < orig.cars@.len() ==> ms <= (#[trigger] orig.cars@[i]).speed as int,
                forall|i: int|
                    0 <= i < self.cars@.len() ==> {
                        &&& (#[trigger] self.cars@[i]).id == orig.cars@[i].id
                        &&& self.cars@[i].speed == orig.cars@[i].speed
                        &&& self.cars@[i].is_rule_breaker == orig.cars@[i].is_rule_breaker
                    },
                forall|i: int|
                    0 <= i < self.cars@.len() ==> (#[trigger] self.cars@[i]).current_road_index
                        >= (if (self.tick as int) * (orig.cars@[i].speed as int) < l {
                            (self.tick as int) * (orig.cars@[i].speed as int)
                        } else {
                            l
                        }),
                orig.eval_log@.len() <= self.eval_log@.len(),
                forall|k: int|
                    0 <= k < orig.eval_log@.len() ==> self.eval_log@[k] == orig.eval_log@[k],
                self.tick == 0 ==> self.cars == orig.cars,
                self.tick >= 1 ==> (forall|i: int, j: int, seg: int|
                    0 <= seg < l && adjacent_on_segment(orig.cars@, i, j, seg)
                        ==> log_has_pair(
                        self.eval_log@,
                        orig.cars@[i].id as int,
                        orig.cars@[j].id as int,
                    )),
            ensures
                self.state == EngineState::Finished,
                self.tick >= 1,
                orig.cars@.len() > 0 ==> (self.tick as int) <= ceil_div(l, ms),
                orig.cars@.len() == 0 ==> self.tick == 1,
            decreases ceil_div(l, ms) - self.tick,
        {
            let ghost pre = *self;
            self.step();
            proof {
                assert forall|i: int|
                    0 <= i < self.cars@.len() implies (#[trigger] self.cars@[i]).current_road_index
                    >= (if (self.tick as int) * (orig.cars@[i].speed as int) < l {
                        (self.tick as int) * (orig.cars@[i].speed as int)
                    } else {
                        l
                    }) by {
                    let s = orig.cars@[i].speed as int;
                    let t0 = pre.tick as int;
                    assert((t0 + 1) * s == t0 * s + s) by (nonlinear_arith);
                    if pre.cars@[i].current_road_index < l {
                        assert(pre.cars@[i].speed == orig.cars@[i].speed);
                        assert(pre.cars@[i].current_road_index >= (if t0 * s < l {
                            t0 * s
                        } else {
                            l
                        }));
                        assert(t0 * s < l);
                        assert(self.cars@[i].current_road_index >= t0 * s + s);
                    }
                }
                assert forall|i: int, j: int, seg: int|
                    0 <= seg < l && adjacent_on_segment(orig.cars@, i, j, seg)
                        implies log_has_pair(
                        self.eval_log@,
                        orig.cars@[i].id as int,
                        orig.cars@[j].id as int,
                    ) by {
                    if pre.tick == 0 {
                        assert(adjacent_on_segment(pre.cars@, i, j, seg));
                    } else {
                        assert(log_has_pair(
                            pre.eval_log@,
                            orig.cars@[i].id as int,
                            orig.cars@[j].id as int,
                        ));
                        lemma_log_extends(
                            pre.eval_log@,
                            self.eval_log@,
                            orig.cars@[i].id as int,
                            orig.cars@[j].id as int,
                        );
                    }
                }
            }
            if self.state == EngineState::Finished {
                break;
            }
            proof {
                if orig.cars@.len() == 0 {
                    assert(forall|i: int|
                        0 <= i < self.cars@.len() ==> (#[trigger] self.cars@[i]).current_road_index
                            >= self.road@.len());
                    assert(false);
                }
                assert(exists|i: int|
                    0 <= i < self.cars@.len() && (#[trigger] self.cars@[i]).current_road_index
                        < self.road@.len());
                let i = choose|i: int|
                    0 <= i < self.cars@.len() && (#[trigger] self.cars@[i]).current_road_index
                        < self.road@.len();
                let s = orig.cars@[i].speed as int;
                let t1 = self.tick as int;
                assert(t1 * s < l);
                assert(t1 * ms <= t1 * s) by (nonlinear_arith)
                    requires ms <= s && t1 >= 0;
                lemma_lt_ceil_div(t1, ms, l);
            }
        }
    }
}

/// The smallest speed in the fleet; one for an empty fleet.
pub open spec fn min_speed(cars: Seq<Car>) -> int
    decreases cars.len(),
{
    if cars.len() == 0 {
        1
    } else if cars.len() == 1 {
        cars[0].speed as int
    } else if cars[0].speed as int <= min_speed(cars.drop_first()) {
        cars[0].speed as int
    } else {
        min_speed(cars.drop_first())
    }
}

pub proof fn lemma_min_speed(cars: Seq<Car>)
    requires
        forall|i: int| 0 <= i < cars.len() ==> (#[trigger] cars[i]).speed >= 1,
    ensures
        min_speed(cars) >= 1,
        forall|i: int| 0 <= i < cars.len() ==> min_speed(cars) <= (#[trigger] cars[i]).speed,
    decreases cars.len(),
{
    if cars.len() > 1 {
        assert forall|i: int| 0 <= i < cars.drop_first().len() implies (#[trigger] cars.drop_first()[i]).speed >= 1 by {
            assert(cars.drop_first()[i] == cars[i + 1]);
        }
        lemma_min_speed(cars.drop_first());
        assert forall|i: int| 0 <= i < cars.len() implies min_speed(cars) <= (#[trigger] cars[i]).speed by {
            if i > 0 {
                assert(cars.drop_first()[i - 1] == cars[i]);
            }
        }
    }
}

/// The quotient of `a / b`, rounded up.
pub open spec fn ceil_div(a: int, b: int) -> int {
    (a + b - 1) / b
}

proof fn lemma_ceil_div_bounds(l: int, ms: int)
    requires
        l >= 1,
        ms >= 1,
    ensures
        1 <= ceil_div(l, ms) <= l,
{
    assert(l + ms - 1 <= l * ms) by (nonlinear_arith)
        requires l >= 1 && ms >= 1;
    vstd::arithmetic::div_mod::lemma_div_is_ordered(l + ms - 1, l * ms, ms);
    vstd::arithmetic::div_mod::lemma_div_by_multiple(l, ms);
    vstd::arithmetic::div_mod::lemma_div_is_ordered(ms, l + ms - 1, ms);
    vstd::arithmetic::div_mod::lemma_div_by_multiple(1, ms);
}

proof fn lemma_lt_ceil_div(t: int, ms: int, l: int)
    requires
        ms >= 1,
        t >= 0,
        t * ms < l,
    ensures
        t < ceil_div(l, ms),
{
    assert((t + 1) * ms <= l + ms - 1) by (nonlinear_arith)
        requires ms >= 1 && t * ms < l;
    vstd::arithmetic::div_mod::lemma_div_is_ordered((t + 1) * ms, l + ms - 1, ms);
    vstd::arithmetic::div_mod::lemma_div_by_multiple(t + 1, ms);
}

/// The run's history holds an evaluation of the normalized id pair `(a, b)`.
pub open spec fn log_has_pair(log: Seq<EvalRecord>, a: int, b: int) -> bool {
    exists|k: int| 0 <= k < log.len() && (#[trigger] log[k]).low_id == a && log[k].high_id == b
}

proof fn lemma_log_extends(log0: Seq<EvalRecord>, log1: Seq<EvalRecord>, a: int, b: int)
    requires
        log0.len() <= log1.len(),
        forall|k: int| 0 <= k < log0.len() ==> log1[k] == log0[k],
        log_has_pair(log0, a, b),
    ensures
        log_has_pair(log1, a, b),
{
    let k = choose|k: int|
        0 <= k < log0.len() && (#[trigger] log0[k]).low_id == a && log0[k].high_id == b;
    assert((log1[k]).low_id == a && log1[k].high_id == b);
}

/// Vehicles `i` and `j` are adjacent in id order among the vehicles standing
/// on segment `r`: both stand there, `i`'s id is below `j`'s, and no vehicle
/// on that segment has an id strictly between them. These are exactly the
/// pairs one tick offers for evaluation.
pub open spec fn adjacent_on_segment(cars: Seq<Car>, i: int, j: int, r: int) -> bool {
    &&& 0 <= i < cars.len()
    &&& 0 <= j < cars.len()
    &&& cars[i].current_road_index == r
    &&& cars[j].current_road_index == r
    &&& cars[i].id < cars[j].id
    &&& forall|k: int|
        0 <= k < cars.len() && (#[trigger] cars[k]).current_road_index == r ==> !(cars[i].id
            < cars[k].id < cars[j].id)
}

/// The record pairs two distinct vehicles of the given fleet that stand on
/// the very segment the record names.
pub open spec fn record_from_fleet(cars: Seq<Car>, rec: EvalRecord) -> bool {
    exists|i: int, j: int|
        0 <= i < cars.len() && 0 <= j < cars.len() && i != j && cars[i].id == rec.low_id
            && cars[j].id == rec.high_id && cars[i].current_road_index == rec.segment
            && cars[j].current_road_index == rec.segment
}

/// All normalized id pairs a fleet of `n` vehicles can form.
pub open spec fn pairs_below(n: int) -> Set<(int, int)> {
    Set::new(|p: (int, int)| 0 <= p.0 && p.0 < p.1 && p.1 < n)
}

proof fn lemma_pairs_ending_card(k: int, m: int)
    requires
        0 <= k <= m,
    ensures
        Set::new(|p: (int, int)| 0 <= p.0 && p.0 < k && p.1 == m).finite(),
        Set::new(|p: (int, int)| 0 <= p.0 && p.0 < k && p.1 == m).len() == k,
    decreases k,
{
    if k == 0 {
        assert(Set::new(|p: (int, int)| 0 <= p.0 && p.0 < 0 && p.1 == m) =~= Set::<(int, int)>::empty());
    } else {
        lemma_pairs_ending_card(k - 1, m);
        assert(Set::new(|p: (int, int)| 0 <= p.0 && p.0 < k && p.1 == m) =~= Set::new(
            |p: (int, int)| 0 <= p.0 && p.0 < k - 1 && p.1 == m,
        ).insert((k - 1, m)));
    }
}

proof fn lemma_pairs_below_card(n: int)
    requires
        n >= 0,
    ensures
        pairs_below(n).finite(),
        pairs_below(n).len() * 2 == n * (n - 1),
    decreases n,
{
    if n == 0 {
        assert(pairs_below(0) =~= Set::<(int, int)>::empty());
    } else {
        lemma_pairs_below_card(n - 1);
        let added = Set::new(|p: (int, int)| 0 <= p.0 && p.0 < n - 1 && p.1 == n - 1);
        lemma_pairs_ending_card(n - 1, n - 1);
        assert(pairs_below(n) =~= pairs_below(n - 1) + added);
        assert(pairs_below(n - 1).disjoint(added));
        vstd::set_lib::lemma_set_disjoint_lens(pairs_below(n - 1), added);
        assert((n - 1) * (n - 2) + 2 * (n - 1) == n * (n - 1)) by (nonlinear_arith);
    }
}

/// Pair uniqueness: over a whole run, no unordered vehicle-id pair is
/// probabilistically evaluated more than once, on any segment, at any tick.
pub proof fn lemma_pair_uniqueness(e: SimulationEngine)
    requires
        e.wf(),
    ensures
        forall|k1: int, k2: int|
            0 <= k1 < k2 < e.eval_log@.len() ==> pair_of(e.eval_log@, k1) != pair_of(
                e.eval_log@,
                k2,
            ),
{
}

/// Counter conservation: at every point of a run, and so in particular at
/// `Finished`, collisions plus unrounded safe passes equals the number of
/// evaluated pairs, which can never exceed the number of unordered pairs a
/// fleet of `n` vehicles can form, `n * (n - 1) / 2`.
pub proof fn lemma_counter_conservation(e: SimulationEngine)
    requires
        e.wf(),
    ensures
        e.collisions + e.safe_passes == e.eval_log@.len(),
        e.eval_log@.len() <= e.cars@.len() * (e.cars@.len() - 1) / 2,
{
    let log = e.eval_log@;
    let n = e.cars@.len() as int;
    let ps = Seq::new(log.len(), |k: int| pair_of(log, k));
    assert(ps.no_duplicates());
    ps.unique_seq_to_set();
    assert forall|x: (int, int)| ps.to_set().contains(x) implies pairs_below(n).contains(x) by {
        let k = choose|k: int| 0 <= k < ps.len() && ps[k] == x;
        assert(entry_ok(e.checked_pairs@, log, n, e.road@.len() as int, k));
    }
    lemma_pairs_below_card(n);
    vstd::set_lib::lemma_len_subset(ps.to_set(), pairs_below(n));
}

/// Whether the normalized pair `(a, b)` has already been evaluated.
fn pair_is_checked(pairs: &Vec<(usize, usize)>, a: usize, b: usize) -> (r: bool)
    ensures
        r == exists|k: int| 0 <= k < pairs@.len() && pairs@[k] == (a, b),
{
    let mut i: usize = 0;
    while i < pairs.len()
        invariant
            i <= pairs@.len(),
            forall|k: int| 0 <= k < i ==> pairs@[k] != (a, b),
        decreases pairs@.len() - i,
    {
        let p = pairs[i];
        if p.0 == a && p.1 == b {
            assert(pairs@[i as int] == (a, b));
            return true;
        }
        i += 1;
    }
    false
}

} // verus!
