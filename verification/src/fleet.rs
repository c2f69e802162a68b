//! Fleet construction: sequential ids from zero, the lawful share first and
//! the rule-breaking share after it, positions at the road's entry, speeds
//! drawn uniformly, and a final shuffle that only varies display order.

use vstd::prelude::*;
use crate::car::Car;
use crate::sim_checks::draw_inclusive;

verus! {

/// Relies on rand: `SliceRandom::shuffle` picks a permutation of the slice
/// uniformly and applies it in place, so the shuffled vector holds exactly
/// the same vehicles as a multiset.
#[verifier::external_body]
fn shuffle_cars(cars: &mut Vec<Car>)
    ensures
        final(cars)@.to_multiset() == old(cars)@.to_multiset(),
        final(cars)@.len() == old(cars)@.len(),
{
    let mut generator = rand::rng();
    rand::seq::SliceRandom::shuffle(cars.as_mut_slice(), &mut generator);
}

/// The vehicle stands somewhere in the fleet.
pub open spec fn appears_in(cars: Seq<Car>, c: Car) -> bool {
    exists|j: int| 0 <= j < cars.len() && cars[j] == c
}

/// A permutation of a fleet holds the same vehicles: every vehicle of the
/// permuted fleet stands somewhere in the unpermuted one, and ids that were
/// pairwise distinct stay pairwise distinct.
pub proof fn lemma_permutation_keeps_fleet(a: Seq<Car>, b: Seq<Car>)
    requires
        a.to_multiset() == b.to_multiset(),
        forall|i: int, j: int| 0 <= i < j < a.len() ==> a[i].id != a[j].id,
    ensures
        b.len() == a.len(),
        forall|i: int| 0 <= i < b.len() ==> #[trigger] appears_in(a, b[i]),
        forall|i: int, j: int| 0 <= i < j < b.len() ==> b[i].id != b[j].id,
{
    broadcast use vstd::seq_lib::group_to_multiset_ensures;

    assert(a.to_multiset().len() == a.len());
    assert(b.to_multiset().len() == b.len());
    assert forall|i: int| 0 <= i < b.len() implies #[trigger] appears_in(a, b[i]) by {
        assert(b.contains(b[i]));
        assert(b.to_multiset().count(b[i]) > 0);
        assert(a.contains(b[i]));
    }
    assert(a.no_duplicates()) by {
        assert forall|i: int, j: int|
            0 <= i < a.len() && 0 <= j < a.len() && i != j implies a[i] != a[j] by {
            if i < j {
                assert(a[i].id != a[j].id);
            } else {
                assert(a[j].id != a[i].id);
            }
        }
    }
    a.lemma_multiset_has_no_duplicates();
    assert forall|x: Car| b.to_multiset().contains(x) implies b.to_multiset().count(x) == 1 by {
        assert(a.to_multiset().contains(x));
    }
    b.lemma_multiset_has_no_duplicates_conv();
    assert forall|i: int, j: int| 0 <= i < j < b.len() implies b[i].id != b[j].id by {
        assert(b[i] != b[j]);
        assert(appears_in(a, b[i]));
        assert(appears_in(a, b[j]));
        let j1 = choose|t: int| 0 <= t < a.len() && a[t] == b[i];
        let j2 = choose|t: int| 0 <= t < a.len() && a[t] == b[j];
        if a[j1].id == a[j2].id && j1 < j2 {
            assert(a[j1].id != a[j2].id);
        }
        if a[j1].id == a[j2].id && j2 < j1 {
            assert(a[j2].id != a[j1].id);
        }
    }
}

/// Builds the fleet: the first `lawful` vehicles obey the rules and the next
/// `rule_breaking` vehicles break them (a vehicle breaks the rules exactly
/// when its id reaches `lawful`), ids run upward from zero, every position
/// starts at zero, and every speed is drawn from one to `top_speed`. The
/// fleet is then shuffled; grouping and pairing never depend on collection
/// order, so the shuffle only varies display order.
pub fn build_fleet(lawful: u32, rule_breaking: u32, top_speed: u32) -> (r: Vec<Car>)
    requires
        top_speed >= 1,
        lawful + rule_breaking <= u32::MAX,
    ensures
        r@.len() == lawful + rule_breaking,
        forall|i: int|
            0 <= i < r@.len() ==> {
                &&& (#[trigger] r@[i]).current_road_index == 0
                &&& 1 <= r@[i].speed <= top_speed
                &&& r@[i].id < r@.len()
                &&& r@[i].is_rule_breaker == (r@[i].id >= lawful)
            },
        forall|i: int, j: int| 0 <= i < j < r@.len() ==> r@[i].id != r@[j].id,
{
    let total: u32 = lawful + rule_breaking;
    let mut cars: Vec<Car> = Vec::new();
    let mut next_id: u32 = 0;
    while next_id < total
        invariant
            next_id <= total,
            cars@.len() == next_id,
            top_speed >= 1,
            forall|i: int|
                0 <= i < cars@.len() ==> {
                    &&& (#[trigger] cars@[i]).current_road_index == 0
                    &&& 1 <= cars@[i].speed <= top_speed
                    &&& cars@[i].id == i
                    &&& cars@[i].is_rule_breaker == (cars@[i].id >= lawful)
                },
        decreases total - next_id,
    {
        let is_rule_breaker = next_id >= lawful;
        let speed = draw_inclusive(1, top_speed);
        cars.push(Car::new(is_rule_breaker, 0, speed as usize, next_id as usize));
        next_id += 1;
    }
    let ghost before = cars@;
    shuffle_cars(&mut cars);
    proof {
        lemma_permutation_keeps_fleet(before, cars@);
        assert forall|i: int|
            0 <= i < cars@.len() implies {
            &&& (#[trigger] cars@[i]).current_road_index == 0
            &&& 1 <= cars@[i].speed <= top_speed
            &&& cars@[i].id < cars@.len()
            &&& cars@[i].is_rule_breaker == (cars@[i].id >= lawful)
        } by {
            assert(appears_in(before, cars@[i]));
            let j = choose|j: int| 0 <= j < before.len() && before[j] == cars@[i];
            assert(before[j].current_road_index == 0);
        }
    }
    cars
}

} // verus!
