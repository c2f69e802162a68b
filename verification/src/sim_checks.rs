//! The collision model: a total risk table over the segment types and the
//! single-draw probabilistic test that decides collision versus safe pass.

use vstd::prelude::*;
use crate::car::Car;
use crate::road::{Road, RoadCollisionInfo, RoadType};

verus! {

/// The risk table: every segment type has an explicit entry; Input and
/// Output carry no risk at all.
pub open spec fn spec_collision_info(road_type: RoadType) -> RoadCollisionInfo {
    match road_type {
        RoadType::NoSignalIntersection => RoadCollisionInfo { rule_breaker_penalty: 45, base_risk: 15 },
        RoadType::SignalIntersection => RoadCollisionInfo { rule_breaker_penalty: 25, base_risk: 5 },
        RoadType::PedestrianCrossing => RoadCollisionInfo { rule_breaker_penalty: 50, base_risk: 20 },
        RoadType::Roundabout => RoadCollisionInfo { rule_breaker_penalty: 30, base_risk: 10 },
        RoadType::MergeLane => RoadCollisionInfo { rule_breaker_penalty: 35, base_risk: 12 },
        RoadType::ExitRamp => RoadCollisionInfo { rule_breaker_penalty: 15, base_risk: 5 },
        RoadType::HighwaySegment => RoadCollisionInfo { rule_breaker_penalty: 10, base_risk: 3 },
        RoadType::SchoolZone => RoadCollisionInfo { rule_breaker_penalty: 60, base_risk: 25 },
        RoadType::ConstructionZone => RoadCollisionInfo { rule_breaker_penalty: 40, base_risk: 18 },
        RoadType::TollBooth => RoadCollisionInfo { rule_breaker_penalty: 20, base_risk: 8 },
        RoadType::Input => RoadCollisionInfo { rule_breaker_penalty: 0, base_risk: 0 },
        RoadType::Output => RoadCollisionInfo { rule_breaker_penalty: 0, base_risk: 0 },
    }
}

/// Every entry of the table is small: no base risk above 25 and no penalty
/// above 60, so the odds of any pair stay below 146.
pub proof fn lemma_collision_info_bounds(road_type: RoadType)
    ensures
        spec_collision_info(road_type).base_risk <= 25,
        spec_collision_info(road_type).rule_breaker_penalty <= 60,
{
}

pub fn get_collision_info(road_type: &RoadType) -> (r: RoadCollisionInfo)
    ensures
        r == spec_collision_info(*road_type),
{
    match road_type {
        RoadType::NoSignalIntersection => RoadCollisionInfo { rule_breaker_penalty: 45, base_risk: 15 },
        RoadType::SignalIntersection => RoadCollisionInfo { rule_breaker_penalty: 25, base_risk: 5 },
        RoadType::PedestrianCrossing => RoadCollisionInfo { rule_breaker_penalty: 50, base_risk: 20 },
        RoadType::Roundabout => RoadCollisionInfo { rule_breaker_penalty: 30, base_risk: 10 },
        RoadType::MergeLane => RoadCollisionInfo { rule_breaker_penalty: 35, base_risk: 12 },
        RoadType::ExitRamp => RoadCollisionInfo { rule_breaker_penalty: 15, base_risk: 5 },
        RoadType::HighwaySegment => RoadCollisionInfo { rule_breaker_penalty: 10, base_risk: 3 },
        RoadType::SchoolZone => RoadCollisionInfo { rule_breaker_penalty: 60, base_risk: 25 },
        RoadType::ConstructionZone => RoadCollisionInfo { rule_breaker_penalty: 40, base_risk: 18 },
        RoadType::TollBooth => RoadCollisionInfo { rule_breaker_penalty: 20, base_risk: 8 },
        RoadType::Input => RoadCollisionInfo { rule_breaker_penalty: 0, base_risk: 0 },
        RoadType::Output => RoadCollisionInfo { rule_breaker_penalty: 0, base_risk: 0 },
    }
}

/// The odds a pair collides on a segment, in percent: the segment's base
/// risk plus one penalty for each rule breaker in the pair. Not capped, so
/// two rule breakers on a high-penalty segment can push it past 100.
pub open spec fn spec_odds(car_one: Car, car_two: Car, road_type: RoadType) -> int {
    spec_collision_info(road_type).base_risk
        + (if car_one.is_rule_breaker { spec_collision_info(road_type).rule_breaker_penalty as int } else { 0 })
        + (if car_two.is_rule_breaker { spec_collision_info(road_type).rule_breaker_penalty as int } else { 0 })
}

/// Deterministic zero risk: on a segment without base risk or penalty —
/// Input and Output — the odds are zero for any combination of rule-breaker
/// flags, so the collision test can never report a collision there.
pub proof fn lemma_zero_risk_segments(car_one: Car, car_two: Car, road_type: RoadType)
    requires
        road_type == RoadType::Input || road_type == RoadType::Output,
    ensures
        spec_odds(car_one, car_two, road_type) == 0,
{
}

/// Deterministic saturation: two rule breakers on a school zone push the
/// odds to 145, past every drawable value, so the collision test always
/// reports a collision there.
pub proof fn lemma_saturated_school_zone(car_one: Car, car_two: Car)
    requires
        car_one.is_rule_breaker,
        car_two.is_rule_breaker,
    ensures
        spec_odds(car_one, car_two, RoadType::SchoolZone) > 100,
{
}

/// Relies on rand: `rand::rng()` hands out the thread-local generator, and
/// `Rng::random_range(lo..=hi)` draws uniformly from that inclusive range;
/// it never returns a value outside it (and panics only on an empty range,
/// which `lo <= hi` rules out).
#[verifier::external_body]
pub(crate) fn draw_inclusive(lo: u32, hi: u32) -> (r: u32)
    requires
        lo <= hi,
    ensures
        lo <= r <= hi,
{
    let mut generator = rand::rng();
    rand::Rng::random_range(&mut generator, lo..=hi)
}

/// The deterministic part of the collision test: given the value the single
/// draw produced, a pair collides exactly when its odds beat that value.
pub fn collision_outcome(car_one: &Car, car_two: &Car, road: &Road, value: u32) -> (r: bool)
    ensures
        r == (spec_odds(*car_one, *car_two, road.road_type) > value),
{
    let collision_info = get_collision_info(&road.road_type);

    let mut odds: u32 = collision_info.base_risk;

    proof {
        lemma_collision_info_bounds(road.road_type);
    }
    if car_one.is_rule_breaker {
        odds += collision_info.rule_breaker_penalty;
    }
    if car_two.is_rule_breaker {
        odds += collision_info.rule_breaker_penalty;
    }

    odds > value
}

/// Decides collision versus safe pass for a pair of vehicles on a segment,
/// consuming one random draw from the inclusive range 0 to 100. Whatever the
/// draw, odds of zero never collide and odds above 100 always do.
pub fn collision_check(car_one: &Car, car_two: &Car, road: &Road) -> (r: bool)
    ensures
        spec_odds(*car_one, *car_two, road.road_type) == 0 ==> !r,
        spec_odds(*car_one, *car_two, road.road_type) > 100 ==> r,
{
    let value: u32 = draw_inclusive(0, 100);
    collision_outcome(car_one, car_two, road, value)
}

} // verus!
