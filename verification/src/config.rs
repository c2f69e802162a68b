//! Configuration values and the derivations the simulator makes from them:
//! the lawful/rule-breaking split, the speed-unit conversion, and the two
//! validity checks made before any vehicle exists.

use vstd::prelude::*;

verus! {

/// The simulation section of the configuration. `base_point` is accepted but
/// has no effect on behavior.
#[derive(Clone, Copy, PartialEq, Eq, Structural, Debug)]
pub struct SimulationConfig {
    pub cars: u32,
    pub rule_breakers: u32,
    pub base_point: bool,
    pub top_speed: u32,
    pub debug: bool,
}

/// The whole configuration.
#[derive(Clone, Copy, PartialEq, Eq, Structural, Debug)]
pub struct Config {
    pub simulation: SimulationConfig,
}

/// Round-half-up division: the quotient of `a / b`, rounded up when the
/// remainder is at least half of `b`.
pub open spec fn spec_round_div(a: int, b: int) -> int {
    (a + b / 2) / b
}

/// How many of `cars` vehicles break the rules when `rule_breakers` percent
/// of the fleet does: `cars * rule_breakers / 100`, rounded half up.
pub open spec fn spec_rule_breaking_count(cars: int, rule_breakers: int) -> int {
    spec_round_div(cars * rule_breakers, 100)
}

/// The rule-breaking share never exceeds the fleet, for any valid
/// percentage, so the lawful share `cars - rule_breaking` is well defined
/// and the two shares always sum back to `cars`.
pub proof fn lemma_split_conservation(cars: int, rule_breakers: int)
    requires
        0 <= cars,
        0 <= rule_breakers <= 100,
    ensures
        0 <= spec_rule_breaking_count(cars, rule_breakers) <= cars,
        (cars - spec_rule_breaking_count(cars, rule_breakers))
            + spec_rule_breaking_count(cars, rule_breakers) == cars,
{
    assert(cars * rule_breakers <= cars * 100) by (nonlinear_arith)
        requires 0 <= cars && rule_breakers <= 100;
    assert(0 <= cars * rule_breakers) by (nonlinear_arith)
        requires 0 <= cars && 0 <= rule_breakers;
    assert((cars * 100 + 50) / 100 == cars) by (nonlinear_arith)
        requires 0 <= cars;
    assert((cars * rule_breakers + 50) / 100 <= (cars * 100 + 50) / 100) by (nonlinear_arith)
        requires cars * rule_breakers <= cars * 100;
    assert(0 <= (cars * rule_breakers + 50) / 100) by (nonlinear_arith)
        requires 0 <= cars * rule_breakers;
}

/// Splits the fleet: how many vehicles are lawful and how many break the
/// rules, by the round-half-up rule.
pub fn split_fleet(cars: u32, rule_breakers: u32) -> (r: (u32, u32))
    requires
        rule_breakers <= 100,
    ensures
        r.1 == spec_rule_breaking_count(cars as int, rule_breakers as int),
        r.0 == cars - spec_rule_breaking_count(cars as int, rule_breakers as int),
        r.0 + r.1 == cars,
{
    proof {
        lemma_split_conservation(cars as int, rule_breakers as int);
    }
    let rule_breaking: u64 = ((cars as u64) * (rule_breakers as u64) + 50) / 100;
    let rule_breaking: u32 = rule_breaking as u32;
    (cars - rule_breaking, rule_breaking)
}

/// Converts a top speed in mph to road-segment units: one segment stands for
/// ten mph, rounded half up.
pub fn speed_in_segments(top_speed: u32) -> (r: u32)
    ensures
        r == spec_round_div(top_speed as int, 10),
{
    (((top_speed as u64) + 5) / 10) as u32
}

/// The percentage of rule breakers is valid exactly when it does not exceed
/// one hundred.
pub fn rule_breakers_valid(rule_breakers: u32) -> (r: bool)
    ensures
        r == (rule_breakers <= 100),
{
    rule_breakers <= 100
}

/// The road must be long enough for the top speed: a top speed (in segment
/// units) reaching the road's length is rejected before any vehicle exists.
pub fn capacity_ok(top_speed_segments: u32, road_len: usize) -> (r: bool)
    ensures
        r == ((top_speed_segments as int) < road_len),
{
    (top_speed_segments as u64) < (road_len as u64)
}

} // verus!
