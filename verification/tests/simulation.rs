use car_simulator::car::Car;
use car_simulator::config::{capacity_ok, rule_breakers_valid, speed_in_segments, split_fleet};
use car_simulator::engine::{fleet_ready, EngineState, SimulationEngine};
use car_simulator::fleet::build_fleet;
use car_simulator::road::{standard_road, Road, RoadType};
use car_simulator::sim_checks::{collision_check, collision_outcome, get_collision_info};

#[test]
fn standard_road_layout() {
    let road = standard_road();
    assert_eq!(road.len(), 13);
    assert_eq!(road[0].road_type, RoadType::Input);
    assert_eq!(road[1].road_type, RoadType::SchoolZone);
    assert_eq!(road[6].road_type, RoadType::HighwaySegment);
    assert_eq!(road[7].road_type, RoadType::HighwaySegment);
    assert_eq!(road[12].road_type, RoadType::Output);
}

#[test]
fn collision_table_values() {
    let info = get_collision_info(&RoadType::SchoolZone);
    assert_eq!(info.base_risk, 25);
    assert_eq!(info.rule_breaker_penalty, 60);
    let info = get_collision_info(&RoadType::Input);
    assert_eq!(info.base_risk, 0);
    assert_eq!(info.rule_breaker_penalty, 0);
    let info = get_collision_info(&RoadType::Output);
    assert_eq!(info.base_risk, 0);
    assert_eq!(info.rule_breaker_penalty, 0);
    let info = get_collision_info(&RoadType::NoSignalIntersection);
    assert_eq!(info.base_risk, 15);
    assert_eq!(info.rule_breaker_penalty, 45);
    let info = get_collision_info(&RoadType::HighwaySegment);
    assert_eq!(info.base_risk, 3);
    assert_eq!(info.rule_breaker_penalty, 10);
    let info = get_collision_info(&RoadType::TollBooth);
    assert_eq!(info.base_risk, 8);
    assert_eq!(info.rule_breaker_penalty, 20);
}

#[test]
fn zero_risk_never_collides() {
    // Input and Output carry no risk: no flag combination can ever collide
    for road_type in [RoadType::Input, RoadType::Output] {
        let road = Road::new(road_type);
        for (f1, f2) in [(false, false), (false, true), (true, false), (true, true)] {
            let a = Car::new(f1, 0, 1, 0);
            let b = Car::new(f2, 0, 1, 1);
            for _ in 0..100 {
                assert!(!collision_check(&a, &b, &road));
            }
        }
    }
}

#[test]
fn school_zone_saturation() {
    // two rule breakers on a school zone: odds 145, past every drawable value
    let road = Road::new(RoadType::SchoolZone);
    let a = Car::new(true, 0, 1, 0);
    let b = Car::new(true, 0, 1, 1);
    for _ in 0..100 {
        assert!(collision_check(&a, &b, &road));
    }
}

#[test]
fn collision_outcome_is_exact() {
    let school = Road::new(RoadType::SchoolZone);
    let both = (Car::new(true, 0, 1, 0), Car::new(true, 0, 1, 1));
    // odds 145 beat even the largest drawable value
    assert!(collision_outcome(&both.0, &both.1, &school, 100));
    let lawful = (Car::new(false, 0, 1, 0), Car::new(false, 0, 1, 1));
    // odds 25 beat 24 and nothing above
    assert!(collision_outcome(&lawful.0, &lawful.1, &school, 24));
    assert!(!collision_outcome(&lawful.0, &lawful.1, &school, 25));
    // one rule breaker: odds 85
    let mixed = (Car::new(true, 0, 1, 0), Car::new(false, 0, 1, 1));
    assert!(collision_outcome(&mixed.0, &mixed.1, &school, 84));
    assert!(!collision_outcome(&mixed.0, &mixed.1, &school, 85));
}

#[test]
fn split_conservation() {
    // round-half-up split; the two shares always sum back to the fleet
    assert_eq!(split_fleet(10, 25), (7, 3));
    assert_eq!(split_fleet(10, 0), (10, 0));
    assert_eq!(split_fleet(10, 100), (0, 10));
    assert_eq!(split_fleet(3, 50), (1, 2));
    assert_eq!(split_fleet(0, 50), (0, 0));
    for pct in 0..=100 {
        let (lawful, breaking) = split_fleet(17, pct);
        assert_eq!(lawful + breaking, 17);
    }
}

#[test]
fn speed_conversion_rounds_half_up() {
    assert_eq!(speed_in_segments(13), 1);
    assert_eq!(speed_in_segments(15), 2);
    assert_eq!(speed_in_segments(14), 1);
    assert_eq!(speed_in_segments(120), 12);
    assert_eq!(speed_in_segments(0), 0);
}

#[test]
fn rule_breaker_percentage_validity() {
    assert!(rule_breakers_valid(0));
    assert!(rule_breakers_valid(100));
    assert!(!rule_breakers_valid(101));
}

#[test]
fn capacity_rejection() {
    // a top speed of 13 segment units on a 13-segment road is rejected
    // before any vehicle exists
    let road = standard_road();
    let top_speed_segments = 13;
    assert!(!capacity_ok(top_speed_segments, road.len()));
    let mut vehicles_created = 0;
    if capacity_ok(top_speed_segments, road.len()) {
        vehicles_created = build_fleet(1, 0, top_speed_segments).len();
    }
    assert_eq!(vehicles_created, 0);
    assert!(capacity_ok(12, road.len()));
}

#[test]
fn end_to_end_two_cars() {
    // two lawful vehicles of speed 2 on [Input, Output]: one pair evaluated,
    // deterministically a safe pass, finished after one tick
    let road = vec![Road::new(RoadType::Input), Road::new(RoadType::Output)];
    let cars = vec![Car::new(false, 0, 2, 0), Car::new(false, 0, 2, 1)];
    assert!(fleet_ready(&cars, road.len()));
    let mut engine = SimulationEngine::new(road, cars);
    engine.run();
    assert_eq!(engine.state, EngineState::Finished);
    assert_eq!(engine.tick, 1);
    assert_eq!(engine.collisions, 0);
    assert_eq!(engine.safe_passes, 1);
    assert!(engine.cars.iter().all(|c| c.current_road_index >= 2));
    // reported: collisions as-is, safe passes halved with round-half-up
    assert_eq!(engine.report(), (0, 1));
}

#[test]
fn pairs_checked_once_and_counters_conserved() {
    // three co-located vehicles of speed 1 on a risk-free road: two adjacent
    // pairs at the first tick, nothing new afterwards
    let road = vec![Road::new(RoadType::Input), Road::new(RoadType::Output)];
    let cars = vec![
        Car::new(false, 0, 1, 0),
        Car::new(false, 0, 1, 1),
        Car::new(false, 0, 1, 2),
    ];
    let mut engine = SimulationEngine::new(road, cars);
    engine.run();
    assert_eq!(engine.state, EngineState::Finished);
    assert_eq!(engine.tick, 2);
    assert_eq!(engine.collisions, 0);
    assert_eq!(engine.safe_passes, 2);
    assert_eq!(engine.checked_pairs, vec![(0, 1), (1, 2)]);
    // conservation: collisions + unrounded safe passes == evaluated pairs
    assert_eq!(
        engine.collisions + engine.safe_passes,
        engine.checked_pairs.len() as u64
    );
    assert_eq!(engine.report(), (0, 1));
}

#[test]
fn termination_within_bound() {
    // all speeds one: the engine finishes in exactly road-length ticks
    let road = standard_road();
    let road_len = road.len();
    let cars = vec![
        Car::new(false, 0, 1, 0),
        Car::new(false, 0, 1, 1),
        Car::new(true, 0, 1, 2),
        Car::new(true, 0, 1, 3),
    ];
    let mut engine = SimulationEngine::new(road, cars);
    engine.run();
    assert_eq!(engine.state, EngineState::Finished);
    assert_eq!(engine.tick, road_len as u64);
    assert_eq!(
        engine.collisions + engine.safe_passes,
        engine.checked_pairs.len() as u64
    );
    // at most one evaluation per unordered pair of the four vehicles
    assert!(engine.checked_pairs.len() <= 6);
    for (i, p) in engine.checked_pairs.iter().enumerate() {
        assert!(p.0 < p.1);
        for q in engine.checked_pairs.iter().skip(i + 1) {
            assert_ne!(p, q);
        }
    }
}

#[test]
fn empty_fleet_finishes_after_one_tick() {
    let road = standard_road();
    let mut engine = SimulationEngine::new(road, Vec::new());
    engine.run();
    assert_eq!(engine.state, EngineState::Finished);
    assert_eq!(engine.tick, 1);
    assert_eq!(engine.collisions, 0);
    assert_eq!(engine.safe_passes, 0);
}

#[test]
fn built_fleet_is_well_formed() {
    let fleet = build_fleet(3, 2, 1);
    assert_eq!(fleet.len(), 5);
    let mut seen = [false; 5];
    let mut breakers = 0;
    for c in fleet.iter() {
        assert_eq!(c.current_road_index, 0);
        // with a top speed of one, every drawn speed must be exactly one
        assert_eq!(c.speed, 1);
        assert!(c.id < 5);
        assert!(!seen[c.id]);
        seen[c.id] = true;
        assert_eq!(c.is_rule_breaker, c.id >= 3);
        if c.is_rule_breaker {
            breakers += 1;
        }
    }
    assert_eq!(breakers, 2);
    assert!(fleet_ready(&fleet, 13));
}

#[test]
fn built_fleet_speeds_stay_in_range() {
    for _ in 0..20 {
        let fleet = build_fleet(4, 4, 3);
        assert_eq!(fleet.len(), 8);
        for c in fleet.iter() {
            assert!(1 <= c.speed && c.speed <= 3);
        }
    }
}

#[test]
fn car_motion_and_exit() {
    let mut car = Car::new(false, 0, 3, 7);
    assert!(!car.has_finished(5));
    car.move_forward();
    assert_eq!(car.current_road_index, 3);
    assert!(!car.has_finished(5));
    car.move_forward();
    assert_eq!(car.current_road_index, 6);
    assert!(car.has_finished(5));
    assert_eq!(car.id, 7);
    assert_eq!(car.speed, 3);
    assert!(!car.is_rule_breaker);
}

#[test]
fn fleet_ready_rejects_bad_fleets() {
    // duplicate ids
    let twins = vec![Car::new(false, 0, 1, 0), Car::new(false, 0, 1, 0)];
    assert!(!fleet_ready(&twins, 13));
    // id out of range
    let stray = vec![Car::new(false, 0, 1, 9)];
    assert!(!fleet_ready(&stray, 13));
    // zero speed
    let stalled = vec![Car::new(false, 0, 0, 0)];
    assert!(!fleet_ready(&stalled, 13));
}
