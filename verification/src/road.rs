//! The road network: an ordered, fixed sequence of typed segments.

use vstd::prelude::*;

verus! {

/// The closed set of segment types a road position can carry.
#[derive(Clone, Copy, PartialEq, Eq, Structural, Debug)]
pub enum RoadType {
    Input,
    Output,
    NoSignalIntersection,
    SignalIntersection,
    PedestrianCrossing,
    Roundabout,
    MergeLane,
    ExitRamp,
    HighwaySegment,
    SchoolZone,
    ConstructionZone,
    TollBooth,
}

/// The risk parameters of one segment type: a base collision risk and the
/// penalty each rule-breaking vehicle adds, both in percent.
#[derive(Clone, Copy, PartialEq, Eq, Structural, Debug)]
pub struct RoadCollisionInfo {
    pub rule_breaker_penalty: u32,
    pub base_risk: u32,
}

/// One segment of the road network.
#[derive(Clone, Copy, PartialEq, Eq, Structural, Debug)]
pub struct Road {
    pub road_type: RoadType,
}

impl Road {
    pub fn new(road_type: RoadType) -> (r: Self)
        ensures
            r.road_type == road_type,
    {
        Road { road_type }
    }
}

/// The fixed thirteen-segment layout the simulator runs on.
pub open spec fn standard_road_types() -> Seq<RoadType> {
    seq![
        RoadType::Input,
        RoadType::SchoolZone,
        RoadType::PedestrianCrossing,
        RoadType::SignalIntersection,
        RoadType::Roundabout,
        RoadType::MergeLane,
        RoadType::HighwaySegment,
        RoadType::HighwaySegment,
        RoadType::ConstructionZone,
        RoadType::TollBooth,
        RoadType::ExitRamp,
        RoadType::NoSignalIntersection,
        RoadType::Output,
    ]
}

/// Builds the standard road network, segment by segment in its fixed order.
pub fn standard_road() -> (r: Vec<Road>)
    ensures
        r@.len() == standard_road_types().len(),
        forall|k: int| 0 <= k < r@.len() ==> r@[k].road_type == standard_road_types()[k],
{
    let mut r: Vec<Road> = Vec::new();
    r.push(Road::new(RoadType::Input));
    r.push(Road::new(RoadType::SchoolZone));
    r.push(Road::new(RoadType::PedestrianCrossing));
    r.push(Road::new(RoadType::SignalIntersection));
    r.push(Road::new(RoadType::Roundabout));
    r.push(Road::new(RoadType::MergeLane));
    r.push(Road::new(RoadType::HighwaySegment));
    r.push(Road::new(RoadType::HighwaySegment));
    r.push(Road::new(RoadType::ConstructionZone));
    r.push(Road::new(RoadType::TollBooth));
    r.push(Road::new(RoadType::ExitRamp));
    r.push(Road::new(RoadType::NoSignalIntersection));
    r.push(Road::new(RoadType::Output));
    proof {
        assert(r@ =~= Seq::new(13, |k: int| Road { road_type: standard_road_types()[k] }));
    }
    r
}

} // verus!
