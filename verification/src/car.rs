//! A vehicle: identity, rule-breaker flag, current position, and speed.

use vstd::prelude::*;

verus! {

/// One vehicle. `current_road_index` is the only field that changes after
/// construction; it grows by `speed` each tick until the vehicle has exited.
#[derive(Clone, Copy, PartialEq, Eq, Structural, Debug)]
pub struct Car {
    pub is_rule_breaker: bool,
    pub current_road_index: usize,
    pub speed: usize,
    pub id: usize,
}

impl Car {
    pub fn new(is_rule_breaker: bool, current_road_index: usize, speed: usize, id: usize) -> (r: Self)
        ensures
            r == (Car { is_rule_breaker, current_road_index, speed, id }),
    {
        Car { is_rule_breaker, current_road_index, speed, id }
    }

    /// Advances the vehicle by its speed; the caller guards against moving a
    /// vehicle that has already exited the road.
    pub fn move_forward(&mut self)
        requires
            old(self).current_road_index + old(self).speed <= usize::MAX,
        ensures
            final(self).current_road_index == old(self).current_road_index + old(self).speed,
            final(self).is_rule_breaker == old(self).is_rule_breaker,
            final(self).speed == old(self).speed,
            final(self).id == old(self).id,
    {
        self.current_road_index += self.speed;
    }

    /// A vehicle has finished once its position reaches the road's length.
    pub fn has_finished(&self, road_len: usize) -> (r: bool)
        ensures
            r == (self.current_road_index >= road_len),
    {
        self.current_road_index >= road_len
    }
}

} // verus!
