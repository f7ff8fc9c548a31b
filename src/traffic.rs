use vstd::prelude::*;

verus! {

/// What a lane's signal tells a vehicle at a given time.
#[allow(non_camel_case_types)]
#[derive(Clone, Copy, Debug, PartialEq, Eq, Structural)]
pub enum TrafficBehavior {
    GO,
    RED,
    ORANGE,
    STOP,
}

/// How an intersection regulates the lanes that enter it.
#[derive(Clone, Copy, Debug, PartialEq, Eq, Structural)]
pub enum ControlPolicy {
    /// Every movement is free.
    Free,
    /// The first two roads have priority; the others stop and yield.
    Priority,
    /// Timed lights; roads alternate by the parity of their position.
    Lights,
}

/// A timed light: green, then orange, then red, repeating every `period` seconds.
#[derive(Clone, Copy, Debug, PartialEq, Eq, Structural)]
pub struct LightSchedule {
    pub green: u64,
    pub orange: u64,
    pub red: u64,
    pub offset: u64,
}

/// The control that applies to one lane.
#[derive(Clone, Copy, Debug, PartialEq, Eq, Structural)]
pub enum TrafficControl {
    Always,
    StopSign,
    Periodic(LightSchedule),
}

pub const LIGHT_GREEN: u64 = 25;
pub const LIGHT_ORANGE: u64 = 5;
pub const LIGHT_RED: u64 = 30;

/// The policy of an intersection where `n_roads` roads meet.
pub open spec fn policy_for(n_roads: nat) -> ControlPolicy {
    if n_roads <= 2 {
        ControlPolicy::Free
    } else if n_roads == 3 {
        ControlPolicy::Priority
    } else {
        ControlPolicy::Lights
    }
}

pub fn compute_policy(n_roads: usize) -> (r: ControlPolicy)
    ensures
        r == policy_for(n_roads as nat),
{
    if n_roads <= 2 {
        ControlPolicy::Free
    } else if n_roads == 3 {
        ControlPolicy::Priority
    } else {
        ControlPolicy::Lights
    }
}

pub open spec fn light_for(road_index: nat) -> LightSchedule {
    LightSchedule {
        green: LIGHT_GREEN,
        orange: LIGHT_ORANGE,
        red: LIGHT_RED,
        offset: if road_index % 2 == 0 { 0 } else { LIGHT_RED },
    }
}

/// The control of a lane that enters an intersection of policy `policy`
/// from the road at position `road_index` of its road list.
pub open spec fn control_for(policy: ControlPolicy, road_index: nat) -> TrafficControl {
    match policy {
        ControlPolicy::Free => TrafficControl::Always,
        ControlPolicy::Priority => if road_index < 2 {
            TrafficControl::Always
        } else {
            TrafficControl::StopSign
        },
        ControlPolicy::Lights => TrafficControl::Periodic(light_for(road_index)),
    }
}

pub fn lane_control(policy: ControlPolicy, road_index: usize) -> (r: TrafficControl)
    ensures
        r == control_for(policy, road_index as nat),
{
    match policy {
        ControlPolicy::Free => TrafficControl::Always,
        ControlPolicy::Priority => if road_index < 2 {
            TrafficControl::Always
        } else {
            TrafficControl::StopSign
        },
        ControlPolicy::Lights => TrafficControl::Periodic(
            LightSchedule {
                green: LIGHT_GREEN,
                orange: LIGHT_ORANGE,
                red: LIGHT_RED,
                offset: if road_index % 2 == 0 { 0 } else { LIGHT_RED },
            },
        ),
    }
}

impl LightSchedule {
    pub open spec fn period(self) -> int {
        self.green + self.orange + self.red
    }

    pub open spec fn behavior_spec(self, time: u64) -> TrafficBehavior {
        let t = (time + self.offset) % self.period();
        if t < self.green {
            TrafficBehavior::GO
        } else if t < self.green + self.orange {
            TrafficBehavior::ORANGE
        } else {
            TrafficBehavior::RED
        }
    }
}

impl TrafficControl {
    pub open spec fn valid(self) -> bool {
        match self {
            TrafficControl::Periodic(s) => s.period() > 0 && s.period() <= u32::MAX && s.offset
                <= u32::MAX,
            _ => true,
        }
    }

    pub open spec fn behavior_spec(self, time: u64) -> TrafficBehavior {
        match self {
            TrafficControl::Always => TrafficBehavior::GO,
            TrafficControl::StopSign => TrafficBehavior::STOP,
            TrafficControl::Periodic(s) => s.behavior_spec(time),
        }
    }

    /// The signal shown at `time` (in seconds).
    pub fn get_behavior(&self, time: u64) -> (r: TrafficBehavior)
        requires
            self.valid(),
        ensures
            r == self.behavior_spec(time),
    {
        match self {
            TrafficControl::Always => TrafficBehavior::GO,
            TrafficControl::StopSign => TrafficBehavior::STOP,
            TrafficControl::Periodic(s) => {
                let period = s.green as u128 + s.orange as u128 + s.red as u128;
                let t = (time as u128 + s.offset as u128) % period;
                if t < s.green as u128 {
                    TrafficBehavior::GO
                } else if t < s.green as u128 + s.orange as u128 {
                    TrafficBehavior::ORANGE
                } else {
                    TrafficBehavior::RED
                }
            },
        }
    }
}

pub proof fn lemma_control_valid(policy: ControlPolicy, road_index: nat)
    ensures
        control_for(policy, road_index).valid(),
{
}

} // verus!
