use vstd::prelude::*;

use crate::map::{ParkingSpotID, RoadMap};
use crate::vehicles::Vehicle;

verus! {

/// Which vehicle holds each parking spot; a spot is held by at most one vehicle
/// since each spot has a single holder slot.
pub struct ParkingManagement {
    holders: Vec<Option<u64>>,
}

impl ParkingManagement {
    /// The holder of spot `s`, if any.
    pub closed spec fn holder_spec(&self, s: ParkingSpotID) -> Option<u64> {
        if s.0 < self.holders@.len() {
            self.holders@[s.0 as int]
        } else {
            None
        }
    }

    pub fn new() -> (r: ParkingManagement)
        ensures
            forall|s: ParkingSpotID| #[trigger] r.holder_spec(s) is None,
    {
        ParkingManagement { holders: Vec::new() }
    }

    pub fn holder(&self, s: ParkingSpotID) -> (r: Option<u64>)
        ensures
            r == self.holder_spec(s),
    {
        if s.0 < self.holders.len() as u64 {
            self.holders[s.0 as usize]
        } else {
            None
        }
    }

    /// Gives an existing, free spot to `vehicle`; says whether it did.
    pub fn reserve(&mut self, map: &RoadMap, s: ParkingSpotID, vehicle: u64) -> (r: bool)
        ensures
            r == (map.has_spot(s) && old(self).holder_spec(s) is None),
            r ==> final(self).holder_spec(s) == Some(vehicle),
            forall|t: ParkingSpotID|
                t != s || !r ==> #[trigger] final(self).holder_spec(t) == old(self).holder_spec(t),
    {
        if !map.parking().contains(s.0) || self.holder(s).is_some() {
            return false;
        }
        let ghost before = self.holders@;
        while (self.holders.len() as u64) <= s.0
            invariant
                self.holders@.len() >= before.len(),
                forall|i: int| 0 <= i < before.len() ==> self.holders@[i] == before[i],
                forall|i: int| before.len() <= i < self.holders@.len() ==> self.holders@[i] is None,
            decreases s.0 + 1 - self.holders@.len(),
        {
            self.holders.push(None);
        }
        self.holders.set(s.0 as usize, Some(vehicle));
        proof {
            assert forall|t: ParkingSpotID| t != s implies #[trigger] self.holder_spec(t) == old(self).holder_spec(t) by {
                if t.0 < self.holders@.len() && t.0 >= before.len() {
                    assert(self.holders@[t.0 as int] is None);
                }
            }
        }
        true
    }

    /// Makes a spot free again.
    pub fn free(&mut self, s: ParkingSpotID)
        ensures
            final(self).holder_spec(s) is None,
            forall|t: ParkingSpotID| t != s ==> #[trigger] final(self).holder_spec(t) == old(self).holder_spec(t),
    {
        if s.0 < self.holders.len() as u64 {
            self.holders.set(s.0 as usize, None);
        }
    }

    /// Frees the spots that the removed vehicles held.
    pub fn vehicle_cleanup(&mut self, removed: &Vec<Vehicle>)
        ensures
            forall|i: int| 0 <= i < removed@.len() && (#[trigger] removed@[i]).park_spot is Some
                ==> final(self).holder_spec(removed@[i].park_spot->Some_0) is None,
            forall|t: ParkingSpotID|
                (forall|i: int| 0 <= i < removed@.len() ==> (#[trigger] removed@[i]).park_spot != Some(t))
                    ==> #[trigger] final(self).holder_spec(t) == old(self).holder_spec(t),
    {
        let mut i: usize = 0;
        while i < removed.len()
            invariant
                i <= removed@.len(),
                forall|j: int| 0 <= j < i && (#[trigger] removed@[j]).park_spot is Some
                    ==> self.holder_spec(removed@[j].park_spot->Some_0) is None,
                forall|t: ParkingSpotID|
                    (forall|j: int| 0 <= j < i ==> (#[trigger] removed@[j]).park_spot != Some(t))
                        ==> #[trigger] self.holder_spec(t) == old(self).holder_spec(t),
            decreases removed@.len() - i,
        {
            if let Some(s) = removed[i].park_spot {
                self.free(s);
            }
            i += 1;
        }
    }
}

} // verus!
