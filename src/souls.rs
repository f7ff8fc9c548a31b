use vstd::prelude::*;

use crate::geom::Vec2;

verus! {

#[derive(Clone, Copy, Debug, PartialEq, Eq, Structural, Hash)]
pub struct VehicleID(pub u64);

#[derive(Clone, Copy, Debug, PartialEq, Eq, Structural, Hash)]
pub struct BuildingID(pub u64);

#[derive(Clone, Copy, Debug, PartialEq, Eq, Structural)]
pub enum Destination {
    Outside(Vec2),
    Building(BuildingID),
}

/// What a person is doing; a stack runs its last decision first.
#[derive(Debug)]
pub enum HumanDecisionKind {
    Yield,
    SetVehicle(Option<VehicleID>),
    GoTo(Destination),
    DeliverAtBuilding(BuildingID),
    MultiStack(Vec<HumanDecisionKind>),
}

/// A person's current decision and the ticks to wait before deciding again.
#[derive(Debug)]
pub struct HumanDecision {
    pub kind: HumanDecisionKind,
    pub wait: u8,
}

impl HumanDecision {
    pub fn new() -> (r: HumanDecision)
        ensures
            r.kind is Yield,
            r.wait == 0,
    {
        HumanDecision { kind: HumanDecisionKind::Yield, wait: 0 }
    }

    /// Counts one tick down; once the count is out, starts it again from `reset`
    /// and says that it is time to decide.
    pub fn tick(&mut self, reset: u8) -> (r: bool)
        ensures
            r == (old(self).wait == 0),
            r ==> final(self).wait == reset,
            !r ==> final(self).wait == old(self).wait - 1,
            final(self).kind == old(self).kind,
    {
        if self.wait != 0 {
            self.wait = self.wait - 1;
            false
        } else {
            self.wait = reset;
            true
        }
    }
}

/// Whether `k` finishes on its next update, given the router's answer.
pub open spec fn finishes(k: HumanDecisionKind, arrived: bool) -> bool {
    match k {
        HumanDecisionKind::GoTo(_) => arrived,
        HumanDecisionKind::MultiStack(v) => v@.len() == 0,
        _ => true,
    }
}

/// `after` is what one update makes of `before`: a stack drops its last decision
/// when that one finishes, and otherwise keeps it, updated in turn; any other
/// decision is left as it is.
pub open spec fn updated_to(before: HumanDecisionKind, after: HumanDecisionKind, arrived: bool) -> bool
    decreases before,
{
    match before {
        HumanDecisionKind::MultiStack(v) => {
            &&& after is MultiStack
            &&& {
                let b = v@;
                let a = after->MultiStack_0@;
                if b.len() == 0 {
                    a == b
                } else if finishes(b[b.len() - 1], arrived) {
                    a == b.drop_last()
                } else {
                    &&& a.len() == b.len()
                    &&& a.drop_last() == b.drop_last()
                    &&& updated_to(b[b.len() - 1], a[a.len() - 1], arrived)
                }
            }
        },
        _ => after == before,
    }
}

impl HumanDecisionKind {
    /// Advances the decision by one tick; `arrived` is what the router answered for
    /// the destination being gone to. Returns whether the decision is finished: a
    /// stack drops its last decision once that one finishes, and finishes once empty.
    pub fn update(&mut self, arrived: bool) -> (done: bool)
        ensures
            (*old(self) is GoTo) ==> done == arrived,
            (*old(self) is Yield || *old(self) is SetVehicle || *old(self) is DeliverAtBuilding)
                ==> done,
            (*old(self) is MultiStack) ==> (done <==> (*old(self))->MultiStack_0@.len() == 0),
            (*old(self) is MultiStack) ==> *final(self) is MultiStack
                && (*final(self))->MultiStack_0@.len() <= (*old(self))->MultiStack_0@.len(),
            done == finishes(*old(self), arrived),
            updated_to(*old(self), *final(self), arrived),
        decreases *old(self),
    {
        match self {
            HumanDecisionKind::GoTo(_) => arrived,
            HumanDecisionKind::MultiStack(decisions) => {
                let ghost b = decisions@;
                match decisions.pop() {
                    Some(mut d) => {
                        assert(decreases_to!(*old(self) => d));
                        assert(decisions@ == b.drop_last());
                        if !d.update(arrived) {
                            decisions.push(d);
                            assert(decisions@.drop_last() =~= b.drop_last());
                        }
                        false
                    },
                    None => true,
                }
            },
            HumanDecisionKind::SetVehicle(_) => true,
            HumanDecisionKind::DeliverAtBuilding(_) => true,
            HumanDecisionKind::Yield => true,
        }
    }
}

/// The desire a person acts on next.
#[derive(Clone, Copy, Debug, PartialEq, Eq, Structural)]
pub enum NextDesire {
    Nothing,
    Home,
    Work,
    Food,
}

pub open spec fn beats(score: Option<i64>, best: Option<i64>) -> bool {
    score is Some && (best is None || score->Some_0 > best->Some_0)
}

/// The highest-scoring desire among those present, in the order home, work, food;
/// an earlier one keeps its place on equal scores.
pub open spec fn next_desire_spec(home: Option<i64>, work: Option<i64>, food: Option<i64>) -> NextDesire {
    let (d1, b1) = if home is Some { (NextDesire::Home, home) } else { (NextDesire::Nothing, None::<i64>) };
    let (d2, b2) = if beats(work, b1) { (NextDesire::Work, work) } else { (d1, b1) };
    if beats(food, b2) { NextDesire::Food } else { d2 }
}

pub fn next_desire(home: Option<i64>, work: Option<i64>, food: Option<i64>) -> (r: NextDesire)
    ensures
        r == next_desire_spec(home, work, food),
{
    let mut decision = NextDesire::Nothing;
    let mut max_score: Option<i64> = None;
    if let Some(score) = home {
        decision = NextDesire::Home;
        max_score = Some(score);
    }
    if let Some(score) = work {
        if max_score.is_none() || score > max_score.unwrap() {
            decision = NextDesire::Work;
            max_score = Some(score);
        }
    }
    if let Some(score) = food {
        if max_score.is_none() || score > max_score.unwrap() {
            decision = NextDesire::Food;
        }
    }
    decision
}

impl Default for HumanDecisionKind {
    fn default() -> (r: HumanDecisionKind)
        ensures
            r is Yield,
    {
        HumanDecisionKind::Yield
    }
}

impl Default for HumanDecision {
    fn default() -> (r: HumanDecision)
        ensures
            r.kind is Yield,
            r.wait == 0,
    {
        HumanDecision::new()
    }
}

/// One tick of a person's decisions: while the wait runs, nothing; then the wait
/// starts again from `reset`, the current decision advances (`arrived` is the
/// router's answer), and once it is finished the best desire is returned for the
/// caller to turn into the next decision.
pub fn update_decision(
    decision: &mut HumanDecision,
    reset: u8,
    arrived: bool,
    home: Option<i64>,
    work: Option<i64>,
    food: Option<i64>,
) -> (r: NextDesire)
    ensures
        old(decision).wait != 0 ==> r == NextDesire::Nothing && final(decision).wait == old(
            decision,
        ).wait - 1 && final(decision).kind == old(decision).kind,
        old(decision).wait == 0 ==> final(decision).wait == reset && updated_to(
            old(decision).kind,
            final(decision).kind,
            arrived,
        ) && r == if finishes(old(decision).kind, arrived) {
            next_desire_spec(home, work, food)
        } else {
            NextDesire::Nothing
        },
{
    if !decision.tick(reset) {
        return NextDesire::Nothing;
    }
    if !decision.kind.update(arrived) {
        return NextDesire::Nothing;
    }
    next_desire(home, work, food)
}

} // verus!
