use vstd::prelude::*;

verus! {

/// Mathematical image of one emitted trace record.
pub ghost struct TickRec {
    pub t: usize,
    pub running: Option<usize>,
    pub arrival: Seq<usize>,
    pub dead: Seq<usize>,
}

/// One per-tick trace record: the tick index, the task running during this
/// tick (none when idle), the tasks whose jobs arrived this tick, and the
/// tasks whose jobs missed their deadline this tick.
#[derive(Clone, PartialEq, Eq, Debug)]
pub struct TickInfo {
    pub t: usize,
    pub running: Option<usize>,
    pub arrival: Vec<usize>,
    pub dead: Vec<usize>,
}

impl View for TickInfo {
    type V = TickRec;

    open spec fn view(&self) -> TickRec {
        TickRec {
            t: self.t,
            running: self.running,
            arrival: self.arrival@,
            dead: self.dead@,
        }
    }
}

} // verus!
