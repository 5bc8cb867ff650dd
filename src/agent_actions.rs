use vstd::prelude::*;

use crate::position::{Direction, Order, Position};

verus! {

/// Orders collected by an agent during one turn, in the order given.
#[derive(Clone, Debug, PartialEq, Eq, Hash)]
pub struct AgentActions {
    pub actions: Vec<Order>,
}

impl AgentActions {
    /// No orders yet.
    pub fn new() -> (r: AgentActions)
        ensures
            r.actions@ == Seq::<Order>::empty(),
    {
        AgentActions { actions: Vec::new() }
    }

    /// Order the ant at `pos` to move in `dir`, after the orders given so far.
    pub fn move_ant(&mut self, pos: Position, dir: Direction) -> (r: &mut Self)
        ensures
            r.actions@ == old(self).actions@.push(Order { pos, dir }),
            *final(self) == *final(r),
    {
        self.actions.push(Order { pos, dir });
        self
    }
}

impl Default for AgentActions {
    fn default() -> (r: AgentActions)
        ensures
            r.actions@ == Seq::<Order>::empty(),
    {
        AgentActions::new()
    }
}

} // verus!
