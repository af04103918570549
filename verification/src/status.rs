//! An agent's activity status as shown in the UI: the state of its current
//! turn, normal or while compacting.

use vstd::prelude::*;

verus! {

/// State of the agent's current turn.
#[derive(Clone, Debug, PartialEq, Eq)]
pub enum TurnStatus {
    InProgress,
    Idle,
    Failed(String),
}

/// Activity status of an agent: a turn state, tagged while compacting.
#[derive(Clone, Debug, PartialEq, Eq)]
pub enum ActivityStatus {
    Normal(TurnStatus),
    Compact(TurnStatus),
}

impl ActivityStatus {
    /// An idle, non-compacting agent (the status nothing has happened to).
    pub fn default_status() -> (s: Self)
        ensures
            s matches ActivityStatus::Normal(TurnStatus::Idle),
    {
        ActivityStatus::Normal(TurnStatus::Idle)
    }

    /// The turn state, whichever the mode.
    pub open spec fn turn_spec(&self) -> &TurnStatus {
        match self {
            ActivityStatus::Normal(t) => t,
            ActivityStatus::Compact(t) => t,
        }
    }

    /// The turn state, whichever the mode.
    pub fn turn(&self) -> (t: &TurnStatus)
        ensures
            t == self.turn_spec(),
    {
        match self {
            ActivityStatus::Normal(t) => t,
            ActivityStatus::Compact(t) => t,
        }
    }

    /// Not in the middle of a turn.
    pub fn idle(&self) -> (b: bool)
        ensures
            b == !(self.turn_spec() is InProgress),
    {
        !matches!(self.turn(), TurnStatus::InProgress)
    }

    /// One-character marker of the turn state: `+` running, ` ` idle,
    /// `!` failed.
    pub fn label(&self) -> (s: &'static str)
        ensures
            s@ == match self.turn_spec() {
                TurnStatus::InProgress => "+"@,
                TurnStatus::Idle => " "@,
                TurnStatus::Failed(_) => "!"@,
            },
    {
        proof {
            reveal_strlit("+");
            reveal_strlit(" ");
            reveal_strlit("!");
        }
        match self.turn() {
            TurnStatus::InProgress => "+",
            TurnStatus::Idle => " ",
            TurnStatus::Failed(_) => "!",
        }
    }
}

impl Default for ActivityStatus {
    fn default() -> (s: Self)
        ensures
            s matches ActivityStatus::Normal(TurnStatus::Idle),
    {
        ActivityStatus::Normal(TurnStatus::Idle)
    }
}

} // verus!
