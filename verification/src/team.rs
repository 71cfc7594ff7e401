//! The two sides of a game.
use vstd::prelude::*;

verus! {

/// The side that the game server calls ONE, and the side that it calls
/// TWO.
#[derive(Clone, Copy, Debug, PartialEq, Eq, Structural)]
pub enum Team {
    ONE,
    TWO,
}

impl Team {
    /// The other side.
    pub open spec fn other(self) -> Team {
        match self {
            Team::ONE => Team::TWO,
            Team::TWO => Team::ONE,
        }
    }

    /// The other side.
    pub fn next(&self) -> (r: Team)
        ensures
            r == self.other(),
    {
        match self {
            Team::ONE => Team::TWO,
            Team::TWO => Team::ONE,
        }
    }

    /// The side that moves in turn `turn`, turns counted from 0, when
    /// `start_team` moves in the odd turns.
    pub fn current(start_team: Team, turn: u8) -> (r: Team)
        requires
            turn < u8::MAX,
        ensures
            r == if turn % 2 == 1 { start_team } else { start_team.other() },
    {
        if (turn + 1) % 2 == 0 {
            start_team
        } else {
            start_team.next()
        }
    }

    /// The side that a name of the turn protocol stands for.
    pub open spec fn named(name: Seq<char>) -> Option<Team> {
        if name == "ONE"@ {
            Some(Team::ONE)
        } else if name == "TWO"@ {
            Some(Team::TWO)
        } else {
            None
        }
    }

    /// The side that a name of the turn protocol stands for.
    pub fn from_name(name: &String) -> (r: Option<Team>)
        ensures
            r == Team::named(name@),
    {
        if *name == "ONE".to_owned() {
            Some(Team::ONE)
        } else if *name == "TWO".to_owned() {
            Some(Team::TWO)
        } else {
            None
        }
    }
}

} // verus!
