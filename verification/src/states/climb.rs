//! Climbing: whether a character keeps climbing, and what it costs.
use vstd::prelude::*;

verus! {

/// Which way a climbing character moves.
#[derive(Clone, Copy, Debug, PartialEq, Eq, Structural)]
pub enum Climb {
    Up,
    Down,
    Hold,
}

/// The energy one step of climbing takes.
pub fn climb_energy_use(climb: Climb) -> (e: i32)
    ensures
        e == match climb {
            Climb::Up => 5i32,
            Climb::Down => 1i32,
            Climb::Hold => 1i32,
        },
{
    match climb {
        Climb::Up => 5,
        Climb::Down => 1,
        Climb::Hold => 1,
    }
}

/// The climb a character keeps doing: only with a wall beside it, a climb
/// input, and no ground under its feet; `None` means it stops climbing.
pub fn climb_continues(on_wall: bool, climb: Option<Climb>, on_ground: bool) -> (r: Option<Climb>)
    ensures
        r == if on_wall && !on_ground {
            climb
        } else {
            None
        },
{
    if on_wall && !on_ground {
        climb
    } else {
        None
    }
}

} // verus!
