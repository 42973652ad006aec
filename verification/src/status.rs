//! Named status effects, player liveness states and coarse player
//! actions.

use vstd::prelude::*;

verus! {

/// The named status effects that can sit on a player.
#[derive(Clone, Copy, Debug, PartialEq, Eq, Structural, Hash)]
pub enum Effect {
    Petrified,
    Disarmed,
    DenialOfService,
    Raged,
    NeonCrashing,
    Leaping,
    OutOfArea,
    ElnarMark,
    YugenMark,
    XandaMark,
    XandaMarkOwner,
    Poisoned,
    Slowed,
    FieryRampage,
    Burned,
    Scherzo,
    DanseMacabre,
    Paralyzed,
}

impl Effect {
    /// Whether the effect takes control away from the player.
    pub fn is_crowd_control(&self) -> (r: bool)
        ensures
            r == (*self == Effect::Petrified || *self == Effect::Disarmed),
    {
        match self {
            Effect::Petrified | Effect::Disarmed => true,
            _ => false,
        }
    }
}

#[derive(Clone, Copy, Debug, PartialEq, Eq, Structural)]
pub enum Status {
    ALIVE,
    DEAD,
    DISCONNECTED,
}

/// Coarse player actions as shown to clients.
#[derive(Clone, Copy, Debug, PartialEq, Eq, Structural, Hash)]
pub enum PlayerAction {
    NOTHING,
    ATTACKING,
    ATTACKINGAOE,
    STARTINGSKILL1,
    STARTINGSKILL2,
    STARTINGSKILL3,
    STARTINGSKILL4,
    EXECUTINGSKILL1,
    EXECUTINGSKILL2,
    EXECUTINGSKILL3,
    EXECUTINGSKILL4,
    MOVING,
}

} // verus!
