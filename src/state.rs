use vstd::prelude::*;

verus! {

/// The phase the turn scheduler is in.
#[derive(Clone, Copy, Debug, PartialEq, Eq, Structural)]
pub enum RunState {
    AwaitingInput,
    PreRun,
    PlayerTurn,
    MonsterTurn,
    ShowInventory,
    ShowDropItem,
    ShowCharacter,
    ShowTargeting { range: i32, item: usize },
    Dead,
}

} // verus!
