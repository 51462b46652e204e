use vstd::prelude::*;

verus! {

/// A discrete gameplay event: the player-originated moves, plus the
/// follow-up events the orchestrator enqueues for itself.
#[derive(Debug, Copy, Clone, PartialEq, Eq, Structural)]
pub enum Action {
    MoveRight,
    MoveLeft,
    MoveDown,
    RotateClockwise,
    RotateCounterClockwise,
    HardDrop,
    SoftDrop,
    HoldPiece,
    FallPiece,
    LockPiece,
    GameOver,
}

} // verus!
