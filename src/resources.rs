use vstd::prelude::*;

verus! {

/// Timestamps in nanoseconds: the start of the run and the last player move,
/// drop tick and spawn.
#[derive(Clone, Copy, Debug, PartialEq, Eq, Structural)]
pub struct Clock {
    pub start: u64,
    pub last_player_move: u64,
    pub last_drop: u64,
    pub last_spawn: u64,
}

impl Clock {
    /// No event precedes the start.
    pub open spec fn wf(self) -> bool {
        &&& self.start <= self.last_player_move
        &&& self.start <= self.last_drop
        &&& self.start <= self.last_spawn
    }

    /// `now` is no earlier than any timestamp.
    pub open spec fn not_after(self, now: u64) -> bool {
        &&& self.last_player_move <= now
        &&& self.last_drop <= now
        &&& self.last_spawn <= now
    }
}

/// A clock whose timestamps all stand at `now`.
pub fn init_clock(now: u64) -> (r: Clock)
    ensures
        r == (Clock { start: now, last_player_move: now, last_drop: now, last_spawn: now }),
{
    Clock { start: now, last_player_move: now, last_drop: now, last_spawn: now }
}

/// Latched key state, written by the input side once per tick.
#[derive(Clone, Copy, Debug, PartialEq, Eq, Structural)]
pub struct KeysPressed {
    pub left: bool,
    pub right: bool,
    pub space: bool,
    pub escape: bool,
}

/// No key pressed.
pub fn init_keys() -> (r: KeysPressed)
    ensures
        r == (KeysPressed { left: false, right: false, space: false, escape: false }),
{
    KeysPressed { left: false, right: false, space: false, escape: false }
}

/// Intents that the systems consume and clear.
#[derive(Clone, Copy, Debug, PartialEq, Eq, Structural)]
pub struct Actions {
    pub move_left: bool,
    pub move_right: bool,
    pub spawn_block: bool,
}

/// No intent pending.
pub fn init_actions() -> (r: Actions)
    ensures
        r == (Actions { move_left: false, move_right: false, spawn_block: false }),
{
    Actions { move_left: false, move_right: false, spawn_block: false }
}

/// When true, the run ends before the next tick.
#[derive(Clone, Copy, Debug, PartialEq, Eq, Structural)]
pub struct KillProgram(pub bool);

/// The run goes on.
pub fn init_kill_program() -> (r: KillProgram)
    ensures
        r == KillProgram(false),
{
    KillProgram(false)
}

} // verus!
