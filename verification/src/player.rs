//! What players can do, and which gamepad belongs to which player.

use vstd::prelude::*;

verus! {

/// What a player can do.
#[derive(Clone, Copy, Debug, PartialEq, Eq, Hash, Structural)]
pub enum Action {
    Move,
    Aim,
    Jump,
    Grab,
    SetDown,
    Parry,
}

/// The kind of control an action is bound to.
#[derive(Clone, Copy, Debug, PartialEq, Eq, Structural)]
pub enum InputControlKind {
    Button,
    DualAxis,
}

impl Action {
    /// Moving and aiming take a stick; everything else takes a button.
    pub open spec fn spec_input_control_kind(self) -> InputControlKind {
        match self {
            Action::Move => InputControlKind::DualAxis,
            Action::Aim => InputControlKind::DualAxis,
            Action::Jump => InputControlKind::Button,
            Action::Grab => InputControlKind::Button,
            Action::SetDown => InputControlKind::Button,
            Action::Parry => InputControlKind::Button,
        }
    }

    /// The kind of control the action is bound to.
    pub fn input_control_kind(&self) -> (kind: InputControlKind)
        ensures
            kind == self.spec_input_control_kind(),
    {
        match self {
            Action::Move => InputControlKind::DualAxis,
            Action::Aim => InputControlKind::DualAxis,
            Action::Jump => InputControlKind::Button,
            Action::Grab => InputControlKind::Button,
            Action::SetDown => InputControlKind::Button,
            Action::Parry => InputControlKind::Button,
        }
    }
}

/// Which player each connected gamepad controls. The table itself is
/// `bevy::utils::HashMap<usize, usize>`, from gamepad number to player
/// handle; nothing here looks inside it.
#[verifier::external_body]
pub struct UsedGamepads {
    gamepads: bevy::utils::HashMap<usize, usize>,
}

/// The player each gamepad controls.
pub uninterp spec fn used_gamepads(used: &UsedGamepads) -> Map<usize, usize>;

/// `HashMap::default`: the new table holds no gamepad.
#[verifier::external_body]
pub(crate) fn gamepads_default() -> (table: UsedGamepads)
    ensures
        (used_gamepads(&table) == Map::<usize, usize>::empty()),
{
    UsedGamepads { gamepads: bevy::utils::HashMap::default() }
}

/// `HashMap::len`: the number of gamepads in the table.
#[verifier::external_body]
pub(crate) fn gamepads_len(table: &UsedGamepads) -> (n: usize)
    ensures
        n == used_gamepads(table).dom().len(),
{
    table.gamepads.len()
}

/// `HashMap::get`: the player of a gamepad, if the gamepad is in the table.
#[verifier::external_body]
pub(crate) fn gamepads_get(used: &UsedGamepads, gamepad: usize) -> (player: Option<usize>)
    ensures
        player == if used_gamepads(used).dom().contains(gamepad) {
            Some(used_gamepads(used)[gamepad])
        } else {
            None::<usize>
        },
{
    used.gamepads.get(&gamepad).copied()
}

/// `HashMap::insert`: afterwards the gamepad controls the player and every
/// other entry is as before; the result is the player it controlled before.
#[verifier::external_body]
pub(crate) fn gamepads_insert(used: &mut UsedGamepads, gamepad: usize, player: usize) -> (before:
    Option<usize>)
    ensures
        used_gamepads(final(used)) == used_gamepads(old(used)).insert(gamepad, player),
        before == if used_gamepads(old(used)).dom().contains(gamepad) {
            Some(used_gamepads(old(used))[gamepad])
        } else {
            None::<usize>
        },
{
    used.gamepads.insert(gamepad, player)
}

/// `HashMap::remove`: afterwards the gamepad is not in the table and every
/// other entry is as before; the result is the player it controlled.
#[verifier::external_body]
pub(crate) fn gamepads_remove(used: &mut UsedGamepads, gamepad: usize) -> (before: Option<usize>)
    ensures
        used_gamepads(final(used)) == used_gamepads(old(used)).remove(gamepad),
        before == if used_gamepads(old(used)).dom().contains(gamepad) {
            Some(used_gamepads(old(used))[gamepad])
        } else {
            None::<usize>
        },
{
    used.gamepads.remove(&gamepad)
}

} // verus!
