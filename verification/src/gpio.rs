//! The eight relay outputs: commands, the shared state table, and how a
//! command changes it.

use vstd::prelude::*;

verus! {

/// Commands sent to the relay task.
#[derive(Debug, Clone, Copy, PartialEq, Eq, Structural)]
pub enum GpioCommand {
    /// Toggle the output state of the given pin index (0–7).
    Toggle(u8),
    /// Set the output state of the given pin index (0–7) to the given level.
    SetState(u8, bool),
}

/// The pin a command addresses.
pub open spec fn command_pin(cmd: GpioCommand) -> u8 {
    match cmd {
        GpioCommand::Toggle(p) => p,
        GpioCommand::SetState(p, _) => p,
    }
}

/// The relay states after `cmd`: the addressed relay is toggled or set, the
/// others keep their state; a command for a pin of 8 or more changes nothing.
pub open spec fn apply_command(states: Seq<bool>, cmd: GpioCommand) -> Seq<bool> {
    match cmd {
        GpioCommand::Toggle(p) => if p < 8 {
            states.update(p as int, !states[p as int])
        } else {
            states
        },
        GpioCommand::SetState(p, level) => if p < 8 {
            states.update(p as int, level)
        } else {
            states
        },
    }
}

/// Output state of the eight relays (index 0–7), all off at start-up.
pub struct RelayStates {
    pub states: [bool; 8],
}

impl View for RelayStates {
    type V = Seq<bool>;

    open spec fn view(&self) -> Seq<bool> {
        self.states@
    }
}

impl RelayStates {
    /// All relays off.
    pub fn new() -> (r: Self)
        ensures
            r@ == Seq::new(8, |i: int| false),
    {
        let r = RelayStates { states: [false; 8] };
        assert(r@ =~= Seq::new(8, |i: int| false));
        r
    }

    /// State of a relay; `false` for a pin of 8 or more.
    pub fn get(&self, pin: u8) -> (r: bool)
        ensures
            r == (pin < 8 && self@[pin as int]),
    {
        if (pin as usize) < 8 {
            self.states[pin as usize]
        } else {
            false
        }
    }

    /// Applies a command to the state table and returns the pin to drive and
    /// its new level, or `None` when the command names no relay.
    pub fn apply(&mut self, cmd: GpioCommand) -> (r: Option<(usize, bool)>)
        ensures
            final(self)@ == apply_command(old(self)@, cmd),
            r == if command_pin(cmd) < 8 {
                Some((command_pin(cmd) as usize, final(self)@[command_pin(cmd) as int]))
            } else {
                None::<(usize, bool)>
            },
    {
        let pin_index = match cmd {
            GpioCommand::Toggle(p) => p as usize,
            GpioCommand::SetState(p, _) => p as usize,
        };
        if pin_index >= 8 {
            return None;
        }
        let new_state = match cmd {
            GpioCommand::Toggle(_) => !self.states[pin_index],
            GpioCommand::SetState(_, s) => s,
        };
        self.states[pin_index] = new_state;
        Some((pin_index, new_state))
    }
}

/// Toggling a relay twice restores every relay's state.
pub proof fn lemma_toggle_twice(states: Seq<bool>, pin: u8)
    requires
        states.len() == 8,
    ensures
        apply_command(apply_command(states, GpioCommand::Toggle(pin)), GpioCommand::Toggle(pin))
            == states,
{
    let once = apply_command(states, GpioCommand::Toggle(pin));
    assert(apply_command(once, GpioCommand::Toggle(pin)) =~= states);
}

/// Of two `SetState` commands for the same relay the second alone decides its
/// state, and a relay reads back the level it was set to.
pub proof fn lemma_set_last_wins(states: Seq<bool>, pin: u8, first: bool, second: bool)
    requires
        states.len() == 8,
    ensures
        apply_command(apply_command(states, GpioCommand::SetState(pin, first)), GpioCommand::SetState(pin, second))
            == apply_command(states, GpioCommand::SetState(pin, second)),
        pin < 8 ==> apply_command(states, GpioCommand::SetState(pin, second))[pin as int] == second,
{
    assert(apply_command(apply_command(states, GpioCommand::SetState(pin, first)), GpioCommand::SetState(pin, second))
        =~= apply_command(states, GpioCommand::SetState(pin, second)));
}

/// A command changes no relay but the one it names, and keeps the table's size.
pub proof fn lemma_command_is_local(states: Seq<bool>, cmd: GpioCommand, other: int)
    requires
        states.len() == 8,
        0 <= other < 8,
        other != command_pin(cmd),
    ensures
        apply_command(states, cmd).len() == 8,
        apply_command(states, cmd)[other] == states[other],
{
}

/// Toggling a relay flips it, setting it gives it the requested level, and
/// either leaves the other relays as they were; a command for a pin of 8 or
/// more changes nothing.
pub proof fn lemma_command_effect(states: Seq<bool>, cmd: GpioCommand, q: int)
    requires
        states.len() == 8,
        0 <= q < 8,
    ensures
        apply_command(states, cmd).len() == 8,
        cmd matches GpioCommand::Toggle(p) ==> apply_command(states, cmd)[q] == if q == p {
            !states[q]
        } else {
            states[q]
        },
        cmd matches GpioCommand::SetState(p, level) ==> apply_command(states, cmd)[q] == if q == p {
            level
        } else {
            states[q]
        },
{
}

} // verus!
