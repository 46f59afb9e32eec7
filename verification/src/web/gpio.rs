//! Relay API: reading a relay, and switching it under the user's port mask.

use vstd::prelude::*;
use crate::auth::AuthUser;
use crate::gpio::{apply_command, GpioCommand, RelayStates};

verus! {

/// Answer to a relay query.
pub struct GpioStateResponse {
    /// Relay index.
    pub pin: u8,
    /// Current output state.
    pub state: bool,
    /// Port name.
    pub name: String,
    /// Whether the user may switch this relay.
    pub allowed: bool,
}

/// Answer to a relay toggle or set request.
#[derive(Debug, Clone, Copy, PartialEq, Eq, Structural)]
pub struct GpioToggleResponse {
    /// Relay index.
    pub pin: u8,
    /// Output state after the request.
    pub state: bool,
}

/// Request body of a relay set request.
#[derive(Debug, Clone, Copy, PartialEq, Eq, Structural)]
pub struct SetBody {
    /// Requested output state.
    pub state: bool,
}

/// Bit `pin` of the port mask is set.
pub open spec fn port_allowed(mask: u8, pin: u8) -> bool {
    mask & (1u8 << pin) != 0
}

/// A relay's state, name and whether the user may switch it; a pin of 8 or
/// more is off and not allowed.
pub fn gpio_state_response(pin: u8, states: &RelayStates, name: String, user: &AuthUser) -> (r: GpioStateResponse)
    ensures
        r.pin == pin,
        r.state == (pin < 8 && states@[pin as int]),
        r.name == name,
        r.allowed == (pin < 8 && port_allowed(user.allowed_ports, pin)),
{
    let state = states.get(pin);
    let allowed = pin < 8 && user.allowed_ports & (1u8 << pin) != 0;
    GpioStateResponse { pin, state, name, allowed }
}

/// The command a toggle request sends to the relay task: none for a pin of
/// 8 or more or a port the user's mask does not allow.
pub fn toggle_request(pin: u8, user: &AuthUser) -> (r: Option<GpioCommand>)
    ensures
        r == if pin < 8 && port_allowed(user.allowed_ports, pin) {
            Some(GpioCommand::Toggle(pin))
        } else {
            None::<GpioCommand>
        },
{
    if pin >= 8 || (user.allowed_ports & (1u8 << pin) == 0) {
        None
    } else {
        Some(GpioCommand::Toggle(pin))
    }
}

/// The command a set request sends to the relay task: none for a pin of 8
/// or more or a port the user's mask does not allow.
pub fn set_request(pin: u8, user: &AuthUser, body: SetBody) -> (r: Option<GpioCommand>)
    ensures
        r == if pin < 8 && port_allowed(user.allowed_ports, pin) {
            Some(GpioCommand::SetState(pin, body.state))
        } else {
            None::<GpioCommand>
        },
{
    if pin >= 8 || (user.allowed_ports & (1u8 << pin) == 0) {
        None
    } else {
        Some(GpioCommand::SetState(pin, body.state))
    }
}

/// The answer to a toggle or set request: the relay's state as read from
/// the table afterwards (`false` for a pin of 8 or more).
pub fn toggle_response(pin: u8, states: &RelayStates) -> (r: GpioToggleResponse)
    ensures
        r.pin == pin,
        r.state == (pin < 8 && states@[pin as int]),
{
    GpioToggleResponse { pin, state: states.get(pin) }
}

/// The relay table after a request, when the relay task has applied the
/// command the request produced.
pub open spec fn after_request(states: Seq<bool>, cmd: Option<GpioCommand>) -> Seq<bool> {
    match cmd {
        Some(c) => apply_command(states, c),
        None => states,
    }
}

/// A toggle or set request changes no relay but the requested one, and that
/// one only when the user's port mask allows it.
pub proof fn lemma_requests_respect_port_mask(states: Seq<bool>, pin: u8, mask: u8, level: bool, q: int)
    requires
        states.len() == 8,
        0 <= q < 8,
    ensures
        ({
            let toggled = if pin < 8 && port_allowed(mask, pin) {
                Some(GpioCommand::Toggle(pin))
            } else {
                None::<GpioCommand>
            };
            after_request(states, toggled)[q] != states[q] ==> q == pin && port_allowed(mask, pin)
        }),
        ({
            let set = if pin < 8 && port_allowed(mask, pin) {
                Some(GpioCommand::SetState(pin, level))
            } else {
                None::<GpioCommand>
            };
            after_request(states, set)[q] != states[q] ==> q == pin && port_allowed(mask, pin)
        }),
{
}

} // verus!
