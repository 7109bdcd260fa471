//! The logic state of a net and its transition rule.

use crate::drive::DriveType;
use vstd::prelude::*;

verus! {

/// A net, named by its index in `[0, net_count)`.
pub type Net = u32;

/// The logic state a net holds between two ticks.
#[derive(Clone, Copy, Debug, PartialEq, Eq, Structural)]
pub enum NetState {
    Invalid,
    Low,
    High,
    ShootThrough,
}

/// The transition table. Shoot-through is terminal, a high-Z drive forgets
/// any known level, and a level flipped within one tick is not trusted yet.
pub open spec fn spec_next_state(previous: NetState, drive: DriveType) -> NetState {
    match (previous, drive) {
        (NetState::ShootThrough, _) => NetState::ShootThrough,
        (_, DriveType::ShootThrough) => NetState::ShootThrough,
        (_, DriveType::HighZ) => NetState::Invalid,
        (NetState::Invalid, DriveType::Low) => NetState::Low,
        (NetState::Invalid, DriveType::High) => NetState::High,
        (NetState::Low, DriveType::Low) => NetState::Low,
        (NetState::Low, DriveType::High) => NetState::Invalid,
        (NetState::High, DriveType::High) => NetState::High,
        (NetState::High, DriveType::Low) => NetState::Invalid,
    }
}

/// The byte that stands for a state in a packed trace.
pub open spec fn spec_state_byte(state: NetState) -> u8 {
    match state {
        NetState::Invalid => 0,
        NetState::Low => 1,
        NetState::High => 2,
        NetState::ShootThrough => 3,
    }
}

/// Moves a net from its previous state to its next one under this tick's
/// resolved drive.
pub fn next_state(previous: NetState, drive: DriveType) -> (next: NetState)
    ensures
        next == spec_next_state(previous, drive),
        previous == NetState::ShootThrough ==> next == NetState::ShootThrough,
{
    match (previous, drive) {
        (NetState::ShootThrough, _) => NetState::ShootThrough,
        (_, DriveType::ShootThrough) => NetState::ShootThrough,
        (_, DriveType::HighZ) => NetState::Invalid,
        (NetState::Invalid, DriveType::Low) => NetState::Low,
        (NetState::Invalid, DriveType::High) => NetState::High,
        (NetState::Low, DriveType::Low) => NetState::Low,
        (NetState::Low, DriveType::High) => NetState::Invalid,
        (NetState::High, DriveType::High) => NetState::High,
        (NetState::High, DriveType::Low) => NetState::Invalid,
    }
}

/// Encodes a state as one byte of a packed trace.
pub fn state_byte(state: NetState) -> (byte: u8)
    ensures
        byte == spec_state_byte(state),
        byte <= 3,
{
    match state {
        NetState::Invalid => 0,
        NetState::Low => 1,
        NetState::High => 2,
        NetState::ShootThrough => 3,
    }
}

/// A net enters shoot-through exactly when it was there already or this
/// tick's drive is a conflict, so the state never reverts.
pub proof fn lemma_shoot_through_entry(previous: NetState, drive: DriveType)
    ensures
        spec_next_state(previous, drive) == NetState::ShootThrough <==> (previous
            == NetState::ShootThrough || drive == DriveType::ShootThrough),
{
}

/// Distinct states have distinct bytes.
pub proof fn lemma_state_byte_injective(a: NetState, b: NetState)
    requires
        spec_state_byte(a) == spec_state_byte(b),
    ensures
        a == b,
{
}

} // verus!
