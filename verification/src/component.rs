//! The closed set of components and what each contributes to its output net.

use crate::drive::{
    Drive, DRIVE_HIGH_Z, DRIVE_STRONG_HIGH, DRIVE_STRONG_LOW, DRIVE_WEAK_HIGH, DRIVE_WEAK_LOW,
};
use crate::net::{Net, NetState};
use vstd::prelude::*;

verus! {

/// One element of a signal source's pattern.
#[derive(Clone, Copy, Debug, PartialEq, Eq, Structural)]
pub enum SignalLevel {
    Low,
    High,
    HighZ,
}

/// A component of the netlist. Components are immutable once built.
#[derive(Debug)]
pub enum Component {
    /// A transistor, n-type unless `is_pfet`. It drives `drain`.
    Transistor { is_pfet: bool, gate: Net, drain: Net, source: Net },
    /// A source that plays `pattern` onto `net`, one element per logical
    /// clock, wrapping around if `repeat` and holding the last element if not.
    SignalSource { pattern: Vec<SignalLevel>, repeat: bool, net: Net },
    /// A resistor that pulls `net` weakly, down if `is_pull_down`, else up.
    PullResistor { is_pull_down: bool, net: Net },
    /// A memory array. It is part of the data model, drives nothing and
    /// neither reads nor writes.
    MemoryArray {
        address_bit_count: u32,
        word_size: u32,
        contents: Vec<NetState>,
        address_nets: Vec<Net>,
        data_in_nets: Vec<Net>,
        data_out_nets: Vec<Net>,
        read_enable_net: Net,
        write_enable_net: Net,
    },
}

/// The mathematical value of a component.
pub enum ComponentModel {
    Transistor { is_pfet: bool, gate: Net, drain: Net, source: Net },
    SignalSource { pattern: Seq<SignalLevel>, repeat: bool, net: Net },
    PullResistor { is_pull_down: bool, net: Net },
    MemoryArray {
        address_bit_count: u32,
        word_size: u32,
        contents: Seq<NetState>,
        address_nets: Seq<Net>,
        data_in_nets: Seq<Net>,
        data_out_nets: Seq<Net>,
        read_enable_net: Net,
        write_enable_net: Net,
    },
}

impl View for Component {
    type V = ComponentModel;

    open spec fn view(&self) -> ComponentModel {
        match *self {
            Component::Transistor { is_pfet, gate, drain, source } => ComponentModel::Transistor {
                is_pfet,
                gate,
                drain,
                source,
            },
            Component::SignalSource { pattern, repeat, net } => ComponentModel::SignalSource {
                pattern: pattern@,
                repeat,
                net,
            },
            Component::PullResistor { is_pull_down, net } => ComponentModel::PullResistor {
                is_pull_down,
                net,
            },
            Component::MemoryArray {
                address_bit_count,
                word_size,
                contents,
                address_nets,
                data_in_nets,
                data_out_nets,
                read_enable_net,
                write_enable_net,
            } => ComponentModel::MemoryArray {
                address_bit_count,
                word_size,
                contents: contents@,
                address_nets: address_nets@,
                data_in_nets: data_in_nets@,
                data_out_nets: data_out_nets@,
                read_enable_net,
                write_enable_net,
            },
        }
    }
}

/// The mathematical value of a component list, in list order.
pub open spec fn models(components: Seq<Component>) -> Seq<ComponentModel> {
    Seq::new(components.len(), |i: int| components[i]@)
}

/// Whether every net in the list exists.
pub open spec fn all_nets_below(nets: Seq<Net>, net_count: u32) -> bool {
    forall|i: int| 0 <= i < nets.len() ==> nets[i] < net_count
}

impl ComponentModel {
    /// The invariant of a component in a netlist of `net_count` nets: every
    /// net it refers to exists, and a signal source has something to play.
    pub open spec fn wf(self, net_count: u32) -> bool {
        match self {
            ComponentModel::Transistor { gate, drain, source, .. } => {
                gate < net_count && drain < net_count && source < net_count
            },
            ComponentModel::SignalSource { pattern, net, .. } => {
                net < net_count && pattern.len() > 0
            },
            ComponentModel::PullResistor { net, .. } => net < net_count,
            ComponentModel::MemoryArray {
                address_nets,
                data_in_nets,
                data_out_nets,
                read_enable_net,
                write_enable_net,
                ..
            } => {
                &&& all_nets_below(address_nets, net_count)
                &&& all_nets_below(data_in_nets, net_count)
                &&& all_nets_below(data_out_nets, net_count)
                &&& read_enable_net < net_count
                &&& write_enable_net < net_count
            },
        }
    }

    /// The one net the component writes to, if it writes at all.
    pub open spec fn output_net(self) -> Option<Net> {
        match self {
            ComponentModel::Transistor { drain, .. } => Some(drain),
            ComponentModel::SignalSource { net, .. } => Some(net),
            ComponentModel::PullResistor { net, .. } => Some(net),
            ComponentModel::MemoryArray { .. } => None,
        }
    }

    /// The flags the component puts on its output net during a tick that
    /// starts in `states` at the given logical clock. Only the states of the
    /// previous tick are read.
    pub open spec fn contribution(self, states: Seq<NetState>, logical_clock: nat) -> Drive {
        match self {
            ComponentModel::Transistor { is_pfet, gate, source, .. } => {
                if !is_pfet && states[gate as int] == NetState::High && states[source as int]
                    == NetState::Low {
                    DRIVE_STRONG_LOW
                } else if is_pfet && states[gate as int] == NetState::Low && states[source as int]
                    == NetState::High {
                    DRIVE_STRONG_HIGH
                } else {
                    DRIVE_HIGH_Z
                }
            },
            ComponentModel::SignalSource { pattern, repeat, .. } => spec_level_drive(
                pattern[spec_pattern_index(pattern.len(), repeat, logical_clock) as int],
            ),
            ComponentModel::PullResistor { is_pull_down, .. } => {
                if is_pull_down {
                    DRIVE_WEAK_LOW
                } else {
                    DRIVE_WEAK_HIGH
                }
            },
            ComponentModel::MemoryArray { .. } => DRIVE_HIGH_Z,
        }
    }
}

/// All components of the list satisfy the invariant.
pub open spec fn all_wf(components: Seq<ComponentModel>, net_count: u32) -> bool {
    forall|i: int| 0 <= i < components.len() ==> (#[trigger] components[i]).wf(net_count)
}

/// The flags a signal level stands for.
pub open spec fn spec_level_drive(level: SignalLevel) -> Drive {
    match level {
        SignalLevel::Low => DRIVE_STRONG_LOW,
        SignalLevel::High => DRIVE_STRONG_HIGH,
        SignalLevel::HighZ => DRIVE_HIGH_Z,
    }
}

/// The pattern position played at a logical clock: the clock modulo the
/// length for a repeating pattern, else the clock clamped to the last
/// position.
pub open spec fn spec_pattern_index(len: nat, repeat: bool, logical_clock: nat) -> nat
    recommends
        len > 0,
{
    if repeat {
        logical_clock % len
    } else if logical_clock < len {
        logical_clock
    } else {
        (len - 1) as nat
    }
}

/// The flags a signal level stands for.
pub fn level_drive(level: SignalLevel) -> (drive: Drive)
    ensures
        drive == spec_level_drive(level),
{
    match level {
        SignalLevel::Low => DRIVE_STRONG_LOW,
        SignalLevel::High => DRIVE_STRONG_HIGH,
        SignalLevel::HighZ => DRIVE_HIGH_Z,
    }
}

/// Samples a pattern at a logical clock.
///
/// A pattern that does not repeat plays its last element at every clock from
/// `len - 1` on; a repeating one plays element `logical_clock % len`.
pub fn sample_pattern(pattern: &Vec<SignalLevel>, repeat: bool, logical_clock: u32) -> (level:
    SignalLevel)
    requires
        pattern.len() > 0,
    ensures
        level == pattern@[spec_pattern_index(pattern@.len(), repeat, logical_clock as nat) as int],
        !repeat && logical_clock >= pattern.len() - 1 ==> level == pattern@[pattern.len() - 1],
        !repeat && logical_clock < pattern.len() ==> level == pattern@[logical_clock as int],
        repeat ==> level == pattern@[logical_clock as int % pattern.len() as int],
{
    let len = pattern.len();
    let clock = logical_clock as usize;
    let index = if repeat {
        clock % len
    } else if clock < len {
        clock
    } else {
        len - 1
    };
    pattern[index]
}

/// Whether every net in the list exists.
pub fn nets_below(nets: &Vec<Net>, net_count: u32) -> (ok: bool)
    ensures
        ok == all_nets_below(nets@, net_count),
{
    let mut i: usize = 0;
    while i < nets.len()
        invariant
            i <= nets.len(),
            forall|j: int| 0 <= j < i ==> nets@[j] < net_count,
        decreases nets.len() - i,
    {
        if nets[i] >= net_count {
            return false;
        }
        i += 1;
    }
    true
}

impl Component {
    /// Checks the component's invariant against the number of nets.
    pub fn is_well_formed(&self, net_count: u32) -> (ok: bool)
        ensures
            ok == self@.wf(net_count),
    {
        match self {
            Component::Transistor { gate, drain, source, .. } => {
                *gate < net_count && *drain < net_count && *source < net_count
            },
            Component::SignalSource { pattern, net, .. } => {
                *net < net_count && pattern.len() > 0
            },
            Component::PullResistor { net, .. } => *net < net_count,
            Component::MemoryArray {
                address_nets,
                data_in_nets,
                data_out_nets,
                read_enable_net,
                write_enable_net,
                ..
            } => {
                nets_below(address_nets, net_count) && nets_below(data_in_nets, net_count)
                    && nets_below(data_out_nets, net_count) && *read_enable_net < net_count
                    && *write_enable_net < net_count
            },
        }
    }

    /// The net the component writes to, if it writes at all.
    pub fn output_net(&self) -> (net: Option<Net>)
        ensures
            net == self@.output_net(),
    {
        match self {
            Component::Transistor { drain, .. } => Some(*drain),
            Component::SignalSource { net, .. } => Some(*net),
            Component::PullResistor { net, .. } => Some(*net),
            Component::MemoryArray { .. } => None,
        }
    }

    /// Evaluates the component for one tick: the flags it puts on its output
    /// net, read off the states the previous tick left behind.
    pub fn contribution(&self, net_states: &Vec<NetState>, logical_clock: u32) -> (drive: Drive)
        requires
            self@.wf(net_states.len() as u32),
            net_states.len() <= u32::MAX,
        ensures
            drive == self@.contribution(net_states@, logical_clock as nat),
    {
        match self {
            Component::Transistor { is_pfet, gate, source, .. } => {
                let gate_state = net_states[*gate as usize];
                let source_state = net_states[*source as usize];
                match (*is_pfet, gate_state, source_state) {
                    (false, NetState::High, NetState::Low) => DRIVE_STRONG_LOW,
                    (true, NetState::Low, NetState::High) => DRIVE_STRONG_HIGH,
                    _ => DRIVE_HIGH_Z,
                }
            },
            Component::SignalSource { pattern, repeat, .. } => level_drive(
                sample_pattern(pattern, *repeat, logical_clock),
            ),
            Component::PullResistor { is_pull_down, .. } => {
                if *is_pull_down {
                    DRIVE_WEAK_LOW
                } else {
                    DRIVE_WEAK_HIGH
                }
            },
            Component::MemoryArray { .. } => DRIVE_HIGH_Z,
        }
    }
}

} // verus!
