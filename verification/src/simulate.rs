//! The time-stepped loop: every tick each net's drive is accumulated from
//! all components, resolved, and fed to the net's state machine.
//!
//! Components read only the states the previous tick left behind and write
//! only to the accumulator of their own output net, so a tick's outcome does
//! not depend on the order in which the components are visited.

use crate::component::{all_wf, models, Component, ComponentModel};
use crate::drive::{
    merge_drives, resolve_drive, spec_merge_drives, spec_resolve_drive, Drive, DRIVE_HIGH_Z,
};
use crate::net::{next_state, spec_next_state, Net, NetState};
use vstd::prelude::*;

verus! {

/// The flags accumulated on `net` during one tick: the union of the
/// contributions of all components whose output net it is.
pub open spec fn spec_net_drive(
    components: Seq<ComponentModel>,
    states: Seq<NetState>,
    logical_clock: nat,
    net: Net,
) -> Drive
    decreases components.len(),
{
    if components.len() == 0 {
        DRIVE_HIGH_Z
    } else {
        let rest = spec_net_drive(components.drop_last(), states, logical_clock, net);
        if components.last().output_net() == Some(net) {
            spec_merge_drives(rest, components.last().contribution(states, logical_clock))
        } else {
            rest
        }
    }
}

/// The states after one tick that starts in `states`.
pub open spec fn spec_step(
    components: Seq<ComponentModel>,
    states: Seq<NetState>,
    logical_clock: nat,
) -> Seq<NetState> {
    Seq::new(
        states.len(),
        |n: int|
            spec_next_state(
                states[n],
                spec_resolve_drive(spec_net_drive(components, states, logical_clock, n as Net)),
            ),
    )
}

/// The logical clock of tick `t`, which slows signal playback down by the
/// clock divider.
pub open spec fn spec_logical_clock(t: nat, clock_divider: nat) -> nat {
    t / clock_divider
}

/// The states of all nets after `t` ticks. Before the first tick every net
/// is `Invalid`.
pub open spec fn spec_states(
    components: Seq<ComponentModel>,
    net_count: nat,
    clock_divider: nat,
    t: nat,
) -> Seq<NetState>
    decreases t,
{
    if t == 0 {
        Seq::new(net_count, |n: int| NetState::Invalid)
    } else {
        spec_step(
            components,
            spec_states(components, net_count, clock_divider, (t - 1) as nat),
            spec_logical_clock((t - 1) as nat, clock_divider),
        )
    }
}

/// Whether some net is in shoot-through.
pub open spec fn has_shoot_through(states: Seq<NetState>) -> bool {
    exists|n: int| 0 <= n < states.len() && states[n] == NetState::ShootThrough
}

/// The trace of one net over `duration` ticks: the seed entry followed by
/// the net's state after each tick.
pub open spec fn spec_trace(
    components: Seq<ComponentModel>,
    net_count: nat,
    clock_divider: nat,
    net: Net,
    duration: nat,
) -> Seq<NetState> {
    Seq::new(
        duration + 1,
        |k: int| spec_states(components, net_count, clock_divider, k as nat)[net as int],
    )
}

/// Whether some net is in shoot-through once tick `tick` has run.
pub open spec fn shoot_through_after(
    components: Seq<ComponentModel>,
    net_count: nat,
    clock_divider: nat,
    tick: nat,
) -> bool {
    has_shoot_through(spec_states(components, net_count, clock_divider, tick + 1))
}

/// Whether `first` names the first of `duration` ticks after which some net
/// is in shoot-through, or is `None` when there is no such tick.
pub open spec fn is_first_shoot_through(
    components: Seq<ComponentModel>,
    net_count: nat,
    clock_divider: nat,
    duration: nat,
    first: Option<u32>,
) -> bool {
    match first {
        Some(t) => {
            &&& t < duration
            &&& shoot_through_after(components, net_count, clock_divider, t as nat)
            &&& forall|u: nat|
                u < t ==> !#[trigger] shoot_through_after(components, net_count, clock_divider, u)
        },
        None => forall|u: nat|
            u < duration ==> !#[trigger] shoot_through_after(
                components,
                net_count,
                clock_divider,
                u,
            ),
    }
}

/// A vector of `len` copies of `Invalid`.
fn invalid_states(len: usize) -> (states: Vec<NetState>)
    ensures
        states@ == Seq::new(len as nat, |n: int| NetState::Invalid),
{
    let mut states: Vec<NetState> = Vec::new();
    while states.len() < len
        invariant
            states.len() <= len,
            forall|n: int| 0 <= n < states.len() ==> states@[n] == NetState::Invalid,
        decreases len - states.len(),
    {
        states.push(NetState::Invalid);
    }
    states
}

/// Accumulates this tick's drive flags for every net.
///
/// On return `drives` holds one entry per net: the union of what the
/// components contribute to that net, given the states of the previous tick.
pub fn accumulate_drives(
    components: &Vec<Component>,
    net_states: &Vec<NetState>,
    logical_clock: u32,
    drives: &mut Vec<Drive>,
)
    requires
        net_states.len() <= u32::MAX,
        all_wf(models(components@), net_states.len() as u32),
    ensures
        final(drives).len() == net_states.len(),
        forall|n: int|
            0 <= n < net_states.len() ==> final(drives)@[n] == spec_net_drive(
                models(components@),
                net_states@,
                logical_clock as nat,
                n as Net,
            ),
{
    let net_count = net_states.len();
    let ghost all = models(components@);
    drives.clear();
    while drives.len() < net_count
        invariant
            drives.len() <= net_count,
            forall|n: int| 0 <= n < drives.len() ==> drives@[n] == DRIVE_HIGH_Z,
        decreases net_count - drives.len(),
    {
        drives.push(DRIVE_HIGH_Z);
    }
    let mut k: usize = 0;
    while k < components.len()
        invariant
            k <= components.len(),
            net_count == net_states.len(),
            net_count <= u32::MAX,
            all == models(components@),
            all_wf(all, net_count as u32),
            drives.len() == net_count,
            forall|n: int|
                0 <= n < net_count ==> drives@[n] == spec_net_drive(
                    all.take(k as int),
                    net_states@,
                    logical_clock as nat,
                    n as Net,
                ),
        decreases components.len() - k,
    {
        let component = &components[k];
        assert(all[k as int] == component@);
        assert(all[k as int].wf(net_count as u32));
        assert(all.take(k + 1).drop_last() == all.take(k as int));
        assert(all.take(k + 1).last() == component@);
        match component.output_net() {
            Some(net) => {
                let contribution = component.contribution(net_states, logical_clock);
                let merged = merge_drives(drives[net as usize], contribution);
                drives[net as usize] = merged;
            },
            None => {},
        }
        k += 1;
    }
    assert(all.take(k as int) == all);
}

/// Runs one tick: accumulates the drives, resolves each net's drive and
/// moves every net to its next state. Returns whether some net is in
/// shoot-through afterwards.
pub fn step(
    components: &Vec<Component>,
    net_states: &mut Vec<NetState>,
    drives: &mut Vec<Drive>,
    logical_clock: u32,
) -> (shoot_through: bool)
    requires
        old(net_states).len() <= u32::MAX,
        all_wf(models(components@), old(net_states).len() as u32),
    ensures
        final(net_states)@ == spec_step(
            models(components@),
            old(net_states)@,
            logical_clock as nat,
        ),
        final(drives).len() == old(net_states).len(),
        shoot_through == has_shoot_through(final(net_states)@),
{
    accumulate_drives(components, net_states, logical_clock, drives);
    let net_count = net_states.len();
    let ghost before = net_states@;
    let ghost after = spec_step(models(components@), before, logical_clock as nat);
    let mut shoot_through = false;
    let mut n: usize = 0;
    while n < net_count
        invariant
            n <= net_count,
            net_count == before.len(),
            net_count <= u32::MAX,
            net_states.len() == net_count,
            drives.len() == net_count,
            after == spec_step(models(components@), before, logical_clock as nat),
            forall|m: int|
                0 <= m < net_count ==> drives@[m] == spec_net_drive(
                    models(components@),
                    before,
                    logical_clock as nat,
                    m as Net,
                ),
            forall|m: int| 0 <= m < n ==> net_states@[m] == after[m],
            forall|m: int| n <= m < net_count ==> net_states@[m] == before[m],
            shoot_through == (exists|m: int| 0 <= m < n && after[m] == NetState::ShootThrough),
        decreases net_count - n,
    {
        let new_state = next_state(net_states[n], resolve_drive(drives[n]));
        assert(new_state == after[n as int]);
        net_states[n] = new_state;
        match new_state {
            NetState::ShootThrough => {
                shoot_through = true;
            },
            _ => {},
        }
        n += 1;
    }
    assert(net_states@ == after);
    shoot_through
}

/// Whether every traced net exists.
pub open spec fn traced_nets_exist(nets_to_trace: Seq<Net>, net_count: u32) -> bool {
    forall|i: int| 0 <= i < nets_to_trace.len() ==> nets_to_trace[i] < net_count
}

/// Whether `traces` holds, for each traced net in the order given, that
/// net's trace over `duration` ticks.
pub open spec fn traces_match(
    traces: Seq<Vec<NetState>>,
    components: Seq<ComponentModel>,
    nets_to_trace: Seq<Net>,
    net_count: nat,
    clock_divider: nat,
    duration: nat,
) -> bool {
    &&& traces.len() == nets_to_trace.len()
    &&& forall|i: int|
        0 <= i < traces.len() ==> (#[trigger] traces[i])@ == spec_trace(
            components,
            net_count,
            clock_divider,
            nets_to_trace[i],
            duration,
        )
}

/// One trace per traced net, each seeded with one `Invalid` entry.
fn seed_traces(count: usize) -> (traces: Vec<Vec<NetState>>)
    ensures
        traces.len() == count,
        forall|i: int| 0 <= i < count ==> (#[trigger] traces@[i])@ == seq![NetState::Invalid],
{
    let mut traces: Vec<Vec<NetState>> = Vec::new();
    while traces.len() < count
        invariant
            traces.len() <= count,
            forall|i: int|
                0 <= i < traces.len() ==> (#[trigger] traces@[i])@ == seq![NetState::Invalid],
        decreases count - traces.len(),
    {
        let mut trace: Vec<NetState> = Vec::new();
        trace.push(NetState::Invalid);
        assert(trace@ == seq![NetState::Invalid]);
        traces.push(trace);
    }
    traces
}

/// Appends the current state of every traced net to its trace.
fn record_traces(traces: &mut Vec<Vec<NetState>>, nets_to_trace: &[Net], net_states: &Vec<NetState>)
    requires
        old(traces).len() == nets_to_trace.len(),
        forall|i: int| 0 <= i < nets_to_trace.len() ==> nets_to_trace[i] < net_states.len(),
    ensures
        final(traces).len() == old(traces).len(),
        forall|i: int|
            0 <= i < nets_to_trace.len() ==> (#[trigger] final(traces)@[i])@ == old(traces)@[i]@.push(
                net_states@[nets_to_trace[i] as int],
            ),
{
    let mut i: usize = 0;
    while i < nets_to_trace.len()
        invariant
            i <= nets_to_trace.len(),
            traces.len() == nets_to_trace.len(),
            traces.len() == old(traces).len(),
            forall|j: int| 0 <= j < nets_to_trace.len() ==> nets_to_trace[j] < net_states.len(),
            forall|j: int|
                0 <= j < i ==> (#[trigger] traces@[j])@ == old(traces)@[j]@.push(
                    net_states@[nets_to_trace[j] as int],
                ),
            forall|j: int| i <= j < traces.len() ==> traces@[j] == old(traces)@[j],
        decreases nets_to_trace.len() - i,
    {
        let state = net_states[nets_to_trace[i] as usize];
        traces[i].push(state);
        i += 1;
    }
}

/// Runs `duration` ticks over a well-formed netlist and records the traced
/// nets.
///
/// Returns one trace per traced net, in the order given, each holding the
/// seed entry and the net's state after every tick, together with the first
/// tick after which some net was in shoot-through, if there was one.
pub fn simulate(
    components: &Vec<Component>,
    nets_to_trace: &[Net],
    net_count: u32,
    duration: u32,
    clock_divider: u32,
) -> (run: (Vec<Vec<NetState>>, Option<u32>))
    requires
        clock_divider > 0,
        all_wf(models(components@), net_count),
        traced_nets_exist(nets_to_trace@, net_count),
    ensures
        traces_match(
            run.0@,
            models(components@),
            nets_to_trace@,
            net_count as nat,
            clock_divider as nat,
            duration as nat,
        ),
        is_first_shoot_through(
            models(components@),
            net_count as nat,
            clock_divider as nat,
            duration as nat,
            run.1,
        ),
{
    let ghost all = models(components@);
    let mut net_states = invalid_states(net_count as usize);
    let mut drives: Vec<Drive> = Vec::new();
    let mut traces = seed_traces(nets_to_trace.len());
    let mut first: Option<u32> = None;
    proof {
        assert forall|i: int| 0 <= i < traces.len() implies (#[trigger] traces@[i])@ == spec_trace(
            all,
            net_count as nat,
            clock_divider as nat,
            nets_to_trace@[i],
            0,
        ) by {
            assert(net_states@[nets_to_trace@[i] as int] == NetState::Invalid);
        }
    }
    let mut t: u32 = 0;
    while t < duration
        invariant
            t <= duration,
            clock_divider > 0,
            all == models(components@),
            all_wf(all, net_count),
            traced_nets_exist(nets_to_trace@, net_count),
            net_states.len() == net_count,
            net_states@ == spec_states(all, net_count as nat, clock_divider as nat, t as nat),
            traces_match(
                traces@,
                all,
                nets_to_trace@,
                net_count as nat,
                clock_divider as nat,
                t as nat,
            ),
            is_first_shoot_through(all, net_count as nat, clock_divider as nat, t as nat, first),
        decreases duration - t,
    {
        let logical_clock = t / clock_divider;
        let ghost before = traces@;
        let shoot_through = step(components, &mut net_states, &mut drives, logical_clock);
        assert(net_states@ == spec_states(
            all,
            net_count as nat,
            clock_divider as nat,
            (t + 1) as nat,
        ));
        if first.is_none() && shoot_through {
            first = Some(t);
        }
        record_traces(&mut traces, nets_to_trace, &net_states);
        proof {
            assert forall|i: int| 0 <= i < traces.len() implies (#[trigger] traces@[i])@
                == spec_trace(
                all,
                net_count as nat,
                clock_divider as nat,
                nets_to_trace@[i],
                (t + 1) as nat,
            ) by {
                assert(before[i]@ == spec_trace(
                    all,
                    net_count as nat,
                    clock_divider as nat,
                    nets_to_trace@[i],
                    t as nat,
                ));
            }
        }
        t += 1;
    }
    (traces, first)
}

} // verus!
