//! Laws of the simulation, stated over its mathematical model and proved.

use crate::component::{spec_level_drive, ComponentModel, SignalLevel};
use crate::drive::{
    has_flag, has_strong, has_strong_high, has_strong_low, has_weak_high, has_weak_low,
    lemma_merge_flag, lemma_named_drives, spec_resolve_drive, Drive, DriveType,
    DRIVE_STRONG_HIGH, DRIVE_STRONG_LOW, DRIVE_WEAK_HIGH, DRIVE_WEAK_LOW,
};
use crate::decode::spec_decode;
use crate::net::{Net, NetState};
use crate::run::{
    is_outcome, is_run_outcome, spec_shoot_through_code, spec_traces, SimulationError,
    SimulationOutput,
};
use crate::simulate::{
    has_shoot_through, is_first_shoot_through, shoot_through_after, spec_logical_clock,
    spec_net_drive, spec_states, spec_step,
};
use vstd::prelude::*;
use vstd::seq_lib::to_multiset_contains;

verus! {

/// Whether the component puts `flag` on `net` during a tick that starts in
/// `states`.
pub open spec fn drives_flag(
    component: ComponentModel,
    states: Seq<NetState>,
    logical_clock: nat,
    net: Net,
    flag: Drive,
) -> bool {
    component.output_net() == Some(net) && has_flag(
        component.contribution(states, logical_clock),
        flag,
    )
}

/// Whether some component of the list puts `flag` on `net`.
pub open spec fn some_component_drives(
    components: Seq<ComponentModel>,
    states: Seq<NetState>,
    logical_clock: nat,
    net: Net,
    flag: Drive,
) -> bool {
    exists|i: int|
        0 <= i < components.len() && drives_flag(
            #[trigger] components[i],
            states,
            logical_clock,
            net,
            flag,
        )
}

/// The flags accumulated on `net` during tick `t` of a run.
pub open spec fn net_drive_at(
    components: Seq<ComponentModel>,
    net_count: nat,
    clock_divider: nat,
    t: nat,
    net: Net,
) -> Drive {
    spec_net_drive(
        components,
        spec_states(components, net_count, clock_divider, t),
        spec_logical_clock(t, clock_divider),
        net,
    )
}

/// Whether during the first `duration` ticks no net ever sees a conflict:
/// never both strong flags at once, and never both weak flags at once on a
/// net that no strong flag decides.
pub open spec fn conflict_free(
    components: Seq<ComponentModel>,
    net_count: nat,
    clock_divider: nat,
    duration: nat,
) -> bool {
    forall|t: nat, net: Net|
        t < duration && net < net_count ==> {
            let d = #[trigger] net_drive_at(components, net_count, clock_divider, t, net);
            &&& !(has_strong_low(d) && has_strong_high(d))
            &&& (has_strong(d) || !(has_weak_low(d) && has_weak_high(d)))
        }
}

/// A flag is on a net exactly when some component puts it there. The
/// accumulated flags therefore depend on which components drive the net and
/// not on the order in which they are visited.
pub proof fn lemma_net_drive_flag(
    components: Seq<ComponentModel>,
    states: Seq<NetState>,
    logical_clock: nat,
    net: Net,
    flag: Drive,
)
    ensures
        has_flag(spec_net_drive(components, states, logical_clock, net), flag)
            == some_component_drives(components, states, logical_clock, net, flag),
    decreases components.len(),
{
    if components.len() == 0 {
        lemma_merge_flag(0, 0, flag);
    } else {
        let front = components.drop_last();
        let last = components.last();
        let rest = spec_net_drive(front, states, logical_clock, net);
        lemma_net_drive_flag(front, states, logical_clock, net, flag);
        lemma_merge_flag(rest, last.contribution(states, logical_clock), flag);
        if some_component_drives(front, states, logical_clock, net, flag) {
            let i = choose|i: int|
                0 <= i < front.len() && drives_flag(
                    #[trigger] front[i],
                    states,
                    logical_clock,
                    net,
                    flag,
                );
            assert(components[i] == front[i]);
        }
        if drives_flag(last, states, logical_clock, net, flag) {
            assert(components[components.len() - 1] == last);
        }
        if some_component_drives(components, states, logical_clock, net, flag) {
            let i = choose|i: int|
                0 <= i < components.len() && drives_flag(
                    #[trigger] components[i],
                    states,
                    logical_clock,
                    net,
                    flag,
                );
            if i < front.len() {
                assert(front[i] == components[i]);
            }
        }
    }
}

/// The resolved drive of a net is the same for two component lists that are
/// rearrangements of one another, and so is the whole tick.
pub proof fn lemma_step_order_independent(
    components: Seq<ComponentModel>,
    rearranged: Seq<ComponentModel>,
    states: Seq<NetState>,
    logical_clock: nat,
)
    requires
        components.to_multiset() == rearranged.to_multiset(),
    ensures
        forall|net: Net|
            spec_resolve_drive(#[trigger] spec_net_drive(components, states, logical_clock, net))
                == spec_resolve_drive(spec_net_drive(rearranged, states, logical_clock, net)),
        spec_step(components, states, logical_clock) == spec_step(
            rearranged,
            states,
            logical_clock,
        ),
{
    assert forall|net: Net, flag: Drive|
        has_flag(#[trigger] spec_net_drive(components, states, logical_clock, net), flag)
            == #[trigger] has_flag(
            spec_net_drive(rearranged, states, logical_clock, net),
            flag,
        ) by {
        lemma_net_drive_flag(components, states, logical_clock, net, flag);
        lemma_net_drive_flag(rearranged, states, logical_clock, net, flag);
        if some_component_drives(components, states, logical_clock, net, flag) {
            lemma_same_members_same_flag(components, rearranged, states, logical_clock, net, flag);
        }
        if some_component_drives(rearranged, states, logical_clock, net, flag) {
            lemma_same_members_same_flag(rearranged, components, states, logical_clock, net, flag);
        }
    }
    assert forall|net: Net|
        spec_resolve_drive(#[trigger] spec_net_drive(components, states, logical_clock, net))
            == spec_resolve_drive(spec_net_drive(rearranged, states, logical_clock, net)) by {
        let a = spec_net_drive(components, states, logical_clock, net);
        let b = spec_net_drive(rearranged, states, logical_clock, net);
        assert(has_flag(a, DRIVE_WEAK_LOW) == has_flag(b, DRIVE_WEAK_LOW));
        assert(has_flag(a, DRIVE_WEAK_HIGH) == has_flag(b, DRIVE_WEAK_HIGH));
        assert(has_flag(a, DRIVE_STRONG_LOW) == has_flag(b, DRIVE_STRONG_LOW));
        assert(has_flag(a, DRIVE_STRONG_HIGH) == has_flag(b, DRIVE_STRONG_HIGH));
    }
    assert(spec_step(components, states, logical_clock) =~= spec_step(
        rearranged,
        states,
        logical_clock,
    ));
}

/// What one list puts on a net, a list with the same members puts there too.
proof fn lemma_same_members_same_flag(
    components: Seq<ComponentModel>,
    rearranged: Seq<ComponentModel>,
    states: Seq<NetState>,
    logical_clock: nat,
    net: Net,
    flag: Drive,
)
    requires
        components.to_multiset() == rearranged.to_multiset(),
        some_component_drives(components, states, logical_clock, net, flag),
    ensures
        some_component_drives(rearranged, states, logical_clock, net, flag),
{
    let i = choose|i: int|
        0 <= i < components.len() && drives_flag(
            #[trigger] components[i],
            states,
            logical_clock,
            net,
            flag,
        );
    let member = components[i];
    assert(components.contains(member));
    to_multiset_contains(components, member);
    to_multiset_contains(rearranged, member);
    let j = choose|j: int| 0 <= j < rearranged.len() && rearranged[j] == member;
    assert(drives_flag(rearranged[j], states, logical_clock, net, flag));
}

/// A run always has one state per net.
pub proof fn lemma_states_len(
    components: Seq<ComponentModel>,
    net_count: nat,
    clock_divider: nat,
    t: nat,
)
    ensures
        spec_states(components, net_count, clock_divider, t).len() == net_count,
    decreases t,
{
    if t > 0 {
        lemma_states_len(components, net_count, clock_divider, (t - 1) as nat);
    }
}

/// The states of a run are the same for two component lists that are
/// rearrangements of one another.
pub proof fn lemma_states_order_independent(
    components: Seq<ComponentModel>,
    rearranged: Seq<ComponentModel>,
    net_count: nat,
    clock_divider: nat,
    t: nat,
)
    requires
        components.to_multiset() == rearranged.to_multiset(),
    ensures
        spec_states(components, net_count, clock_divider, t) == spec_states(
            rearranged,
            net_count,
            clock_divider,
            t,
        ),
    decreases t,
{
    if t > 0 {
        lemma_states_order_independent(
            components,
            rearranged,
            net_count,
            clock_divider,
            (t - 1) as nat,
        );
        lemma_step_order_independent(
            components,
            rearranged,
            spec_states(components, net_count, clock_divider, (t - 1) as nat),
            spec_logical_clock((t - 1) as nat, clock_divider),
        );
    }
}

/// Nothing observable depends on the order of the components: what a run
/// over a component list returns, a run over any rearrangement of the list
/// returns too.
pub proof fn lemma_output_order_independent(
    components: Seq<ComponentModel>,
    rearranged: Seq<ComponentModel>,
    nets_to_trace: Seq<Net>,
    net_count: u32,
    duration: u32,
    clock_divider: u32,
    output: SimulationOutput,
)
    requires
        components.to_multiset() == rearranged.to_multiset(),
        is_run_outcome(
            components,
            nets_to_trace,
            net_count,
            duration,
            clock_divider,
            Ok(output),
        ),
    ensures
        is_run_outcome(rearranged, nets_to_trace, net_count, duration, clock_divider, Ok(output)),
{
    assert forall|j: int| 0 <= j < rearranged.len() implies (#[trigger] rearranged[j]).wf(
        net_count,
    ) by {
        let member = rearranged[j];
        assert(rearranged.contains(member));
        to_multiset_contains(rearranged, member);
        to_multiset_contains(components, member);
        let i = choose|i: int| 0 <= i < components.len() && components[i] == member;
        assert(components[i].wf(net_count));
    }
    assert forall|t: nat|
        spec_states(components, net_count as nat, clock_divider as nat, t) == #[trigger] spec_states(
            rearranged,
            net_count as nat,
            clock_divider as nat,
            t,
        ) by {
        lemma_states_order_independent(
            components,
            rearranged,
            net_count as nat,
            clock_divider as nat,
            t,
        );
    }
    let ours = spec_traces(
        components,
        nets_to_trace,
        net_count as nat,
        clock_divider as nat,
        duration as nat,
    );
    let theirs = spec_traces(
        rearranged,
        nets_to_trace,
        net_count as nat,
        clock_divider as nat,
        duration as nat,
    );
    assert forall|k: int| 0 <= k < ours.len() implies ours[k] == theirs[k] by {
        assert(ours[k] =~= theirs[k]);
    }
    assert(ours =~= theirs);
    assert forall|u: nat|
        shoot_through_after(components, net_count as nat, clock_divider as nat, u)
            == #[trigger] shoot_through_after(
            rearranged,
            net_count as nat,
            clock_divider as nat,
            u,
        ) by {
        assert(spec_states(components, net_count as nat, clock_divider as nat, u + 1)
            == spec_states(rearranged, net_count as nat, clock_divider as nat, u + 1));
    }
}

/// Shoot-through is sticky: a net that is in shoot-through after `t` ticks
/// is in shoot-through after any later number of ticks.
pub proof fn lemma_shoot_through_sticky(
    components: Seq<ComponentModel>,
    net_count: u32,
    clock_divider: nat,
    net: Net,
    t: nat,
    later: nat,
)
    requires
        net < net_count,
        t <= later,
        spec_states(components, net_count as nat, clock_divider, t)[net as int]
            == NetState::ShootThrough,
    ensures
        spec_states(components, net_count as nat, clock_divider, later)[net as int]
            == NetState::ShootThrough,
    decreases later,
{
    if later > t {
        lemma_shoot_through_sticky(components, net_count, clock_divider, net, t, (later - 1) as nat);
        lemma_states_len(components, net_count as nat, clock_divider, (later - 1) as nat);
    }
}

/// A net driven only by pull-down resistors is `Low` after the first tick
/// and after every tick that follows.
pub proof fn lemma_pull_down_stabilizes(
    components: Seq<ComponentModel>,
    net_count: u32,
    clock_divider: nat,
    net: Net,
    t: nat,
)
    requires
        net < net_count,
        t >= 1,
        exists|i: int|
            0 <= i < components.len() && #[trigger] components[i] == (ComponentModel::PullResistor {
                is_pull_down: true,
                net,
            }),
        forall|i: int|
            0 <= i < components.len() && (#[trigger] components[i]).output_net() == Some(net)
                ==> components[i] == (ComponentModel::PullResistor { is_pull_down: true, net }),
    ensures
        spec_states(components, net_count as nat, clock_divider, t)[net as int] == NetState::Low,
    decreases t,
{
    let before = spec_states(components, net_count as nat, clock_divider, (t - 1) as nat);
    let clock = spec_logical_clock((t - 1) as nat, clock_divider);
    let d = spec_net_drive(components, before, clock, net);
    lemma_states_len(components, net_count as nat, clock_divider, (t - 1) as nat);
    lemma_named_drives();
    lemma_net_drive_flag(components, before, clock, net, DRIVE_WEAK_LOW);
    lemma_net_drive_flag(components, before, clock, net, DRIVE_WEAK_HIGH);
    lemma_net_drive_flag(components, before, clock, net, DRIVE_STRONG_LOW);
    lemma_net_drive_flag(components, before, clock, net, DRIVE_STRONG_HIGH);
    let i = choose|i: int|
        0 <= i < components.len() && #[trigger] components[i] == (ComponentModel::PullResistor {
            is_pull_down: true,
            net,
        });
    assert(drives_flag(components[i], before, clock, net, DRIVE_WEAK_LOW));
    assert(spec_resolve_drive(d) == DriveType::Low);
    if t > 1 {
        lemma_pull_down_stabilizes(components, net_count, clock_divider, net, (t - 1) as nat);
    }
}

/// A net that a pull-down and a pull-up resistor drive, and nothing but
/// pull resistors, is in shoot-through after the first tick and after every
/// tick that follows.
pub proof fn lemma_opposed_pulls_shoot_through(
    components: Seq<ComponentModel>,
    net_count: u32,
    clock_divider: nat,
    net: Net,
    t: nat,
)
    requires
        net < net_count,
        t >= 1,
        exists|i: int|
            0 <= i < components.len() && #[trigger] components[i] == (ComponentModel::PullResistor {
                is_pull_down: true,
                net,
            }),
        exists|i: int|
            0 <= i < components.len() && #[trigger] components[i] == (ComponentModel::PullResistor {
                is_pull_down: false,
                net,
            }),
        forall|i: int|
            0 <= i < components.len() && (#[trigger] components[i]).output_net() == Some(net)
                ==> components[i] is PullResistor,
    ensures
        spec_states(components, net_count as nat, clock_divider, t)[net as int]
            == NetState::ShootThrough,
{
    let before = spec_states(components, net_count as nat, clock_divider, (t - 1) as nat);
    let clock = spec_logical_clock((t - 1) as nat, clock_divider);
    let d = spec_net_drive(components, before, clock, net);
    lemma_states_len(components, net_count as nat, clock_divider, (t - 1) as nat);
    lemma_named_drives();
    lemma_net_drive_flag(components, before, clock, net, DRIVE_WEAK_LOW);
    lemma_net_drive_flag(components, before, clock, net, DRIVE_WEAK_HIGH);
    lemma_net_drive_flag(components, before, clock, net, DRIVE_STRONG_LOW);
    lemma_net_drive_flag(components, before, clock, net, DRIVE_STRONG_HIGH);
    let down = choose|i: int|
        0 <= i < components.len() && #[trigger] components[i] == (ComponentModel::PullResistor {
            is_pull_down: true,
            net,
        });
    let up = choose|i: int|
        0 <= i < components.len() && #[trigger] components[i] == (ComponentModel::PullResistor {
            is_pull_down: false,
            net,
        });
    assert(drives_flag(components[down], before, clock, net, DRIVE_WEAK_LOW));
    assert(drives_flag(components[up], before, clock, net, DRIVE_WEAK_HIGH));
    assert(spec_resolve_drive(d) == DriveType::ShootThrough);
}

/// An n-type transistor whose gate is `High` and whose source is `Low`
/// resolves its drain's drive to low, whatever weak flags are on the drain,
/// as long as nothing drives the drain strongly high.
pub proof fn lemma_conducting_nfet_resolves_low(
    components: Seq<ComponentModel>,
    states: Seq<NetState>,
    logical_clock: nat,
    gate: Net,
    drain: Net,
    source: Net,
)
    requires
        exists|i: int|
            0 <= i < components.len() && #[trigger] components[i] == (ComponentModel::Transistor {
                is_pfet: false,
                gate,
                drain,
                source,
            }),
        gate < states.len(),
        source < states.len(),
        states[gate as int] == NetState::High,
        states[source as int] == NetState::Low,
        !some_component_drives(components, states, logical_clock, drain, DRIVE_STRONG_HIGH),
    ensures
        spec_resolve_drive(spec_net_drive(components, states, logical_clock, drain))
            == DriveType::Low,
{
    lemma_named_drives();
    lemma_net_drive_flag(components, states, logical_clock, drain, DRIVE_STRONG_LOW);
    lemma_net_drive_flag(components, states, logical_clock, drain, DRIVE_STRONG_HIGH);
    let i = choose|i: int|
        0 <= i < components.len() && #[trigger] components[i] == (ComponentModel::Transistor {
            is_pfet: false,
            gate,
            drain,
            source,
        });
    assert(drives_flag(components[i], states, logical_clock, drain, DRIVE_STRONG_LOW));
}

/// A p-type transistor whose gate is `Low` and whose source is `High`
/// resolves its drain's drive to high, whatever weak flags are on the drain,
/// as long as nothing drives the drain strongly low.
pub proof fn lemma_conducting_pfet_resolves_high(
    components: Seq<ComponentModel>,
    states: Seq<NetState>,
    logical_clock: nat,
    gate: Net,
    drain: Net,
    source: Net,
)
    requires
        exists|i: int|
            0 <= i < components.len() && #[trigger] components[i] == (ComponentModel::Transistor {
                is_pfet: true,
                gate,
                drain,
                source,
            }),
        gate < states.len(),
        source < states.len(),
        states[gate as int] == NetState::Low,
        states[source as int] == NetState::High,
        !some_component_drives(components, states, logical_clock, drain, DRIVE_STRONG_LOW),
    ensures
        spec_resolve_drive(spec_net_drive(components, states, logical_clock, drain))
            == DriveType::High,
{
    lemma_named_drives();
    lemma_net_drive_flag(components, states, logical_clock, drain, DRIVE_STRONG_LOW);
    lemma_net_drive_flag(components, states, logical_clock, drain, DRIVE_STRONG_HIGH);
    let i = choose|i: int|
        0 <= i < components.len() && #[trigger] components[i] == (ComponentModel::Transistor {
            is_pfet: true,
            gate,
            drain,
            source,
        });
    assert(drives_flag(components[i], states, logical_clock, drain, DRIVE_STRONG_HIGH));
}

/// Transistor gating: an n-type transistor whose gate is `High` and whose
/// source is `Low` brings its drain to `Low` within the tick, as long as
/// nothing drives the drain strongly high and the drain was `Invalid` or
/// `Low` before. (A drain that was `High` passes through `Invalid` first,
/// and one in shoot-through stays there.)
pub proof fn lemma_transistor_gating(
    components: Seq<ComponentModel>,
    states: Seq<NetState>,
    logical_clock: nat,
    gate: Net,
    drain: Net,
    source: Net,
)
    requires
        exists|i: int|
            0 <= i < components.len() && #[trigger] components[i] == (ComponentModel::Transistor {
                is_pfet: false,
                gate,
                drain,
                source,
            }),
        gate < states.len(),
        drain < states.len(),
        source < states.len(),
        states[gate as int] == NetState::High,
        states[source as int] == NetState::Low,
        !some_component_drives(components, states, logical_clock, drain, DRIVE_STRONG_HIGH),
        states[drain as int] == NetState::Invalid || states[drain as int] == NetState::Low,
    ensures
        spec_step(components, states, logical_clock)[drain as int] == NetState::Low,
{
    lemma_conducting_nfet_resolves_low(components, states, logical_clock, gate, drain, source);
}

/// Signal clamping: a pattern that does not repeat plays its last element
/// at every logical clock from `len - 1` on.
pub proof fn lemma_signal_clamping(
    pattern: Seq<SignalLevel>,
    net: Net,
    states: Seq<NetState>,
    logical_clock: nat,
)
    requires
        pattern.len() > 0,
        logical_clock >= pattern.len() - 1,
    ensures
        (ComponentModel::SignalSource { pattern, repeat: false, net }).contribution(
            states,
            logical_clock,
        ) == spec_level_drive(pattern.last()),
{
}

/// Signal wraparound: at tick `t` a repeating pattern of length `len` plays
/// element `(t / clock_divider) % len`.
pub proof fn lemma_signal_wraparound(
    pattern: Seq<SignalLevel>,
    net: Net,
    states: Seq<NetState>,
    t: nat,
    clock_divider: nat,
)
    requires
        pattern.len() > 0,
        clock_divider > 0,
    ensures
        0 <= (t / clock_divider) % pattern.len() < pattern.len(),
        (ComponentModel::SignalSource { pattern, repeat: true, net }).contribution(
            states,
            spec_logical_clock(t, clock_divider),
        ) == spec_level_drive(pattern[((t / clock_divider) % pattern.len()) as int]),
{
}

/// In a run without conflicts no net is in shoot-through after any of the
/// first `duration` ticks.
pub proof fn lemma_conflict_free_states(
    components: Seq<ComponentModel>,
    net_count: u32,
    clock_divider: nat,
    duration: nat,
    t: nat,
)
    requires
        conflict_free(components, net_count as nat, clock_divider, duration),
        t <= duration,
    ensures
        !has_shoot_through(spec_states(components, net_count as nat, clock_divider, t)),
    decreases t,
{
    let after = spec_states(components, net_count as nat, clock_divider, t);
    lemma_states_len(components, net_count as nat, clock_divider, t);
    if t > 0 {
        let before = spec_states(components, net_count as nat, clock_divider, (t - 1) as nat);
        lemma_conflict_free_states(components, net_count, clock_divider, duration, (t - 1) as nat);
        lemma_states_len(components, net_count as nat, clock_divider, (t - 1) as nat);
        assert forall|n: int| 0 <= n < after.len() implies after[n] != NetState::ShootThrough by {
            let d = net_drive_at(
                components,
                net_count as nat,
                clock_divider,
                (t - 1) as nat,
                n as Net,
            );
            assert(spec_resolve_drive(d) != DriveType::ShootThrough);
            assert(before[n] != NetState::ShootThrough);
        }
    }
}

/// In a run without conflicts there is no first shoot-through tick, however
/// long the run: the reported code is -1.
pub proof fn lemma_conflict_free_reports_none(
    components: Seq<ComponentModel>,
    net_count: u32,
    clock_divider: nat,
    duration: nat,
    first: Option<u32>,
)
    requires
        conflict_free(components, net_count as nat, clock_divider, duration),
        is_first_shoot_through(components, net_count as nat, clock_divider, duration, first),
    ensures
        first is None,
        spec_shoot_through_code(first) == -1,
{
    if let Some(t) = first {
        lemma_conflict_free_states(
            components,
            net_count,
            clock_divider,
            duration,
            (t + 1) as nat,
        );
        assert(shoot_through_after(components, net_count as nat, clock_divider, t as nat));
    }
}

/// At most one value is the first shoot-through tick of a run.
pub proof fn lemma_first_shoot_through_unique(
    components: Seq<ComponentModel>,
    net_count: nat,
    clock_divider: nat,
    duration: nat,
    a: Option<u32>,
    b: Option<u32>,
)
    requires
        is_first_shoot_through(components, net_count, clock_divider, duration, a),
        is_first_shoot_through(components, net_count, clock_divider, duration, b),
    ensures
        a == b,
{
    match (a, b) {
        (Some(s), Some(t)) => {
            assert(shoot_through_after(components, net_count, clock_divider, s as nat));
            assert(shoot_through_after(components, net_count, clock_divider, t as nat));
        },
        (Some(s), None) => {
            assert(shoot_through_after(components, net_count, clock_divider, s as nat));
        },
        (None, Some(t)) => {
            assert(shoot_through_after(components, net_count, clock_divider, t as nat));
        },
        (None, None) => {},
    }
}

/// Determinism of a run: the same component list and arguments allow one
/// outcome only.
pub proof fn lemma_run_deterministic(
    components: Seq<ComponentModel>,
    nets_to_trace: Seq<Net>,
    net_count: u32,
    duration: u32,
    clock_divider: u32,
    a: Result<SimulationOutput, SimulationError>,
    b: Result<SimulationOutput, SimulationError>,
)
    requires
        is_run_outcome(components, nets_to_trace, net_count, duration, clock_divider, a),
        is_run_outcome(components, nets_to_trace, net_count, duration, clock_divider, b),
    ensures
        a == b,
{
    match (a, b) {
        (Ok(x), Ok(y)) => {
            lemma_first_shoot_through_unique(
                components,
                net_count as nat,
                clock_divider as nat,
                duration as nat,
                x.first_shoot_through,
                y.first_shoot_through,
            );
        },
        _ => {},
    }
}

/// Determinism: two calls with the same description, traced nets, net
/// count, duration and clock divider return the same bytes, the same index
/// table and the same first shoot-through, or fail in the same way.
pub proof fn lemma_simulation_deterministic(
    description: Seq<u32>,
    nets_to_trace: Seq<Net>,
    net_count: u32,
    duration: u32,
    clock_divider: u32,
    a: Result<SimulationOutput, SimulationError>,
    b: Result<SimulationOutput, SimulationError>,
)
    requires
        is_outcome(description, nets_to_trace, net_count, duration, clock_divider, a),
        is_outcome(description, nets_to_trace, net_count, duration, clock_divider, b),
    ensures
        a == b,
{
    match spec_decode(description) {
        Ok(components) => {
            lemma_run_deterministic(
                components,
                nets_to_trace,
                net_count,
                duration,
                clock_divider,
                a,
                b,
            );
        },
        Err(_) => {},
    }
}

} // verus!
