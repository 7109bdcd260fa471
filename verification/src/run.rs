//! The simulation call: decode, check, run, pack.
//!
//! A call owns everything it allocates and hands its whole result back as
//! one value, so no two calls can see each other's results.

use crate::component::{all_wf, models, Component, ComponentModel};
use crate::decode::{decode_description, spec_decode, DecodeError};
use crate::net::{spec_state_byte, Net, NetState};
use crate::pack::{
    is_index_table, lemma_pack_len, lemma_pack_slice, lemma_uniform_total_len, pack_traces,
    spec_offset, spec_pack_bytes, spec_trace_bytes, trace_views, TraceIndex,
};
use crate::simulate::{
    is_first_shoot_through, simulate, spec_states, spec_trace, traced_nets_exist,
};
use vstd::prelude::*;

verus! {

/// Why a simulation call failed. A failed call produces no output at all.
#[derive(Clone, Copy, Debug, PartialEq, Eq, Structural)]
pub enum SimulationError {
    /// The description is malformed.
    Decode(DecodeError),
    /// The clock divider is zero, so no tick has a logical clock.
    ZeroClockDivider,
    /// The component at `index` is the first that refers to a net that does
    /// not exist or that is a signal source with an empty pattern.
    InvalidComponent { index: usize },
    /// The traced net at `index` is the first that does not exist.
    TracedNetOutOfRange { index: usize },
    /// The traces together have more entries than an offset can address.
    OutputTooLarge,
}

/// What a simulation call returns: the packed traces, the index table and
/// the first tick after which some net was in shoot-through.
#[derive(Debug)]
pub struct SimulationResult {
    pub bytes: Vec<u8>,
    pub indices: Vec<TraceIndex>,
    pub first_shoot_through: Option<u32>,
}

/// The mathematical value of a simulation result.
pub struct SimulationOutput {
    pub bytes: Seq<u8>,
    pub indices: Seq<TraceIndex>,
    pub first_shoot_through: Option<u32>,
}

impl View for SimulationResult {
    type V = SimulationOutput;

    open spec fn view(&self) -> SimulationOutput {
        SimulationOutput {
            bytes: self.bytes@,
            indices: self.indices@,
            first_shoot_through: self.first_shoot_through,
        }
    }
}

/// The mathematical value of what a call returned.
pub open spec fn outcome_view(returned: Result<SimulationResult, SimulationError>) -> Result<
    SimulationOutput,
    SimulationError,
> {
    match returned {
        Ok(result) => Ok(result@),
        Err(e) => Err(e),
    }
}

/// Whether `index` is the first component that breaks the invariant.
pub open spec fn is_first_invalid_component(
    components: Seq<ComponentModel>,
    net_count: u32,
    index: int,
) -> bool {
    &&& 0 <= index < components.len()
    &&& !components[index].wf(net_count)
    &&& forall|j: int| 0 <= j < index ==> (#[trigger] components[j]).wf(net_count)
}

/// Whether `index` is the first traced net that does not exist.
pub open spec fn is_first_missing_traced_net(
    nets_to_trace: Seq<Net>,
    net_count: u32,
    index: int,
) -> bool {
    &&& 0 <= index < nets_to_trace.len()
    &&& nets_to_trace[index] >= net_count
    &&& forall|j: int| 0 <= j < index ==> nets_to_trace[j] < net_count
}

/// The trace of every traced net, in the order given.
pub open spec fn spec_traces(
    components: Seq<ComponentModel>,
    nets_to_trace: Seq<Net>,
    net_count: nat,
    clock_divider: nat,
    duration: nat,
) -> Seq<Seq<NetState>> {
    Seq::new(
        nets_to_trace.len(),
        |k: int| spec_trace(components, net_count, clock_divider, nets_to_trace[k], duration),
    )
}

/// The packed buffer of a run: the traces as bytes, one after another.
pub open spec fn spec_output_bytes(
    components: Seq<ComponentModel>,
    nets_to_trace: Seq<Net>,
    net_count: nat,
    clock_divider: nat,
    duration: nat,
) -> Seq<u8> {
    spec_pack_bytes(spec_traces(components, nets_to_trace, net_count, clock_divider, duration))
}

/// The index table of a run: every trace has `duration + 1` entries, so
/// trace `k` starts at offset `k * (duration + 1)`.
pub open spec fn spec_output_indices(trace_count: nat, duration: nat) -> Seq<TraceIndex> {
    Seq::new(
        trace_count,
        |k: int|
            TraceIndex { offset: (k * (duration + 1)) as u32, length: (duration + 1) as u32 },
    )
}

/// What a run over a component list may return. Each failure has its own
/// condition, the conditions exclude one another, and the run succeeds when
/// none holds.
pub open spec fn is_run_outcome(
    components: Seq<ComponentModel>,
    nets_to_trace: Seq<Net>,
    net_count: u32,
    duration: u32,
    clock_divider: u32,
    outcome: Result<SimulationOutput, SimulationError>,
) -> bool {
    match outcome {
        Err(SimulationError::Decode(_)) => false,
        Err(SimulationError::ZeroClockDivider) => clock_divider == 0,
        Err(SimulationError::InvalidComponent { index }) => {
            &&& clock_divider > 0
            &&& is_first_invalid_component(components, net_count, index as int)
        },
        Err(SimulationError::TracedNetOutOfRange { index }) => {
            &&& clock_divider > 0
            &&& all_wf(components, net_count)
            &&& is_first_missing_traced_net(nets_to_trace, net_count, index as int)
        },
        Err(SimulationError::OutputTooLarge) => {
            &&& clock_divider > 0
            &&& all_wf(components, net_count)
            &&& traced_nets_exist(nets_to_trace, net_count)
            &&& nets_to_trace.len() * (duration + 1) > u32::MAX
        },
        Ok(output) => {
            &&& clock_divider > 0
            &&& all_wf(components, net_count)
            &&& traced_nets_exist(nets_to_trace, net_count)
            &&& nets_to_trace.len() * (duration + 1) <= u32::MAX
            &&& output.bytes == spec_output_bytes(
                components,
                nets_to_trace,
                net_count as nat,
                clock_divider as nat,
                duration as nat,
            )
            &&& output.indices == spec_output_indices(nets_to_trace.len(), duration as nat)
            &&& is_first_shoot_through(
                components,
                net_count as nat,
                clock_divider as nat,
                duration as nat,
                output.first_shoot_through,
            )
        },
    }
}

/// What a simulation call on a description may return: the decoder's
/// failure if the description is malformed, else what the run over the
/// decoded components may return.
pub open spec fn is_outcome(
    description: Seq<u32>,
    nets_to_trace: Seq<Net>,
    net_count: u32,
    duration: u32,
    clock_divider: u32,
    outcome: Result<SimulationOutput, SimulationError>,
) -> bool {
    match spec_decode(description) {
        Err(e) => outcome == Err::<SimulationOutput, SimulationError>(SimulationError::Decode(e)),
        Ok(components) => is_run_outcome(
            components,
            nets_to_trace,
            net_count,
            duration,
            clock_divider,
            outcome,
        ),
    }
}

/// The flat form of an index table: offset and length of each trace in
/// turn.
pub open spec fn spec_flatten_indices(indices: Seq<TraceIndex>) -> Seq<u32> {
    Seq::new(
        2 * indices.len(),
        |i: int|
            if i % 2 == 0 {
                indices[i / 2].offset
            } else {
                indices[i / 2].length
            },
    )
}

/// The signed number that reports a first shoot-through: -1 for none, else
/// the tick, read as a signed 32-bit number.
pub open spec fn spec_shoot_through_code(first: Option<u32>) -> int {
    match first {
        None => -1,
        Some(t) => if t <= i32::MAX {
            t as int
        } else {
            t - 0x1_0000_0000
        },
    }
}

/// Finds the first component that breaks the invariant.
pub fn find_invalid_component(components: &Vec<Component>, net_count: u32) -> (found: Option<usize>)
    ensures
        match found {
            Some(index) => is_first_invalid_component(models(components@), net_count, index as int),
            None => all_wf(models(components@), net_count),
        },
{
    let mut k: usize = 0;
    while k < components.len()
        invariant
            k <= components.len(),
            forall|j: int| 0 <= j < k ==> (#[trigger] models(components@)[j]).wf(net_count),
        decreases components.len() - k,
    {
        assert(models(components@)[k as int] == components@[k as int]@);
        if !components[k].is_well_formed(net_count) {
            return Some(k);
        }
        k += 1;
    }
    None
}

/// Finds the first traced net that does not exist.
pub fn find_missing_traced_net(nets_to_trace: &[Net], net_count: u32) -> (found: Option<usize>)
    ensures
        match found {
            Some(index) => is_first_missing_traced_net(nets_to_trace@, net_count, index as int),
            None => traced_nets_exist(nets_to_trace@, net_count),
        },
{
    let mut k: usize = 0;
    while k < nets_to_trace.len()
        invariant
            k <= nets_to_trace.len(),
            forall|j: int| 0 <= j < k ==> nets_to_trace@[j] < net_count,
        decreases nets_to_trace.len() - k,
    {
        if nets_to_trace[k] >= net_count {
            return Some(k);
        }
        k += 1;
    }
    None
}

/// Whether the traces of a run fit a buffer that 32-bit offsets address.
pub fn output_fits(trace_count: usize, duration: u32) -> (fits: bool)
    ensures
        fits == (trace_count * (duration + 1) <= u32::MAX),
{
    if trace_count > u32::MAX as usize {
        assert(trace_count * (duration + 1) > u32::MAX) by (nonlinear_arith)
            requires
                trace_count > u32::MAX,
                duration >= 0,
        ;
        return false;
    }
    let count = trace_count as u64;
    let length = duration as u64 + 1;
    assert(count * length <= 0xffff_ffff * 0x1_0000_0000) by (nonlinear_arith)
        requires
            0 <= count <= 0xffff_ffff,
            0 <= length <= 0x1_0000_0000,
    ;
    count * length <= u32::MAX as u64
}

/// In a run's packed buffer, entry `j` of trace `k` lies at position
/// `k * (duration + 1) + j` and is the byte of the traced net's state after
/// `j` ticks; entry 0 is the seed.
pub proof fn lemma_output_layout(
    components: Seq<ComponentModel>,
    nets_to_trace: Seq<Net>,
    net_count: nat,
    clock_divider: nat,
    duration: nat,
    k: int,
    j: int,
)
    requires
        0 <= k < nets_to_trace.len(),
        0 <= j <= duration,
    ensures
        spec_output_bytes(components, nets_to_trace, net_count, clock_divider, duration).len()
            == nets_to_trace.len() * (duration + 1),
        0 <= k * (duration + 1) + j < nets_to_trace.len() * (duration + 1),
        spec_output_bytes(components, nets_to_trace, net_count, clock_divider, duration)[k * (
        duration + 1) + j] == spec_state_byte(
            spec_states(components, net_count, clock_divider, j as nat)[nets_to_trace[k] as int],
        ),
{
    let traces = spec_traces(components, nets_to_trace, net_count, clock_divider, duration);
    let bytes = spec_pack_bytes(traces);
    let length = duration + 1;
    lemma_pack_len(traces);
    lemma_uniform_total_len(traces, length, traces.len() as int);
    assert(traces.take(traces.len() as int) == traces);
    lemma_uniform_total_len(traces, length, k);
    lemma_pack_slice(traces, k);
    let offset = spec_offset(traces, k) as int;
    assert(offset == k * length);
    assert(bytes.subrange(offset, offset + length)[j] == bytes[offset + j]);
    assert(spec_trace_bytes(traces[k])[j] == spec_state_byte(traces[k][j]));
    assert((k + 1) * length <= nets_to_trace.len() * length) by (nonlinear_arith)
        requires
            k + 1 <= nets_to_trace.len(),
            length >= 0,
    ;
    assert((k + 1) * length == k * length + length) by (nonlinear_arith);
}

/// Runs a component list for `duration` ticks and packs the traces.
///
/// Fails if the clock divider is zero, if a component breaks the netlist
/// invariant, if a traced net does not exist, or if the output would not
/// fit; otherwise returns the packed traces, the index table and the first
/// shoot-through tick.
pub fn run_simulation(
    components: &Vec<Component>,
    nets_to_trace: &[Net],
    net_count: u32,
    duration: u32,
    clock_divider: u32,
) -> (returned: Result<SimulationResult, SimulationError>)
    ensures
        is_run_outcome(
            models(components@),
            nets_to_trace@,
            net_count,
            duration,
            clock_divider,
            outcome_view(returned),
        ),
{
    if clock_divider == 0 {
        return Err(SimulationError::ZeroClockDivider);
    }
    match find_invalid_component(components, net_count) {
        Some(index) => {
            return Err(SimulationError::InvalidComponent { index });
        },
        None => {},
    }
    match find_missing_traced_net(nets_to_trace, net_count) {
        Some(index) => {
            return Err(SimulationError::TracedNetOutOfRange { index });
        },
        None => {},
    }
    if !output_fits(nets_to_trace.len(), duration) {
        return Err(SimulationError::OutputTooLarge);
    }
    let (traces, first_shoot_through) = simulate(
        components,
        nets_to_trace,
        net_count,
        duration,
        clock_divider,
    );
    let ghost expected = spec_traces(
        models(components@),
        nets_to_trace@,
        net_count as nat,
        clock_divider as nat,
        duration as nat,
    );
    proof {
        assert(trace_views(traces@) == expected);
        lemma_uniform_total_len(expected, (duration + 1) as nat, expected.len() as int);
        assert(expected.take(expected.len() as int) == expected);
    }
    match pack_traces(&traces) {
        Some((bytes, indices)) => {
            proof {
                assert forall|k: int| 0 <= k < indices@.len() implies indices@[k]
                    == spec_output_indices(nets_to_trace@.len(), duration as nat)[k] by {
                    lemma_uniform_total_len(expected, (duration + 1) as nat, k);
                    lemma_pack_slice(expected, k);
                    lemma_pack_len(expected);
                    assert(is_index_table(indices@, expected));
                    assert(indices@[k].offset == spec_offset(expected, k));
                }
                assert(indices@ == spec_output_indices(nets_to_trace@.len(), duration as nat));
            }
            Ok(SimulationResult { bytes, indices, first_shoot_through })
        },
        None => Err(SimulationError::OutputTooLarge),
    }
}

/// Simulates the netlist that `description` encodes.
///
/// For `duration` ticks every component is evaluated once per tick, every
/// net's drive is resolved and every net moves to its next state. The
/// result holds, for each net in `nets_to_trace` and in that order, the seed
/// entry and the net's state after every tick, one byte per entry.
///
/// The call fails as a whole if the description is malformed or the
/// arguments do not describe a netlist that can be run.
pub fn perform_simulation(
    description: &[u32],
    nets_to_trace: &[u32],
    net_count: u32,
    duration: u32,
    clock_divider: u32,
) -> (returned: Result<SimulationResult, SimulationError>)
    ensures
        is_outcome(
            description@,
            nets_to_trace@,
            net_count,
            duration,
            clock_divider,
            outcome_view(returned),
        ),
{
    match decode_description(description) {
        Err(e) => Err(SimulationError::Decode(e)),
        Ok(components) => run_simulation(
            &components,
            nets_to_trace,
            net_count,
            duration,
            clock_divider,
        ),
    }
}

/// The index table of a result in flat form: the offset and the length of
/// the first trace, then those of the second, and so on.
pub fn get_indices(result: &SimulationResult) -> (flat: Vec<u32>)
    ensures
        flat@ == spec_flatten_indices(result.indices@),
{
    let mut flat: Vec<u32> = Vec::new();
    let mut k: usize = 0;
    while k < result.indices.len()
        invariant
            k <= result.indices.len(),
            flat.len() == 2 * k,
            forall|i: int|
                0 <= i < 2 * k ==> flat@[i] == spec_flatten_indices(result.indices@)[i],
        decreases result.indices.len() - k,
    {
        let entry = result.indices[k];
        flat.push(entry.offset);
        flat.push(entry.length);
        k += 1;
    }
    flat
}

/// The first tick after which some net was in shoot-through, or -1 if there
/// was none. A tick beyond `i32::MAX` is reported as the same 32 bits read
/// as a signed number, which is negative and, for a tick of a run, never -1.
pub fn get_first_shoot_through(result: &SimulationResult) -> (code: i32)
    ensures
        code == spec_shoot_through_code(result.first_shoot_through),
        result.first_shoot_through is None ==> code == -1,
        result.first_shoot_through matches Some(t) ==> (t <= i32::MAX ==> code == t) && (t
            < u32::MAX ==> code != -1),
{
    match result.first_shoot_through {
        None => -1,
        Some(t) => {
            if t <= 0x7fff_ffff {
                t as i32
            } else {
                let low: i32 = (t - 0x8000_0000) as i32;
                low + i32::MIN
            }
        },
    }
}

} // verus!
