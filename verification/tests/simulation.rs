use switchsim::decode::SENTINEL;
use switchsim::simulate::{accumulate_drives, simulate, step};
use switchsim::{
    get_first_shoot_through, get_indices, perform_simulation, run_simulation, Component,
    DecodeError, NetState, SignalLevel, SimulationError, SimulationResult, TraceIndex,
};

fn run(
    description: &[u32],
    nets_to_trace: &[u32],
    net_count: u32,
    duration: u32,
    clock_divider: u32,
) -> SimulationResult {
    perform_simulation(description, nets_to_trace, net_count, duration, clock_divider).unwrap()
}

fn pull_down(net: u32) -> Vec<u32> {
    vec![3, 1, net, SENTINEL]
}

fn pull_up(net: u32) -> Vec<u32> {
    vec![3, 0, net, SENTINEL]
}

fn nfet(gate: u32, drain: u32, source: u32) -> Vec<u32> {
    vec![1, 0, gate, drain, source, SENTINEL]
}

fn pfet(gate: u32, drain: u32, source: u32) -> Vec<u32> {
    vec![1, 1, gate, drain, source, SENTINEL]
}

fn signal(net: u32, repeat: bool, pattern: &[u32]) -> Vec<u32> {
    let mut words = vec![2, net, repeat as u32, pattern.len() as u32];
    words.extend_from_slice(pattern);
    words.push(SENTINEL);
    words
}

fn netlist(parts: &[Vec<u32>]) -> Vec<u32> {
    parts.concat()
}

#[test]
fn worked_example() {
    let result = run(&[3, 1, 0, 123456789], &[0], 1, 3, 1);
    assert_eq!(result.bytes, vec![0, 1, 1, 1]);
    assert_eq!(result.indices, vec![TraceIndex { offset: 0, length: 4 }]);
    assert_eq!(get_indices(&result), vec![0, 4]);
    assert_eq!(result.first_shoot_through, None);
    assert_eq!(get_first_shoot_through(&result), -1);
}

#[test]
fn two_calls_give_the_same_result() {
    let description = netlist(&[
        signal(0, true, &[1, 0, 2]),
        signal(1, false, &[0, 1]),
        nfet(0, 2, 1),
        pull_up(2),
        pull_down(3),
        pull_up(3),
    ]);
    let first = run(&description, &[0, 1, 2, 3], 4, 40, 3);
    let second = run(&description, &[0, 1, 2, 3], 4, 40, 3);
    assert_eq!(first.bytes, second.bytes);
    assert_eq!(first.indices, second.indices);
    assert_eq!(first.first_shoot_through, second.first_shoot_through);
    assert_eq!(get_first_shoot_through(&first), get_first_shoot_through(&second));
}

#[test]
fn pull_down_net_is_low_from_tick_zero() {
    let result = run(&pull_down(2), &[2], 3, 50, 1);
    assert_eq!(result.bytes[0], 0);
    assert!(result.bytes[1..].iter().all(|&b| b == 1));
    assert_eq!(result.bytes.len(), 51);
}

#[test]
fn two_pull_downs_on_one_net_are_still_low() {
    let description = netlist(&[pull_down(0), pull_down(0)]);
    let result = run(&description, &[0], 1, 4, 1);
    assert_eq!(result.bytes, vec![0, 1, 1, 1, 1]);
}

#[test]
fn pull_up_net_is_high_from_tick_zero() {
    let result = run(&pull_up(0), &[0], 1, 3, 1);
    assert_eq!(result.bytes, vec![0, 2, 2, 2]);
}

#[test]
fn undriven_net_stays_invalid() {
    let result = run(&pull_down(0), &[1], 2, 3, 1);
    assert_eq!(result.bytes, vec![0, 0, 0, 0]);
}

#[test]
fn opposed_pull_resistors_shoot_through_and_stay() {
    let description = netlist(&[pull_down(0), pull_up(0)]);
    let result = run(&description, &[0], 1, 6, 1);
    assert_eq!(result.bytes, vec![0, 3, 3, 3, 3, 3, 3]);
    assert_eq!(result.first_shoot_through, Some(0));
    assert_eq!(get_first_shoot_through(&result), 0);
}

#[test]
fn shoot_through_never_reverts_when_the_conflict_ends() {
    let description = netlist(&[signal(0, false, &[0]), signal(0, true, &[2, 2, 1])]);
    let result = run(&description, &[0], 1, 7, 1);
    assert_eq!(result.bytes, vec![0, 1, 1, 3, 3, 3, 3, 3]);
    assert_eq!(get_first_shoot_through(&result), 2);
}

#[test]
fn first_shoot_through_is_set_once() {
    let description = netlist(&[
        signal(0, false, &[2, 0]),
        signal(0, false, &[2, 1]),
        pull_down(1),
        signal(1, false, &[2, 2, 2, 1]),
        pull_up(2),
        pull_down(2),
    ]);
    let late = netlist(&[signal(0, false, &[2, 0]), signal(0, false, &[2, 1])]);
    assert_eq!(get_first_shoot_through(&run(&late, &[], 1, 5, 1)), 1);
    let result = run(&description, &[0, 2], 3, 5, 1);
    assert_eq!(get_first_shoot_through(&result), 0);
    assert_eq!(result.bytes, vec![0, 0, 3, 3, 3, 3, 0, 3, 3, 3, 3, 3]);
}

#[test]
fn shoot_through_is_found_on_untraced_nets() {
    let description = netlist(&[pull_down(0), pull_down(1), pull_up(1)]);
    let result = run(&description, &[0], 2, 3, 1);
    assert_eq!(result.bytes, vec![0, 1, 1, 1]);
    assert_eq!(get_first_shoot_through(&result), 0);
}

#[test]
fn simulation_runs_on_after_shoot_through() {
    let description = netlist(&[pull_down(0), pull_up(0), signal(1, true, &[0, 2])]);
    let result = run(&description, &[1], 2, 4, 1);
    assert_eq!(result.bytes, vec![0, 1, 0, 1, 0]);
    assert_eq!(get_first_shoot_through(&result), 0);
}

#[test]
fn conducting_nfet_pulls_drain_low_one_tick_later() {
    let description = netlist(&[signal(0, false, &[1]), signal(1, false, &[0]), nfet(0, 2, 1)]);
    let result = run(&description, &[0, 1, 2], 3, 3, 1);
    assert_eq!(
        result.bytes,
        vec![
            0, 2, 2, 2, // gate
            0, 1, 1, 1, // source
            0, 0, 1, 1, // drain
        ]
    );
    assert_eq!(get_first_shoot_through(&result), -1);
}

#[test]
fn conducting_nfet_overrides_a_pull_up() {
    let description = netlist(&[
        signal(0, false, &[1]),
        signal(1, false, &[0]),
        nfet(0, 2, 1),
        pull_up(2),
    ]);
    let result = run(&description, &[2], 3, 4, 1);
    assert_eq!(result.bytes, vec![0, 2, 0, 1, 1]);
    assert_eq!(get_first_shoot_through(&result), -1);
}

#[test]
fn conducting_pfet_pulls_drain_high() {
    let description = netlist(&[signal(0, false, &[0]), signal(1, false, &[1]), pfet(0, 2, 1)]);
    let result = run(&description, &[2], 3, 3, 1);
    assert_eq!(result.bytes, vec![0, 0, 2, 2]);
}

#[test]
fn nfet_with_low_gate_does_not_conduct() {
    let description = netlist(&[signal(0, false, &[0]), signal(1, false, &[0]), nfet(0, 2, 1)]);
    let result = run(&description, &[2], 3, 3, 1);
    assert_eq!(result.bytes, vec![0, 0, 0, 0]);
}

#[test]
fn nfet_with_high_source_does_not_conduct() {
    let description = netlist(&[signal(0, false, &[1]), signal(1, false, &[1]), nfet(0, 2, 1)]);
    let result = run(&description, &[2], 3, 3, 1);
    assert_eq!(result.bytes, vec![0, 0, 0, 0]);
}

#[test]
fn pfet_with_high_gate_does_not_conduct() {
    let description = netlist(&[signal(0, false, &[1]), signal(1, false, &[1]), pfet(0, 2, 1)]);
    let result = run(&description, &[2], 3, 3, 1);
    assert_eq!(result.bytes, vec![0, 0, 0, 0]);
}

#[test]
fn inverter_follows_its_input_with_delay() {
    // net 0: input, 1: ground, 2: supply, 3: output
    let description = netlist(&[
        signal(0, false, &[0, 0, 0, 0, 1]),
        signal(1, false, &[0]),
        signal(2, false, &[1]),
        nfet(0, 3, 1),
        pfet(0, 3, 2),
    ]);
    let result = run(&description, &[0, 3], 4, 8, 1);
    assert_eq!(
        result.bytes,
        vec![
            0, 1, 1, 1, 1, 0, 2, 2, 2, // input
            0, 0, 2, 2, 2, 2, 0, 1, 1, // output
        ]
    );
    assert_eq!(get_first_shoot_through(&result), -1);
}

#[test]
fn opposed_transistors_shoot_through() {
    // gate 0 high switches the nfet on, gate 1 low switches the pfet on.
    let description = netlist(&[
        signal(0, false, &[1]),
        signal(1, false, &[0]),
        signal(2, false, &[0]),
        signal(3, false, &[1]),
        nfet(0, 4, 2),
        pfet(1, 4, 3),
    ]);
    let result = run(&description, &[4], 5, 3, 1);
    assert_eq!(result.bytes, vec![0, 0, 3, 3]);
    assert_eq!(get_first_shoot_through(&result), 1);
}

#[test]
fn non_repeating_signal_holds_its_last_value() {
    let result = run(&signal(0, false, &[0, 1]), &[0], 1, 5, 1);
    assert_eq!(result.bytes, vec![0, 1, 0, 2, 2, 2]);
}

#[test]
fn non_repeating_signal_ending_in_high_z_releases_the_net() {
    let result = run(&signal(0, false, &[1, 1, 2]), &[0], 1, 5, 1);
    assert_eq!(result.bytes, vec![0, 2, 2, 0, 0, 0]);
}

#[test]
fn repeating_signal_wraps_around() {
    let result = run(&signal(0, true, &[0, 0, 1, 1]), &[0], 1, 9, 1);
    assert_eq!(result.bytes, vec![0, 1, 1, 0, 2, 0, 1, 0, 2, 0]);
}

#[test]
fn clock_divider_slows_signal_playback() {
    let result = run(&signal(0, true, &[0, 1]), &[0], 1, 8, 2);
    assert_eq!(result.bytes, vec![0, 1, 1, 0, 2, 0, 1, 0, 2]);
}

#[test]
fn clock_divider_larger_than_duration_plays_first_element_only() {
    let result = run(&signal(0, true, &[1, 0]), &[0], 1, 4, 100);
    assert_eq!(result.bytes, vec![0, 2, 2, 2, 2]);
}

#[test]
fn clock_divider_does_not_slow_transistors() {
    let description = netlist(&[signal(0, false, &[1]), signal(1, false, &[0]), nfet(0, 2, 1)]);
    let result = run(&description, &[2], 3, 3, 7);
    assert_eq!(result.bytes, vec![0, 0, 1, 1]);
}

#[test]
fn no_conflict_means_no_shoot_through_for_any_duration() {
    let description = netlist(&[
        signal(0, true, &[1, 0, 2]),
        signal(1, false, &[0]),
        nfet(0, 2, 1),
        pull_up(2),
        pull_down(3),
    ]);
    for duration in [0u32, 1, 2, 3, 10, 257, 1000] {
        let result = run(&description, &[2], 4, duration, 1);
        assert_eq!(get_first_shoot_through(&result), -1);
        assert!(result.bytes.iter().all(|&b| b != 3));
    }
}

#[test]
fn component_order_does_not_matter() {
    let parts = [
        signal(0, true, &[1, 0, 2]),
        signal(1, false, &[0, 1]),
        nfet(0, 2, 1),
        pfet(0, 2, 1),
        pull_up(2),
        pull_down(3),
        signal(3, true, &[2, 1]),
    ];
    let forward = netlist(&parts);
    let mut reversed_parts = parts.to_vec();
    reversed_parts.reverse();
    let backward = netlist(&reversed_parts);
    let a = run(&forward, &[0, 1, 2, 3], 4, 30, 2);
    let b = run(&backward, &[0, 1, 2, 3], 4, 30, 2);
    assert_eq!(a.bytes, b.bytes);
    assert_eq!(a.first_shoot_through, b.first_shoot_through);
}

#[test]
fn duration_zero_records_the_seed_only() {
    let result = run(&pull_down(0), &[0, 0], 1, 0, 1);
    assert_eq!(result.bytes, vec![0, 0]);
    assert_eq!(get_indices(&result), vec![0, 1, 1, 1]);
    assert_eq!(get_first_shoot_through(&result), -1);
}

#[test]
fn no_traced_nets_gives_empty_output() {
    let description = netlist(&[pull_down(0), pull_up(0)]);
    let result = run(&description, &[], 1, 5, 1);
    assert!(result.bytes.is_empty());
    assert!(result.indices.is_empty());
    assert!(get_indices(&result).is_empty());
    assert_eq!(get_first_shoot_through(&result), 0);
}

#[test]
fn no_nets_and_no_components() {
    let result = run(&[], &[], 0, 5, 1);
    assert!(result.bytes.is_empty());
    assert_eq!(get_first_shoot_through(&result), -1);
}

#[test]
fn traces_follow_the_order_of_the_traced_nets() {
    let description = netlist(&[pull_down(0), pull_up(1)]);
    let result = run(&description, &[1, 0, 1], 2, 2, 1);
    assert_eq!(result.bytes, vec![0, 2, 2, 0, 1, 1, 0, 2, 2]);
    assert_eq!(
        result.indices,
        vec![
            TraceIndex { offset: 0, length: 3 },
            TraceIndex { offset: 3, length: 3 },
            TraceIndex { offset: 6, length: 3 },
        ]
    );
    assert_eq!(get_indices(&result), vec![0, 3, 3, 3, 6, 3]);
}

#[test]
fn index_table_slices_the_buffer() {
    let description = netlist(&[pull_down(0), pull_up(1), pull_down(2), pull_up(2)]);
    let result = run(&description, &[2, 0, 1], 3, 4, 1);
    let expected: [&[u8]; 3] = [&[0, 3, 3, 3, 3], &[0, 1, 1, 1, 1], &[0, 2, 2, 2, 2]];
    for (k, index) in result.indices.iter().enumerate() {
        let start = index.offset as usize;
        let end = start + index.length as usize;
        assert_eq!(&result.bytes[start..end], expected[k]);
    }
}

#[test]
fn decode_failure_fails_the_call() {
    assert_eq!(
        perform_simulation(&[3, 1, 0], &[0], 1, 3, 1).unwrap_err(),
        SimulationError::Decode(DecodeError::MissingSentinel { position: 3 })
    );
    assert_eq!(
        perform_simulation(&[5], &[0], 1, 3, 1).unwrap_err(),
        SimulationError::Decode(DecodeError::UnknownOpcode { position: 0, opcode: 5 })
    );
    assert_eq!(
        perform_simulation(&[1, 0, 0], &[0], 1, 3, 1).unwrap_err(),
        SimulationError::Decode(DecodeError::Truncated { position: 0 })
    );
    assert_eq!(
        perform_simulation(&[2, 0, 0, 1, 5, SENTINEL], &[0], 1, 3, 1).unwrap_err(),
        SimulationError::Decode(DecodeError::InvalidPatternValue { position: 4, value: 5 })
    );
}

#[test]
fn zero_clock_divider_fails_the_call() {
    assert_eq!(
        perform_simulation(&pull_down(0), &[0], 1, 3, 0).unwrap_err(),
        SimulationError::ZeroClockDivider
    );
    assert_eq!(
        perform_simulation(&[], &[], 0, 0, 0).unwrap_err(),
        SimulationError::ZeroClockDivider
    );
}

#[test]
fn component_net_out_of_range_fails_the_call() {
    assert_eq!(
        perform_simulation(&pull_down(1), &[0], 1, 3, 1).unwrap_err(),
        SimulationError::InvalidComponent { index: 0 }
    );
    let description = netlist(&[pull_down(0), nfet(0, 1, 2), pull_up(9)]);
    assert_eq!(
        perform_simulation(&description, &[0], 2, 3, 1).unwrap_err(),
        SimulationError::InvalidComponent { index: 1 }
    );
    for bad in [nfet(5, 0, 0), nfet(0, 5, 0), nfet(0, 0, 5), signal(5, false, &[0])] {
        assert_eq!(
            perform_simulation(&bad, &[], 5, 0, 1).unwrap_err(),
            SimulationError::InvalidComponent { index: 0 }
        );
    }
}

#[test]
fn empty_pattern_fails_the_call() {
    let description = netlist(&[pull_down(0), signal(0, true, &[])]);
    assert_eq!(
        perform_simulation(&description, &[0], 1, 3, 1).unwrap_err(),
        SimulationError::InvalidComponent { index: 1 }
    );
}

#[test]
fn traced_net_out_of_range_fails_the_call() {
    assert_eq!(
        perform_simulation(&pull_down(0), &[0, 0, 1, 7], 1, 3, 1).unwrap_err(),
        SimulationError::TracedNetOutOfRange { index: 2 }
    );
    assert_eq!(
        perform_simulation(&[], &[0], 0, 0, 1).unwrap_err(),
        SimulationError::TracedNetOutOfRange { index: 0 }
    );
}

#[test]
fn output_that_offsets_cannot_address_fails_the_call() {
    assert_eq!(
        perform_simulation(&pull_down(0), &[0], 1, u32::MAX, 1).unwrap_err(),
        SimulationError::OutputTooLarge
    );
    assert_eq!(
        perform_simulation(&pull_down(0), &[0, 0, 0, 0], 1, 0x4000_0000, 1).unwrap_err(),
        SimulationError::OutputTooLarge
    );
}

#[test]
fn failures_are_reported_in_a_fixed_order() {
    // malformed description, zero divider, bad component, bad traced net, too large
    assert_eq!(
        perform_simulation(&[3, 1, 9], &[5], 1, u32::MAX, 0).unwrap_err(),
        SimulationError::Decode(DecodeError::MissingSentinel { position: 3 })
    );
    assert_eq!(
        perform_simulation(&pull_down(9), &[5], 1, u32::MAX, 0).unwrap_err(),
        SimulationError::ZeroClockDivider
    );
    assert_eq!(
        perform_simulation(&pull_down(9), &[5], 1, u32::MAX, 1).unwrap_err(),
        SimulationError::InvalidComponent { index: 0 }
    );
    assert_eq!(
        perform_simulation(&pull_down(0), &[5], 1, u32::MAX, 1).unwrap_err(),
        SimulationError::TracedNetOutOfRange { index: 0 }
    );
    assert_eq!(
        perform_simulation(&pull_down(0), &[0], 1, u32::MAX, 1).unwrap_err(),
        SimulationError::OutputTooLarge
    );
}

#[test]
fn long_run_without_traces_is_allowed() {
    let result = run(&pull_down(0), &[], 1, 100_000, 1);
    assert!(result.bytes.is_empty());
    assert_eq!(get_first_shoot_through(&result), -1);
}

fn memory_array(nets: u32) -> Component {
    Component::MemoryArray {
        address_bit_count: 1,
        word_size: 1,
        contents: vec![NetState::High, NetState::Low],
        address_nets: vec![0],
        data_in_nets: vec![1],
        data_out_nets: vec![nets],
        read_enable_net: 2,
        write_enable_net: 2,
    }
}

#[test]
fn memory_array_drives_nothing() {
    let components = vec![
        Component::PullResistor { is_pull_down: false, net: 0 },
        Component::PullResistor { is_pull_down: false, net: 2 },
        memory_array(3),
    ];
    let result = run_simulation(&components, &[0, 1, 2, 3], 4, 3, 1).unwrap();
    assert_eq!(
        result.bytes,
        vec![
            0, 2, 2, 2, //
            0, 0, 0, 0, //
            0, 2, 2, 2, //
            0, 0, 0, 0, //
        ]
    );
    assert_eq!(get_first_shoot_through(&result), -1);
}

#[test]
fn memory_array_nets_are_checked() {
    let components = vec![memory_array(4)];
    assert_eq!(
        run_simulation(&components, &[], 4, 3, 1).unwrap_err(),
        SimulationError::InvalidComponent { index: 0 }
    );
    assert!(!memory_array(4).is_well_formed(4));
    assert!(memory_array(3).is_well_formed(4));
}

#[test]
fn run_on_components_matches_run_on_description() {
    let components = vec![
        Component::SignalSource {
            pattern: vec![SignalLevel::High],
            repeat: false,
            net: 0,
        },
        Component::SignalSource {
            pattern: vec![SignalLevel::Low],
            repeat: false,
            net: 1,
        },
        Component::Transistor { is_pfet: false, gate: 0, drain: 2, source: 1 },
    ];
    let description = netlist(&[signal(0, false, &[1]), signal(1, false, &[0]), nfet(0, 2, 1)]);
    let direct = run_simulation(&components, &[2, 0], 3, 5, 1).unwrap();
    let decoded = run(&description, &[2, 0], 3, 5, 1);
    assert_eq!(direct.bytes, decoded.bytes);
    assert_eq!(direct.indices, decoded.indices);
    assert_eq!(direct.first_shoot_through, decoded.first_shoot_through);
}

#[test]
fn simulate_returns_one_trace_per_traced_net() {
    let components = vec![
        Component::PullResistor { is_pull_down: true, net: 0 },
        Component::PullResistor { is_pull_down: true, net: 1 },
        Component::PullResistor { is_pull_down: false, net: 1 },
    ];
    let (traces, first) = simulate(&components, &[1, 0], 2, 2, 1);
    assert_eq!(
        traces,
        vec![
            vec![NetState::Invalid, NetState::ShootThrough, NetState::ShootThrough],
            vec![NetState::Invalid, NetState::Low, NetState::Low],
        ]
    );
    assert_eq!(first, Some(0));
}

#[test]
fn accumulate_resets_and_unites_contributions() {
    let components = vec![
        Component::PullResistor { is_pull_down: true, net: 0 },
        Component::PullResistor { is_pull_down: false, net: 0 },
        Component::SignalSource { pattern: vec![SignalLevel::High], repeat: true, net: 1 },
        Component::PullResistor { is_pull_down: true, net: 1 },
    ];
    let states = vec![NetState::Invalid, NetState::Invalid, NetState::Invalid];
    let mut drives = vec![15, 15, 15, 15, 15];
    accumulate_drives(&components, &states, 0, &mut drives);
    assert_eq!(drives, vec![3, 9, 0]);
}

#[test]
fn step_reads_previous_states_only() {
    let components = vec![
        Component::SignalSource { pattern: vec![SignalLevel::High], repeat: true, net: 0 },
        Component::Transistor { is_pfet: false, gate: 0, drain: 2, source: 1 },
    ];
    let mut states = vec![NetState::Invalid, NetState::Low, NetState::Invalid];
    let mut drives = Vec::new();
    let shoot = step(&components, &mut states, &mut drives, 0);
    assert!(!shoot);
    assert_eq!(states, vec![NetState::High, NetState::Invalid, NetState::Invalid]);
}

#[test]
fn step_reports_shoot_through() {
    let components = vec![
        Component::PullResistor { is_pull_down: true, net: 1 },
        Component::PullResistor { is_pull_down: false, net: 1 },
    ];
    let mut states = vec![NetState::High, NetState::Low];
    let mut drives = Vec::new();
    assert!(step(&components, &mut states, &mut drives, 0));
    assert_eq!(states, vec![NetState::Invalid, NetState::ShootThrough]);
    assert!(step(&components, &mut states, &mut drives, 1));
}
