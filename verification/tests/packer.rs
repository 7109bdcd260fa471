use switchsim::{
    get_first_shoot_through, get_indices, pack_traces, NetState, SimulationResult, TraceIndex,
};

fn result_with(indices: Vec<TraceIndex>, first_shoot_through: Option<u32>) -> SimulationResult {
    SimulationResult { bytes: Vec::new(), indices, first_shoot_through }
}

#[test]
fn packs_no_traces() {
    let (bytes, indices) = pack_traces(&Vec::new()).unwrap();
    assert!(bytes.is_empty());
    assert!(indices.is_empty());
}

#[test]
fn packs_one_trace() {
    let traces = vec![vec![
        NetState::Invalid,
        NetState::Low,
        NetState::High,
        NetState::ShootThrough,
    ]];
    let (bytes, indices) = pack_traces(&traces).unwrap();
    assert_eq!(bytes, vec![0, 1, 2, 3]);
    assert_eq!(indices, vec![TraceIndex { offset: 0, length: 4 }]);
}

#[test]
fn packs_traces_of_different_lengths() {
    let traces = vec![
        vec![NetState::Low, NetState::High],
        vec![],
        vec![NetState::ShootThrough],
        vec![NetState::Invalid, NetState::Invalid, NetState::Low],
    ];
    let (bytes, indices) = pack_traces(&traces).unwrap();
    assert_eq!(bytes, vec![1, 2, 3, 0, 0, 1]);
    assert_eq!(
        indices,
        vec![
            TraceIndex { offset: 0, length: 2 },
            TraceIndex { offset: 2, length: 0 },
            TraceIndex { offset: 2, length: 1 },
            TraceIndex { offset: 3, length: 3 },
        ]
    );
}

#[test]
fn every_index_entry_slices_out_its_trace() {
    let traces = vec![
        vec![NetState::High; 5],
        vec![NetState::Low; 2],
        vec![NetState::ShootThrough; 7],
    ];
    let (bytes, indices) = pack_traces(&traces).unwrap();
    assert_eq!(bytes.len(), 14);
    let fill = [2u8, 1, 3];
    for (k, index) in indices.iter().enumerate() {
        let start = index.offset as usize;
        let end = start + index.length as usize;
        assert_eq!(index.length as usize, traces[k].len());
        assert!(bytes[start..end].iter().all(|&b| b == fill[k]));
    }
}

#[test]
fn flat_indices_alternate_offset_and_length() {
    let result = result_with(
        vec![
            TraceIndex { offset: 0, length: 4 },
            TraceIndex { offset: 4, length: 9 },
            TraceIndex { offset: 13, length: 1 },
        ],
        None,
    );
    assert_eq!(get_indices(&result), vec![0, 4, 4, 9, 13, 1]);
}

#[test]
fn flat_indices_of_empty_table() {
    assert_eq!(get_indices(&result_with(Vec::new(), None)), Vec::<u32>::new());
}

#[test]
fn no_shoot_through_is_minus_one() {
    assert_eq!(get_first_shoot_through(&result_with(Vec::new(), None)), -1);
}

#[test]
fn shoot_through_tick_is_reported_as_is() {
    assert_eq!(get_first_shoot_through(&result_with(Vec::new(), Some(0))), 0);
    assert_eq!(get_first_shoot_through(&result_with(Vec::new(), Some(17))), 17);
    assert_eq!(
        get_first_shoot_through(&result_with(Vec::new(), Some(2147483647))),
        i32::MAX
    );
}

#[test]
fn shoot_through_tick_beyond_i32_wraps_to_negative() {
    assert_eq!(
        get_first_shoot_through(&result_with(Vec::new(), Some(2147483648))),
        i32::MIN
    );
    assert_eq!(
        get_first_shoot_through(&result_with(Vec::new(), Some(3_000_000_000))),
        -1294967296
    );
    assert_eq!(
        get_first_shoot_through(&result_with(Vec::new(), Some(u32::MAX - 1))),
        -2
    );
}
