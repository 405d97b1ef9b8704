use lane_search::constants::{LANES, NIBBLES, NONCES_PER_NIBBLE};
use lane_search::mitm::{
    deserialize_u32_to_rho_states, mitm_buffer_bytes, read_plan, serialize_rho_states_to_u32,
    write_plan, RhoState, MITM_STATE_BYTES, MITM_STATE_U32_WORDS,
};
use lane_search::telemetry::{
    aligned_buffer_bytes, buffer_elements, cell_index, dispatch_grid, has_batch_shape, per_cell,
    TelemetryBuffer, CELLS,
};

#[test]
fn serialize_and_deserialize_roundtrip() {
    let mut states = Vec::new();
    for i in 0..3u64 {
        let mut val = [0u8; 32];
        for j in 0..32 {
            val[j] = (i as u8).wrapping_add(j as u8);
        }
        states.push(RhoState::new(i * 0xFF00_FFu64, val, i * 12345));
    }

    let u32s = serialize_rho_states_to_u32(&states);
    let recovered = deserialize_u32_to_rho_states(&u32s);
    assert_eq!(states, recovered);
}

#[test]
fn layout_word_count() {
    assert_eq!(MITM_STATE_U32_WORDS * 4, MITM_STATE_BYTES);
}

#[test]
fn serialized_layout_is_exact() {
    let mut value = [0u8; 32];
    for j in 0..32 {
        value[j] = j as u8 + 1;
    }
    let state = RhoState::new(0x1122_3344_5566_7788, value, 0xAABB_CCDD_0000_0001);
    let words = serialize_rho_states_to_u32(&[state]);
    assert_eq!(words.len(), 12);
    assert_eq!(words[0], 0x5566_7788);
    assert_eq!(words[1], 0x1122_3344);
    assert_eq!(words[2], 0x0403_0201);
    assert_eq!(words[9], 0x201f_1e1d);
    assert_eq!(words[10], 0x0000_0001);
    assert_eq!(words[11], 0xAABB_CCDD);
}

#[test]
fn deserialize_ignores_partial_tail() {
    let mut words = serialize_rho_states_to_u32(&[RhoState::zero(), RhoState::new(7, [9u8; 32], 3)]);
    words.extend_from_slice(&[1, 2, 3, 4, 5]);
    let states = deserialize_u32_to_rho_states(&words);
    assert_eq!(states.len(), 2);
    assert_eq!(states[0], RhoState::zero());
    assert_eq!(states[1], RhoState::new(7, [9u8; 32], 3));
    assert_eq!(deserialize_u32_to_rho_states(&words[..11]).len(), 0);
}

#[test]
fn zero_state_is_all_zero() {
    let z = RhoState::zero();
    assert_eq!(z.seed, 0);
    assert_eq!(z.steps, 0);
    assert_eq!(z.value, [0u8; 32]);
    assert_eq!(serialize_rho_states_to_u32(&[z]), vec![0u32; 12]);
}

#[test]
fn telemetry_shape_is_fixed() {
    assert_eq!(CELLS, LANES * NIBBLES * NONCES_PER_NIBBLE);
    assert_eq!(dispatch_grid(), (16, 4, 128));
    assert_eq!(buffer_elements(TelemetryBuffer::Digest), 65_536);
    assert_eq!(buffer_elements(TelemetryBuffer::Posterior), 8_192);
    assert_eq!(buffer_elements(TelemetryBuffer::Transform), 8_192);
    assert_eq!(buffer_elements(TelemetryBuffer::Consensus), 8_192);
    assert_eq!(buffer_elements(TelemetryBuffer::Entropy), 8_192);
    assert_eq!(buffer_elements(TelemetryBuffer::NibbleProbabilities), 16_384);
    assert_eq!(buffer_elements(TelemetryBuffer::Feedback), 8_192);
    assert_eq!(buffer_elements(TelemetryBuffer::DebugFlags), 8_192);
    assert_eq!(buffer_elements(TelemetryBuffer::SubmitMask), 8_192);
    assert_eq!(buffer_elements(TelemetryBuffer::ChainStates), 98_304);
    assert_eq!(per_cell(TelemetryBuffer::Digest), 8);
    assert!(has_batch_shape(TelemetryBuffer::Digest, 65_536));
    assert!(!has_batch_shape(TelemetryBuffer::Digest, 65_535));
    assert!(has_batch_shape(TelemetryBuffer::Posterior, 10_000));
    assert!(!has_batch_shape(TelemetryBuffer::ChainStates, 8_192));
}

#[test]
fn cells_are_indexed_lane_by_lane() {
    assert_eq!(cell_index(0, 0, 0), Some(0));
    assert_eq!(cell_index(0, 0, 127), Some(127));
    assert_eq!(cell_index(0, 1, 0), Some(128));
    assert_eq!(cell_index(1, 0, 0), Some(2048));
    assert_eq!(cell_index(3, 15, 127), Some(8191));
    assert_eq!(cell_index(4, 0, 0), None);
    assert_eq!(cell_index(0, 16, 0), None);
    assert_eq!(cell_index(0, 0, 128), None);
    let mut seen = vec![false; CELLS];
    for lane in 0..LANES {
        for nibble in 0..NIBBLES {
            for nonce in 0..NONCES_PER_NIBBLE {
                let at = cell_index(lane, nibble, nonce).unwrap();
                assert!(!seen[at]);
                seen[at] = true;
            }
        }
    }
    assert!(seen.iter().all(|&s| s));
}

#[test]
fn buffer_sizes_in_bytes() {
    assert_eq!(aligned_buffer_bytes(10, 4, false), 40);
    assert_eq!(aligned_buffer_bytes(10, 4, true), 640);
    assert_eq!(aligned_buffer_bytes(10, 2, false), 20);
    assert_eq!(aligned_buffer_bytes(0, 4, true), 0);
}

#[test]
fn buffer_plans() {
    assert_eq!(mitm_buffer_bytes(3), Some(144));
    assert_eq!(mitm_buffer_bytes(0), Some(0));
    assert_eq!(write_plan(24, 144), (24, 12));
    assert_eq!(write_plan(40, 144), (36, 0));
    assert_eq!(read_plan(144, 2), 24);
    assert_eq!(read_plan(144, 5), 36);
    assert_eq!(read_plan(144, usize::MAX), 36);
}
