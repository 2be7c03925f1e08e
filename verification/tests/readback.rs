use voxel_carving::hit::{VoxelHit, VoxelHitEvent};
use voxel_carving::readback::{
    cleared_hits, copy_size, counter_reset, decode_hits, encode_hits, hit_buffer_size,
    hit_capacity, on_voxel_readback, parse_hits, read_counter, MAX_RAYMARCH_STEPS, RECORD_BYTES,
};
use voxel_carving::voxel::Voxel;

fn record(pos_idx: u32, value: f32) -> VoxelHit {
    VoxelHit { pos_idx, value_bits: value.to_bits() }
}

fn raw(entries: &[(u32, f32)]) -> Vec<u8> {
    let mut bytes = Vec::new();
    for (idx, value) in entries {
        bytes.extend_from_slice(&idx.to_le_bytes());
        bytes.extend_from_slice(&value.to_le_bytes());
    }
    bytes
}

#[test]
fn sentinel_first_gives_no_events() {
    let bytes = raw(&[(u32::MAX, -50.0), (5, 0.2), (6, 0.3)]);
    assert_eq!(on_voxel_readback(&bytes, 10), vec![]);
    let bytes = raw(&[(u32::MAX, 0.9), (5, 0.2)]);
    assert_eq!(on_voxel_readback(&bytes, 10), vec![]);
}

#[test]
fn one_hit_then_sentinel_gives_one_event_and_stops() {
    let bytes = raw(&[(5, 0.2), (u32::MAX, -50.0), (8, 0.7), (9, 0.9)]);
    let events = on_voxel_readback(&bytes, 10);
    assert_eq!(
        events,
        vec![VoxelHitEvent { voxel: Voxel::from_idx(5, 10), value_bits: 0.2f32.to_bits() }]
    );
    assert_eq!(events[0].voxel, Voxel { x: 5, y: 0, z: 0 });
    assert_eq!(f32::from_bits(events[0].value_bits), 0.2);
}

#[test]
fn value_below_epsilon_is_dropped_but_the_scan_goes_on() {
    let bytes = raw(&[(7, 1e-9), (12, 0.5), (u32::MAX, -50.0)]);
    let events = on_voxel_readback(&bytes, 10);
    assert_eq!(
        events,
        vec![VoxelHitEvent { voxel: Voxel { x: 2, y: 1, z: 0 }, value_bits: 0.5f32.to_bits() }]
    );
    assert_eq!(on_voxel_readback(&raw(&[(7, 1e-9)]), 10), vec![]);
}

#[test]
fn negative_value_ends_the_scan_whatever_the_offset() {
    let bytes = raw(&[(1, 0.5), (2, -0.25), (3, 0.5)]);
    let events = on_voxel_readback(&bytes, 10);
    assert_eq!(events.len(), 1);
    assert_eq!(events[0].voxel, Voxel { x: 1, y: 0, z: 0 });
}

#[test]
fn zero_epsilon_and_nan_are_dropped_without_ending_the_scan() {
    let bytes = raw(&[(1, 0.0), (2, -0.0), (3, 1e-6), (4, f32::NAN), (5, 2e-6), (6, f32::INFINITY)]);
    let events = on_voxel_readback(&bytes, 10);
    assert_eq!(
        events,
        vec![
            VoxelHitEvent { voxel: Voxel { x: 5, y: 0, z: 0 }, value_bits: 2e-6f32.to_bits() },
            VoxelHitEvent {
                voxel: Voxel { x: 6, y: 0, z: 0 },
                value_bits: f32::INFINITY.to_bits()
            },
        ]
    );
}

#[test]
fn buffer_without_sentinel_is_scanned_to_its_end() {
    let bytes = raw(&[(0, 1.0), (1, 1.0), (2, 1.0)]);
    assert_eq!(on_voxel_readback(&bytes, 10).len(), 3);
    assert_eq!(on_voxel_readback(&[], 10), vec![]);
}

#[test]
fn bytes_behind_the_last_whole_record_are_ignored() {
    let mut bytes = raw(&[(5, 0.2)]);
    bytes.extend_from_slice(&[1, 2, 3, 4, 5, 6, 7]);
    assert_eq!(parse_hits(&bytes), vec![record(5, 0.2)]);
    assert_eq!(on_voxel_readback(&bytes, 10).len(), 1);
    assert_eq!(parse_hits(&[1, 2, 3]), vec![]);
}

#[test]
fn offset_past_the_grid_is_forwarded_with_z_outside() {
    let events = on_voxel_readback(&raw(&[(1000, 0.5)]), 10);
    assert_eq!(events[0].voxel, Voxel { x: 0, y: 0, z: 10 });
}

#[test]
fn records_are_little_endian_offset_then_value() {
    let bytes = [0x04, 0x03, 0x02, 0x01, 0xCD, 0xCC, 0x4C, 0x3E];
    assert_eq!(parse_hits(&bytes), vec![VoxelHit { pos_idx: 0x0102_0304, value_bits: 0x3E4C_CCCD }]);
    assert_eq!(
        encode_hits(&vec![VoxelHit { pos_idx: 0x0102_0304, value_bits: 0x3E4C_CCCD }]),
        bytes.to_vec()
    );
}

#[test]
fn parse_undoes_encode() {
    let hits = vec![
        record(0, 0.0),
        record(5, 0.2),
        record(u32::MAX, -50.0),
        record(0x8000_0000, f32::MAX),
        VoxelHit { pos_idx: 0xDEAD_BEEF, value_bits: 0xFFFF_FFFF },
    ];
    let bytes = encode_hits(&hits);
    assert_eq!(bytes.len(), hits.len() * RECORD_BYTES);
    assert_eq!(parse_hits(&bytes), hits);
    assert_eq!(bytes, raw(&[(0, 0.0), (5, 0.2), (u32::MAX, -50.0), (0x8000_0000, f32::MAX)])
        .into_iter()
        .chain([0xEF, 0xBE, 0xAD, 0xDE, 0xFF, 0xFF, 0xFF, 0xFF])
        .collect::<Vec<u8>>());
}

#[test]
fn decode_hits_agrees_with_decoding_their_bytes() {
    let hits = vec![record(3, 0.5), record(4, 1e-9), record(44, 0.25), record(9, -1.0), record(1, 1.0)];
    let events = decode_hits(&hits, 4);
    assert_eq!(events, on_voxel_readback(&encode_hits(&hits), 4));
    assert_eq!(
        events,
        vec![
            VoxelHitEvent { voxel: Voxel { x: 3, y: 0, z: 0 }, value_bits: 0.5f32.to_bits() },
            VoxelHitEvent { voxel: Voxel { x: 0, y: 3, z: 2 }, value_bits: 0.25f32.to_bits() },
        ]
    );
}

#[test]
fn cleared_buffer_holds_only_unused_slots_and_decodes_to_nothing() {
    let hits = cleared_hits(5);
    assert_eq!(hits, vec![VoxelHit::default(); 5]);
    assert_eq!(decode_hits(&hits, 10), vec![]);
    assert_eq!(cleared_hits(0), vec![]);
    assert_eq!(encode_hits(&cleared_hits(1)), vec![0xFF, 0xFF, 0xFF, 0xFF, 0x00, 0x00, 0x48, 0xC2]);
}

#[test]
fn counter_is_read_as_a_little_endian_word() {
    assert_eq!(read_counter(&[0x2A, 0, 0, 0]), Some(42));
    assert_eq!(read_counter(&[0x78, 0x56, 0x34, 0x12]), Some(0x1234_5678));
    assert_eq!(read_counter(&[0xFF, 0xFF, 0xFF, 0xFF]), Some(u32::MAX));
    assert_eq!(read_counter(&[1, 0, 0, 0, 9, 9, 9, 9]), Some(1));
}

#[test]
fn counter_of_a_wrong_length_is_refused() {
    assert_eq!(read_counter(&[]), None);
    assert_eq!(read_counter(&[1, 2, 3]), None);
    assert_eq!(read_counter(&[1, 2, 3, 4, 5]), None);
}

#[test]
fn counter_reset_is_four_zero_bytes() {
    assert_eq!(counter_reset(), vec![0u8, 0, 0, 0]);
    assert_eq!(read_counter(&counter_reset()), Some(0));
}

#[test]
fn copy_size_is_clamped_to_the_capacity() {
    assert_eq!(copy_size(0, 100), 0);
    assert_eq!(copy_size(3, 100), 24);
    assert_eq!(copy_size(100, 100), 800);
    assert_eq!(copy_size(101, 100), 800);
    assert_eq!(copy_size(u32::MAX, 100), 800);
    assert_eq!(copy_size(u32::MAX, u64::MAX), 34_359_738_360);
    assert_eq!(copy_size(5, 0), 0);
}

#[test]
fn hit_capacity_is_one_record_per_pixel_and_step() {
    assert_eq!(MAX_RAYMARCH_STEPS, 64);
    assert_eq!(hit_capacity(640, 480), Some(19_660_800));
    assert_eq!(hit_capacity(1000, 1000), Some(64_000_000));
    assert_eq!(hit_capacity(0, 480), Some(0));
    assert_eq!(hit_capacity(1, 1), Some(64));
    assert_eq!(hit_capacity(65536, 65536), Some(274_877_906_944));
}

#[test]
fn hit_capacity_refuses_buffers_wider_than_64_bits() {
    assert_eq!(hit_capacity(u32::MAX, u32::MAX), None);
    assert_eq!(hit_capacity(1 << 31, 1 << 24), None);
    assert_eq!(hit_capacity(1 << 31, (1 << 24) - 1), Some(((1u64 << 31) * ((1 << 24) - 1)) * 64));
}

#[test]
fn hit_buffer_size_is_eight_bytes_per_record() {
    assert_eq!(hit_buffer_size(19_660_800), Some(157_286_400));
    assert_eq!(hit_buffer_size(0), Some(0));
    assert_eq!(hit_buffer_size(u64::MAX / 8), Some(u64::MAX - 7));
    assert_eq!(hit_buffer_size(u64::MAX / 8 + 1), None);
}
