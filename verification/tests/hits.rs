use voxel_carving::hit::{
    units_of_sample, VoxelHit, EPSILON, NEGATIVE_INFINITY, NEGATIVE_ZERO, NO_VOXEL,
    POSITIVE_INFINITY, UNIT_BITS, UNWRITTEN_VALUE,
};
use voxel_carving::voxel::Voxel;

fn hit(pos_idx: u32, value: f32) -> VoxelHit {
    VoxelHit { pos_idx, value_bits: value.to_bits() }
}

#[test]
fn constants_are_the_patterns_they_are_named_for() {
    assert_eq!(NO_VOXEL, u32::MAX);
    assert_eq!(UNWRITTEN_VALUE, (-50.0f32).to_bits());
    assert_eq!(EPSILON, 1e-6f32.to_bits());
    assert_eq!(POSITIVE_INFINITY, f32::INFINITY.to_bits());
    assert_eq!(NEGATIVE_ZERO, (-0.0f32).to_bits());
    assert_eq!(NEGATIVE_INFINITY, f32::NEG_INFINITY.to_bits());
}

#[test]
fn default_hit_is_the_unused_slot() {
    let h = VoxelHit::default();
    assert_eq!(h.pos_idx, u32::MAX);
    assert_eq!(f32::from_bits(h.value_bits), -50.0);
    assert!(h.ends_scan());
    assert!(!h.carries_signal());
}

fn samples() -> Vec<f32> {
    let mut v = vec![
        0.0,
        -0.0,
        1e-6,
        1e-9,
        1.0e-6 + 1.0e-12,
        f32::from_bits(EPSILON + 1),
        f32::from_bits(EPSILON - 1),
        f32::EPSILON,
        0.2,
        1.0,
        -1.0,
        -50.0,
        -1e-30,
        f32::MIN_POSITIVE,
        -f32::MIN_POSITIVE,
        f32::from_bits(1),
        f32::from_bits(0x8000_0001),
        f32::MAX,
        f32::MIN,
        f32::INFINITY,
        f32::NEG_INFINITY,
        f32::NAN,
        f32::from_bits(0xFFC0_0000),
        f32::from_bits(0x7F80_0001),
        f32::from_bits(0xFF80_0001),
        f32::from_bits(0xFFFF_FFFF),
    ];
    let mut bits: u32 = 0x1234_5678;
    for _ in 0..20_000 {
        bits = bits.wrapping_mul(1_664_525).wrapping_add(1_013_904_223);
        v.push(f32::from_bits(bits));
    }
    v
}

#[test]
fn ends_scan_is_value_below_zero_or_no_voxel() {
    for value in samples() {
        assert_eq!(hit(7, value).ends_scan(), value < 0.0, "{value:?}");
        assert!(hit(u32::MAX, value).ends_scan(), "{value:?}");
    }
}

#[test]
fn carries_signal_is_value_above_epsilon() {
    for value in samples() {
        assert_eq!(hit(7, value).carries_signal(), value > 1e-6f32, "{value:?}");
        assert_eq!(hit(7, value).carries_signal(), (value as f64) > 1e-6f64, "{value:?}");
    }
}

#[test]
fn voxel_of_a_hit_is_the_cell_of_its_offset() {
    assert_eq!(hit(5, 0.2).voxel(10), Voxel { x: 5, y: 0, z: 0 });
    assert_eq!(hit(321, 0.2).voxel(10), Voxel { x: 1, y: 2, z: 3 });
    assert_eq!(hit(7, 1e-9).voxel(2), Voxel { x: 1, y: 1, z: 1 });
}

#[test]
fn id_from_pos_sets_the_offset_and_keeps_the_value() {
    let mut h = hit(0, 0.75);
    h.id_from_pos(10, Voxel { x: 1, y: 2, z: 3 });
    assert_eq!(h, hit(321, 0.75));
    assert_eq!(h.voxel(10), Voxel { x: 1, y: 2, z: 3 });
}

fn units_by_floating_point(value: f32) -> Option<u64> {
    if value.is_nan() || value.is_infinite() || value < 0.0 {
        return None;
    }
    let scaled = (f64::from(value) * 1_048_576.0).floor();
    if scaled >= 18_446_744_073_709_551_616.0 {
        None
    } else {
        Some(scaled as u64)
    }
}

#[test]
fn units_are_the_sample_times_two_to_the_twentieth_rounded_down() {
    assert_eq!(UNIT_BITS, 20);
    assert_eq!(units_of_sample(1.0f32.to_bits()), Some(1_048_576));
    assert_eq!(units_of_sample(0.5f32.to_bits()), Some(524_288));
    assert_eq!(units_of_sample(0.2f32.to_bits()), Some(209_715));
    assert_eq!(units_of_sample(3.75f32.to_bits()), Some(3_932_160));
    assert_eq!(units_of_sample(1e-6f32.to_bits()), Some(1));
    assert_eq!(units_of_sample(0.0f32.to_bits()), Some(0));
    assert_eq!(units_of_sample((-0.0f32).to_bits()), Some(0));
    assert_eq!(units_of_sample(1e-9f32.to_bits()), Some(0));
    assert_eq!(units_of_sample(f32::MIN_POSITIVE.to_bits()), Some(0));
    assert_eq!(units_of_sample(1), Some(0));
}

#[test]
fn one_unit_is_two_to_the_minus_twentieth() {
    let unit = f32::from_bits(0x3580_0000);
    assert_eq!(f64::from(unit) * 1_048_576.0, 1.0);
    assert_eq!(units_of_sample(0x3580_0000), Some(1));
    assert_eq!(units_of_sample(0x357F_FFFF), Some(0));
    assert_eq!(units_of_sample(0x3600_0000), Some(2));
    assert_eq!(units_of_sample(0x35FF_FFFF), Some(1));
}

#[test]
fn units_of_negative_infinite_and_nan_samples_are_refused() {
    assert_eq!(units_of_sample((-1.0f32).to_bits()), None);
    assert_eq!(units_of_sample((-50.0f32).to_bits()), None);
    assert_eq!(units_of_sample(0x8000_0001), None);
    assert_eq!(units_of_sample(f32::INFINITY.to_bits()), None);
    assert_eq!(units_of_sample(f32::NEG_INFINITY.to_bits()), None);
    assert_eq!(units_of_sample(f32::NAN.to_bits()), None);
    assert_eq!(units_of_sample(0x7F80_0001), None);
    assert_eq!(units_of_sample(0xFFFF_FFFF), None);
}

#[test]
fn units_that_do_not_fit_in_64_bits_are_refused() {
    let two_to_43 = 8_796_093_022_208.0f32;
    assert_eq!(units_of_sample(two_to_43.to_bits()), Some(1 << 63));
    assert_eq!(units_of_sample((2.0 * two_to_43).to_bits()), None);
    let below = f32::from_bits((2.0 * two_to_43).to_bits() - 1);
    assert_eq!(units_of_sample(below.to_bits()), Some(0xFFFF_FF00_0000_0000));
    assert_eq!(units_of_sample(f32::MAX.to_bits()), None);
}

#[test]
fn units_agree_with_floating_point_on_many_samples() {
    for value in samples() {
        assert_eq!(units_of_sample(value.to_bits()), units_by_floating_point(value), "{value:?}");
    }
}

#[test]
fn every_finite_sample_above_epsilon_counts_at_least_one_unit() {
    for value in samples() {
        if hit(0, value).carries_signal() && value.is_finite() {
            assert!(units_of_sample(value.to_bits()).map_or(true, |units| units >= 1));
            assert!(units_by_floating_point(value).map_or(true, |units| units >= 1));
        }
    }
    assert_eq!(units_of_sample(EPSILON + 1), Some(1));
}
