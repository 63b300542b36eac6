use vl53l5cx::results_data::{RawResults, ResultsData, TargetStatus, TempC};

/// A raw cycle for `dim` x `dim` zones and `targets` slots, every value
/// derived from its position so that misplaced values show.
fn raw_cycle(dim: usize, targets: usize) -> RawResults {
    let zones = dim * dim;
    let slots = zones * targets;
    RawResults {
        silicon_temp_degc: 31,
        ambient_per_spad: (0..zones).map(|i| 1000 + i as u32).collect(),
        nb_target_detected: (0..zones).map(|i| (i % 3) as u8).collect(),
        nb_spads_enabled: (0..zones).map(|i| 2000 + i as u32).collect(),
        target_status: (0..slots).map(|i| [5u8, 6, 9, 255, 0, 13][i % 6]).collect(),
        distance_mm: (0..slots).map(|i| 10 * i as i16).collect(),
        range_sigma_mm: (0..slots).map(|i| 3000 + i as u16).collect(),
        reflectance: (0..slots).map(|i| (i % 100) as u8).collect(),
        signal_per_spad: (0..slots).map(|i| 50_000 + i as u32).collect(),
    }
}

#[test]
fn status_valid() {
    assert_eq!(TargetStatus::from_uld(5), TargetStatus::Valid(5));
}

#[test]
fn status_half_valid() {
    assert_eq!(TargetStatus::from_uld(6), TargetStatus::HalfValid(6));
    assert_eq!(TargetStatus::from_uld(9), TargetStatus::HalfValid(9));
}

#[test]
fn status_invalid() {
    assert_eq!(TargetStatus::from_uld(255), TargetStatus::Invalid);
}

#[test]
fn status_other() {
    for v in 0u8..=13 {
        if v == 5 || v == 6 || v == 9 {
            continue;
        }
        assert_eq!(TargetStatus::from_uld(v), TargetStatus::Other(v));
    }
}

#[test]
fn undefined_status_is_refused() {
    for v in [14u8, 100, 254] {
        let mut raw = raw_cycle(4, 1);
        raw.target_status[7] = v;
        assert!(!ResultsData::<4, 1>::accepts(&raw));
    }
}

#[test]
fn round_trip_distance_place() {
    // DIM 4, two targets: zone (1, 2) is zone 6; its slots are 12 and 13.
    let mut raw = raw_cycle(4, 2);
    raw.distance_mm = vec![0i16; 32];
    raw.distance_mm[12] = 1234;
    raw.distance_mm[13] = 0;
    assert!(ResultsData::<4, 2>::accepts(&raw));
    let (rd, _) = ResultsData::<4, 2>::from(&raw);
    assert_eq!(rd.distance_mm[0][1][2], 1234);
    assert_eq!(rd.distance_mm[1][1][2], 0);
    assert_eq!(rd.distance_mm[0][2][1], 0);
}

#[test]
fn round_trip_known_matrix() {
    let (dim, targets) = (4usize, 2usize);
    let mut known = vec![vec![vec![0u16; dim]; dim]; targets];
    for t in 0..targets {
        for r in 0..dim {
            for c in 0..dim {
                known[t][r][c] = (100 * t + 10 * r + c) as u16;
            }
        }
    }
    let mut raw = raw_cycle(dim, targets);
    raw.distance_mm.clear();
    for r in 0..dim {
        for c in 0..dim {
            for t in 0..targets {
                raw.distance_mm.push(known[t][r][c] as i16);
            }
        }
    }
    let (rd, _) = ResultsData::<4, 2>::from(&raw);
    assert_eq!(rd.distance_mm, known);
}

#[test]
fn distances_kept_unchanged() {
    let mut raw = raw_cycle(4, 1);
    raw.distance_mm[0] = 0;
    raw.distance_mm[1] = 1;
    raw.distance_mm[15] = i16::MAX;
    let (rd, _) = ResultsData::<4, 1>::from(&raw);
    assert_eq!(rd.distance_mm[0][0][0], 0);
    assert_eq!(rd.distance_mm[0][0][1], 1);
    assert_eq!(rd.distance_mm[0][3][3], 32767);
}

#[test]
fn negative_distance_is_refused() {
    let mut raw = raw_cycle(4, 1);
    raw.distance_mm[3] = -1;
    assert!(!ResultsData::<4, 1>::accepts(&raw));
    raw.distance_mm[3] = i16::MIN;
    assert!(!ResultsData::<4, 1>::accepts(&raw));
}

#[test]
fn only_the_prefix_is_read() {
    let mut raw = raw_cycle(4, 1);
    raw.distance_mm.extend([-5i16; 48]);
    raw.target_status.extend([200u8; 48]);
    assert!(ResultsData::<4, 1>::accepts(&raw));
    let (rd, _) = ResultsData::<4, 1>::from(&raw);
    assert_eq!(rd.distance_mm[0][3][3], 150);
}

#[test]
fn short_buffer_is_refused() {
    let raw = raw_cycle(4, 1);
    assert!(!ResultsData::<8, 1>::accepts(&raw));
    assert!(!ResultsData::<4, 2>::accepts(&raw));
    let mut raw = raw_cycle(4, 1);
    raw.ambient_per_spad.pop();
    assert!(!ResultsData::<4, 1>::accepts(&raw));
}

#[test]
fn zone_matrices_are_row_major() {
    let raw = raw_cycle(8, 1);
    let (rd, _) = ResultsData::<8, 1>::from(&raw);
    assert_eq!(rd.ambient_per_spad.len(), 8);
    assert_eq!(rd.ambient_per_spad[2][5], 1021);
    assert_eq!(rd.spads_enabled[7][7], 2063);
    assert_eq!(rd.targets_detected[0][4], 1);
}

#[test]
fn target_fields_follow_the_slot_layout() {
    let raw = raw_cycle(4, 3);
    let (rd, _) = ResultsData::<4, 3>::from(&raw);
    // zone (3, 1) is zone 13; its target 2 is slot 41.
    assert_eq!(rd.range_sigma_mm[2][3][1], 3041);
    assert_eq!(rd.reflectance[2][3][1], 41);
    assert_eq!(rd.signal_per_spad[1][0][0], 50_001);
    assert_eq!(rd.target_status[0][0][0], TargetStatus::Valid(5));
    assert_eq!(rd.target_status[1][0][0], TargetStatus::HalfValid(6));
    assert_eq!(rd.target_status[2][0][0], TargetStatus::HalfValid(9));
    assert_eq!(rd.target_status[0][0][1], TargetStatus::Invalid);
    assert_eq!(rd.target_status[1][0][1], TargetStatus::Other(0));
    assert_eq!(rd.target_status[2][0][1], TargetStatus::Other(13));
}

#[test]
fn temperature_passes_through() {
    let mut raw = raw_cycle(4, 1);
    raw.silicon_temp_degc = -12;
    let (_, temp) = ResultsData::<4, 1>::from(&raw);
    assert_eq!(temp, TempC(-12));
}

#[test]
fn empty_is_zero() {
    let rd = ResultsData::<8, 4>::empty();
    assert_eq!(rd.distance_mm.len(), 4);
    assert_eq!(rd.distance_mm[3].len(), 8);
    assert_eq!(rd.distance_mm[3][7].len(), 8);
    assert_eq!(rd.ambient_per_spad[7][7], 0);
    assert_eq!(rd.target_status[3][7][7], TargetStatus::Other(0));
    assert_eq!(rd.signal_per_spad[0][0][0], 0);
}
