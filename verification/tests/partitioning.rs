use voxelstream::coords::{
    chebyshev, local_index, region_index, region_of, within, RegionCoord,
};

#[test]
fn region_index_positive() {
    assert_eq!(region_index(0, 16), 0);
    assert_eq!(region_index(15, 16), 0);
    assert_eq!(region_index(16, 16), 1);
    assert_eq!(region_index(47, 16), 2);
}

#[test]
fn region_index_negative() {
    assert_eq!(region_index(-1, 16), -1);
    assert_eq!(region_index(-16, 16), -1);
    assert_eq!(region_index(-17, 16), -2);
    assert_eq!(region_index(-32, 16), -2);
    assert_eq!(region_index(-33, 16), -3);
}

#[test]
fn region_index_extremes() {
    assert_eq!(region_index(i64::MAX, 1), i64::MAX);
    assert_eq!(region_index(i64::MIN, 1), i64::MIN);
    assert_eq!(region_index(i64::MIN, 2), i64::MIN / 2);
    assert_eq!(region_index(i64::MIN + 1, 2), i64::MIN / 2);
}

#[test]
fn local_index_values() {
    assert_eq!(local_index(0, 16), 0);
    assert_eq!(local_index(15, 16), 15);
    assert_eq!(local_index(16, 16), 0);
    assert_eq!(local_index(-1, 16), 15);
    assert_eq!(local_index(-16, 16), 0);
    assert_eq!(local_index(-17, 16), 15);
}

#[test]
fn partition_reconstruction() {
    // Every world coordinate is region * size + local, local in [0, size).
    for &w in &[-100i64, -33, -17, -16, -1, 0, 1, 15, 16, 47, 1000] {
        for &s in &[1u16, 3, 16, 255] {
            let r = region_index(w, s);
            let l = local_index(w, s);
            assert!(l < s);
            assert_eq!(r * s as i64 + l as i64, w);
        }
    }
}

#[test]
fn region_of_mixed() {
    let c = region_of(-1, 16, 16);
    assert_eq!(c, RegionCoord { x: -1, z: 1 });
}

#[test]
fn chebyshev_basic() {
    let o = RegionCoord { x: 0, z: 0 };
    assert_eq!(chebyshev(o, o), 0);
    assert_eq!(chebyshev(RegionCoord { x: 3, z: -2 }, o), 3);
    assert_eq!(chebyshev(RegionCoord { x: -2, z: 5 }, o), 5);
    assert_eq!(chebyshev(RegionCoord { x: -4, z: -4 }, o), 4);
}

#[test]
fn chebyshev_extremes() {
    let a = RegionCoord { x: i64::MAX, z: 0 };
    let b = RegionCoord { x: i64::MIN, z: 0 };
    assert_eq!(chebyshev(a, b), u64::MAX);
}

#[test]
fn within_radius() {
    let o = RegionCoord { x: 10, z: -10 };
    assert!(within(RegionCoord { x: 12, z: -8 }, o, 2));
    assert!(!within(RegionCoord { x: 13, z: -10 }, o, 2));
    assert!(within(o, o, 0));
}
