use nitrate::effects::{hazard_on, waveform_index, MeterSkin, Rng};

#[test]
fn rng_is_xorshift() {
    let mut r = Rng::new(0);
    let a = r.next_u64();
    let mut x: u64 = 1;
    x ^= x << 13;
    x ^= x >> 7;
    x ^= x << 17;
    assert_eq!(a, x);
    assert_ne!(a, 0);
    for _ in 0..1000 {
        assert_ne!(r.next_u64(), 0);
    }
}

#[test]
fn rng_ranges() {
    let mut r = Rng::new(0x4E495452415445);
    for _ in 0..200 {
        let v = r.range_u16(8, 28);
        assert!((8..28).contains(&v));
    }
    assert_eq!(r.range_u16(5, 5), 5);
    assert_eq!(r.range_u16(9, 3), 9);
}

#[test]
fn hazard_stripes() {
    assert!(hazard_on(0, 0));
    assert!(hazard_on(1, 0));
    assert!(!hazard_on(2, 0));
    assert!(!hazard_on(0, 4));
    assert!(hazard_on(65535, 2));
}

#[test]
fn waveform_scrolls() {
    assert_eq!(waveform_index(10, 4, 0), Some(6));
    assert_eq!(waveform_index(10, 4, 3), Some(9));
    assert_eq!(waveform_index(2, 4, 1), Some(1));
    assert_eq!(waveform_index(2, 4, 2), None);
    assert_eq!(MeterSkin::Live, MeterSkin::Live);
}
