use glium_text::po2::get_nearest_po2;

#[test]
fn nearest_po2_of_small_numbers() {
    assert_eq!(get_nearest_po2(1), 1);
    assert_eq!(get_nearest_po2(2), 2);
    assert_eq!(get_nearest_po2(3), 4);
    assert_eq!(get_nearest_po2(4), 4);
    assert_eq!(get_nearest_po2(5), 8);
    assert_eq!(get_nearest_po2(140), 256);
    assert_eq!(get_nearest_po2(256), 256);
    assert_eq!(get_nearest_po2(257), 512);
}

#[test]
fn nearest_po2_at_the_top() {
    assert_eq!(get_nearest_po2(0x4000_0000), 0x4000_0000);
    assert_eq!(get_nearest_po2(0x4000_0001), 0x8000_0000);
    assert_eq!(get_nearest_po2(0x8000_0000), 0x8000_0000);
}

#[test]
fn nearest_po2_is_the_power_of_two_within_a_factor_of_two() {
    let mut x: u32 = 1;
    while x < 5000 {
        let r = get_nearest_po2(x);
        assert_eq!(r.count_ones(), 1);
        assert!(x <= r);
        assert!((r as u64) < 2 * (x as u64));
        x += 1;
    }
}
