use prism_host::input::keys_to_bitmask;

#[test]
fn empty_key_state_gives_zero() {
    assert_eq!(keys_to_bitmask(&Vec::new()), 0);
}

#[test]
fn one_bit_per_held_key() {
    assert_eq!(keys_to_bitmask(&vec![true, false, true]), 0b101);
    assert_eq!(keys_to_bitmask(&vec![false, false, false, true]), 0b1000);
}

#[test]
fn all_fifty_nine_controls_held() {
    let held = vec![true; 59];
    assert_eq!(keys_to_bitmask(&held), (1u64 << 59) - 1);
}

#[test]
fn full_width_mask() {
    assert_eq!(keys_to_bitmask(&vec![true; 64]), u64::MAX);
}
