use pipe_cleaner::wasm_entity::Handle;

#[test]
fn handle_packs_id_low_and_index_high() {
    let h = Handle::new(7, 3);
    assert_eq!(h.bits(), 0x0000_0003_0000_0007);
    assert_eq!(h.id(), 7);
    assert_eq!(h.index(), 3);
}

#[test]
fn handle_round_trip() {
    let h = Handle::new(0xdead_beef, 0x1234_5678);
    assert_eq!(h.bits(), 0x1234_5678_dead_beef);
    assert_eq!(Handle::from_bits(h.bits()), Some(h));
}

#[test]
fn handle_decoding_rejects_a_zero_half() {
    assert_eq!(Handle::from_bits(0), None);
    assert_eq!(Handle::from_bits(5), None);
    assert_eq!(Handle::from_bits(5u64 << 32), None);
    assert_eq!(Handle::from_bits(0xffff_ffff_0000_0000), None);
    assert_eq!(Handle::from_bits(0x0000_0000_ffff_ffff), None);
}

#[test]
fn handle_decoding_accepts_two_nonzero_halves() {
    let h = Handle::from_bits(0x0000_0001_0000_0001).unwrap();
    assert_eq!(h.id(), 1);
    assert_eq!(h.index(), 1);
    let h = Handle::from_bits(u64::MAX).unwrap();
    assert_eq!(h.id(), u32::MAX);
    assert_eq!(h.index(), u32::MAX);
    assert_eq!(Handle::bits_to_id(0xaaaa_bbbb_cccc_dddd), 0xcccc_dddd);
    assert_eq!(Handle::bits_to_index(0xaaaa_bbbb_cccc_dddd), 0xaaaa_bbbb);
}
