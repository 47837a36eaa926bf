use socket_io_emitter::wire::fits;

#[test]
fn lengths_up_to_32_bits_fit() {
    assert!(fits(0));
    assert!(fits(31));
    assert!(fits(65536));
    assert!(fits(0xffff_ffff));
    assert!(!fits(0x1_0000_0000));
    assert!(!fits(usize::MAX));
}
