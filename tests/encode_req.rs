use linux_gateway::wire;

#[test]
fn request_header_crc_ok() {
    let frame = linux_gateway::encode_calc_request(1, 2, None);

    let sync = wire::SYNC.to_le_bytes();
    assert!(frame.len() >= 10, "frame too short");
    assert_eq!(&frame[0..2], &sync[..]);

    // CRC (bytes 6..10, LE) over [ver][type][len] + payload
    let mut covered = frame[2..6].to_vec();
    covered.extend_from_slice(&frame[10..]);
    let want = u32::from_le_bytes(frame[6..10].try_into().unwrap());
    let got = wire::crc32(&covered);

    assert_eq!(got, want, "CRC mismatch: got {got:#010x} want {want:#010x}");
}

#[test]
fn request_varints_are_multibyte_for_large_values() {
    // Values >=128 must produce multi-byte varints in protobuf
    let frame = linux_gateway::encode_calc_request(150, 100_000, None);
    let payload = &frame[10..];
    // field 1 (tag 0x08): 150 -> 96 01; field 2 (tag 0x10): 100000 -> A0 8D 06
    assert_eq!(payload, &[0x08, 0x96, 0x01, 0x10, 0xA0, 0x8D, 0x06][..]);
}
