use spectrum_tools::net::MacAddress;

#[test]
fn mac_to_string_all_zero() {
    assert_eq!(MacAddress::new([0; 6]).to_string(), "00:00:00:00:00:00");
}

#[test]
fn mac_to_string_hex() {
    let mac = MacAddress::new([0xFE, 0xDC, 0xBA, 0x98, 0x76, 0x54]);
    assert_eq!(mac.to_string(), "FE:DC:BA:98:76:54");
}

#[test]
fn mac_from_hash_takes_low_four_bytes() {
    let mac = MacAddress::from_hash(0x1122_3344_5566_7788);
    assert_eq!(mac.to_octets(), [0x02, 0x00, 0x55, 0x66, 0x77, 0x88]);
    assert_eq!(mac.to_string(), "02:00:55:66:77:88");
}
