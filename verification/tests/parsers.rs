use cachelib::simulator::parse_address;
use cachelib::simulator::parse_size;
use cachelib::simulator::Simulator;

#[test]
fn parse_address_small_value() {
    let address = b"000000000000000A";
    assert_eq!(parse_address(address), 10);
}

#[test]
fn parse_address_agrees_with_standard_decode() {
    let fields: [&[u8; 16]; 6] = [
        b"0000000000000000",
        b"00000000deadbeef",
        b"00000000DEADBEEF",
        b"0123456789abcdef",
        b"ffffffffffffffff",
        b"7fffFFFF00001234",
    ];
    for field in fields {
        let expected = u64::from_str_radix(std::str::from_utf8(field).unwrap(), 16).unwrap();
        assert_eq!(parse_address(field), expected);
        assert_eq!(Simulator::parse_address(field), expected);
    }
}

#[test]
fn parse_address_ignores_non_hex_bytes() {
    // A malformed digit contributes zero, as the lookup-table decoder did.
    assert_eq!(parse_address(b"000000000000000G"), 0);
    assert_eq!(parse_address(b"00000000000000G1"), 1);
}

#[test]
fn parse_size_small_value() {
    let size = b"010";
    assert_eq!(parse_size(size), 10);
}

#[test]
fn parse_size_agrees_with_standard_decode() {
    for value in [0u16, 1, 7, 10, 99, 100, 123, 255, 640, 999] {
        let field = format!("{:03}", value);
        let parsed = parse_size(field.as_bytes());
        let expected: u16 = field.parse().unwrap();
        assert_eq!(parsed, expected);
        assert_eq!(parsed, value);
    }
}
