//! Address codec tests: both textual forms, their checksums computed with
//! the real CRC-32-IEEE, round trips, and checksum rejection.
use power::address::{address_to_string, string_to_address, Address};

/// Builds the expected short-form string for packed bytes by the format's
/// own rules, with the checksum taken from the crc crate directly: a
/// wrapper that did not really compute CRC-32-IEEE would fail these tests.
fn expected_short(bytes: &[u8; 8]) -> String {
    let wallet = (bytes[7] as u64) | ((bytes[6] as u64) << 8) | ((bytes[5] as u64) << 16);
    let block =
        (bytes[4] as u64) | ((bytes[3] as u64) << 8) | ((0x1f & (bytes[2] as u64)) << 16);
    let group =
        ((bytes[2] as u64) | ((bytes[1] as u64) << 8) | ((0x1f & (bytes[0] as u64)) << 16)) >> 5;
    let int_part = wallet + (block << 24);
    let csum = crc::crc32::checksum_ieee(bytes) as u64;
    let letters: Vec<u8> = "ABCDEFGHIJKLMNOPQRSTUVWXYZ".bytes().collect();
    let g = group / 100;
    format!(
        "{}{}{:02}{:014}{:02}",
        letters[(g / 26) as usize] as char,
        letters[(g % 26) as usize] as char,
        group % 100,
        int_part,
        csum % 100
    )
}

#[test]
fn short_form_round_trip() {
    let bytes = [0x80u8, 0x13, 0x57, 0x02, 0x4c, 0x01, 0xe2, 0x40];
    let addr = Address::from_slice(&bytes);
    let s = address_to_string(&addr);
    assert_eq!(s.len(), 20);
    assert_eq!(s, expected_short(&bytes));
    let back = string_to_address(&s).expect("a rendered address decodes");
    assert_eq!(back, addr);
    assert_eq!(address_to_string(&back), s);
}

#[test]
fn long_form_round_trip() {
    let bytes = [0xa1u8, 0x23, 0x45, 0x67, 0x89, 0xab, 0xcd, 0xef];
    let addr = Address::from_slice(&bytes);
    let s = address_to_string(&addr);
    assert_eq!(s.len(), 18);
    let csum = crc::crc32::checksum_ieee(&bytes);
    assert_eq!(s, format!("{:016X}{:02X}", 0x0123456789abcdefu64, csum % 256));
    let back = string_to_address(&s).expect("a rendered address decodes");
    assert_eq!(back, addr);
    assert_eq!(address_to_string(&back), s);
}

#[test]
fn short_checksum_rejected() {
    let bytes = [0x80u8, 0x13, 0x57, 0x02, 0x4c, 0x01, 0xe2, 0x40];
    let s = address_to_string(&Address::from_slice(&bytes));
    assert!(string_to_address(&s).is_some());
    // changing either checksum digit to a different digit rejects the string
    for p in 18..20 {
        let mut mutated: Vec<u8> = s.bytes().collect();
        mutated[p] = if mutated[p] == b'9' { b'0' } else { mutated[p] + 1 };
        let m = String::from_utf8(mutated).unwrap();
        assert_eq!(string_to_address(&m), None);
    }
}

#[test]
fn long_checksum_rejected() {
    let bytes = [0xa1u8, 0x23, 0x45, 0x67, 0x89, 0xab, 0xcd, 0xef];
    let s = address_to_string(&Address::from_slice(&bytes));
    assert!(string_to_address(&s).is_some());
    for p in 16..18 {
        let mut mutated: Vec<u8> = s.bytes().collect();
        mutated[p] = if mutated[p] == b'9' {
            b'0'
        } else if mutated[p] == b'F' {
            b'A'
        } else {
            mutated[p] + 1
        };
        let m = String::from_utf8(mutated).unwrap();
        assert_eq!(string_to_address(&m), None);
    }
}

#[test]
fn malformed_strings_rejected() {
    // wrong length, wrong character classes: absent, never an abort
    assert_eq!(string_to_address(""), None);
    assert_eq!(string_to_address("AB12"), None);
    assert_eq!(string_to_address("ab00000000000000000099"[..20].into()), None);
    assert_eq!(string_to_address("AA0000000000000000XX"), None);
    assert_eq!(string_to_address("GGGGGGGGGGGGGGGGGG"), None);
    assert_eq!(string_to_address("+0000000000000000000"), None);
}

#[test]
fn address_bytes_access() {
    let bytes = [1u8, 2, 3, 4, 5, 6, 7, 8];
    let a = Address::from_slice(&bytes);
    assert_eq!(a.as_bytes(), &bytes);
    assert_eq!(a.byte(0), 1);
    assert_eq!(a.byte(7), 8);
}
