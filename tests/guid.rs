use vhdx::guid::Guid;
use vhdx::Error;

#[test]
fn guid_parse() {
    let expected = Guid::new(
        0x2DC27766,
        0xF623,
        0x4200,
        [0x9D, 0x64, 0x11, 0x5E, 0x9B, 0xFD, 0x4A, 0x08],
    );

    let string = "2DC27766-F623-4200-9D64-115E9BFD4A08";

    assert_eq!(expected, Guid::from_str(string).unwrap());
}

#[test]
fn guid_text_round_trip_upper_cases() {
    let text = "8b7ca206-4790-4b9a-b8fe-575f050f886e";
    let guid = Guid::from_str(text).unwrap();
    assert_eq!(guid.to_text(), "8B7CA206-4790-4B9A-B8FE-575F050F886E");
    let upper = "CAA16737-FA36-4D43-B3B6-33F0AA44E76B";
    assert_eq!(Guid::from_str(upper).unwrap().to_text(), upper);
}

#[test]
fn guid_text_rejects_malformed() {
    assert_eq!(Guid::from_str("2DC27766-F623-4200-9D64-115E9BFD4A0"), Err(Error::BadFormat));
    assert_eq!(Guid::from_str("2DC27766F623-4200-9D64-115E9BFD4A08-"), Err(Error::BadFormat));
    assert_eq!(Guid::from_str("2DC27766-F623-4200-9D64-115E9BFD4A0G"), Err(Error::BadFormat));
    assert_eq!(Guid::from_str("2DC27766-F623-4200-9D64-115E9BFD4A0é"), Err(Error::BadFormat));
    assert_eq!(Guid::from_str(""), Err(Error::BadFormat));
}

#[test]
fn guid_bytes_round_trip() {
    let bytes: [u8; 16] = [
        0x66, 0x77, 0xC2, 0x2D, 0x23, 0xF6, 0x00, 0x42, 0x9D, 0x64, 0x11, 0x5E, 0x9B, 0xFD, 0x4A,
        0x08,
    ];
    let guid = Guid::from_bytes(bytes);
    assert_eq!(guid.to_bytes(), bytes);
    assert_eq!(guid, Guid::from_str("2DC27766-F623-4200-9D64-115E9BFD4A08").unwrap());
    let mut counting = [0u8; 16];
    for (i, b) in counting.iter_mut().enumerate() {
        *b = (i * 17) as u8;
    }
    assert_eq!(Guid::from_bytes(counting).to_bytes(), counting);
}

#[test]
fn guid_wire_fields_little_endian() {
    let bytes: [u8; 16] = [1, 2, 3, 4, 5, 6, 7, 8, 9, 10, 11, 12, 13, 14, 15, 16];
    let guid = Guid::from_bytes(bytes);
    assert_eq!(guid.data_1, 0x04030201);
    assert_eq!(guid.data_2, 0x0605);
    assert_eq!(guid.data_3, 0x0807);
    assert_eq!(guid.data_4, [9, 10, 11, 12, 13, 14, 15, 16]);
    assert_eq!(guid.to_text(), "04030201-0605-0807-090A-0B0C0D0E0F10");
}

#[test]
fn guid_zero_and_inequality() {
    let zero = Guid::zero();
    assert_eq!(zero.to_bytes(), [0u8; 16]);
    assert_ne!(zero, Guid::new(0, 0, 0, [0, 0, 0, 0, 0, 0, 0, 1]));
}

#[test]
fn hex_digits() {
    assert_eq!(vhdx::guid::hex_digit_to_nibble(b'0'), Some(0));
    assert_eq!(vhdx::guid::hex_digit_to_nibble(b'9'), Some(9));
    assert_eq!(vhdx::guid::hex_digit_to_nibble(b'a'), Some(10));
    assert_eq!(vhdx::guid::hex_digit_to_nibble(b'F'), Some(15));
    assert_eq!(vhdx::guid::hex_digit_to_nibble(b'g'), None);
}
