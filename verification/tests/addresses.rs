use cost_model::address::address_from_bytes;
use cost_model::address::address_to_bytes;
use solana_sdk::pubkey::Pubkey;

#[test]
fn zero_bytes_spell_the_zero_address() {
    assert_eq!((0, 0, 0, 0), address_from_bytes(&[0u8; 32]));
    assert_eq!([0u8; 32], address_to_bytes(&(0, 0, 0, 0)));
}

#[test]
fn bytes_are_read_most_significant_first() {
    let mut bytes = [0u8; 32];
    bytes[0] = 0x01;
    bytes[7] = 0x02;
    bytes[8] = 0x03;
    bytes[23] = 0x04;
    bytes[24] = 0xff;
    bytes[31] = 0x05;
    assert_eq!(
        (
            0x0100_0000_0000_0002,
            0x0300_0000_0000_0000,
            0x0000_0000_0000_0004,
            0xff00_0000_0000_0005
        ),
        address_from_bytes(&bytes)
    );
}

#[test]
fn words_are_written_most_significant_first() {
    let bytes = address_to_bytes(&(0x0102_0304_0506_0708, 0, u64::MAX, 0x1122_3344_5566_7788));
    let expected: [u8; 32] = [
        1, 2, 3, 4, 5, 6, 7, 8, 0, 0, 0, 0, 0, 0, 0, 0, 255, 255, 255, 255, 255, 255, 255, 255,
        0x11, 0x22, 0x33, 0x44, 0x55, 0x66, 0x77, 0x88,
    ];
    assert_eq!(expected, bytes);
}

#[test]
fn bytes_come_back_from_their_address() {
    let mut bytes = [0u8; 32];
    for (at, byte) in bytes.iter_mut().enumerate() {
        *byte = (at * 37 + 11) as u8;
    }
    assert_eq!(bytes, address_to_bytes(&address_from_bytes(&bytes)));
    let greatest = [255u8; 32];
    assert_eq!(
        (u64::MAX, u64::MAX, u64::MAX, u64::MAX),
        address_from_bytes(&greatest)
    );
    assert_eq!(greatest, address_to_bytes(&address_from_bytes(&greatest)));
}

#[test]
fn public_keys_come_back_from_their_address() {
    for _ in 0..16 {
        let pubkey = Pubkey::new_unique();
        let address = address_from_bytes(&pubkey.to_bytes());
        assert_eq!(pubkey, Pubkey::new_from_array(address_to_bytes(&address)));
    }
}

#[test]
fn different_public_keys_have_different_addresses() {
    let first = Pubkey::new_unique();
    let second = Pubkey::new_unique();
    assert_ne!(
        address_from_bytes(&first.to_bytes()),
        address_from_bytes(&second.to_bytes())
    );
}
