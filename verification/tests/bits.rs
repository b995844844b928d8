use rbufr::bits::BitInput;
use rbufr::errors::{Error, ParseReason};

fn pack_bits(pairs: &[(u64, u32)]) -> Vec<u8> {
    let mut bits: Vec<bool> = Vec::new();
    for (value, width) in pairs {
        for k in (0..*width).rev() {
            bits.push((value >> k) & 1 == 1);
        }
    }
    while bits.len() % 8 != 0 {
        bits.push(false);
    }
    let mut bytes = Vec::new();
    for chunk in bits.chunks(8) {
        let mut b = 0u8;
        for bit in chunk {
            b = (b << 1) | (*bit as u8);
        }
        bytes.push(b);
    }
    bytes
}

#[test]
fn reads_aligned_whole_bytes() {
    let data = [0x12u8, 0x34, 0x56, 0x78, 0x9A, 0xBC, 0xDE, 0xF0, 0x11, 0x22];
    let mut input = BitInput::new(&data);
    assert_eq!(input.get_arbitary_bits(8), Ok(0x12));
    assert_eq!(input.get_arbitary_bits(16), Ok(0x3456));
    assert_eq!(input.get_arbitary_bits(24), Ok(0x789ABC));
    assert_eq!(input.get_arbitary_bits(32), Ok(0xDEF01122));
    assert_eq!(input.pointer(), 0);
    assert_eq!(input.get_arbitary_bits(1), Err(Error::Underflow));
}

#[test]
fn reads_zero_bits_without_moving() {
    let data = [0xFFu8];
    let mut input = BitInput::new(&data);
    assert_eq!(input.get_arbitary_bits(0), Ok(0));
    assert_eq!(input.pointer(), 0);
    assert_eq!(input.get_arbitary_bits(8), Ok(0xFF));
    assert_eq!(input.get_arbitary_bits(0), Ok(0));
}

#[test]
fn reads_fields_that_cross_bytes() {
    // 101 10011 | 0001 1110 | 1111 0000
    let data = [0b1011_0011u8, 0b0001_1110, 0b1111_0000];
    let mut input = BitInput::new(&data);
    assert_eq!(input.get_arbitary_bits(3), Ok(0b101));
    assert_eq!(input.pointer(), 3);
    assert_eq!(input.get_arbitary_bits(9), Ok(0b1_0011_0001));
    assert_eq!(input.pointer(), 4);
    assert_eq!(input.get_arbitary_bits(12), Ok(0b1110_1111_0000));
    assert_eq!(input.pointer(), 0);
}

#[test]
fn reads_aligned_generic_widths() {
    let data = [0xAB, 0xCD, 0xEF, 0x01, 0x23, 0x45, 0x67, 0x89];
    let mut input = BitInput::new(&data);
    // 40 bits: five whole bytes.
    assert_eq!(input.get_arbitary_bits(40), Ok(0xABCDEF0123));
    // 20 bits: two whole bytes and the upper half of the third.
    assert_eq!(input.get_arbitary_bits(20), Ok(0x45678));
    assert_eq!(input.pointer(), 4);
    assert_eq!(input.get_arbitary_bits(4), Ok(0x9));
}

#[test]
fn reads_sixty_four_bits_at_every_offset() {
    for offset in 0..8u32 {
        let value: u64 = 0xF123_4567_89AB_CDE5;
        let bytes = pack_bits(&[(0, offset), (value, 64), (0b101, 3)]);
        let mut input = BitInput::new(&bytes);
        assert_eq!(input.get_arbitary_bits(offset as usize), Ok(0));
        assert_eq!(input.get_arbitary_bits(64), Ok(value));
        assert_eq!(input.get_arbitary_bits(3), Ok(0b101));
    }
}

#[test]
fn round_trips_packed_pairs() {
    let pairs: Vec<(u64, u32)> = vec![
        (1, 1),
        (0, 1),
        (5, 3),
        (0x7F, 7),
        (0xABC, 12),
        (0, 13),
        (0xFFFF_FFFF, 32),
        (0x1_2345_6789, 33),
        (u64::MAX, 64),
        (0x7FFF_FFFF_FFFF_FFFF, 63),
        (2, 2),
        (0xDEAD_BEEF_F00D, 48),
        (1, 64),
        (0x15, 5),
    ];
    let bytes = pack_bits(&pairs);
    let mut input = BitInput::new(&bytes);
    for (value, width) in &pairs {
        assert_eq!(input.get_arbitary_bits(*width as usize), Ok(*value));
    }
}

#[test]
fn round_trips_every_width_at_every_offset() {
    for width in 1..=64u32 {
        for offset in 0..8u32 {
            let value = if width == 64 {
                0x8000_0000_0000_0001u64
            } else {
                (1u64 << (width - 1)) | 1
            };
            let bytes = pack_bits(&[(0, offset), (value, width)]);
            let mut input = BitInput::new(&bytes);
            assert_eq!(input.get_arbitary_bits(offset as usize), Ok(0));
            assert_eq!(input.get_arbitary_bits(width as usize), Ok(value));
        }
    }
}

#[test]
fn underflow_leaves_the_cursor_in_place() {
    let data = [0b1010_1010u8, 0xFF];
    let mut input = BitInput::new(&data);
    assert_eq!(input.get_arbitary_bits(3), Ok(0b101));
    assert_eq!(input.get_arbitary_bits(14), Err(Error::Underflow));
    assert_eq!(input.pointer(), 3);
    assert_eq!(input.get_arbitary_bits(13), Ok(0b0_1010_1111_1111));
    assert_eq!(input.get_arbitary_bits(1), Err(Error::Underflow));
}

#[test]
fn rejects_more_than_sixty_four_bits() {
    let data = [0u8; 16];
    let mut input = BitInput::new(&data);
    assert_eq!(
        input.get_arbitary_bits(65),
        Err(Error::Parse(ParseReason::WidthTooLarge))
    );
    assert_eq!(input.get_arbitary_bits(3), Ok(0));
    assert_eq!(
        input.get_arbitary_bits(72),
        Err(Error::Parse(ParseReason::WidthTooLarge))
    );
}

#[test]
fn takes_aligned_strings() {
    let data = b"BUFRdata";
    let mut input = BitInput::new(data);
    assert_eq!(input.take_string(4), Ok("BUFR".to_string()));
    assert_eq!(input.take_string(0), Ok(String::new()));
    assert_eq!(input.take_string(4), Ok("data".to_string()));
    assert_eq!(input.take_string(1), Err(Error::Underflow));
}

#[test]
fn takes_unaligned_strings() {
    let text = b"Oslo";
    let mut pairs: Vec<(u64, u32)> = vec![(0b11, 2)];
    for b in text {
        pairs.push((*b as u64, 8));
    }
    pairs.push((0b1, 1));
    let bytes = pack_bits(&pairs);
    let mut input = BitInput::new(&bytes);
    assert_eq!(input.get_arbitary_bits(2), Ok(0b11));
    assert_eq!(input.take_string(4), Ok("Oslo".to_string()));
    assert_eq!(input.pointer(), 2);
    assert_eq!(input.get_arbitary_bits(1), Ok(1));
}

#[test]
fn string_errors_leave_the_cursor_in_place() {
    let data = [0x41u8, 0xFF, 0xFE, 0x42];
    let mut input = BitInput::new(&data);
    assert_eq!(input.take_string(3), Err(Error::InvalidUtf8));
    assert_eq!(input.take_string(5), Err(Error::Underflow));
    assert_eq!(input.take_string(1), Ok("A".to_string()));
    // Unaligned: one bit in, the bytes are 0x83 0xFF ...
    let mut shifted = BitInput::new(&data);
    assert_eq!(shifted.get_arbitary_bits(1), Ok(0));
    assert_eq!(shifted.take_string(2), Err(Error::InvalidUtf8));
    assert_eq!(shifted.pointer(), 1);
    assert_eq!(shifted.take_string(4), Err(Error::Underflow));
    assert_eq!(shifted.get_arbitary_bits(7), Ok(0x41));
}

#[test]
fn reads_batches_bytewise() {
    let data: Vec<u8> = (1..=24u8).collect();
    let mut input = BitInput::new(&data);
    assert_eq!(input.get_batch_same_width(8, 2), Ok(vec![1, 2]));
    assert_eq!(input.get_batch_same_width(16, 2), Ok(vec![0x0304, 0x0506]));
    assert_eq!(
        input.get_batch_same_width(24, 2),
        Ok(vec![0x070809, 0x0A0B0C])
    );
    assert_eq!(input.get_batch_same_width(32, 1), Ok(vec![0x0D0E0F10]));
    assert_eq!(input.get_batch_same_width(40, 1), Ok(vec![0x1112131415]));
    assert_eq!(input.get_batch_same_width(8, 0), Ok(vec![]));
    assert_eq!(input.get_batch_same_width(8, 4), Err(Error::Underflow));
    assert_eq!(input.get_batch_same_width(8, 3), Ok(vec![0x16, 0x17, 0x18]));
}

#[test]
fn reads_batches_field_by_field() {
    let pairs: Vec<(u64, u32)> = vec![(1, 3), (100, 7), (27, 7), (127, 7), (0, 7)];
    let bytes = pack_bits(&pairs);
    let mut input = BitInput::new(&bytes);
    assert_eq!(input.get_arbitary_bits(3), Ok(1));
    assert_eq!(input.get_batch_same_width(7, 4), Ok(vec![100, 27, 127, 0]));
    assert_eq!(
        input.get_batch_same_width(65, 1),
        Err(Error::Parse(ParseReason::WidthTooLarge))
    );
    assert_eq!(input.get_batch_same_width(65, 0), Ok(vec![]));
    assert_eq!(input.get_batch_same_width(7, 1), Err(Error::Underflow));
    assert_eq!(input.get_batch_same_width(0, 3), Ok(vec![0, 0, 0]));
}
