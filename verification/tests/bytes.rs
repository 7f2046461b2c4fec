use shader_patcher::bytes::{digest_from_words, push_le, read_le, read_u128_le, read_u16_le, read_u32_le, write_u128_le};

#[test]
fn reads_little_endian_numbers() {
    let b = [0x78u8, 0x56, 0x34, 0x12, 0xff];
    assert_eq!(read_u16_le(&b, 0), 0x5678);
    assert_eq!(read_u32_le(&b, 0), 0x12345678);
    assert_eq!(read_u32_le(&b, 1), 0xff123456);
    assert_eq!(read_le(&b, 2, 3), 0xff1234);
    assert_eq!(read_le(&b, 2, 0), 0);
    let all = [0xffu8; 16];
    assert_eq!(read_u128_le(&all, 0), u128::MAX);
}

#[test]
fn writes_and_pushes_little_endian_numbers() {
    let mut b = vec![0xeeu8; 20];
    write_u128_le(&mut b, 2, 0x0102030405060708090a0b0c0d0e0f10);
    assert_eq!(&b[..2], &[0xee, 0xee]);
    assert_eq!(&b[2..18], &0x0102030405060708090a0b0c0d0e0f10u128.to_le_bytes());
    assert_eq!(&b[18..], &[0xee, 0xee]);
    assert_eq!(read_u128_le(&b, 2), 0x0102030405060708090a0b0c0d0e0f10);
    let mut v = vec![1u8];
    push_le(&mut v, 0xabcdef, 4);
    assert_eq!(v, vec![1, 0xef, 0xcd, 0xab, 0]);
    push_le(&mut v, 0x1ff, 1);
    assert_eq!(v, vec![1, 0xef, 0xcd, 0xab, 0, 0xff]);
}

#[test]
fn digest_words_pack_little_endian() {
    assert_eq!(digest_from_words([1, 0, 0, 0]), 1);
    assert_eq!(digest_from_words([0, 1, 0, 0]), 1u128 << 32);
    assert_eq!(digest_from_words([0, 0, 0, 0x8000_0000]), 1u128 << 127);
    let words = [0x11223344u32, 0x55667788, 0x99aabbcc, 0xddeeff00];
    let mut bytes = Vec::new();
    for w in words {
        bytes.extend_from_slice(&w.to_le_bytes());
    }
    assert_eq!(digest_from_words(words), u128::from_le_bytes(bytes.try_into().unwrap()));
}
