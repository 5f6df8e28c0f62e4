use channel_audit::error::DecodeError;
use channel_audit::seed::{seed_from_bytes, WALLET_KEYS_SEED_LEN};
use channel_audit::wire::{put_bytes, put_option_u64, put_u16, put_u32, put_u64, put_u8, Reader};

#[test]
fn reads_big_endian_integers() {
    let buf = [0x01u8, 0x02, 0x03, 0x04, 0x05, 0x06, 0x07, 0x08, 0x09, 0x0a, 0x0b, 0x0c, 0x0d, 0x0e, 0x0f];
    let mut r = Reader::new(&buf);
    assert_eq!(r.read_u8(), Ok(0x01));
    assert_eq!(r.read_u16(), Ok(0x0203));
    assert_eq!(r.read_u32(), Ok(0x0405_0607));
    assert_eq!(r.read_u64(), Ok(0x0809_0a0b_0c0d_0e0f));
    assert_eq!(r.position(), 15);
    assert_eq!(r.remaining(), 0);
    assert_eq!(r.read_u8(), Err(DecodeError::UnexpectedEndOfData));
}

#[test]
fn failed_read_leaves_cursor() {
    let buf = [0xaau8, 0xbb, 0xcc];
    let mut r = Reader::new(&buf);
    assert_eq!(r.read_u32(), Err(DecodeError::UnexpectedEndOfData));
    assert_eq!(r.position(), 0);
    assert_eq!(r.read_u16(), Ok(0xaabb));
    assert_eq!(r.read_u64(), Err(DecodeError::UnexpectedEndOfData));
    assert_eq!(r.position(), 2);
    assert_eq!(r.read_array::<2>(), Err(DecodeError::UnexpectedEndOfData));
    assert_eq!(r.read_array::<1>(), Ok([0xcc]));
    assert_eq!(r.read_array::<0>(), Ok([]));
}

#[test]
fn length_prefix_must_fit() {
    let mut buf = Vec::new();
    put_u64(&mut buf, 4);
    buf.extend_from_slice(&[1, 2, 3]);
    let mut r = Reader::new(&buf);
    assert_eq!(r.read_bytes(), Err(DecodeError::InvalidLength));

    let mut short = Vec::new();
    put_u32(&mut short, 7);
    let mut r = Reader::new(&short);
    assert_eq!(r.read_bytes(), Err(DecodeError::UnexpectedEndOfData));
}

#[test]
fn written_values_are_read_back() {
    let mut buf = Vec::new();
    put_u8(&mut buf, 0xfe);
    put_u16(&mut buf, 0xbeef);
    put_u32(&mut buf, 0xdead_beef);
    put_u64(&mut buf, u64::MAX - 1);
    put_bytes(&mut buf, &[9, 8, 7]);
    put_option_u64(&mut buf, None);
    put_option_u64(&mut buf, Some(42));
    assert_eq!(buf.len(), 1 + 2 + 4 + 8 + 11 + 1 + 9);
    assert_eq!(&buf[0..7], &[0xfe, 0xbe, 0xef, 0xde, 0xad, 0xbe, 0xef]);
    let mut r = Reader::new(&buf);
    assert_eq!(r.read_u8(), Ok(0xfe));
    assert_eq!(r.read_u16(), Ok(0xbeef));
    assert_eq!(r.read_u32(), Ok(0xdead_beef));
    assert_eq!(r.read_u64(), Ok(u64::MAX - 1));
    assert_eq!(r.read_bytes(), Ok(vec![9, 8, 7]));
    assert_eq!(r.read_option_u64(), Ok(None));
    assert_eq!(r.read_option_u64(), Ok(Some(42)));
    assert_eq!(r.remaining(), 0);
}

#[test]
fn flag_byte_is_zero_or_one() {
    let buf = [0u8, 1, 2];
    let mut r = Reader::new(&buf);
    assert_eq!(r.read_bool(), Ok(false));
    assert_eq!(r.read_bool(), Ok(true));
    assert_eq!(r.read_bool(), Err(DecodeError::InvalidValue));
}

#[test]
fn seed_has_sixty_four_bytes() {
    assert_eq!(WALLET_KEYS_SEED_LEN, 64);
    let bytes: Vec<u8> = (0..64).collect();
    let seed = seed_from_bytes(&bytes).unwrap();
    assert_eq!(&seed[..], &bytes[..]);
    assert_eq!(seed_from_bytes(&bytes[..63]), None);
    assert_eq!(seed_from_bytes(&[0; 65]), None);
    assert_eq!(seed_from_bytes(&[]), None);
}
