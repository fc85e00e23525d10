use chaosregen::container::{open, repair_frame, seal, verify_data, CodecError};

#[test]
fn seal_empty_payload() {
    let c = seal(&[]);
    assert_eq!(c.len(), 16);
    assert_eq!(&c[0..4], b"SGIL");
    assert_eq!(u64::from_le_bytes(c[4..12].try_into().unwrap()), 0);
    assert_eq!(u32::from_le_bytes(c[12..16].try_into().unwrap()), 0);
    assert_eq!(verify_data(&c), Ok(()));
    assert_eq!(open(&c), Ok(vec![]));
}

#[test]
fn seal_check_value() {
    let c = seal(b"123456789");
    assert_eq!(c.len(), 25);
    assert_eq!(&c[4..12], &[9, 0, 0, 0, 0, 0, 0, 0]);
    assert_eq!(&c[12..16], &[0x26, 0x39, 0xf4, 0xcb]);
    assert_eq!(&c[16..], b"123456789");
    assert_eq!(open(&c), Ok(b"123456789".to_vec()));
}

#[test]
fn verify_reports_each_error() {
    let c = seal(b"hello world");
    assert_eq!(verify_data(&c[..15]), Err(CodecError::TooShort));
    let mut bad_magic = c.clone();
    bad_magic[0] = b'C';
    assert_eq!(verify_data(&bad_magic), Err(CodecError::BadMagic));
    assert_eq!(verify_data(&c[..c.len() - 1]), Err(CodecError::SizeMismatch));
    let mut flipped = c.clone();
    flipped[20] ^= 1;
    assert_eq!(verify_data(&flipped), Err(CodecError::ChecksumMismatch));
    assert_eq!(open(&flipped), Err(CodecError::ChecksumMismatch));
    assert!(CodecError::BadMagic.is_format());
    assert!(!CodecError::ChecksumMismatch.is_format());
}

#[test]
fn every_single_byte_change_is_caught() {
    let payload: Vec<u8> = (0..64u8).collect();
    let c = seal(&payload);
    for i in 16..c.len() {
        for v in [0u8, 1, 0x80, 0xff] {
            if c[i] != v {
                let mut m = c.clone();
                m[i] = v;
                assert_eq!(verify_data(&m), Err(CodecError::ChecksumMismatch));
            }
        }
    }
}

#[test]
fn repair_truncated_container() {
    let mut c = vec![0u8; 16];
    c[0..4].copy_from_slice(b"SGIL");
    c[4..12].copy_from_slice(&1000u64.to_le_bytes());
    c.extend((0..500).map(|i| (i % 251) as u8));
    let (p, valid) = repair_frame(&c).unwrap();
    assert_eq!(p.len(), 1000);
    assert!(!valid);
    assert_eq!(&p[..500], &c[16..]);
    assert!(p[500..].iter().all(|&b| b == 0));
}

#[test]
fn repair_whole_container() {
    let c = seal(b"abcdef");
    assert_eq!(repair_frame(&c), Ok((b"abcdef".to_vec(), true)));
    let mut bad = c.clone();
    bad[16] = b'z';
    assert_eq!(repair_frame(&bad), Ok((b"zbcdef".to_vec(), false)));
    assert_eq!(repair_frame(&c[..10]), Err(CodecError::TooShort));
    let mut wrong = c.clone();
    wrong[3] = 0;
    assert_eq!(repair_frame(&wrong), Err(CodecError::BadMagic));
}
