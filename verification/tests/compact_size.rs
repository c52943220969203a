use btc_tx_codec::{BitcoinError, CompactSize};

fn decode(bytes: &[u8]) -> Result<(CompactSize, usize), BitcoinError> {
    CompactSize::from_bytes(bytes)
}

#[test]
fn compact_size_new_keeps_value() {
    assert_eq!(CompactSize::new(7).value, 7);
}

#[test]
fn compact_size_canonical_boundaries() {
    assert_eq!(CompactSize::new(0).to_bytes(), vec![0u8]);
    assert_eq!(CompactSize::new(252).to_bytes(), vec![252u8]);
    assert_eq!(CompactSize::new(253).to_bytes(), vec![0xFDu8, 253, 0]);
    assert_eq!(CompactSize::new(65535).to_bytes(), vec![0xFDu8, 0xFF, 0xFF]);
    assert_eq!(CompactSize::new(65536).to_bytes(), vec![0xFEu8, 0, 0, 1, 0]);
    assert_eq!(CompactSize::new(4294967295).to_bytes(), vec![0xFEu8, 0xFF, 0xFF, 0xFF, 0xFF]);
    assert_eq!(CompactSize::new(4294967296).to_bytes(), vec![0xFFu8, 0, 0, 0, 0, 1, 0, 0, 0]);
    assert_eq!(CompactSize::new(u64::MAX).to_bytes(), vec![0xFFu8; 9]);
}

#[test]
fn compact_size_little_endian_payload() {
    assert_eq!(CompactSize::new(0x1234).to_bytes(), vec![0xFDu8, 0x34, 0x12]);
    assert_eq!(CompactSize::new(0x1234_5678).to_bytes(), vec![0xFEu8, 0x78, 0x56, 0x34, 0x12]);
    assert_eq!(
        CompactSize::new(0x0102_0304_0506_0708).to_bytes(),
        vec![0xFFu8, 8, 7, 6, 5, 4, 3, 2, 1]
    );
}

#[test]
fn compact_size_decodes_each_form() {
    assert_eq!(decode(&[0x2A]), Ok((CompactSize::new(42), 1)));
    assert_eq!(decode(&[0xFD, 0x34, 0x12]), Ok((CompactSize::new(0x1234), 3)));
    assert_eq!(decode(&[0xFE, 0x78, 0x56, 0x34, 0x12]), Ok((CompactSize::new(0x1234_5678), 5)));
    assert_eq!(
        decode(&[0xFF, 8, 7, 6, 5, 4, 3, 2, 1]),
        Ok((CompactSize::new(0x0102_0304_0506_0708), 9))
    );
}

#[test]
fn compact_size_round_trip() {
    let values: Vec<u64> = vec![
        0, 1, 252, 253, 254, 255, 256, 65535, 65536, 65537, 4294967295, 4294967296, 4294967297,
        u64::MAX - 1, u64::MAX,
    ];
    for v in values {
        let bytes = CompactSize::new(v).to_bytes();
        assert_eq!(decode(&bytes), Ok((CompactSize::new(v), bytes.len())));
    }
}

#[test]
fn compact_size_empty_input() {
    assert_eq!(decode(&[]), Err(BitcoinError::InsufficientBytes));
}

#[test]
fn compact_size_truncated_payload() {
    assert_eq!(decode(&[0xFD]), Err(BitcoinError::InsufficientBytes));
    assert_eq!(decode(&[0xFD, 1]), Err(BitcoinError::InsufficientBytes));
    assert_eq!(decode(&[0xFE, 1, 2, 3]), Err(BitcoinError::InsufficientBytes));
    assert_eq!(decode(&[0xFF, 1, 2, 3, 4, 5, 6, 7]), Err(BitcoinError::InsufficientBytes));
}

#[test]
fn compact_size_every_proper_prefix_fails() {
    let values: Vec<u64> = vec![5, 300, 70000, 5_000_000_000];
    for v in values {
        let bytes = CompactSize::new(v).to_bytes();
        for k in 0..bytes.len() {
            assert_eq!(decode(&bytes[..k]), Err(BitcoinError::InsufficientBytes));
        }
    }
}

#[test]
fn compact_size_ignores_trailing_bytes() {
    assert_eq!(decode(&[0x05, 0xAA, 0xBB]), Ok((CompactSize::new(5), 1)));
    assert_eq!(decode(&[0xFD, 0x00, 0x01, 0xAA]), Ok((CompactSize::new(256), 3)));
    assert_eq!(decode(&[0xFE, 0, 0, 1, 0, 9, 9]), Ok((CompactSize::new(65536), 5)));
    assert_eq!(
        decode(&[0xFF, 0, 0, 0, 0, 1, 0, 0, 0, 7]),
        Ok((CompactSize::new(4294967296), 9))
    );
}

#[test]
fn compact_size_accepts_non_minimal_encoding() {
    assert_eq!(decode(&[0xFD, 5, 0]), Ok((CompactSize::new(5), 3)));
    assert_eq!(decode(&[0xFE, 5, 0, 0, 0]), Ok((CompactSize::new(5), 5)));
    assert_eq!(decode(&[0xFF, 5, 0, 0, 0, 0, 0, 0, 0]), Ok((CompactSize::new(5), 9)));
}
