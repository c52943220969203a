use btc_tx_codec::{BitcoinError, OutPoint, Txid};

fn sample() -> OutPoint {
    let mut raw = [0u8; 32];
    for i in 0..32 {
        raw[i] = (0xA0 + i) as u8;
    }
    OutPoint::new(raw, 0x0102_0304)
}

#[test]
fn outpoint_new_keeps_fields() {
    let o = OutPoint::new([7u8; 32], 9);
    assert_eq!(o.txid, Txid([7u8; 32]));
    assert_eq!(o.vout, 9);
}

#[test]
fn outpoint_encoding_is_identifier_then_index() {
    let bytes = sample().to_bytes();
    assert_eq!(bytes.len(), 36);
    for i in 0..32 {
        assert_eq!(bytes[i], (0xA0 + i) as u8);
    }
    assert_eq!(&bytes[32..], &[4u8, 3, 2, 1]);
}

#[test]
fn outpoint_round_trip() {
    let bytes = sample().to_bytes();
    assert_eq!(OutPoint::from_bytes(&bytes), Ok((sample(), 36)));
}

#[test]
fn outpoint_thirty_five_bytes_fail() {
    let bytes = sample().to_bytes();
    assert_eq!(OutPoint::from_bytes(&bytes[..35]), Err(BitcoinError::InsufficientBytes));
}

#[test]
fn outpoint_every_proper_prefix_fails() {
    let bytes = sample().to_bytes();
    for k in 0..bytes.len() {
        assert_eq!(OutPoint::from_bytes(&bytes[..k]), Err(BitcoinError::InsufficientBytes));
    }
}

#[test]
fn outpoint_ignores_trailing_bytes() {
    let mut bytes = sample().to_bytes();
    bytes.extend_from_slice(&[1, 2, 3]);
    assert_eq!(OutPoint::from_bytes(&bytes), Ok((sample(), 36)));
}
