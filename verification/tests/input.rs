use btc_tx_codec::{BitcoinError, OutPoint, Script, TransactionInput};

fn sample() -> TransactionInput {
    TransactionInput::new(
        OutPoint::new([0x11; 32], 1),
        Script::new(vec![0xDE, 0xAD, 0xBE, 0xEF]),
        0xFFFF_FFFE,
    )
}

#[test]
fn input_new_keeps_fields() {
    let i = sample();
    assert_eq!(i.previous_output, OutPoint::new([0x11; 32], 1));
    assert_eq!(i.script_sig, Script::new(vec![0xDE, 0xAD, 0xBE, 0xEF]));
    assert_eq!(i.sequence, 0xFFFF_FFFE);
}

#[test]
fn input_encoding_is_outpoint_script_sequence() {
    let mut expected: Vec<u8> = vec![0x11; 32];
    expected.extend_from_slice(&[1, 0, 0, 0]);
    expected.extend_from_slice(&[4, 0xDE, 0xAD, 0xBE, 0xEF]);
    expected.extend_from_slice(&[0xFE, 0xFF, 0xFF, 0xFF]);
    assert_eq!(sample().to_bytes(), expected);
}

#[test]
fn input_round_trip() {
    let bytes = sample().to_bytes();
    assert_eq!(bytes.len(), 45);
    assert_eq!(TransactionInput::from_bytes(&bytes), Ok((sample(), 45)));
}

#[test]
fn input_round_trip_with_empty_script() {
    let i = TransactionInput::new(OutPoint::new([0; 32], 0), Script::new(vec![]), 0);
    let bytes = i.to_bytes();
    assert_eq!(bytes.len(), 41);
    assert_eq!(TransactionInput::from_bytes(&bytes), Ok((i, 41)));
}

#[test]
fn input_every_proper_prefix_fails() {
    let bytes = sample().to_bytes();
    for k in 0..bytes.len() {
        assert_eq!(
            TransactionInput::from_bytes(&bytes[..k]),
            Err(BitcoinError::InsufficientBytes)
        );
    }
}

#[test]
fn input_script_failure_is_passed_on() {
    let mut bytes: Vec<u8> = vec![0x11; 36];
    bytes.extend_from_slice(&[5, 1, 2, 3]);
    assert_eq!(TransactionInput::from_bytes(&bytes), Err(BitcoinError::InsufficientBytes));
}

#[test]
fn input_missing_sequence() {
    let mut bytes: Vec<u8> = vec![0x11; 36];
    bytes.extend_from_slice(&[1, 0xAA, 1, 2, 3]);
    assert_eq!(TransactionInput::from_bytes(&bytes), Err(BitcoinError::InsufficientBytes));
}

#[test]
fn input_ignores_trailing_bytes() {
    let mut bytes = sample().to_bytes();
    bytes.extend_from_slice(&[9, 9]);
    assert_eq!(TransactionInput::from_bytes(&bytes), Ok((sample(), 45)));
}

#[test]
fn input_report() {
    let expected = format!(
        "Input 3:\n  Previous Output Txid: {}\n  Previous Output Vout: 1\n  ScriptSig Length: 4\n  ScriptSig Bytes: deadbeef\n  Sequence: 4294967294\n",
        "11".repeat(32)
    );
    assert_eq!(sample().render(3), expected);
}
