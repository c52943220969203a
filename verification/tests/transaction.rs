use btc_tx_codec::{BitcoinError, BitcoinTransaction, CompactSize, OutPoint, Script, TransactionInput};

fn first() -> TransactionInput {
    TransactionInput::new(OutPoint::new([0xAA; 32], 0), Script::new(vec![1, 2, 3]), 0xFFFF_FFFF)
}

fn second() -> TransactionInput {
    TransactionInput::new(OutPoint::new([0xBB; 32], 7), Script::new(vec![]), 5)
}

fn two_inputs() -> BitcoinTransaction {
    BitcoinTransaction::new(2, vec![first(), second()], 0x0102_0304)
}

#[test]
fn transaction_new_keeps_fields() {
    let t = two_inputs();
    assert_eq!(t.version, 2);
    assert_eq!(t.inputs, vec![first(), second()]);
    assert_eq!(t.lock_time, 0x0102_0304);
}

#[test]
fn transaction_without_inputs() {
    let t = BitcoinTransaction::new(1, vec![], 0);
    let bytes = t.to_bytes();
    assert_eq!(bytes, vec![1u8, 0, 0, 0, 0, 0, 0, 0, 0]);
    assert_eq!(BitcoinTransaction::from_bytes(&bytes), Ok((t, 9)));
}

#[test]
fn transaction_encoding_layout() {
    let mut expected: Vec<u8> = vec![2, 0, 0, 0, 2];
    expected.extend_from_slice(&first().to_bytes());
    expected.extend_from_slice(&second().to_bytes());
    expected.extend_from_slice(&[4, 3, 2, 1]);
    assert_eq!(two_inputs().to_bytes(), expected);
}

#[test]
fn transaction_with_two_inputs() {
    let bytes = two_inputs().to_bytes();
    assert_eq!(CompactSize::from_bytes(&bytes[4..]), Ok((CompactSize::new(2), 1)));
    let sizes = first().to_bytes().len() + second().to_bytes().len();
    assert_eq!(sizes, 44 + 41);
    let (decoded, consumed) = BitcoinTransaction::from_bytes(&bytes).unwrap();
    assert_eq!(decoded, two_inputs());
    assert_eq!(consumed, 4 + 1 + sizes + 4);
    assert_eq!(consumed, bytes.len());
}

#[test]
fn transaction_round_trip_with_many_inputs() {
    let mut inputs: Vec<TransactionInput> = Vec::new();
    for i in 0..300u32 {
        inputs.push(TransactionInput::new(
            OutPoint::new([(i % 256) as u8; 32], i),
            Script::new(vec![(i % 7) as u8; (i % 5) as usize]),
            i + 1,
        ));
    }
    let t = BitcoinTransaction::new(9, inputs, 77);
    let bytes = t.to_bytes();
    assert_eq!(&bytes[4..7], &[0xFDu8, 0x2C, 0x01]);
    assert_eq!(BitcoinTransaction::from_bytes(&bytes), Ok((t, bytes.len())));
}

#[test]
fn transaction_every_proper_prefix_fails() {
    let bytes = two_inputs().to_bytes();
    for k in 0..bytes.len() {
        assert_eq!(
            BitcoinTransaction::from_bytes(&bytes[..k]),
            Err(BitcoinError::InsufficientBytes)
        );
    }
}

#[test]
fn transaction_short_version() {
    assert_eq!(BitcoinTransaction::from_bytes(&[1, 0, 0]), Err(BitcoinError::InsufficientBytes));
}

#[test]
fn transaction_missing_count() {
    assert_eq!(BitcoinTransaction::from_bytes(&[1, 0, 0, 0]), Err(BitcoinError::InsufficientBytes));
}

#[test]
fn transaction_declares_more_inputs_than_follow() {
    let mut bytes: Vec<u8> = vec![1, 0, 0, 0, 2];
    bytes.extend_from_slice(&first().to_bytes());
    assert_eq!(BitcoinTransaction::from_bytes(&bytes), Err(BitcoinError::InsufficientBytes));
}

#[test]
fn transaction_declares_a_huge_number_of_inputs() {
    let mut bytes: Vec<u8> = vec![1, 0, 0, 0];
    bytes.extend_from_slice(&[0xFF; 9]);
    assert_eq!(BitcoinTransaction::from_bytes(&bytes), Err(BitcoinError::InsufficientBytes));
}

#[test]
fn transaction_missing_lock_time() {
    let mut bytes: Vec<u8> = vec![1, 0, 0, 0, 1];
    bytes.extend_from_slice(&first().to_bytes());
    bytes.extend_from_slice(&[0, 0, 0]);
    assert_eq!(BitcoinTransaction::from_bytes(&bytes), Err(BitcoinError::InsufficientBytes));
}

#[test]
fn transaction_ignores_trailing_bytes() {
    let mut bytes = two_inputs().to_bytes();
    let n = bytes.len();
    bytes.extend_from_slice(&[0xEE; 10]);
    assert_eq!(BitcoinTransaction::from_bytes(&bytes), Ok((two_inputs(), n)));
}

#[test]
fn transaction_report_without_inputs() {
    let t = BitcoinTransaction::new(1, vec![], 0);
    assert_eq!(t.render(), "Version: 1\nInput Count: 0\nLock Time: 0");
}

#[test]
fn transaction_report_with_two_inputs() {
    let expected = format!(
        "Version: 2\nInput Count: 2\nInput 0:\n  Previous Output Txid: {}\n  Previous Output Vout: 0\n  ScriptSig Length: 3\n  ScriptSig Bytes: 010203\n  Sequence: 4294967295\nInput 1:\n  Previous Output Txid: {}\n  Previous Output Vout: 7\n  ScriptSig Length: 0\n  ScriptSig Bytes: \n  Sequence: 5\nLock Time: 16909060",
        "aa".repeat(32),
        "bb".repeat(32)
    );
    assert_eq!(two_inputs().render(), expected);
}
