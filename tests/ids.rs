use bee_core::codec::CodecError;
use bee_core::ids::{MessageError, OutputId, TransactionId, UTXOInput};

use core::str::FromStr;

#[test]
fn output_id_bytes_are_id_then_little_endian_index() {
    let o = OutputId::new(TransactionId::new([0xab; 32]), 0x0102);
    let bytes = o.pack();
    assert_eq!(bytes.len(), 34);
    assert_eq!(&bytes[..32], &[0xab; 32]);
    assert_eq!(&bytes[32..], &[0x02, 0x01]);
    assert_eq!(o.to_string(), format!("{}0201", "ab".repeat(32)));
}

#[test]
fn output_id_accepts_upper_case_hex() {
    let lower = "52fdfc072182654f163f5f0f9a621d729566c74d10037c4d7bbb0407d1e2c6492a00";
    let upper = lower.to_uppercase();
    assert_eq!(OutputId::from_str(&upper).unwrap(), OutputId::from_str(lower).unwrap());
    assert_eq!(OutputId::from_str(lower).unwrap().index(), 42);
}

#[test]
fn output_id_rejects_bad_text() {
    assert_eq!(OutputId::from_str("zz"), Err(MessageError::InvalidHex));
    assert_eq!(OutputId::from_str("abc"), Err(MessageError::InvalidHex));
    assert_eq!(OutputId::from_str("abcd"), Err(MessageError::InvalidHexLength));
    assert_eq!(OutputId::from_str(""), Err(MessageError::InvalidHexLength));
}

#[test]
fn utxo_input_unpack_is_strict() {
    let input = UTXOInput::new(TransactionId::new([9; 32]), 3).unwrap();
    let bytes = input.pack();
    assert_eq!(UTXOInput::unpack(&bytes[..33]), Err(CodecError::UnexpectedEof));
    let mut longer = bytes.clone();
    longer.push(1);
    assert_eq!(UTXOInput::unpack(&longer), Err(CodecError::TrailingBytes));
}
