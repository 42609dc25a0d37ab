use blocks::block::{Block, Content};
use blocks::codec::{decode_message, encode_message, CodecError};
use blocks::message::{Message, MessageLabel};

fn block(hash: &str, timestamp: i64, data: &str) -> Block {
    Block::new(hash.to_string(), Content::new(timestamp, data.to_string()))
}

#[test]
fn empty_request_bytes() {
    let message = Message::new(Vec::new(), MessageLabel::AskLastBlock);
    let bytes = encode_message(&message);
    assert_eq!(bytes, vec![0u8; 12]);
}

#[test]
fn one_block_bytes() {
    let message = Message::new(vec![block("A", 1, "genesis")], MessageLabel::SendBlock);
    let bytes = encode_message(&message);
    let mut expected: Vec<u8> = vec![1, 0, 0, 0];
    expected.extend_from_slice(&[1, 0, 0, 0, 0, 0, 0, 0]);
    expected.extend_from_slice(&[1, 0, 0, 0, 0, 0, 0, 0, b'A']);
    expected.extend_from_slice(&[1, 0, 0, 0, 0, 0, 0, 0]);
    expected.extend_from_slice(&[7, 0, 0, 0, 0, 0, 0, 0]);
    expected.extend_from_slice(b"genesis");
    assert_eq!(bytes, expected);
}

#[test]
fn negative_timestamp_bytes() {
    let message = Message::new(vec![block("", -2, "")], MessageLabel::SendBlock);
    let bytes = encode_message(&message);
    assert_eq!(&bytes[20..28], &[0xfe, 0xff, 0xff, 0xff, 0xff, 0xff, 0xff, 0xff]);
    assert_eq!(bytes.len(), 4 + 8 + 8 + 8 + 8);
}

#[test]
fn round_trip_keeps_label_and_blocks() {
    let message = Message::new(
        vec![block("A", 1, "genesis"), block("b3f9", -7, "héllo, wörld ✓"), block("", i64::MAX, "")],
        MessageLabel::SendBlock,
    );
    let bytes = encode_message(&message);
    let back = decode_message(&bytes).unwrap();
    assert_eq!(back, message);
}

#[test]
fn round_trip_of_empty_message() {
    let message = Message::new(Vec::new(), MessageLabel::SendBlock);
    let bytes = encode_message(&message);
    assert_eq!(decode_message(&bytes), Ok(message));
}

#[test]
fn trailing_bytes_are_ignored() {
    let message = Message::new(vec![block("A", 1, "genesis")], MessageLabel::SendBlock);
    let mut bytes = encode_message(&message);
    bytes.extend_from_slice(&[9, 9, 9]);
    assert_eq!(decode_message(&bytes), Ok(message));
}

#[test]
fn truncated_bytes_are_malformed() {
    let message = Message::new(vec![block("A", 1, "genesis")], MessageLabel::SendBlock);
    let bytes = encode_message(&message);
    assert_eq!(decode_message(&bytes[..bytes.len() - 1]), Err(CodecError::Malformed));
    assert_eq!(decode_message(&[]), Err(CodecError::Malformed));
}

#[test]
fn unknown_label_is_malformed() {
    let mut bytes = vec![0u8; 12];
    bytes[0] = 2;
    assert_eq!(decode_message(&bytes), Err(CodecError::Malformed));
}

#[test]
fn invalid_text_is_malformed() {
    let mut bytes: Vec<u8> = vec![1, 0, 0, 0, 1, 0, 0, 0, 0, 0, 0, 0];
    bytes.extend_from_slice(&[1, 0, 0, 0, 0, 0, 0, 0, 0xff]);
    bytes.extend_from_slice(&[0; 16]);
    assert_eq!(decode_message(&bytes), Err(CodecError::Malformed));
}

#[test]
fn oversized_count_is_malformed() {
    let bytes: Vec<u8> = vec![1, 0, 0, 0, 0xff, 0xff, 0xff, 0xff, 0xff, 0xff, 0xff, 0xff];
    assert_eq!(decode_message(&bytes), Err(CodecError::Malformed));
}

#[test]
fn bytes_match_bincode_of_same_shape() {
    let message = Message::new(
        vec![block("A", 1, "genesis"), block("ß∂", -3, "")],
        MessageLabel::SendBlock,
    );
    let shape: (u32, Vec<(&str, i64, &str)>) = (1, vec![("A", 1, "genesis"), ("ß∂", -3, "")]);
    assert_eq!(encode_message(&message), bincode::serialize(&shape).unwrap());
    let request = Message::new(Vec::new(), MessageLabel::AskLastBlock);
    let empty: (u32, Vec<(&str, i64, &str)>) = (0, Vec::new());
    assert_eq!(encode_message(&request), bincode::serialize(&empty).unwrap());
}

#[test]
fn bincode_bytes_decode() {
    let shape: (u32, Vec<(String, i64, String)>) =
        (1, vec![("H".to_string(), 77, "payload".to_string())]);
    let bytes = bincode::serialize(&shape).unwrap();
    assert_eq!(
        decode_message(&bytes),
        Ok(Message::new(vec![block("H", 77, "payload")], MessageLabel::SendBlock))
    );
}
