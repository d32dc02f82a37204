use wasp_gateway::msg::{Message, MessageType};
use wasp_gateway::wire::{decode_msg, encode_msg};

fn sample() -> Message {
    Message::new("/hello".to_string(), MessageType::Call, 0xdead_beef_cafe_f00d)
        .set_header("X-Trace".to_string(), "abc".to_string())
        .set_header("X-Trace".to_string(), "def".to_string())
        .set_body(vec![1, 2, 3, 0, 255])
}

#[test]
fn round_trip_simple() {
    let m = sample();
    let bytes = encode_msg(&m);
    let d = decode_msg(&bytes).expect("framing of a message must decode");
    assert!(matches!(d.mtype, MessageType::Call));
    assert_eq!(d.target, "/hello".to_string());
    assert_eq!(d.id, 0xdead_beef_cafe_f00d);
    assert_eq!(
        d.headers,
        vec![
            ("X-Trace".to_string(), "abc".to_string()),
            ("X-Trace".to_string(), "def".to_string()),
        ]
    );
    assert_eq!(d.body, vec![1, 2, 3, 0, 255]);
}

#[test]
fn round_trip_reply_kind() {
    let m = Message::new(String::new(), MessageType::Reply, 0);
    let bytes = encode_msg(&m);
    let d = decode_msg(&bytes).expect("framing of a message must decode");
    assert!(matches!(d.mtype, MessageType::Reply));
    assert_eq!(d.target, String::new());
    assert_eq!(d.headers, Vec::<(String, String)>::new());
    assert_eq!(d.body, Vec::<u8>::new());
}

#[test]
fn round_trip_unicode_target() {
    let m = Message::new("/héllo/🦀".to_string(), MessageType::Call, 1)
        .set_header("naïve".to_string(), "çédille".to_string());
    let bytes = encode_msg(&m);
    let d = decode_msg(&bytes).expect("framing of a message must decode");
    assert_eq!(d.target, "/héllo/🦀".to_string());
    assert_eq!(d.headers, vec![("naïve".to_string(), "çédille".to_string())]);
}

#[test]
fn decode_rejects_empty() {
    assert!(decode_msg(&Vec::new()).is_none());
}

#[test]
fn decode_rejects_unknown_kind() {
    let mut bytes = encode_msg(&sample());
    bytes[0] = 7;
    assert!(decode_msg(&bytes).is_none());
}

#[test]
fn decode_rejects_truncated() {
    let mut bytes = encode_msg(&sample());
    bytes.pop();
    assert!(decode_msg(&bytes).is_none());
}

#[test]
fn decode_rejects_trailing_garbage() {
    let mut bytes = encode_msg(&sample());
    bytes.push(0);
    assert!(decode_msg(&bytes).is_none());
}

#[test]
fn decode_rejects_surrogate_scalar() {
    // kind byte, id, then a one-character target whose scalar value 0xD800
    // is a surrogate and therefore no character.
    let mut bytes = vec![0u8];
    bytes.extend_from_slice(&[0; 8]); // id 0
    bytes.extend_from_slice(&1u64.to_le_bytes()); // target length 1
    bytes.extend_from_slice(&0xD800u32.to_le_bytes()); // surrogate
    bytes.extend_from_slice(&[0; 8]); // no headers
    bytes.extend_from_slice(&[0; 8]); // empty body
    assert!(decode_msg(&bytes).is_none());
}

#[test]
fn decode_rejects_short_char_block() {
    let mut bytes = vec![1u8];
    bytes.extend_from_slice(&[0; 8]); // id 0
    bytes.extend_from_slice(&2u64.to_le_bytes()); // claims two characters
    bytes.extend_from_slice(&('a' as u32).to_le_bytes()); // only one follows
    assert!(decode_msg(&bytes).is_none());
}
