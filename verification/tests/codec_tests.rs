use wasp_gateway::codec::{msg_to_resp, parse_u16, req_to_call_msg};
use wasp_gateway::msg::{Message, MessageType};

fn call_with_status(value: &str) -> Message {
    Message::new("/x".to_string(), MessageType::Call, 7).set_header(
        "status".to_string(),
        value.to_string(),
    )
}

#[test]
fn status_reply_always_200() {
    let m = Message::new("/x".to_string(), MessageType::Reply, 7).set_header(
        "status".to_string(),
        "404".to_string(),
    );
    let r = msg_to_resp(m);
    assert_eq!(r.status, 200);
}

#[test]
fn status_call_numeric() {
    let r = msg_to_resp(call_with_status("404"));
    assert_eq!(r.status, 404);
}

#[test]
fn status_call_not_numeric() {
    let r = msg_to_resp(call_with_status("notanumber"));
    assert_eq!(r.status, 200);
}

#[test]
fn status_call_missing() {
    let m = Message::new("/x".to_string(), MessageType::Call, 7);
    let r = msg_to_resp(m);
    assert_eq!(r.status, 200);
}

#[test]
fn status_call_out_of_range() {
    let r = msg_to_resp(call_with_status("65536"));
    assert_eq!(r.status, 200);
}

#[test]
fn status_first_entry_wins() {
    let m = call_with_status("404").set_header("status".to_string(), "500".to_string());
    let r = msg_to_resp(m);
    assert_eq!(r.status, 404);
}

#[test]
fn headers_carried_in_order() {
    let m = Message::new("/x".to_string(), MessageType::Reply, 7)
        .set_header("B".to_string(), "2".to_string())
        .set_header("A".to_string(), "1".to_string())
        .set_header("B".to_string(), "3".to_string());
    let r = msg_to_resp(m);
    assert_eq!(
        r.headers,
        vec![
            ("B".to_string(), "2".to_string()),
            ("A".to_string(), "1".to_string()),
            ("B".to_string(), "3".to_string()),
        ]
    );
}

#[test]
fn body_copied_verbatim() {
    let m = Message::new("/x".to_string(), MessageType::Reply, 7).set_body(vec![0, 255, 7]);
    let r = msg_to_resp(m);
    assert_eq!(r.body, vec![0, 255, 7]);
}

#[test]
fn call_message_keeps_request_parts() {
    let headers = vec![
        ("Host".to_string(), "a".to_string()),
        ("Host".to_string(), "b".to_string()),
    ];
    let m = req_to_call_msg("/hello?q=1".to_string(), headers.clone(), vec![1, 2, 3]);
    assert!(matches!(m.mtype, MessageType::Call));
    assert_eq!(m.target, "/hello?q=1".to_string());
    assert_eq!(m.headers, headers);
    assert_eq!(m.body, vec![1, 2, 3]);
}

#[test]
fn call_message_empty_body() {
    let m = req_to_call_msg("/".to_string(), vec![], vec![]);
    assert_eq!(m.body, Vec::<u8>::new());
}

#[test]
fn parse_u16_values() {
    assert_eq!(parse_u16("0"), Some(0));
    assert_eq!(parse_u16("404"), Some(404));
    assert_eq!(parse_u16("+404"), Some(404));
    assert_eq!(parse_u16("65535"), Some(65535));
    assert_eq!(parse_u16("65536"), None);
    assert_eq!(parse_u16(""), None);
    assert_eq!(parse_u16("+"), None);
    assert_eq!(parse_u16("4o4"), None);
    assert_eq!(parse_u16("-1"), None);
    assert_eq!(parse_u16(" 200"), None);
}
