use wasp_gateway::codec::req_to_call_msg;
use wasp_gateway::gateway::{GatewayError, Pool, Server};
use wasp_gateway::msg::{Message, MessageType};
use wasp_gateway::wire::{decode_msg, encode_msg};

/// Plays the guest for one pending request: takes the stored call out,
/// builds the reply the pool's echo handler would build — the uri as the
/// body, every header copied, kind `Reply` — and stores its framing.
fn echo_guest(pool: &mut Pool, index: usize, ctx_id: u64) {
    let bytes = pool
        .take_guest_request(index, ctx_id)
        .expect("a submitted request waits in the slot");
    let call = decode_msg(&bytes).expect("the gateway frames every call it submits");
    let mut reply = Message::new(call.target.clone(), MessageType::Reply, call.id);
    for (name, value) in call.headers {
        reply = reply.set_header(name, value);
    }
    let reply = reply.set_body(call.target.into_bytes());
    let framed = encode_msg(&reply);
    pool.set_guest_response(index, ctx_id, framed);
}

#[test]
fn end_to_end_hello() {
    let server = Server::new();
    let mut pool = Pool::new(2);
    let msg = req_to_call_msg(
        "/hello".to_string(),
        vec![("X-Trace".to_string(), "abc".to_string())],
        vec![],
    );
    let (index, ctx_id) = server.handle_submit(&mut pool, 0, msg);
    assert_eq!(index, 0);
    echo_guest(&mut pool, index, ctx_id);
    let resp = server
        .handle_complete(&mut pool, index, ctx_id)
        .expect("a well-formed reply completes the request");
    assert_eq!(resp.status, 200);
    assert!(resp
        .headers
        .iter()
        .any(|(n, v)| n == "X-Trace" && v == "abc"));
    assert_eq!(resp.body, b"/hello".to_vec());
}

#[test]
fn failure_isolation() {
    let server = Server::new();
    let mut pool = Pool::new(2);

    // Two requests outstanding at once, routed to different contexts.
    let msg0 = req_to_call_msg("/broken".to_string(), vec![], vec![]);
    let msg1 = req_to_call_msg("/fine".to_string(), vec![], vec![]);
    let (i0, id0) = server.handle_submit(&mut pool, 0, msg0);
    let (i1, id1) = server.handle_submit(&mut pool, 1, msg1);
    assert_eq!(i0, 0);
    assert_eq!(i1, 1);

    // Context 0's handler produces malformed reply bytes; context 1 echoes.
    pool.take_guest_request(i0, id0).unwrap();
    pool.set_guest_response(i0, id0, vec![0xFF, 0x00, 0x01]);
    echo_guest(&mut pool, i1, id1);

    let r0 = server.handle_complete(&mut pool, i0, id0);
    assert_eq!(r0.unwrap_err(), GatewayError::MalformedReply);

    let r1 = server.handle_complete(&mut pool, i1, id1).unwrap();
    assert_eq!(r1.status, 200);
    assert_eq!(r1.body, b"/fine".to_vec());
}

#[test]
fn missing_response_is_reported() {
    let server = Server::new();
    let mut pool = Pool::new(1);
    let msg = req_to_call_msg("/x".to_string(), vec![], vec![]);
    let (index, ctx_id) = server.handle_submit(&mut pool, 3, msg);
    assert_eq!(index, 0);
    // The guest never answers.
    let r = server.handle_complete(&mut pool, index, ctx_id);
    assert_eq!(r.unwrap_err(), GatewayError::MissingResponse);
}

#[test]
fn routing_follows_servicing_identity() {
    let server = Server::new();
    let mut pool = Pool::new(3);
    for servicing_id in 0..9usize {
        let msg = req_to_call_msg("/r".to_string(), vec![], vec![]);
        let (index, _) = server.handle_submit(&mut pool, servicing_id, msg);
        assert_eq!(index, servicing_id % 3);
    }
}

#[test]
fn concurrent_requests_get_distinct_ctx_ids() {
    let server = Server::new();
    let mut pool = Pool::new(1);
    let mut ids = Vec::new();
    for _ in 0..4 {
        let msg = req_to_call_msg("/c".to_string(), vec![], vec![]);
        let (_, ctx_id) = server.handle_submit(&mut pool, 0, msg);
        ids.push(ctx_id);
    }
    for a in 0..ids.len() {
        for b in (a + 1)..ids.len() {
            assert_ne!(ids[a], ids[b]);
        }
    }
}
