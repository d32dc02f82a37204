use wasp_gateway::context::Context;
use wasp_gateway::router::select_context;

#[test]
fn select_context_is_stable() {
    let first = select_context(42, 5);
    for _ in 0..10 {
        assert_eq!(select_context(42, 5), first);
    }
    assert_eq!(first, 42 % 5);
}

#[test]
fn select_context_values() {
    assert_eq!(select_context(0, 4), 0);
    assert_eq!(select_context(3, 4), 3);
    assert_eq!(select_context(4, 4), 0);
    assert_eq!(select_context(9, 4), 1);
    assert_eq!(select_context(7, 1), 0);
}

#[test]
fn ctx_ids_are_distinct() {
    let mut c = Context::new();
    let a = c.gen_ctx_id();
    let b = c.gen_ctx_id();
    let d = c.gen_ctx_id();
    assert_eq!(a, 0);
    assert_eq!(b, 1);
    assert_eq!(d, 2);
    assert_ne!(a, b);
    assert_ne!(b, d);
    assert_ne!(a, d);
}

#[test]
fn request_slot_is_single_use() {
    let mut c = Context::new();
    let id = c.gen_ctx_id();
    c.set_guest_request(id, vec![1, 2, 3]);
    assert_eq!(c.take_guest_request(id), Some(vec![1, 2, 3]));
    assert_eq!(c.take_guest_request(id), None);
}

#[test]
fn response_slot_is_single_use() {
    let mut c = Context::new();
    let id = c.gen_ctx_id();
    assert_eq!(c.get_guest_response(id), None);
    c.set_guest_response(id, vec![9]);
    assert_eq!(c.get_guest_response(id), Some(vec![9]));
    assert_eq!(c.get_guest_response(id), None);
}

#[test]
fn slots_keyed_by_ctx_id() {
    let mut c = Context::new();
    let a = c.gen_ctx_id();
    let b = c.gen_ctx_id();
    c.set_guest_request(a, vec![1]);
    c.set_guest_request(b, vec![2]);
    assert_eq!(c.take_guest_request(b), Some(vec![2]));
    assert_eq!(c.take_guest_request(a), Some(vec![1]));
}
