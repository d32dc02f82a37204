//! The wire-neutral message envelope exchanged between the gateway and the
//! execution pool.

use vstd::prelude::*;

verus! {

/// Direction of a message: a `Call` travels gateway-to-pool, a `Reply`
/// travels pool-to-gateway.
#[derive(Clone, Copy, PartialEq, Eq, Structural, Debug)]
pub enum MessageType {
    Call,
    Reply,
}

/// The envelope carried between the gateway and one execution context.
///
/// `headers` is an ordered mapping that preserves arrival order and allows
/// repeated names; `body` is an opaque byte sequence, possibly empty.
pub struct Message {
    pub mtype: MessageType,
    pub target: String,
    pub id: u64,
    pub headers: Vec<(String, String)>,
    pub body: Vec<u8>,
}

/// The mathematical model of a [`Message`]: strings as character sequences,
/// the header list and body as sequences.
pub struct MessageView {
    pub mtype: MessageType,
    pub target: Seq<char>,
    pub id: u64,
    pub headers: Seq<(Seq<char>, Seq<char>)>,
    pub body: Seq<u8>,
}

impl View for Message {
    type V = MessageView;

    open spec fn view(&self) -> MessageView {
        MessageView {
            mtype: self.mtype,
            target: self.target@,
            id: self.id,
            headers: self.headers@.map_values(|p: (String, String)| (p.0@, p.1@)),
            body: self.body@,
        }
    }
}

impl Message {
    /// A fresh envelope with the given routing target, direction and
    /// correlation id, no headers and an empty body.
    pub fn new(target: String, mtype: MessageType, id: u64) -> (m: Message)
        ensures
            m@.mtype == mtype,
            m@.target == target@,
            m@.id == id,
            m@.headers == Seq::<(Seq<char>, Seq<char>)>::empty(),
            m@.body == Seq::<u8>::empty(),
    {
        let m = Message { mtype, target, id, headers: Vec::new(), body: Vec::new() };
        proof {
            assert(m@.headers =~= Seq::<(Seq<char>, Seq<char>)>::empty());
            assert(m@.body =~= Seq::<u8>::empty());
        }
        m
    }

    /// Appends one header entry; earlier entries and their order are kept,
    /// and a repeated name becomes a further entry rather than replacing one.
    pub fn set_header(self, key: String, value: String) -> (m: Message)
        ensures
            m@.mtype == self@.mtype,
            m@.target == self@.target,
            m@.id == self@.id,
            m@.headers == self@.headers.push((key@, value@)),
            m@.body == self@.body,
    {
        let mut headers = self.headers;
        let ghost old_headers = headers@;
        headers.push((key, value));
        let m = Message {
            mtype: self.mtype,
            target: self.target,
            id: self.id,
            headers,
            body: self.body,
        };
        proof {
            assert(m@.headers =~= old_headers.map_values(|p: (String, String)| (p.0@, p.1@)).push(
                (key@, value@),
            ));
        }
        m
    }

    /// Replaces the body, leaving every other field as it was.
    pub fn set_body(self, body: Vec<u8>) -> (m: Message)
        ensures
            m@.mtype == self@.mtype,
            m@.target == self@.target,
            m@.id == self@.id,
            m@.headers == self@.headers,
            m@.body == body@,
    {
        Message { mtype: self.mtype, target: self.target, id: self.id, headers: self.headers, body }
    }
}

} // verus!
