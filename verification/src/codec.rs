//! Lossless, two-way conversion between the protocol-neutral [`Message`]
//! and the HTTP request/response representation.
//!
//! The HTTP side is handed over as plain values: the request target, the
//! header entries in arrival order, and the body bytes. Status derivation
//! follows the reply protocol: a `Reply`-kind message is always status 200;
//! any other kind may carry a numeric `status` header, and defaults to 200
//! when that header is absent or not a number.

use vstd::prelude::*;
use crate::msg::{Message, MessageType, MessageView};
use crate::text::chars_of;

verus! {

/// An HTTP response, reduced to the plain values the gateway decides:
/// status code, header entries in order, and the body bytes.
#[derive(Debug)]
pub struct HttpResponse {
    pub status: u16,
    pub headers: Vec<(String, String)>,
    pub body: Vec<u8>,
}

/// The mathematical model of an [`HttpResponse`].
pub struct HttpResponseView {
    pub status: u16,
    pub headers: Seq<(Seq<char>, Seq<char>)>,
    pub body: Seq<u8>,
}

impl View for HttpResponse {
    type V = HttpResponseView;

    open spec fn view(&self) -> HttpResponseView {
        HttpResponseView {
            status: self.status,
            headers: spec_headers_view(self.headers@),
            body: self.body@,
        }
    }
}

/// The model of a header list: each entry's name and value as character
/// sequences, order and multiplicity kept.
pub open spec fn spec_headers_view(headers: Seq<(String, String)>) -> Seq<(Seq<char>, Seq<char>)> {
    headers.map_values(|p: (String, String)| (p.0@, p.1@))
}

/// The value of the first header entry with the given name, if any.
pub open spec fn spec_first_header(
    headers: Seq<(Seq<char>, Seq<char>)>,
    name: Seq<char>,
) -> Option<Seq<char>>
    decreases headers.len(),
{
    if headers.len() == 0 {
        None
    } else if headers[0].0 == name {
        Some(headers[0].1)
    } else {
        spec_first_header(headers.drop_first(), name)
    }
}

/// Whether the character is an ASCII decimal digit.
pub open spec fn spec_is_digit(c: char) -> bool {
    48 <= c as u32 && c as u32 <= 57
}

/// The numeric value of one ASCII decimal digit.
pub open spec fn spec_digit_val(c: char) -> nat
    recommends
        spec_is_digit(c),
{
    (c as u32 - 48) as nat
}

/// Whether every character of the sequence is an ASCII decimal digit.
pub open spec fn spec_all_digits(s: Seq<char>) -> bool {
    forall|i: int| 0 <= i < s.len() ==> spec_is_digit(#[trigger] s[i])
}

/// The number written by a sequence of decimal digits, most significant
/// first.
pub open spec fn spec_digits_val(s: Seq<char>) -> nat
    recommends
        spec_all_digits(s),
    decreases s.len(),
{
    if s.len() == 0 {
        0
    } else {
        spec_digits_val(s.drop_last()) * 10 + spec_digit_val(s.last())
    }
}

/// The number a string names, read the way a `u16` is parsed from decimal
/// text: an optional leading `+`, then one or more digits, and a value
/// within range; anything else is no number.
pub open spec fn spec_parse_u16(s: Seq<char>) -> Option<u16> {
    let t = if s.len() > 0 && s[0] == '+' {
        s.drop_first()
    } else {
        s
    };
    if t.len() > 0 && spec_all_digits(t) && spec_digits_val(t) <= 0xffff {
        Some(spec_digits_val(t) as u16)
    } else {
        None
    }
}

/// The HTTP status a message yields: a `Reply`-kind message is always 200;
/// any other kind is read from its first `status` header when that names a
/// number, and is 200 otherwise.
pub open spec fn spec_status_of(m: MessageView) -> u16 {
    if m.mtype == MessageType::Reply {
        200
    } else {
        match spec_first_header(m.headers, "status"@) {
            Some(v) => match spec_parse_u16(v) {
                Some(n) => n,
                None => 200,
            },
            None => 200,
        }
    }
}

/// The HTTP response a message translates to: its derived status, its header
/// entries in order, and its body verbatim.
pub open spec fn spec_resp_of(m: MessageView) -> HttpResponseView {
    HttpResponseView { status: spec_status_of(m), headers: m.headers, body: m.body }
}

/// Status derivation: a `Reply`-kind message always yields HTTP status 200,
/// whatever `status` header it may carry; only another kind is read from
/// its `status` header.
pub proof fn lemma_reply_status(m: MessageView)
    requires
        m.mtype == MessageType::Reply,
    ensures
        spec_status_of(m) == 200,
        spec_resp_of(m).status == 200,
{
}

/// Appending a digit multiplies the value so far by ten; in particular the
/// value never shrinks as more digits arrive.
proof fn lemma_digits_val_grows(s: Seq<char>, c: char)
    ensures
        spec_digits_val(s.push(c)) == spec_digits_val(s) * 10 + spec_digit_val(c),
{
    assert(s.push(c).drop_last() =~= s);
    assert(s.push(c).last() == c);
}

/// Finds the first header entry with the given name.
fn find_header<'a>(headers: &'a Vec<(String, String)>, name: &String) -> (r: Option<&'a String>)
    ensures
        match r {
            Some(v) => spec_first_header(spec_headers_view(headers@), name@) == Some(v@),
            None => spec_first_header(spec_headers_view(headers@), name@) is None,
        },
{
    let ghost hv = spec_headers_view(headers@);
    proof {
        assert(hv.skip(0) =~= hv);
    }
    let mut i: usize = 0;
    while i < headers.len()
        invariant
            i <= headers.len(),
            hv == spec_headers_view(headers@),
            spec_first_header(hv, name@) == spec_first_header(hv.skip(i as int), name@),
        decreases headers.len() - i,
    {
        proof {
            assert(hv.skip(i as int).len() > 0);
            assert(hv.skip(i as int)[0] == hv[i as int]);
        }
        if headers[i].0 == *name {
            return Some(&headers[i].1);
        }
        proof {
            assert(hv.skip(i as int).drop_first() =~= hv.skip(i as int + 1));
        }
        i += 1;
    }
    proof {
        assert(hv.skip(i as int) =~= Seq::<(Seq<char>, Seq<char>)>::empty());
    }
    None
}

/// Parses a `u16` from decimal text: an optional leading `+`, then one or
/// more digits whose value fits; anything else is no number.
pub fn parse_u16(s: &str) -> (r: Option<u16>)
    ensures
        r == spec_parse_u16(s@),
{
    let cs = chars_of(s);
    let mut i: usize = 0;
    if cs.len() > 0 && cs[0] == '+' {
        i = 1;
    }
    let ghost t = if s@.len() > 0 && s@[0] == '+' {
        s@.drop_first()
    } else {
        s@
    };
    proof {
        assert(t =~= cs@.skip(i as int));
    }
    if i == cs.len() {
        return None;
    }
    let mut val: u32 = 0;
    let mut too_big = false;
    let mut j: usize = i;
    while j < cs.len()
        invariant
            i <= j <= cs.len(),
            cs@ == s@,
            t == cs@.skip(i as int),
            t == (if s@.len() > 0 && s@[0] == '+' {
                s@.drop_first()
            } else {
                s@
            }),
            spec_all_digits(cs@.subrange(i as int, j as int)),
            !too_big ==> val == spec_digits_val(cs@.subrange(i as int, j as int)) && val <= 0xffff,
            too_big ==> spec_digits_val(cs@.subrange(i as int, j as int)) > 0xffff,
        decreases cs.len() - j,
    {
        let c = cs[j];
        let d = c as u32;
        if d < 48 || d > 57 {
            proof {
                assert(t[j - i] == cs@[j as int]);
                assert(!spec_is_digit(t[j - i]));
                assert(!spec_all_digits(t));
            }
            return None;
        }
        proof {
            let pre = cs@.subrange(i as int, j as int);
            lemma_digits_val_grows(pre, cs@[j as int]);
            assert(pre.push(cs@[j as int]) =~= cs@.subrange(i as int, j as int + 1));
        }
        if too_big {
        } else {
            let next_val = val * 10 + (d - 48);
            if next_val > 0xffff {
                too_big = true;
            } else {
                val = next_val;
            }
        }
        j += 1;
    }
    proof {
        assert(cs@.subrange(i as int, cs@.len() as int) =~= t);
    }
    if too_big {
        None
    } else {
        Some(val as u16)
    }
}

/// Translates a message into the HTTP response it stands for: every header
/// entry is carried over in order, the body verbatim, and the status is
/// derived from the message kind and its `status` header.
pub fn msg_to_resp(msg: Message) -> (r: HttpResponse)
    ensures
        r@ == spec_resp_of(msg@),
{
    let status: u16 = match msg.mtype {
        MessageType::Reply => 200,
        MessageType::Call => {
            let status_name: String = "status".to_owned();
            match find_header(&msg.headers, &status_name) {
                Some(v) => match parse_u16(v.as_str()) {
                    Some(n) => n,
                    None => 200,
                },
                None => 200,
            }
        },
    };
    HttpResponse { status, headers: msg.headers, body: msg.body }
}

/// Relies on `rand::random` for the correlation id of a freshly built call
/// message; nothing is assumed of the drawn value.
pub assume_specification<T>[ rand::random::<T> ]() -> (r: T)
    where
        rand::distributions::Standard: rand::distributions::Distribution<T>,
;

/// Builds the call message for an inbound HTTP request handed over as plain
/// values: the request target, every header entry in arrival order, and the
/// body bytes verbatim — for every body, including the empty one. The
/// correlation id is drawn at random and no other field depends on it.
pub fn req_to_call_msg(target: String, headers: Vec<(String, String)>, body: Vec<u8>) -> (m:
    Message)
    ensures
        m@.mtype == MessageType::Call,
        m@.target == target@,
        m@.headers == spec_headers_view(headers@),
        m@.body == body@,
{
    let id: u64 = rand::random();
    Message { mtype: MessageType::Call, target, id, headers, body }
}

} // verus!
