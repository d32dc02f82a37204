//! Byte-level framing of messages for the hand-off to the execution pool.
//!
//! A message travels as one byte string: a kind byte, the correlation id,
//! the target, the header list and the body, each length-prefixed. Strings
//! travel as a character count followed by each character's Unicode scalar
//! value; counts and scalars are little-endian. Decoding accepts exactly
//! the byte strings this framing produces: anything else — a truncated
//! buffer, an unknown kind byte, a value that is no Unicode scalar,
//! trailing garbage — is rejected, and what decodes successfully is pinned
//! to be the framing of the returned message.

use vstd::prelude::*;
use vstd::bytes::{
    spec_u32_from_le_bytes, spec_u32_to_le_bytes, spec_u64_from_le_bytes, spec_u64_to_le_bytes,
    u32_from_le_bytes, u32_to_le_bytes, u64_from_le_bytes, u64_to_le_bytes,
    lemma_auto_spec_u32_to_from_le_bytes, lemma_auto_spec_u64_to_from_le_bytes,
};
use vstd::slice::{slice_subrange, slice_to_vec};
use vstd::utf8::{char_is_scalar, char_u32_cast, is_scalar};
use crate::msg::{Message, MessageType, MessageView};
use crate::codec::spec_headers_view;
use crate::text::{chars_of, string_from_chars};

verus! {

/// The byte that opens the framing of each message kind.
pub open spec fn spec_kind_byte(t: MessageType) -> u8 {
    match t {
        MessageType::Call => 0,
        MessageType::Reply => 1,
    }
}

/// The framing of a character sequence's payload: each character's scalar
/// value, little-endian, in order.
pub open spec fn spec_encode_chars(s: Seq<char>) -> Seq<u8>
    decreases s.len(),
{
    if s.len() == 0 {
        Seq::empty()
    } else {
        spec_u32_to_le_bytes(s[0] as u32) + spec_encode_chars(s.drop_first())
    }
}

/// The framing of a string: its character count, then its characters.
pub open spec fn spec_encode_str(s: Seq<char>) -> Seq<u8> {
    spec_u64_to_le_bytes(s.len() as u64) + spec_encode_chars(s)
}

/// The framing of a header list: each entry's name and value, in order.
pub open spec fn spec_encode_headers(hs: Seq<(Seq<char>, Seq<char>)>) -> Seq<u8>
    decreases hs.len(),
{
    if hs.len() == 0 {
        Seq::empty()
    } else {
        spec_encode_str(hs[0].0) + spec_encode_str(hs[0].1) + spec_encode_headers(hs.drop_first())
    }
}

/// The framing of a whole message.
pub open spec fn spec_encode_msg(m: MessageView) -> Seq<u8> {
    seq![spec_kind_byte(m.mtype)] + spec_u64_to_le_bytes(m.id) + spec_encode_str(m.target)
        + spec_u64_to_le_bytes(m.headers.len() as u64) + spec_encode_headers(m.headers)
        + spec_u64_to_le_bytes(m.body.len() as u64) + m.body
}

/// Whether every length in the message fits the framing's count fields.
/// Every message held in memory is bounded this way.
pub open spec fn spec_msg_bounded(m: MessageView) -> bool {
    &&& m.target.len() <= u64::MAX
    &&& m.headers.len() <= u64::MAX
    &&& m.body.len() <= u64::MAX
    &&& forall|i: int|
        0 <= i < m.headers.len() ==> (#[trigger] m.headers[i]).0.len() <= u64::MAX
            && m.headers[i].1.len() <= u64::MAX
}

/// Reads one count field: the first eight bytes, little-endian.
pub open spec fn spec_dec_u64(b: Seq<u8>) -> Option<(u64, Seq<u8>)> {
    if b.len() >= 8 {
        Some((spec_u64_from_le_bytes(b.take(8)), b.skip(8)))
    } else {
        None
    }
}

/// Reads `n` characters, each a four-byte scalar value that must name a
/// Unicode scalar.
pub open spec fn spec_dec_chars(b: Seq<u8>, n: nat) -> Option<(Seq<char>, Seq<u8>)>
    decreases n,
{
    if n == 0 {
        Some((Seq::empty(), b))
    } else if b.len() >= 4 {
        let u = spec_u32_from_le_bytes(b.take(4));
        if is_scalar(u) {
            match spec_dec_chars(b.skip(4), (n - 1) as nat) {
                Some((cs, rest)) => Some((seq![u as char] + cs, rest)),
                None => None,
            }
        } else {
            None
        }
    } else {
        None
    }
}

/// Reads one string: its character count, then its characters.
pub open spec fn spec_dec_str(b: Seq<u8>) -> Option<(Seq<char>, Seq<u8>)> {
    match spec_dec_u64(b) {
        Some((n, rest)) => spec_dec_chars(rest, n as nat),
        None => None,
    }
}

/// Reads `n` header entries, each a name and a value.
pub open spec fn spec_dec_headers(b: Seq<u8>, n: nat) -> Option<
    (Seq<(Seq<char>, Seq<char>)>, Seq<u8>),
>
    decreases n,
{
    if n == 0 {
        Some((Seq::empty(), b))
    } else {
        match spec_dec_str(b) {
            Some((k, r1)) => match spec_dec_str(r1) {
                Some((v, r2)) => match spec_dec_headers(r2, (n - 1) as nat) {
                    Some((hs, rest)) => Some((seq![(k, v)] + hs, rest)),
                    None => None,
                },
                None => None,
            },
            None => None,
        }
    }
}

/// Reads a whole message; the body is everything after the last count, and
/// must be exactly as long as that count says.
pub open spec fn spec_decode_msg(b: Seq<u8>) -> Option<MessageView> {
    if b.len() < 1 {
        None
    } else if b[0] == 0 || b[0] == 1 {
        let mtype = if b[0] == 0 {
            MessageType::Call
        } else {
            MessageType::Reply
        };
        match spec_dec_u64(b.skip(1)) {
            Some((id, r1)) => match spec_dec_str(r1) {
                Some((target, r2)) => match spec_dec_u64(r2) {
                    Some((hn, r3)) => match spec_dec_headers(r3, hn as nat) {
                        Some((hs, r4)) => match spec_dec_u64(r4) {
                            Some((bn, r5)) => if r5.len() == bn {
                                Some(MessageView { mtype, target, id, headers: hs, body: r5 })
                            } else {
                                None
                            },
                            None => None,
                        },
                        None => None,
                    },
                    None => None,
                },
                None => None,
            },
            None => None,
        }
    } else {
        None
    }
}

/// Framing one more character appends its four bytes.
proof fn lemma_encode_chars_snoc(s: Seq<char>, c: char)
    ensures
        spec_encode_chars(s.push(c)) == spec_encode_chars(s) + spec_u32_to_le_bytes(c as u32),
    decreases s.len(),
{
    if s.len() == 0 {
        assert(s.push(c)[0] == c);
        assert(s.push(c).drop_first() =~= Seq::<char>::empty());
        assert(spec_encode_chars(s.push(c)) == spec_u32_to_le_bytes(c as u32) + spec_encode_chars(
            Seq::<char>::empty(),
        ));
        assert(spec_encode_chars(Seq::<char>::empty()) == Seq::<u8>::empty());
        assert(spec_encode_chars(s) == Seq::<u8>::empty());
        assert(spec_encode_chars(s.push(c)) =~= spec_encode_chars(s) + spec_u32_to_le_bytes(
            c as u32,
        ));
    } else {
        assert(s.push(c).len() > 0);
        assert(s.push(c)[0] == s[0]);
        assert(s.push(c).drop_first() =~= s.drop_first().push(c));
        assert(spec_encode_chars(s.push(c)) == spec_u32_to_le_bytes(s[0] as u32)
            + spec_encode_chars(s.drop_first().push(c)));
        lemma_encode_chars_snoc(s.drop_first(), c);
        assert(spec_encode_chars(s.push(c)) == spec_u32_to_le_bytes(s[0] as u32) + (
        spec_encode_chars(s.drop_first()) + spec_u32_to_le_bytes(c as u32)));
        assert(spec_encode_chars(s) == spec_u32_to_le_bytes(s[0] as u32) + spec_encode_chars(
            s.drop_first(),
        ));
        assert(spec_encode_chars(s.push(c)) =~= spec_encode_chars(s) + spec_u32_to_le_bytes(
            c as u32,
        ));
    }
}

/// Framing one more header entry appends its two strings.
proof fn lemma_encode_headers_snoc(hs: Seq<(Seq<char>, Seq<char>)>, p: (Seq<char>, Seq<char>))
    ensures
        spec_encode_headers(hs.push(p)) == spec_encode_headers(hs) + spec_encode_str(p.0)
            + spec_encode_str(p.1),
    decreases hs.len(),
{
    if hs.len() == 0 {
        assert(hs.push(p)[0] == p);
        assert(hs.push(p).drop_first() =~= Seq::<(Seq<char>, Seq<char>)>::empty());
        assert(spec_encode_headers(hs.push(p)) == spec_encode_str(p.0) + spec_encode_str(p.1)
            + spec_encode_headers(Seq::<(Seq<char>, Seq<char>)>::empty()));
        assert(spec_encode_headers(Seq::<(Seq<char>, Seq<char>)>::empty()) == Seq::<u8>::empty());
        assert(spec_encode_headers(hs) == Seq::<u8>::empty());
        assert(spec_encode_headers(hs.push(p)) =~= spec_encode_headers(hs) + spec_encode_str(p.0)
            + spec_encode_str(p.1));
    } else {
        assert(hs.push(p).len() > 0);
        assert(hs.push(p)[0] == hs[0]);
        assert(hs.push(p).drop_first() =~= hs.drop_first().push(p));
        assert(spec_encode_headers(hs.push(p)) == spec_encode_str(hs[0].0) + spec_encode_str(
            hs[0].1,
        ) + spec_encode_headers(hs.drop_first().push(p)));
        lemma_encode_headers_snoc(hs.drop_first(), p);
        assert(spec_encode_headers(hs) == spec_encode_str(hs[0].0) + spec_encode_str(hs[0].1)
            + spec_encode_headers(hs.drop_first()));
        assert(spec_encode_headers(hs.push(p)) =~= spec_encode_headers(hs) + spec_encode_str(p.0)
            + spec_encode_str(p.1));
    }
}

/// Appends the framing of one string.
fn encode_str_into(out: &mut Vec<u8>, s: &String)
    ensures
        final(out)@ == old(out)@ + spec_encode_str(s@),
        s@.len() <= u64::MAX,
{
    let cs = chars_of(s.as_str());
    let mut lb = u64_to_le_bytes(cs.len() as u64);
    out.append(&mut lb);
    let ghost base = out@;
    let mut i: usize = 0;
    while i < cs.len()
        invariant
            i <= cs.len(),
            out@ == base + spec_encode_chars(cs@.take(i as int)),
        decreases cs.len() - i,
    {
        let ghost pre = cs@.take(i as int);
        let mut ub = u32_to_le_bytes(cs[i] as u32);
        out.append(&mut ub);
        proof {
            lemma_encode_chars_snoc(pre, cs@[i as int]);
            assert(pre.push(cs@[i as int]) =~= cs@.take(i as int + 1));
        }
        i += 1;
    }
    proof {
        assert(cs@.take(cs@.len() as int) =~= cs@);
        assert(spec_encode_chars(Seq::<char>::empty()) =~= Seq::<u8>::empty());
    }
}

/// Frames a message into the byte string that carries it to or from the
/// execution pool. Framing never fails, and it also witnesses that every
/// length in the message fits the framing's count fields.
pub fn encode_msg(m: &Message) -> (r: Vec<u8>)
    ensures
        r@ == spec_encode_msg(m@),
        spec_msg_bounded(m@),
{
    let mut out: Vec<u8> = Vec::new();
    match m.mtype {
        MessageType::Call => out.push(0u8),
        MessageType::Reply => out.push(1u8),
    }
    proof {
        assert(out@ =~= seq![spec_kind_byte(m@.mtype)]);
    }
    let mut idb = u64_to_le_bytes(m.id);
    out.append(&mut idb);
    encode_str_into(&mut out, &m.target);
    let mut hnb = u64_to_le_bytes(m.headers.len() as u64);
    out.append(&mut hnb);
    let ghost base = out@;
    let ghost hv = spec_headers_view(m.headers@);
    let mut i: usize = 0;
    while i < m.headers.len()
        invariant
            i <= m.headers.len(),
            hv == spec_headers_view(m.headers@),
            out@ == base + spec_encode_headers(hv.take(i as int)),
            forall|k: int|
                0 <= k < i ==> (#[trigger] hv[k]).0.len() <= u64::MAX && hv[k].1.len()
                    <= u64::MAX,
        decreases m.headers.len() - i,
    {
        let ghost pre = hv.take(i as int);
        encode_str_into(&mut out, &m.headers[i].0);
        encode_str_into(&mut out, &m.headers[i].1);
        proof {
            lemma_encode_headers_snoc(pre, hv[i as int]);
            assert(pre.push(hv[i as int]) =~= hv.take(i as int + 1));
        }
        i += 1;
    }
    proof {
        assert(hv.take(hv.len() as int) =~= hv);
    }
    let mut bnb = u64_to_le_bytes(m.body.len() as u64);
    out.append(&mut bnb);
    let mut bd = slice_to_vec(m.body.as_slice());
    out.append(&mut bd);
    proof {
        assert(out@ =~= spec_encode_msg(m@));
    }
    out
}

/// Reads one count field at the cursor.
fn dec_u64_exec(b: &Vec<u8>, pos: usize) -> (r: Option<(u64, usize)>)
    requires
        pos <= b@.len(),
    ensures
        match r {
            Some((x, np)) => pos + 8 <= b@.len() && np == pos + 8 && spec_dec_u64(
                b@.skip(pos as int),
            ) == Some((x, b@.skip(np as int))),
            None => spec_dec_u64(b@.skip(pos as int)) is None,
        },
{
    if b.len() - pos >= 8 {
        let x = u64_from_le_bytes(slice_subrange(b.as_slice(), pos, pos + 8));
        proof {
            assert(b@.skip(pos as int).take(8) =~= b@.subrange(pos as int, pos as int + 8));
            assert(b@.skip(pos as int).skip(8) =~= b@.skip(pos as int + 8));
        }
        Some((x, pos + 8))
    } else {
        None
    }
}

/// Reads `n` characters at the cursor.
fn dec_chars_exec(b: &Vec<u8>, pos: usize, n: u64) -> (r: Option<(Vec<char>, usize)>)
    requires
        pos <= b@.len(),
    ensures
        match r {
            Some((cs, np)) => np <= b@.len() && spec_dec_chars(b@.skip(pos as int), n as nat)
                == Some((cs@, b@.skip(np as int))),
            None => spec_dec_chars(b@.skip(pos as int), n as nat) is None,
        },
{
    let mut done: Vec<char> = Vec::new();
    let mut cur: usize = pos;
    let mut k: u64 = 0;
    while k < n
        invariant
            pos <= cur <= b@.len(),
            k <= n,
            spec_dec_chars(b@.skip(pos as int), n as nat) == (match spec_dec_chars(
                b@.skip(cur as int),
                (n - k) as nat,
            ) {
                Some((cs, rest)) => Some((done@ + cs, rest)),
                None => None::<(Seq<char>, Seq<u8>)>,
            }),
        decreases n - k,
    {
        if b.len() - cur < 4 {
            return None;
        }
        let u = u32_from_le_bytes(slice_subrange(b.as_slice(), cur, cur + 4));
        proof {
            assert(b@.skip(cur as int).take(4) =~= b@.subrange(cur as int, cur as int + 4));
            assert(b@.skip(cur as int).skip(4) =~= b@.skip(cur as int + 4));
        }
        match char::from_u32(u) {
            Some(c) => {
                let ghost prev = done@;
                done.push(c);
                cur = cur + 4;
                k = k + 1;
                proof {
                    assert(forall|cs: Seq<char>| prev + (seq![c] + cs) =~= (prev.push(c)) + cs);
                }
            },
            None => {
                return None;
            },
        }
    }
    proof {
        assert(done@ + Seq::<char>::empty() =~= done@);
    }
    Some((done, cur))
}

/// Reads one string at the cursor.
fn dec_str_exec(b: &Vec<u8>, pos: usize) -> (r: Option<(String, usize)>)
    requires
        pos <= b@.len(),
    ensures
        match r {
            Some((s, np)) => np <= b@.len() && spec_dec_str(b@.skip(pos as int)) == Some(
                (s@, b@.skip(np as int)),
            ),
            None => spec_dec_str(b@.skip(pos as int)) is None,
        },
{
    match dec_u64_exec(b, pos) {
        Some((n, pos1)) => match dec_chars_exec(b, pos1, n) {
            Some((cs, pos2)) => {
                let s = string_from_chars(&cs);
                Some((s, pos2))
            },
            None => None,
        },
        None => None,
    }
}

/// Unframes a byte string back into the message it carries.
///
/// Succeeds exactly on the byte strings the framing produces: on success
/// the input is pinned to be the framing of the returned message, and a
/// byte string that frames some bounded message is never rejected.
#[verifier::loop_isolation(false)]
pub fn decode_msg(b: &Vec<u8>) -> (r: Option<Message>)
    ensures
        match r {
            Some(m) => spec_decode_msg(b@) == Some(m@),
            None => spec_decode_msg(b@) is None,
        },
{
    if b.len() == 0 {
        return None;
    }
    let kb = b[0];
    if kb > 1 {
        return None;
    }
    let mtype = if kb == 0 {
        MessageType::Call
    } else {
        MessageType::Reply
    };
    let (id, pos1) = match dec_u64_exec(b, 1) {
        Some(x) => x,
        None => {
            return None;
        },
    };
    let (target, pos2) = match dec_str_exec(b, pos1) {
        Some(x) => x,
        None => {
            return None;
        },
    };
    let (hn, pos3) = match dec_u64_exec(b, pos2) {
        Some(x) => x,
        None => {
            return None;
        },
    };
    let ghost r3 = b@.skip(pos3 as int);
    let mut headers: Vec<(String, String)> = Vec::new();
    let mut cur: usize = pos3;
    let mut k: u64 = 0;
    while k < hn
        invariant
            cur <= b@.len(),
            k <= hn,
            r3 == b@.skip(pos3 as int),
            pos3 <= b@.len(),
            spec_dec_headers(r3, hn as nat) == (match spec_dec_headers(
                b@.skip(cur as int),
                (hn - k) as nat,
            ) {
                Some((hs, rest)) => Some((spec_headers_view(headers@) + hs, rest)),
                None => None::<(Seq<(Seq<char>, Seq<char>)>, Seq<u8>)>,
            }),
        decreases hn - k,
    {
        let (name, q1) = match dec_str_exec(b, cur) {
            Some(x) => x,
            None => {
                return None;
            },
        };
        let (value, q2) = match dec_str_exec(b, q1) {
            Some(x) => x,
            None => {
                return None;
            },
        };
        let ghost prev = headers@;
        let ghost nv = name@;
        let ghost vv = value@;
        headers.push((name, value));
        cur = q2;
        k = k + 1;
        proof {
            assert(spec_headers_view(prev.push((name, value))) =~= spec_headers_view(prev).push(
                (nv, vv),
            ));
            assert(forall|hs: Seq<(Seq<char>, Seq<char>)>|
                spec_headers_view(prev) + (seq![(nv, vv)] + hs) =~= spec_headers_view(
                    prev,
                ).push((nv, vv)) + hs);
        }
    }
    proof {
        assert(spec_headers_view(headers@) + Seq::<(Seq<char>, Seq<char>)>::empty()
            =~= spec_headers_view(headers@));
    }
    let (bn, pos4) = match dec_u64_exec(b, cur) {
        Some(x) => x,
        None => {
            return None;
        },
    };
    if (b.len() - pos4) as u64 != bn {
        return None;
    }
    let body = slice_to_vec(slice_subrange(b.as_slice(), pos4, b.len()));
    proof {
        assert(b@.skip(pos4 as int) =~= b@.subrange(pos4 as int, b@.len() as int));
    }
    let m = Message { mtype, target, id, headers, body };
    Some(m)
}

/// Reading a framed character sequence back gives the characters and leaves
/// exactly what followed them.
proof fn lemma_dec_chars_of_encode(s: Seq<char>, suffix: Seq<u8>)
    ensures
        spec_dec_chars(spec_encode_chars(s) + suffix, s.len()) == Some((s, suffix)),
    decreases s.len(),
{
    lemma_auto_spec_u32_to_from_le_bytes();
    if s.len() == 0 {
        assert(spec_encode_chars(s) + suffix =~= suffix);
    } else {
        let b = spec_encode_chars(s) + suffix;
        let head = spec_u32_to_le_bytes(s[0] as u32);
        assert(b.take(4) =~= head);
        assert(b.skip(4) =~= spec_encode_chars(s.drop_first()) + suffix);
        char_is_scalar(s[0]);
        char_u32_cast(s[0], s[0] as u32);
        lemma_dec_chars_of_encode(s.drop_first(), suffix);
        assert(seq![s[0]] + s.drop_first() =~= s);
    }
}

/// Reading a framed string back gives the string and leaves exactly what
/// followed it.
proof fn lemma_dec_str_of_encode(s: Seq<char>, suffix: Seq<u8>)
    requires
        s.len() <= u64::MAX,
    ensures
        spec_dec_str(spec_encode_str(s) + suffix) == Some((s, suffix)),
{
    lemma_auto_spec_u64_to_from_le_bytes();
    let b = spec_encode_str(s) + suffix;
    assert(b.take(8) =~= spec_u64_to_le_bytes(s.len() as u64));
    assert(b.skip(8) =~= spec_encode_chars(s) + suffix);
    lemma_dec_chars_of_encode(s, suffix);
}

/// Reading a framed header list back gives the entries and leaves exactly
/// what followed them.
proof fn lemma_dec_headers_of_encode(hs: Seq<(Seq<char>, Seq<char>)>, suffix: Seq<u8>)
    requires
        forall|i: int|
            0 <= i < hs.len() ==> (#[trigger] hs[i]).0.len() <= u64::MAX && hs[i].1.len()
                <= u64::MAX,
    ensures
        spec_dec_headers(spec_encode_headers(hs) + suffix, hs.len()) == Some((hs, suffix)),
    decreases hs.len(),
{
    if hs.len() == 0 {
        assert(spec_encode_headers(hs) + suffix =~= suffix);
    } else {
        let b = spec_encode_headers(hs) + suffix;
        let tail = spec_encode_headers(hs.drop_first()) + suffix;
        assert(b =~= spec_encode_str(hs[0].0) + (spec_encode_str(hs[0].1) + tail));
        lemma_dec_str_of_encode(hs[0].0, spec_encode_str(hs[0].1) + tail);
        lemma_dec_str_of_encode(hs[0].1, tail);
        lemma_dec_headers_of_encode(hs.drop_first(), suffix);
        assert(seq![(hs[0].0, hs[0].1)] + hs.drop_first() =~= hs);
        assert((hs[0].0, hs[0].1) == hs[0]);
    }
}

/// A successful count read consumed exactly the framing of the count.
proof fn lemma_enc_dec_u64(b: Seq<u8>)
    ensures
        spec_dec_u64(b) matches Some((x, rest)) ==> b == spec_u64_to_le_bytes(x) + rest,
{
    lemma_auto_spec_u64_to_from_le_bytes();
    if b.len() >= 8 {
        assert(b.take(8).len() == 8);
        assert(b =~= b.take(8) + b.skip(8));
    }
}

/// A successful character read consumed exactly the framing of the
/// characters it returned.
proof fn lemma_enc_dec_chars(b: Seq<u8>, n: nat)
    ensures
        spec_dec_chars(b, n) matches Some((cs, rest)) ==> cs.len() == n && b == spec_encode_chars(
            cs,
        ) + rest,
    decreases n,
{
    lemma_auto_spec_u32_to_from_le_bytes();
    if n == 0 {
        match spec_dec_chars(b, n) {
            Some((cs, rest)) => {
                assert(b =~= spec_encode_chars(cs) + rest);
            },
            None => {},
        }
    } else if b.len() >= 4 {
        let u = spec_u32_from_le_bytes(b.take(4));
        if is_scalar(u) {
            lemma_enc_dec_chars(b.skip(4), (n - 1) as nat);
            match spec_dec_chars(b.skip(4), (n - 1) as nat) {
                Some((cs2, rest)) => {
                    let c = u as char;
                    assert(c as u32 == u);
                    let cs = seq![c] + cs2;
                    assert(cs[0] == c);
                    assert(cs.drop_first() =~= cs2);
                    assert(spec_encode_chars(cs) == spec_u32_to_le_bytes(u) + spec_encode_chars(
                        cs2,
                    ));
                    assert(b.take(4).len() == 4);
                    assert(spec_u32_to_le_bytes(u) == b.take(4));
                    assert(b =~= b.take(4) + b.skip(4));
                    assert(b =~= spec_encode_chars(cs) + rest);
                },
                None => {},
            }
        }
    }
}

/// A successful string read consumed exactly the framing of the string.
proof fn lemma_enc_dec_str(b: Seq<u8>)
    ensures
        spec_dec_str(b) matches Some((s, rest)) ==> s.len() <= u64::MAX && b == spec_encode_str(s)
            + rest,
{
    match spec_dec_u64(b) {
        Some((n, r)) => {
            lemma_enc_dec_u64(b);
            lemma_enc_dec_chars(r, n as nat);
            match spec_dec_chars(r, n as nat) {
                Some((s, rest)) => {
                    assert(s.len() as u64 == n);
                    assert(spec_encode_str(s) == spec_u64_to_le_bytes(n) + spec_encode_chars(s));
                    assert(b =~= spec_encode_str(s) + rest);
                },
                None => {},
            }
        },
        None => {},
    }
}

/// A successful header read consumed exactly the framing of the entries.
proof fn lemma_enc_dec_headers(b: Seq<u8>, n: nat)
    ensures
        spec_dec_headers(b, n) matches Some((hs, rest)) ==> hs.len() == n && b
            == spec_encode_headers(hs) + rest && (forall|i: int|
            0 <= i < hs.len() ==> (#[trigger] hs[i]).0.len() <= u64::MAX && hs[i].1.len()
                <= u64::MAX),
    decreases n,
{
    if n == 0 {
        match spec_dec_headers(b, n) {
            Some((hs, rest)) => {
                assert(b =~= spec_encode_headers(hs) + rest);
            },
            None => {},
        }
    } else {
        match spec_dec_str(b) {
            Some((k, r1)) => {
                lemma_enc_dec_str(b);
                match spec_dec_str(r1) {
                    Some((v, r2)) => {
                        lemma_enc_dec_str(r1);
                        lemma_enc_dec_headers(r2, (n - 1) as nat);
                        match spec_dec_headers(r2, (n - 1) as nat) {
                            Some((hs2, rest)) => {
                                let hs = seq![(k, v)] + hs2;
                                assert(hs[0] == (k, v));
                                assert(hs.drop_first() =~= hs2);
                                assert(spec_encode_headers(hs) == spec_encode_str(k)
                                    + spec_encode_str(v) + spec_encode_headers(hs2));
                                assert(b =~= spec_encode_headers(hs) + rest);
                            },
                            None => {},
                        }
                    },
                    None => {},
                }
            },
            None => {},
        }
    }
}

/// Unambiguity of the wire format: a byte string that decodes at all is
/// exactly the framing of the message it decodes to — no two distinct
/// messages share a framing, and a framing carries nothing beyond its
/// message.
pub proof fn lemma_encode_decode(b: Seq<u8>)
    ensures
        spec_decode_msg(b) matches Some(m) ==> spec_msg_bounded(m) && b == spec_encode_msg(m),
{
    lemma_auto_spec_u64_to_from_le_bytes();
    if b.len() >= 1 && (b[0] == 0 || b[0] == 1) {
        let r0 = b.skip(1);
        lemma_enc_dec_u64(r0);
        match spec_dec_u64(r0) {
            Some((id, r1)) => {
                lemma_enc_dec_str(r1);
                match spec_dec_str(r1) {
                    Some((target, r2)) => {
                        lemma_enc_dec_u64(r2);
                        match spec_dec_u64(r2) {
                            Some((hn, r3)) => {
                                lemma_enc_dec_headers(r3, hn as nat);
                                match spec_dec_headers(r3, hn as nat) {
                                    Some((hs, r4)) => {
                                        lemma_enc_dec_u64(r4);
                                        match spec_dec_u64(r4) {
                                            Some((bn, r5)) => {
                                                if r5.len() == bn {
                                                    assert(hs.len() as u64 == hn);
                                                    assert(r5.len() as u64 == bn);
                                                    assert(b =~= seq![b[0]] + b.skip(1));
                                                    match spec_decode_msg(b) {
                                                        Some(m) => {
                                                            assert(spec_kind_byte(m.mtype)
                                                                == b[0]);
                                                            assert(b =~= spec_encode_msg(m));
                                                        },
                                                        None => {},
                                                    }
                                                }
                                            },
                                            None => {},
                                        }
                                    },
                                    None => {},
                                }
                            },
                            None => {},
                        }
                    },
                    None => {},
                }
            },
            None => {},
        }
    }
}

/// Round trip: unframing the framing of any bounded message gives that
/// message back, so nothing a message carries — kind, id, target, headers
/// in their order and multiplicity, body bytes — is lost on the wire.
pub proof fn lemma_decode_encode(m: MessageView)
    requires
        spec_msg_bounded(m),
    ensures
        spec_decode_msg(spec_encode_msg(m)) == Some(m),
{
    lemma_auto_spec_u64_to_from_le_bytes();
    let b = spec_encode_msg(m);
    let p_id = spec_u64_to_le_bytes(m.id);
    let p_target = spec_encode_str(m.target);
    let p_hn = spec_u64_to_le_bytes(m.headers.len() as u64);
    let p_hs = spec_encode_headers(m.headers);
    let p_bn = spec_u64_to_le_bytes(m.body.len() as u64);
    assert(b.len() >= 1);
    assert(b[0] == spec_kind_byte(m.mtype));
    let r0 = b.skip(1);
    assert(r0 =~= p_id + (p_target + (p_hn + (p_hs + (p_bn + m.body)))));
    let r1 = p_target + (p_hn + (p_hs + (p_bn + m.body)));
    assert(r0.take(8) =~= p_id);
    assert(r0.skip(8) =~= r1);
    let r2 = p_hn + (p_hs + (p_bn + m.body));
    lemma_dec_str_of_encode(m.target, r2);
    assert(p_target + r2 =~= r1);
    let r3 = p_hs + (p_bn + m.body);
    assert(r2.take(8) =~= p_hn);
    assert(r2.skip(8) =~= r3);
    lemma_dec_headers_of_encode(m.headers, p_bn + m.body);
    let r4 = p_bn + m.body;
    assert(r4.take(8) =~= p_bn);
    assert(r4.skip(8) =~= m.body);
    if m.mtype == MessageType::Call {
        assert(b[0] == 0);
    } else {
        assert(b[0] == 1);
    }
    assert(spec_decode_msg(b) == Some(m));
}

} // verus!
