//! Frame decoder: extracts one complete PostgreSQL protocol message from
//! the front of a receive buffer, and re-serializes a decoded message back
//! to its exact wire bytes.

use vstd::prelude::*;

use crate::buffer::bytes_of;
use crate::buffer::buf_advance;
use crate::buffer::buf_byte;
use crate::buffer::buf_len;
use crate::buffer::buf_split_to;

verus! {

/// Classification of an untagged startup-phase message, by the 4-byte code
/// at the front of its payload.
#[derive(Debug, Clone, Copy, PartialEq, Eq, Structural)]
pub enum StartupKind {
    SslRequest,
    CancelRequest,
    StartupMessage,
}

/// The code a client sends to ask for SSL negotiation.
pub const SSL_REQUEST_CODE: u32 = 80877103;

/// The code a client sends to cancel an in-progress operation.
pub const CANCEL_REQUEST_CODE: u32 = 80877102;

/// How an untagged message's code is classified.
pub open spec fn spec_startup_kind(code: u32) -> StartupKind {
    if code == SSL_REQUEST_CODE {
        StartupKind::SslRequest
    } else if code == CANCEL_REQUEST_CODE {
        StartupKind::CancelRequest
    } else {
        StartupKind::StartupMessage
    }
}

/// Classify an untagged message's 4-byte code.
pub fn startup_kind_of_code(code: u32) -> (k: StartupKind)
    ensures
        k == spec_startup_kind(code),
{
    if code == SSL_REQUEST_CODE {
        StartupKind::SslRequest
    } else if code == CANCEL_REQUEST_CODE {
        StartupKind::CancelRequest
    } else {
        StartupKind::StartupMessage
    }
}

/// A decoded message, at the specification level: the optional tag byte,
/// the payload bytes (everything after the length field), and, for
/// untagged messages, the classification of the embedded code.
#[verifier::ext_equal]
pub struct SpecMessage {
    pub tag: Option<u8>,
    pub payload: Seq<u8>,
    pub startup_kind: Option<StartupKind>,
}

/// What one decode attempt against a buffer yields.
#[verifier::ext_equal]
pub enum SpecParse {
    /// The buffer holds no complete message yet; nothing is consumed.
    NeedMore,
    /// The length field is too small to cover the message's own framing;
    /// the connection must be failed.
    Malformed,
    /// One complete message, occupying the first `consumed` buffer bytes.
    Frame { msg: SpecMessage, consumed: int },
}

/// A single decoded protocol unit. `tag` is absent exactly when the message
/// was read in the untagged startup phase; `startup_kind` is present exactly
/// then. `payload` excludes the length field and the tag byte.
#[derive(Debug)]
pub struct PgMessage {
    pub tag: Option<u8>,
    pub payload: bytes::BytesMut,
    pub startup_kind: Option<StartupKind>,
}

impl View for PgMessage {
    type V = SpecMessage;

    open spec fn view(&self) -> SpecMessage {
        SpecMessage {
            tag: self.tag,
            payload: bytes_of(self.payload),
            startup_kind: self.startup_kind,
        }
    }
}

impl PgMessage {
    /// The payload of any message framed on the wire fits the 4-byte length
    /// field that covers payload and field itself.
    pub open spec fn wf(&self) -> bool {
        bytes_of(self.payload).len() + 4 <= u32::MAX
    }
}

/// The one way a buffer can be unrecoverably malformed: a length field too
/// small to cover the message's own framing.
#[derive(Debug, Clone, Copy, PartialEq, Eq, Structural)]
pub enum DecodeError {
    BadLength,
}

/// The big-endian 32-bit value held by four bytes.
pub open spec fn spec_be32(b0: u8, b1: u8, b2: u8, b3: u8) -> u32 {
    (0x1000000 * (b0 as u32) + 0x10000 * (b1 as u32) + 0x100 * (b2 as u32) + (b3 as u32)) as u32
}

/// Read a big-endian 32-bit value from four bytes.
pub fn be32_of(b0: u8, b1: u8, b2: u8, b3: u8) -> (v: u32)
    ensures
        v == spec_be32(b0, b1, b2, b3),
{
    0x1000000 * (b0 as u32) + 0x10000 * (b1 as u32) + 0x100 * (b2 as u32) + (b3 as u32)
}

/// What decoding one message from the front of `s` yields.
///
/// In the startup phase a message is `[u32 length][u32 code][rest]`, the
/// length covering the whole message including itself; its payload is
/// everything after the length field, so the code is the payload's first
/// four bytes and the length must be at least 8. In the normal phase a
/// message is `[u8 tag][u32 length][payload]`, the length covering payload
/// and itself, so it must be at least 4.
pub open spec fn spec_decode(s: Seq<u8>, startup: bool) -> SpecParse {
    if startup {
        if s.len() < 8 {
            SpecParse::NeedMore
        } else {
            let len = spec_be32(s[0], s[1], s[2], s[3]) as int;
            if len < 8 {
                SpecParse::Malformed
            } else if s.len() < len {
                SpecParse::NeedMore
            } else {
                SpecParse::Frame {
                    msg: SpecMessage {
                        tag: None,
                        payload: s.subrange(4, len),
                        startup_kind: Some(spec_startup_kind(spec_be32(s[4], s[5], s[6], s[7]))),
                    },
                    consumed: len,
                }
            }
        }
    } else {
        if s.len() < 5 {
            SpecParse::NeedMore
        } else {
            let len = spec_be32(s[1], s[2], s[3], s[4]) as int;
            if len < 4 {
                SpecParse::Malformed
            } else if s.len() < len + 1 {
                SpecParse::NeedMore
            } else {
                SpecParse::Frame {
                    msg: SpecMessage {
                        tag: Some(s[0]),
                        payload: s.subrange(5, len + 1),
                        startup_kind: None,
                    },
                    consumed: len + 1,
                }
            }
        }
    }
}

/// Try to remove exactly one complete message from the front of `buf`.
///
/// `Ok(None)` means "not enough data": nothing was consumed, and the same
/// call succeeds once the rest of the message has been appended.
/// `Err(BadLength)` means the peer framed a message whose length field
/// cannot cover the framing itself; the buffer is left untouched and the
/// connection must be failed. `Ok(Some(m))` removes precisely `m`'s wire
/// bytes from the front of the buffer.
pub fn try_parse_message(buf: &mut bytes::BytesMut, startup: bool) -> (r: Result<
    Option<PgMessage>,
    DecodeError,
>)
    ensures
        match spec_decode(bytes_of(*old(buf)), startup) {
            SpecParse::NeedMore => r matches Ok(m) && m is None && bytes_of(*final(buf))
                == bytes_of(*old(buf)),
            SpecParse::Malformed => r matches Err(e) && e == DecodeError::BadLength && bytes_of(
                *final(buf),
            ) == bytes_of(*old(buf)),
            SpecParse::Frame { msg, consumed } => r matches Ok(m) && m matches Some(pm) && pm@
                == msg && pm.wf() && bytes_of(*final(buf)) == bytes_of(*old(buf)).skip(consumed),
        },
{
    let ghost s = bytes_of(*buf);
    if startup {
        let n = buf_len(buf);
        if n < 8 {
            return Ok(None);
        }
        let len32 = be32_of(buf_byte(buf, 0), buf_byte(buf, 1), buf_byte(buf, 2), buf_byte(buf, 3));
        if len32 < 8 {
            return Err(DecodeError::BadLength);
        }
        let len = len32 as usize;
        if n < len {
            return Ok(None);
        }
        let code = be32_of(buf_byte(buf, 4), buf_byte(buf, 5), buf_byte(buf, 6), buf_byte(buf, 7));
        buf_advance(buf, 4);
        let payload = buf_split_to(buf, len - 4);
        proof {
            assert(bytes_of(payload) =~= s.subrange(4, len as int));
            assert(bytes_of(*buf) =~= s.skip(len as int));
        }
        Ok(
            Some(
                PgMessage {
                    tag: None,
                    payload,
                    startup_kind: Some(startup_kind_of_code(code)),
                },
            ),
        )
    } else {
        let n = buf_len(buf);
        if n < 5 {
            return Ok(None);
        }
        let tag = buf_byte(buf, 0);
        let len32 = be32_of(buf_byte(buf, 1), buf_byte(buf, 2), buf_byte(buf, 3), buf_byte(buf, 4));
        if len32 < 4 {
            return Err(DecodeError::BadLength);
        }
        let len = len32 as usize;
        if n - 1 < len {
            return Ok(None);
        }
        buf_advance(buf, 5);
        let payload = buf_split_to(buf, len - 4);
        proof {
            assert(bytes_of(payload) =~= s.subrange(5, len + 1));
            assert(bytes_of(*buf) =~= s.skip(len + 1));
        }
        Ok(Some(PgMessage { tag: Some(tag), payload, startup_kind: None }))
    }
}

/// The four big-endian bytes of a 32-bit value.
pub open spec fn spec_be32_bytes(v: u32) -> Seq<u8> {
    seq![
        (v / 0x1000000 % 0x100) as u8,
        (v / 0x10000 % 0x100) as u8,
        (v / 0x100 % 0x100) as u8,
        (v % 0x100) as u8,
    ]
}

/// The exact wire bytes of a message: the tag byte if present, then the
/// 4-byte big-endian length (payload length plus the field's own 4 bytes),
/// then the payload.
pub open spec fn spec_serialize(m: SpecMessage) -> Seq<u8> {
    let framed = spec_be32_bytes((m.payload.len() + 4) as u32) + m.payload;
    match m.tag {
        Some(t) => seq![t] + framed,
        None => framed,
    }
}

/// Reading four big-endian bytes and writing the value back gives the same
/// four bytes.
pub proof fn lemma_be32_round_trip(b0: u8, b1: u8, b2: u8, b3: u8)
    ensures
        spec_be32_bytes(spec_be32(b0, b1, b2, b3)) =~= seq![b0, b1, b2, b3],
{
    let v = spec_be32(b0, b1, b2, b3);
    assert(v / 0x1000000 % 0x100 == b0 && v / 0x10000 % 0x100 == b1 && v / 0x100 % 0x100 == b2 && v
        % 0x100 == b3) by (bit_vector)
        requires
            v == (0x1000000 * (b0 as u32) + 0x10000 * (b1 as u32) + 0x100 * (b2 as u32)
                + (b3 as u32)) as u32,
    ;
}

/// Re-serialize a decoded message back to its exact wire bytes.
pub fn serialize_message(msg: &PgMessage) -> (out: Vec<u8>)
    requires
        msg.wf(),
    ensures
        out@ == spec_serialize(msg@),
{
    let mut out: Vec<u8> = Vec::new();
    if let Some(t) = msg.tag {
        out.push(t);
    }
    let plen = buf_len(&msg.payload);
    let total: u32 = (plen as u32) + 4;
    out.push((total / 0x1000000 % 0x100) as u8);
    out.push((total / 0x10000 % 0x100) as u8);
    out.push((total / 0x100 % 0x100) as u8);
    out.push((total % 0x100) as u8);
    let ghost head = out@;
    let mut i: usize = 0;
    while i < plen
        invariant
            plen == bytes_of(msg.payload).len(),
            0 <= i <= plen,
            out@ == head + bytes_of(msg.payload).take(i as int),
        decreases plen - i,
    {
        out.push(buf_byte(&msg.payload, i));
        proof {
            assert(bytes_of(msg.payload).take(i + 1) =~= bytes_of(msg.payload).take(i as int)
                + seq![bytes_of(msg.payload)[i as int]]);
        }
        i += 1;
    }
    proof {
        assert(bytes_of(msg.payload).take(plen as int) =~= bytes_of(msg.payload));
        assert(out@ =~= spec_serialize(msg@));
    }
    out
}

/// Copy a buffer's bytes into a plain vector.
pub fn buffer_to_vec(b: &bytes::BytesMut) -> (v: Vec<u8>)
    ensures
        v@ == bytes_of(*b),
{
    let n = buf_len(b);
    let mut v: Vec<u8> = Vec::new();
    let mut i: usize = 0;
    while i < n
        invariant
            n == bytes_of(*b).len(),
            0 <= i <= n,
            v@ == bytes_of(*b).take(i as int),
        decreases n - i,
    {
        v.push(buf_byte(b, i));
        proof {
            assert(bytes_of(*b).take(i + 1) =~= bytes_of(*b).take(i as int) + seq![bytes_of(*b)[i as int]]);
        }
        i += 1;
    }
    proof {
        assert(bytes_of(*b).take(n as int) =~= bytes_of(*b));
    }
    v
}

/// Decoding one message from the front of a buffer and re-serializing it
/// reproduces exactly the bytes the decoder consumed, whatever follows them.
pub proof fn lemma_round_trip(s: Seq<u8>, startup: bool)
    ensures
        spec_decode(s, startup) matches SpecParse::Frame { msg, consumed } ==> spec_serialize(msg)
            == s.take(consumed),
{
    if let SpecParse::Frame { msg, consumed } = spec_decode(s, startup) {
        if startup {
            lemma_be32_round_trip(s[0], s[1], s[2], s[3]);
            assert(spec_serialize(msg) =~= s.take(consumed));
        } else {
            lemma_be32_round_trip(s[1], s[2], s[3], s[4]);
            assert(spec_serialize(msg) =~= s.take(consumed));
        }
    }
}

/// Partial-read robustness, first half: while any suffix of a message is
/// still missing, the decoder signals "not enough data" — never a malformed
/// or truncated message.
pub proof fn lemma_decode_prefix_needs_more(s: Seq<u8>, k: int, startup: bool)
    requires
        spec_decode(s, startup) matches SpecParse::Frame { msg, consumed } && k < consumed,
        0 <= k,
    ensures
        spec_decode(s.take(k), startup) is NeedMore,
{
    let p = s.take(k);
    if startup {
        if p.len() >= 8 {
            assert(p[0] == s[0] && p[1] == s[1] && p[2] == s[2] && p[3] == s[3]);
        }
    } else {
        if p.len() >= 5 {
            assert(p[1] == s[1] && p[2] == s[2] && p[3] == s[3] && p[4] == s[4]);
        }
    }
}

/// Partial-read robustness, second half: once a complete message is at the
/// front of the buffer, whatever arrives after it changes neither the
/// decoded message nor the number of bytes consumed.
pub proof fn lemma_decode_unaffected_by_suffix(s: Seq<u8>, rest: Seq<u8>, startup: bool)
    requires
        spec_decode(s, startup) is Frame,
    ensures
        spec_decode(s + rest, startup) == spec_decode(s, startup),
{
    let ext = s + rest;
    if startup {
        assert(ext[0] == s[0] && ext[1] == s[1] && ext[2] == s[2] && ext[3] == s[3] && ext[4]
            == s[4] && ext[5] == s[5] && ext[6] == s[6] && ext[7] == s[7]);
        if let SpecParse::Frame { msg, consumed } = spec_decode(s, startup) {
            assert(ext.subrange(4, consumed) =~= s.subrange(4, consumed));
            assert(spec_decode(ext, startup) =~~= spec_decode(s, startup));
        }
    } else {
        assert(ext[0] == s[0] && ext[1] == s[1] && ext[2] == s[2] && ext[3] == s[3] && ext[4]
            == s[4]);
        if let SpecParse::Frame { msg, consumed } = spec_decode(s, startup) {
            assert(ext.subrange(5, consumed) =~= s.subrange(5, consumed));
            assert(spec_decode(ext, startup) =~~= spec_decode(s, startup));
        }
    }
}

/// `m` is a message the decoder itself can produce in the given phase: the
/// tag is absent exactly in the startup phase, the payload fits the 4-byte
/// length field, and an untagged message carries the classification of the
/// code held by its payload's first four bytes.
pub open spec fn spec_valid_message(m: SpecMessage, startup: bool) -> bool {
    if startup {
        &&& m.tag is None
        &&& m.payload.len() >= 4
        &&& m.payload.len() + 4 <= u32::MAX
        &&& m.startup_kind == Some(
            spec_startup_kind(spec_be32(m.payload[0], m.payload[1], m.payload[2], m.payload[3])),
        )
    } else {
        &&& m.tag is Some
        &&& m.payload.len() + 4 <= u32::MAX
        &&& m.startup_kind is None
    }
}

/// Writing a 32-bit value as four big-endian bytes and reading them back
/// gives the value.
pub proof fn lemma_be32_bytes_value(v: u32)
    ensures
        ({
            let b = spec_be32_bytes(v);
            spec_be32(b[0], b[1], b[2], b[3]) == v
        }),
{
    let c0: u32 = v / 0x1000000 % 0x100;
    let c1: u32 = v / 0x10000 % 0x100;
    let c2: u32 = v / 0x100 % 0x100;
    let c3: u32 = v % 0x100;
    assert(0x1000000 * c0 + 0x10000 * c1 + 0x100 * c2 + c3 == v) by (bit_vector)
        requires
            c0 == v / 0x1000000 % 0x100,
            c1 == v / 0x10000 % 0x100,
            c2 == v / 0x100 % 0x100,
            c3 == v % 0x100,
    ;
    let b = spec_be32_bytes(v);
    assert(b[0] as u32 == c0 && b[1] as u32 == c1 && b[2] as u32 == c2 && b[3] as u32 == c3);
}

/// Serializing a valid message and decoding it back yields that message,
/// consuming exactly its wire bytes, whatever bytes follow them.
pub proof fn lemma_encode_decode(m: SpecMessage, rest: Seq<u8>, startup: bool)
    requires
        spec_valid_message(m, startup),
    ensures
        spec_decode(spec_serialize(m) + rest, startup) == (SpecParse::Frame {
            msg: m,
            consumed: spec_serialize(m).len() as int,
        }),
{
    let w = spec_serialize(m);
    let s = w + rest;
    let total = (m.payload.len() + 4) as u32;
    lemma_be32_bytes_value(total);
    let lb = spec_be32_bytes(total);
    if startup {
        assert(s[0] == lb[0] && s[1] == lb[1] && s[2] == lb[2] && s[3] == lb[3]);
        assert(s.subrange(4, total as int) =~= m.payload);
        assert(s[4] == m.payload[0] && s[5] == m.payload[1] && s[6] == m.payload[2] && s[7]
            == m.payload[3]);
        assert(spec_decode(s, startup) =~~= (SpecParse::Frame {
            msg: m,
            consumed: w.len() as int,
        }));
    } else {
        assert(s[0] == m.tag.unwrap());
        assert(s[1] == lb[0] && s[2] == lb[1] && s[3] == lb[2] && s[4] == lb[3]);
        assert(s.subrange(5, total as int + 1) =~= m.payload);
        assert(spec_decode(s, startup) =~~= (SpecParse::Frame {
            msg: m,
            consumed: w.len() as int,
        }));
    }
}

/// The complete messages at the front of `s`, decoded in order with a fixed
/// phase flag, together with the remainder that awaits more data; `None`
/// when a malformed length is reached.
pub open spec fn spec_drain(s: Seq<u8>, startup: bool) -> Option<(Seq<SpecMessage>, Seq<u8>)>
    decreases s.len(),
{
    match spec_decode(s, startup) {
        SpecParse::NeedMore => Some((Seq::empty(), s)),
        SpecParse::Malformed => None,
        SpecParse::Frame { msg, consumed } => match spec_drain(s.skip(consumed), startup) {
            None => None,
            Some(d) => Some((seq![msg] + d.0, d.1)),
        },
    }
}

/// The concatenated wire bytes of a sequence of messages.
pub open spec fn spec_encode_all(msgs: Seq<SpecMessage>) -> Seq<u8>
    decreases msgs.len(),
{
    if msgs.len() == 0 {
        Seq::empty()
    } else {
        spec_serialize(msgs[0]) + spec_encode_all(msgs.skip(1))
    }
}

/// Drain-all: a buffer holding any number of complete valid messages
/// followed by an incomplete prefix yields exactly those messages, in
/// order, and leaves exactly that prefix behind.
#[verifier::rlimit(100)]
pub proof fn lemma_drain_all(msgs: Seq<SpecMessage>, p: Seq<u8>, startup: bool)
    requires
        forall|i: int| 0 <= i < msgs.len() ==> spec_valid_message(#[trigger] msgs[i], startup),
        spec_decode(p, startup) is NeedMore,
    ensures
        spec_drain(spec_encode_all(msgs) + p, startup) == Some((msgs, p)),
    decreases msgs.len(),
{
    if msgs.len() == 0 {
        assert(spec_encode_all(msgs) + p =~= p);
        assert(msgs =~= Seq::<SpecMessage>::empty());
    } else {
        let m0 = msgs[0];
        let tail = msgs.skip(1);
        let w0 = spec_serialize(m0);
        let rest = spec_encode_all(tail) + p;
        let s = spec_encode_all(msgs) + p;
        assert(s =~= w0 + rest);
        lemma_encode_decode(m0, rest, startup);
        assert(spec_decode(s, startup) == (SpecParse::Frame {
            msg: m0,
            consumed: w0.len() as int,
        }));
        assert(s.skip(w0.len() as int) =~= rest);
        assert(forall|i: int|
            0 <= i < tail.len() ==> spec_valid_message(#[trigger] tail[i], startup)) by {
            assert(forall|i: int| 0 <= i < tail.len() ==> tail[i] == msgs[i + 1]);
        }
        lemma_drain_all(tail, p, startup);
        assert(spec_drain(rest, startup) == Some((tail, p)));
        assert(spec_drain(s, startup) == Some((seq![m0] + tail, p)));
        assert(seq![m0] + tail =~= msgs);
    }
}

/// Index of the first zero byte of `p` at or after `i`; the length of `p`
/// when there is none.
pub open spec fn spec_find_nul(p: Seq<u8>, i: int) -> int
    decreases p.len() - i,
{
    if i < 0 || i >= p.len() {
        p.len() as int
    } else if p[i] == 0 {
        i
    } else {
        spec_find_nul(p, i + 1)
    }
}

/// Where the first zero byte lies: between `i` and the length, bounding the
/// run of non-zero bytes before it.
pub proof fn lemma_find_nul_bounds(p: Seq<u8>, i: int)
    requires
        0 <= i <= p.len(),
    ensures
        i <= spec_find_nul(p, i) <= p.len(),
        forall|j: int| i <= j < spec_find_nul(p, i) ==> p[j] != 0,
        spec_find_nul(p, i) < p.len() ==> p[spec_find_nul(p, i)] == 0,
    decreases p.len() - i,
{
    if i < p.len() && p[i] != 0 {
        lemma_find_nul_bounds(p, i + 1);
    }
}

/// The key/value pairs scanned from offset `i` of a startup payload: NUL
/// terminated key and value strings alternate until a zero byte stands in
/// key position. `None` when any scan would run past the payload's end —
/// the scan never reads beyond it.
pub open spec fn spec_scan_params(p: Seq<u8>, i: int) -> Option<Seq<(Seq<u8>, Seq<u8>)>>
    decreases p.len() - i,
    when 0 <= i
    via spec_scan_params_decreases
{
    if i >= p.len() {
        None
    } else if p[i] == 0 {
        Some(Seq::empty())
    } else {
        let k = spec_find_nul(p, i);
        if k >= p.len() {
            None
        } else {
            let v = spec_find_nul(p, k + 1);
            if v >= p.len() {
                None
            } else {
                match spec_scan_params(p, v + 1) {
                    None => None,
                    Some(tail) => Some(seq![(p.subrange(i, k), p.subrange(k + 1, v))] + tail),
                }
            }
        }
    }
}

#[via_fn]
proof fn spec_scan_params_decreases(p: Seq<u8>, i: int) {
    if 0 <= i && i < p.len() && p[i] != 0 {
        lemma_find_nul_bounds(p, i);
        let k = spec_find_nul(p, i);
        if k < p.len() {
            lemma_find_nul_bounds(p, k + 1);
        }
    }
}

/// The parameters of a startup message payload: the first four bytes are
/// the protocol version and are skipped, then keys and values alternate as
/// NUL-terminated strings until a zero byte in key position. `None` when
/// the terminator is missing or a string runs past the payload's end.
pub open spec fn spec_startup_params(p: Seq<u8>) -> Option<Seq<(Seq<u8>, Seq<u8>)>> {
    spec_scan_params(p, 4)
}

/// The byte sequences of an accumulated vector of key/value pairs.
pub open spec fn spec_pairs_view(v: Seq<(Vec<u8>, Vec<u8>)>) -> Seq<(Seq<u8>, Seq<u8>)> {
    v.map_values(|pr: (Vec<u8>, Vec<u8>)| (pr.0@, pr.1@))
}

/// Prepend already-scanned pairs to what a scan of the rest yields.
pub open spec fn spec_params_prepend(
    acc: Seq<(Seq<u8>, Seq<u8>)>,
    t: Option<Seq<(Seq<u8>, Seq<u8>)>>,
) -> Option<Seq<(Seq<u8>, Seq<u8>)>> {
    match t {
        None => None,
        Some(tail) => Some(acc + tail),
    }
}

/// Find the first zero byte of the buffer at or after `from`; the buffer's
/// length when there is none.
fn find_nul(b: &bytes::BytesMut, from: usize) -> (r: usize)
    requires
        from <= bytes_of(*b).len(),
    ensures
        r == spec_find_nul(bytes_of(*b), from as int),
{
    let n = buf_len(b);
    let mut j = from;
    while j < n
        invariant
            from <= j <= n,
            n == bytes_of(*b).len(),
            spec_find_nul(bytes_of(*b), from as int) == spec_find_nul(bytes_of(*b), j as int),
        decreases n - j,
    {
        if buf_byte(b, j) == 0 {
            return j;
        }
        j += 1;
    }
    j
}

/// Copy the bytes `[from, to)` of the buffer into a plain vector.
fn buf_slice_vec(b: &bytes::BytesMut, from: usize, to: usize) -> (v: Vec<u8>)
    requires
        from <= to <= bytes_of(*b).len(),
    ensures
        v@ == bytes_of(*b).subrange(from as int, to as int),
{
    let mut v: Vec<u8> = Vec::new();
    let mut i = from;
    while i < to
        invariant
            from <= i <= to <= bytes_of(*b).len(),
            v@ == bytes_of(*b).subrange(from as int, i as int),
        decreases to - i,
    {
        v.push(buf_byte(b, i));
        proof {
            assert(bytes_of(*b).subrange(from as int, i + 1) =~= bytes_of(*b).subrange(
                from as int,
                i as int,
            ) + seq![bytes_of(*b)[i as int]]);
        }
        i += 1;
    }
    v
}

/// Extract the key/value parameters from a startup message's payload, in
/// wire order. `None` exactly when the payload lacks its terminating zero
/// byte or a string runs past the payload's end; the scan never reads
/// beyond the payload.
pub fn parse_startup_params(payload: &bytes::BytesMut) -> (r: Option<Vec<(Vec<u8>, Vec<u8>)>>)
    ensures
        match spec_startup_params(bytes_of(*payload)) {
            Some(ps) => r matches Some(v) && spec_pairs_view(v@) == ps,
            None => r is None,
        },
{
    let ghost p = bytes_of(*payload);
    let n = buf_len(payload);
    let mut out: Vec<(Vec<u8>, Vec<u8>)> = Vec::new();
    let mut i: usize = 4;
    proof {
        assert(spec_pairs_view(out@) =~= Seq::<(Seq<u8>, Seq<u8>)>::empty());
        if let Some(t) = spec_scan_params(p, 4) {
            assert(spec_pairs_view(out@) + t =~= t);
        }
    }
    loop
        invariant
            n == p.len(),
            p == bytes_of(*payload),
            4 <= i,
            spec_params_prepend(spec_pairs_view(out@), spec_scan_params(p, i as int))
                == spec_scan_params(p, 4),
        decreases n - i,
    {
        if i >= n {
            return None;
        }
        if buf_byte(payload, i) == 0 {
            proof {
                if let Some(ps) = spec_scan_params(p, 4) {
                    assert(spec_pairs_view(out@) + Seq::<(Seq<u8>, Seq<u8>)>::empty()
                        =~= spec_pairs_view(out@));
                }
            }
            return Some(out);
        }
        let ghost acc0 = spec_pairs_view(out@);
        proof {
            lemma_find_nul_bounds(p, i as int);
        }
        let k = find_nul(payload, i);
        if k >= n {
            return None;
        }
        proof {
            lemma_find_nul_bounds(p, k + 1);
        }
        let v = find_nul(payload, k + 1);
        if v >= n {
            return None;
        }
        let key = buf_slice_vec(payload, i, k);
        let val = buf_slice_vec(payload, k + 1, v);
        out.push((key, val));
        proof {
            assert(spec_pairs_view(out@) =~= acc0 + seq![(p.subrange(i as int, k as int), p.subrange(
                k + 1,
                v as int,
            ))]);
            if let Some(tail) = spec_scan_params(p, v + 1) {
                assert(acc0 + (seq![(p.subrange(i as int, k as int), p.subrange(k + 1, v as int))]
                    + tail) =~= spec_pairs_view(out@) + tail);
            }
        }
        i = v + 1;
    }
}

} // verus!
