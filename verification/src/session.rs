//! Proxy session state: the startup-phase flag and the authentication
//! state machine, plus the two drain routines the forwarding directions
//! run over their receive buffers. Each drain removes every complete
//! message currently buffered, updates the session state per message, and
//! returns the exact wire bytes to forward to the opposite socket.

use vstd::prelude::*;

use crate::buffer::bytes_of;
use crate::buffer::buf_byte;
use crate::buffer::buf_len;
use crate::protocol::DecodeError;
use crate::protocol::PgMessage;
use crate::protocol::SpecMessage;
use crate::protocol::SpecParse;
use crate::protocol::StartupKind;
use crate::protocol::be32_of;
use crate::protocol::buffer_to_vec;
use crate::protocol::lemma_round_trip;
use crate::protocol::serialize_message;
use crate::protocol::spec_be32;
use crate::protocol::spec_decode;
use crate::protocol::try_parse_message;

verus! {

/// Whether the client direction is still exchanging untagged
/// startup-phase messages, or has moved to normal tagged traffic.
#[derive(Debug, Clone, Copy, PartialEq, Eq, Structural)]
pub enum Phase {
    Startup,
    Normal,
}

/// Authentication progress observed from the traffic of one session.
#[derive(Debug, Clone, Copy, PartialEq, Eq, Structural)]
pub enum AuthState {
    NotStarted,
    InProgress,
    Authenticated,
}

/// Classification of the sub-code of a backend authentication message.
#[derive(Debug, Clone, Copy, PartialEq, Eq, Structural)]
pub enum AuthClass {
    Success,
    CleartextPassword,
    Md5Password,
    Sasl,
    SaslContinue,
    SaslFinal,
    Unknown,
}

/// The tag byte of a backend authentication message, `b'R'`.
pub const AUTH_TAG: u8 = 82;

/// How an authentication sub-code is classified.
pub open spec fn spec_classify_auth_code(code: u32) -> AuthClass {
    if code == 0 {
        AuthClass::Success
    } else if code == 3 {
        AuthClass::CleartextPassword
    } else if code == 5 {
        AuthClass::Md5Password
    } else if code == 10 {
        AuthClass::Sasl
    } else if code == 11 {
        AuthClass::SaslContinue
    } else if code == 12 {
        AuthClass::SaslFinal
    } else {
        AuthClass::Unknown
    }
}

/// Classify an authentication sub-code.
pub fn classify_auth_code(code: u32) -> (c: AuthClass)
    ensures
        c == spec_classify_auth_code(code),
{
    match code {
        0 => AuthClass::Success,
        3 => AuthClass::CleartextPassword,
        5 => AuthClass::Md5Password,
        10 => AuthClass::Sasl,
        11 => AuthClass::SaslContinue,
        12 => AuthClass::SaslFinal,
        _ => AuthClass::Unknown,
    }
}

/// The phase and authentication transition the client direction makes on
/// one decoded message: exactly a genuine startup message flips the phase
/// to Normal and moves authentication to InProgress; every other message,
/// SSL and cancel requests included, changes nothing.
pub open spec fn spec_client_step(m: SpecMessage, phase: Phase, auth: AuthState) -> (Phase,
    AuthState) {
    if phase is Startup && m.startup_kind == Some(StartupKind::StartupMessage) {
        (Phase::Normal, AuthState::InProgress)
    } else {
        (phase, auth)
    }
}

/// Apply the client-direction state transition for one decoded message.
pub fn handle_client_message(msg: &PgMessage, phase: Phase, auth: AuthState) -> (r: (
    Phase,
    AuthState,
))
    ensures
        r == spec_client_step(msg@, phase, auth),
{
    match msg.startup_kind {
        Some(StartupKind::StartupMessage) => {
            if phase == Phase::Startup {
                (Phase::Normal, AuthState::InProgress)
            } else {
                (phase, auth)
            }
        },
        _ => (phase, auth),
    }
}

/// The authentication sub-code a backend message carries: present exactly
/// when the message bears the authentication tag and has at least four
/// payload bytes, which hold the code big-endian.
pub open spec fn spec_auth_code(m: SpecMessage) -> Option<u32> {
    if m.tag == Some(AUTH_TAG) && m.payload.len() >= 4 {
        Some(spec_be32(m.payload[0], m.payload[1], m.payload[2], m.payload[3]))
    } else {
        None
    }
}

/// The authentication transition the server direction makes on one decoded
/// message: exactly sub-code 0 of an authentication message moves the state
/// to Authenticated; everything else leaves it unchanged.
pub open spec fn spec_server_step(m: SpecMessage, auth: AuthState) -> AuthState {
    if spec_auth_code(m) == Some(0u32) {
        AuthState::Authenticated
    } else {
        auth
    }
}

/// Apply the server-direction state transition for one decoded message,
/// returning also the sub-code observed, when the message carries one.
pub fn handle_server_message(msg: &PgMessage, auth: AuthState) -> (r: (AuthState, Option<u32>))
    ensures
        r.0 == spec_server_step(msg@, auth),
        r.1 == spec_auth_code(msg@),
{
    match msg.tag {
        Some(t) => {
            if t == AUTH_TAG {
                let plen = buf_len(&msg.payload);
                if plen >= 4 {
                    let code = be32_of(
                        buf_byte(&msg.payload, 0),
                        buf_byte(&msg.payload, 1),
                        buf_byte(&msg.payload, 2),
                        buf_byte(&msg.payload, 3),
                    );
                    if code == 0 {
                        (AuthState::Authenticated, Some(code))
                    } else {
                        (auth, Some(code))
                    }
                } else {
                    (auth, None)
                }
            } else {
                (auth, None)
            }
        },
        None => (auth, None),
    }
}

/// Everything one client-direction drain yields, at specification level.
#[verifier::ext_equal]
pub struct SpecClientDrain {
    /// The exact wire bytes of the drained messages, in order.
    pub forward: Seq<u8>,
    pub phase: Phase,
    pub auth: AuthState,
    /// The startup-kind of each drained untagged message, in order.
    pub kinds: Seq<StartupKind>,
    /// The payload of the genuine startup message, if one was drained.
    pub startup_payload: Option<Seq<u8>>,
    /// What stays in the buffer: the incomplete trailing prefix.
    pub rem: Seq<u8>,
}

/// What draining every complete message out of `s` does to the client
/// direction's state: `None` when a malformed length is reached, else the
/// forwarded bytes, the final state, the observed kinds and the remainder.
pub open spec fn spec_client_drain(s: Seq<u8>, phase: Phase, auth: AuthState) -> Option<
    SpecClientDrain,
>
    decreases s.len(),
{
    match spec_decode(s, phase is Startup) {
        SpecParse::NeedMore => Some(
            SpecClientDrain {
                forward: Seq::empty(),
                phase,
                auth,
                kinds: Seq::empty(),
                startup_payload: None,
                rem: s,
            },
        ),
        SpecParse::Malformed => None,
        SpecParse::Frame { msg, consumed } => {
            let step = spec_client_step(msg, phase, auth);
            let here_kinds = match msg.startup_kind {
                Some(k) => seq![k],
                None => Seq::empty(),
            };
            let here_payload = if phase is Startup && msg.startup_kind == Some(
                StartupKind::StartupMessage,
            ) {
                Some(msg.payload)
            } else {
                None
            };
            match spec_client_drain(s.skip(consumed), step.0, step.1) {
                None => None,
                Some(d) => Some(
                    SpecClientDrain {
                        forward: s.take(consumed) + d.forward,
                        phase: d.phase,
                        auth: d.auth,
                        kinds: here_kinds + d.kinds,
                        startup_payload: if here_payload is Some {
                            here_payload
                        } else {
                            d.startup_payload
                        },
                        rem: d.rem,
                    },
                ),
            }
        },
    }
}

/// Everything one run of the client-direction drain produced.
#[derive(Debug)]
pub struct ClientDrain {
    /// The exact wire bytes to forward to the backend, in arrival order.
    pub forward: Vec<u8>,
    pub phase: Phase,
    pub auth: AuthState,
    /// The startup-kind of each untagged message drained, in order.
    pub kinds: Vec<StartupKind>,
    /// The payload of the genuine startup message, if one was drained.
    pub startup_payload: Option<Vec<u8>>,
}

/// The view of an optional byte vector.
pub open spec fn spec_opt_bytes(o: Option<Vec<u8>>) -> Option<Seq<u8>> {
    match o {
        Some(v) => Some(v@),
        None => None,
    }
}

/// Prepend what a drain loop has already produced to what remains.
pub open spec fn spec_client_prepend(
    fwd: Seq<u8>,
    kinds: Seq<StartupKind>,
    sp: Option<Seq<u8>>,
    d: Option<SpecClientDrain>,
) -> Option<SpecClientDrain> {
    match d {
        None => None,
        Some(d) => Some(
            SpecClientDrain {
                forward: fwd + d.forward,
                phase: d.phase,
                auth: d.auth,
                kinds: kinds + d.kinds,
                startup_payload: if sp is Some {
                    sp
                } else {
                    d.startup_payload
                },
                rem: d.rem,
            },
        ),
    }
}

/// The startup-kinds one decoded message contributes to the drain record.
pub open spec fn spec_here_kinds(msg: SpecMessage) -> Seq<StartupKind> {
    match msg.startup_kind {
        Some(k) => seq![k],
        None => Seq::empty(),
    }
}

/// The startup payload one decoded message contributes to the drain record.
pub open spec fn spec_here_payload(msg: SpecMessage, phase: Phase) -> Option<Seq<u8>> {
    if phase is Startup && msg.startup_kind == Some(StartupKind::StartupMessage) {
        Some(msg.payload)
    } else {
        None
    }
}

/// The first of two optional values, preferring the earlier one.
pub open spec fn spec_first_of(a: Option<Seq<u8>>, b: Option<Seq<u8>>) -> Option<Seq<u8>> {
    if a is Some {
        a
    } else {
        b
    }
}

/// One drain step, seen through the accumulators of the drain loop:
/// consuming one message moves its wire bytes, kinds and startup payload
/// from the remaining drain into the accumulated prefix.
proof fn lemma_client_prepend_step(
    f: Seq<u8>,
    k: Seq<StartupKind>,
    sp: Option<Seq<u8>>,
    s: Seq<u8>,
    phase: Phase,
    auth: AuthState,
    msg: SpecMessage,
    consumed: int,
)
    requires
        spec_decode(s, phase is Startup) == (SpecParse::Frame { msg, consumed }),
    ensures
        spec_client_prepend(f, k, sp, spec_client_drain(s, phase, auth)) == spec_client_prepend(
            f + s.take(consumed),
            k + spec_here_kinds(msg),
            spec_first_of(sp, spec_here_payload(msg, phase)),
            spec_client_drain(
                s.skip(consumed),
                spec_client_step(msg, phase, auth).0,
                spec_client_step(msg, phase, auth).1,
            ),
        ),
{
    let step = spec_client_step(msg, phase, auth);
    match spec_client_drain(s.skip(consumed), step.0, step.1) {
        None => {},
        Some(d) => {
            assert(f + (s.take(consumed) + d.forward) =~= (f + s.take(consumed)) + d.forward);
            assert(k + (spec_here_kinds(msg) + d.kinds) =~= (k + spec_here_kinds(msg)) + d.kinds);
        },
    }
}

/// Drain every complete message out of the client receive buffer, apply
/// the startup/auth state machine to each, and return the exact bytes to
/// forward to the backend. `Err` reports a malformed length field; the
/// session must then be torn down.
pub fn process_client_bytes(buf: &mut bytes::BytesMut, phase: Phase, auth: AuthState) -> (r: Result<
    ClientDrain,
    DecodeError,
>)
    ensures
        match spec_client_drain(bytes_of(*old(buf)), phase, auth) {
            Some(d) => r matches Ok(out) && out.forward@ == d.forward && out.phase == d.phase
                && out.auth == d.auth && out.kinds@ == d.kinds && spec_opt_bytes(
                out.startup_payload,
            ) == d.startup_payload && bytes_of(*final(buf)) == d.rem,
            None => r matches Err(e) && e == DecodeError::BadLength,
        },
{
    let mut forward: Vec<u8> = Vec::new();
    let mut kinds: Vec<StartupKind> = Vec::new();
    let mut startup_payload: Option<Vec<u8>> = None;
    let mut ph = phase;
    let mut au = auth;
    proof {
        if let Some(d) = spec_client_drain(bytes_of(*buf), phase, auth) {
            assert(Seq::<u8>::empty() + d.forward =~= d.forward);
            assert(Seq::<StartupKind>::empty() + d.kinds =~= d.kinds);
        }
    }
    loop
        invariant
            spec_client_prepend(
                forward@,
                kinds@,
                spec_opt_bytes(startup_payload),
                spec_client_drain(bytes_of(*buf), ph, au),
            ) == spec_client_drain(bytes_of(*old(buf)), phase, auth),
        decreases bytes_of(*buf).len(),
    {
        let ghost s_cur = bytes_of(*buf);
        let ghost f0 = forward@;
        let ghost k0 = kinds@;
        let ghost sp0 = spec_opt_bytes(startup_payload);
        let ghost ph0 = ph;
        let ghost au0 = au;
        let startup_flag = ph == Phase::Startup;
        match try_parse_message(buf, startup_flag) {
            Err(e) => {
                return Err(e);
            },
            Ok(None) => {
                proof {
                    if let Some(d) = spec_client_drain(s_cur, ph0, au0) {
                        assert(f0 + d.forward =~= f0);
                        assert(k0 + d.kinds =~= k0);
                    }
                }
                return Ok(
                    ClientDrain { forward, phase: ph, auth: au, kinds, startup_payload },
                );
            },
            Ok(Some(m)) => {
                proof {
                    lemma_round_trip(s_cur, startup_flag);
                }
                match m.startup_kind {
                    Some(k) => {
                        kinds.push(k);
                        if startup_flag && k == StartupKind::StartupMessage
                            && startup_payload.is_none() {
                            startup_payload = Some(buffer_to_vec(&m.payload));
                        }
                    },
                    None => {},
                }
                let step = handle_client_message(&m, ph, au);
                let mut w = serialize_message(&m);
                forward.append(&mut w);
                ph = step.0;
                au = step.1;
                proof {
                    if let SpecParse::Frame { msg, consumed } = spec_decode(s_cur, ph0 is Startup) {
                        assert(bytes_of(*buf).len() < s_cur.len());
                        lemma_client_prepend_step(f0, k0, sp0, s_cur, ph0, au0, msg, consumed);
                        assert(forward@ == f0 + s_cur.take(consumed));
                        assert(kinds@ =~= k0 + spec_here_kinds(msg));
                        assert(spec_opt_bytes(startup_payload) == spec_first_of(
                            sp0,
                            spec_here_payload(msg, ph0),
                        ));
                    }
                }
            },
        }
    }
}

/// Everything one server-direction drain yields, at specification level.
#[verifier::ext_equal]
pub struct SpecServerDrain {
    /// The exact wire bytes of the drained messages, in order.
    pub forward: Seq<u8>,
    pub auth: AuthState,
    /// The sub-code of each drained authentication message, in order.
    pub codes: Seq<u32>,
    /// What stays in the buffer: the incomplete trailing prefix.
    pub rem: Seq<u8>,
}

/// The authentication sub-codes one decoded message contributes.
pub open spec fn spec_here_codes(msg: SpecMessage) -> Seq<u32> {
    match spec_auth_code(msg) {
        Some(c) => seq![c],
        None => Seq::empty(),
    }
}

/// What draining every complete message out of `s` does to the server
/// direction's state. The backend never sends untagged messages, so the
/// decode always uses the tagged grammar.
pub open spec fn spec_server_drain(s: Seq<u8>, auth: AuthState) -> Option<SpecServerDrain>
    decreases s.len(),
{
    match spec_decode(s, false) {
        SpecParse::NeedMore => Some(
            SpecServerDrain { forward: Seq::empty(), auth, codes: Seq::empty(), rem: s },
        ),
        SpecParse::Malformed => None,
        SpecParse::Frame { msg, consumed } => {
            match spec_server_drain(s.skip(consumed), spec_server_step(msg, auth)) {
                None => None,
                Some(d) => Some(
                    SpecServerDrain {
                        forward: s.take(consumed) + d.forward,
                        auth: d.auth,
                        codes: spec_here_codes(msg) + d.codes,
                        rem: d.rem,
                    },
                ),
            }
        },
    }
}

/// Everything one run of the server-direction drain produced.
#[derive(Debug)]
pub struct ServerDrain {
    /// The exact wire bytes to forward to the client, in arrival order.
    pub forward: Vec<u8>,
    pub auth: AuthState,
    /// The sub-code of each authentication message drained, in order.
    pub codes: Vec<u32>,
}

/// Prepend what a server drain loop has already produced to what remains.
pub open spec fn spec_server_prepend(
    fwd: Seq<u8>,
    codes: Seq<u32>,
    d: Option<SpecServerDrain>,
) -> Option<SpecServerDrain> {
    match d {
        None => None,
        Some(d) => Some(
            SpecServerDrain {
                forward: fwd + d.forward,
                auth: d.auth,
                codes: codes + d.codes,
                rem: d.rem,
            },
        ),
    }
}

/// One server drain step, seen through the drain loop's accumulators.
proof fn lemma_server_prepend_step(
    f: Seq<u8>,
    c: Seq<u32>,
    s: Seq<u8>,
    auth: AuthState,
    msg: SpecMessage,
    consumed: int,
)
    requires
        spec_decode(s, false) == (SpecParse::Frame { msg, consumed }),
    ensures
        spec_server_prepend(f, c, spec_server_drain(s, auth)) == spec_server_prepend(
            f + s.take(consumed),
            c + spec_here_codes(msg),
            spec_server_drain(s.skip(consumed), spec_server_step(msg, auth)),
        ),
{
    match spec_server_drain(s.skip(consumed), spec_server_step(msg, auth)) {
        None => {},
        Some(d) => {
            assert(f + (s.take(consumed) + d.forward) =~= (f + s.take(consumed)) + d.forward);
            assert(c + (spec_here_codes(msg) + d.codes) =~= (c + spec_here_codes(msg)) + d.codes);
        },
    }
}

/// Drain every complete message out of the backend receive buffer, track
/// authentication progress from each authentication message's sub-code,
/// and return the exact bytes to forward to the client. `Err` reports a
/// malformed length field; the session must then be torn down.
pub fn process_server_bytes(buf: &mut bytes::BytesMut, auth: AuthState) -> (r: Result<
    ServerDrain,
    DecodeError,
>)
    ensures
        match spec_server_drain(bytes_of(*old(buf)), auth) {
            Some(d) => r matches Ok(out) && out.forward@ == d.forward && out.auth == d.auth
                && out.codes@ == d.codes && bytes_of(*final(buf)) == d.rem,
            None => r matches Err(e) && e == DecodeError::BadLength,
        },
{
    let mut forward: Vec<u8> = Vec::new();
    let mut codes: Vec<u32> = Vec::new();
    let mut au = auth;
    proof {
        if let Some(d) = spec_server_drain(bytes_of(*buf), auth) {
            assert(Seq::<u8>::empty() + d.forward =~= d.forward);
            assert(Seq::<u32>::empty() + d.codes =~= d.codes);
        }
    }
    loop
        invariant
            spec_server_prepend(forward@, codes@, spec_server_drain(bytes_of(*buf), au))
                == spec_server_drain(bytes_of(*old(buf)), auth),
        decreases bytes_of(*buf).len(),
    {
        let ghost s_cur = bytes_of(*buf);
        let ghost f0 = forward@;
        let ghost c0 = codes@;
        let ghost au0 = au;
        match try_parse_message(buf, false) {
            Err(e) => {
                return Err(e);
            },
            Ok(None) => {
                proof {
                    if let Some(d) = spec_server_drain(s_cur, au0) {
                        assert(f0 + d.forward =~= f0);
                        assert(c0 + d.codes =~= c0);
                    }
                }
                return Ok(ServerDrain { forward, auth: au, codes });
            },
            Ok(Some(m)) => {
                proof {
                    lemma_round_trip(s_cur, false);
                }
                let step = handle_server_message(&m, au);
                match step.1 {
                    Some(code) => codes.push(code),
                    None => {},
                }
                let mut w = serialize_message(&m);
                forward.append(&mut w);
                au = step.0;
                proof {
                    if let SpecParse::Frame { msg, consumed } = spec_decode(s_cur, false) {
                        assert(bytes_of(*buf).len() < s_cur.len());
                        lemma_server_prepend_step(f0, c0, s_cur, au0, msg, consumed);
                        assert(forward@ == f0 + s_cur.take(consumed));
                        assert(codes@ =~= c0 + spec_here_codes(msg));
                    }
                }
            },
        }
    }
}

/// An element is in a concatenation exactly when it is in one of the parts.
proof fn lemma_contains_concat<A>(a: Seq<A>, b: Seq<A>, x: A)
    ensures
        (a + b).contains(x) <==> a.contains(x) || b.contains(x),
{
    let all = a + b;
    if a.contains(x) {
        let i = choose|i: int| 0 <= i < a.len() && a[i] == x;
        assert(all[i] == x);
    }
    if b.contains(x) {
        let i = choose|i: int| 0 <= i < b.len() && b[i] == x;
        assert(all[a.len() + i] == x);
    }
    if all.contains(x) {
        let i = choose|i: int| 0 <= i < all.len() && all[i] == x;
        if i < a.len() {
            assert(a[i] == x);
        } else {
            assert(b[i - a.len()] == x);
        }
    }
}

/// Phase-transition law: however many messages a drain consumes, the phase
/// ends Normal exactly when it already was Normal or a genuine startup
/// message was among them — SSL and cancel requests never advance it. And
/// the authentication state moves to InProgress exactly on that startup
/// message; no other client-direction traffic ever changes it.
pub proof fn lemma_phase_transition(s: Seq<u8>, phase: Phase, auth: AuthState)
    ensures
        spec_client_drain(s, phase, auth) matches Some(d) ==> {
            &&& (d.phase is Normal <==> (phase is Normal || d.kinds.contains(
                StartupKind::StartupMessage,
            )))
            &&& d.auth == (if phase is Startup && d.kinds.contains(StartupKind::StartupMessage) {
                AuthState::InProgress
            } else {
                auth
            })
        },
    decreases s.len(),
{
    match spec_decode(s, phase is Startup) {
        SpecParse::NeedMore => {
            assert(!Seq::<StartupKind>::empty().contains(StartupKind::StartupMessage));
        },
        SpecParse::Malformed => {},
        SpecParse::Frame { msg, consumed } => {
            let step = spec_client_step(msg, phase, auth);
            lemma_phase_transition(s.skip(consumed), step.0, step.1);
            if let Some(d) = spec_client_drain(s.skip(consumed), step.0, step.1) {
                let here = spec_here_kinds(msg);
                lemma_contains_concat(here, d.kinds, StartupKind::StartupMessage);
                if msg.startup_kind == Some(StartupKind::StartupMessage) {
                    assert(here[0] == StartupKind::StartupMessage);
                    assert(here.contains(StartupKind::StartupMessage));
                } else {
                    assert(!here.contains(StartupKind::StartupMessage)) by {
                        if here.contains(StartupKind::StartupMessage) {
                            let i = choose|i: int|
                                0 <= i < here.len() && here[i] == StartupKind::StartupMessage;
                            assert(false);
                        }
                    }
                }
            }
        },
    }
}

/// Authentication law for the server direction: the state ends
/// Authenticated exactly when it already was, or an authentication message
/// with sub-code 0 was among the drained messages; every other sub-code
/// leaves the state as it was.
pub proof fn lemma_auth_transition(s: Seq<u8>, auth: AuthState)
    ensures
        spec_server_drain(s, auth) matches Some(d) ==> {
            &&& (d.auth is Authenticated <==> (auth is Authenticated || d.codes.contains(0u32)))
            &&& (!d.codes.contains(0u32) ==> d.auth == auth)
        },
    decreases s.len(),
{
    match spec_decode(s, false) {
        SpecParse::NeedMore => {
            assert(!Seq::<u32>::empty().contains(0u32));
        },
        SpecParse::Malformed => {},
        SpecParse::Frame { msg, consumed } => {
            let step = spec_server_step(msg, auth);
            lemma_auth_transition(s.skip(consumed), step);
            if let Some(d) = spec_server_drain(s.skip(consumed), step) {
                let here = spec_here_codes(msg);
                lemma_contains_concat(here, d.codes, 0u32);
                if spec_auth_code(msg) == Some(0u32) {
                    assert(here[0] == 0u32);
                    assert(here.contains(0u32));
                } else {
                    assert(!here.contains(0u32)) by {
                        if here.contains(0u32) {
                            let i = choose|i: int| 0 <= i < here.len() && here[i] == 0u32;
                            assert(false);
                        }
                    }
                }
            }
        },
    }
}

/// Byte-exactness of the client direction: what a drain forwards, followed
/// by what it leaves in the buffer, is exactly what the buffer held — the
/// proxy neither reorders, drops nor alters a byte.
pub proof fn lemma_client_drain_byte_exact(s: Seq<u8>, phase: Phase, auth: AuthState)
    ensures
        spec_client_drain(s, phase, auth) matches Some(d) ==> d.forward + d.rem == s,
    decreases s.len(),
{
    match spec_decode(s, phase is Startup) {
        SpecParse::NeedMore => {
            if let Some(d) = spec_client_drain(s, phase, auth) {
                assert(d.forward + d.rem =~= s);
            }
        },
        SpecParse::Malformed => {},
        SpecParse::Frame { msg, consumed } => {
            let step = spec_client_step(msg, phase, auth);
            lemma_client_drain_byte_exact(s.skip(consumed), step.0, step.1);
            if let Some(d) = spec_client_drain(s.skip(consumed), step.0, step.1) {
                assert((s.take(consumed) + d.forward) + d.rem =~= s.take(consumed) + (d.forward
                    + d.rem));
                assert(s.take(consumed) + s.skip(consumed) =~= s);
            }
        },
    }
}

/// Byte-exactness of the server direction: what a drain forwards, followed
/// by what it leaves in the buffer, is exactly what the buffer held.
pub proof fn lemma_server_drain_byte_exact(s: Seq<u8>, auth: AuthState)
    ensures
        spec_server_drain(s, auth) matches Some(d) ==> d.forward + d.rem == s,
    decreases s.len(),
{
    match spec_decode(s, false) {
        SpecParse::NeedMore => {
            if let Some(d) = spec_server_drain(s, auth) {
                assert(d.forward + d.rem =~= s);
            }
        },
        SpecParse::Malformed => {},
        SpecParse::Frame { msg, consumed } => {
            let step = spec_server_step(msg, auth);
            lemma_server_drain_byte_exact(s.skip(consumed), step);
            if let Some(d) = spec_server_drain(s.skip(consumed), step) {
                assert((s.take(consumed) + d.forward) + d.rem =~= s.take(consumed) + (d.forward
                    + d.rem));
                assert(s.take(consumed) + s.skip(consumed) =~= s);
            }
        },
    }
}

} // verus!

