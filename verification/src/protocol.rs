//! The per-client protocol: version exchange, security, initialization
//! messages, and the grammar of client-to-server messages with the
//! events they carry.

use vstd::prelude::*;
use crate::rfb::{Rect, VncError, ProtocolReason, ServerEvent, SEC_NONE, SEC_VNC_AUTH};
use crate::wire::{spec_get_u16_be, spec_get_u32_be, get_u16_be, get_u32_be};

verus! {

/// The protocol versions the server accepts.
#[derive(Clone, Copy, PartialEq, Eq, Structural, Debug)]
pub enum RfbVersion {
    V33,
    V37,
    V38,
}

/// The version string the server sends first.
pub open spec fn spec_server_version() -> Seq<u8> {
    seq![82u8, 70, 66, 32, 48, 48, 51, 46, 48, 48, 56, 10]
}

/// The 12-byte version string of one accepted version.
pub open spec fn spec_version_bytes(v: RfbVersion) -> Seq<u8> {
    match v {
        RfbVersion::V33 => seq![82u8, 70, 66, 32, 48, 48, 51, 46, 48, 48, 51, 10],
        RfbVersion::V37 => seq![82u8, 70, 66, 32, 48, 48, 51, 46, 48, 48, 55, 10],
        RfbVersion::V38 => spec_server_version(),
    }
}

/// Build the server's version string, `RFB 003.008` and a newline.
pub fn server_version_bytes() -> (r: Vec<u8>)
    ensures
        r@ == spec_server_version(),
{
    let mut v: Vec<u8> = Vec::new();
    v.push(82);
    v.push(70);
    v.push(66);
    v.push(32);
    v.push(48);
    v.push(48);
    v.push(51);
    v.push(46);
    v.push(48);
    v.push(48);
    v.push(56);
    v.push(10);
    assert(v@ =~= spec_server_version());
    v
}

/// Parse the client's 12-byte version string; only 3.3, 3.7 and 3.8
/// are accepted, and the effective version is the client's (never
/// above the server's own 3.8).
pub fn parse_client_version(buf: &[u8]) -> (r: Result<RfbVersion, VncError>)
    requires
        buf@.len() == 12,
    ensures
        buf@ == spec_version_bytes(RfbVersion::V33) ==> r == Ok::<_, VncError>(RfbVersion::V33),
        buf@ == spec_version_bytes(RfbVersion::V37) ==> r == Ok::<_, VncError>(RfbVersion::V37),
        buf@ == spec_version_bytes(RfbVersion::V38) ==> r == Ok::<_, VncError>(RfbVersion::V38),
        r is Err ==> (buf@ != spec_version_bytes(RfbVersion::V33) && buf@ != spec_version_bytes(
            RfbVersion::V37,
        ) && buf@ != spec_version_bytes(RfbVersion::V38) && r matches Err(
            VncError::ProtocolError { reason: ProtocolReason::BadVersion },
        )),
        r matches Ok(v) ==> buf@ == spec_version_bytes(v),
{
    let fixed: [u8; 10] = [82, 70, 66, 32, 48, 48, 51, 46, 48, 48];
    let mut i: usize = 0;
    while i < 10
        invariant
            i <= 10,
            buf@.len() == 12,
            fixed@ == seq![82u8, 70, 66, 32, 48, 48, 51, 46, 48, 48],
            forall|j: int| 0 <= j < i ==> buf@[j] == fixed@[j],
        decreases 10 - i,
    {
        if buf[i] != fixed[i] {
            proof {
                assert(buf@ != spec_version_bytes(RfbVersion::V33));
                assert(buf@ != spec_version_bytes(RfbVersion::V37));
                assert(buf@ != spec_version_bytes(RfbVersion::V38));
            }
            return Err(VncError::ProtocolError { reason: ProtocolReason::BadVersion });
        }
        i += 1;
    }
    if buf[11] != 10 {
        return Err(VncError::ProtocolError { reason: ProtocolReason::BadVersion });
    }
    let minor: u8 = buf[10];
    if minor == 51 {
        proof {
            assert(buf@ =~= spec_version_bytes(RfbVersion::V33));
        }
        Ok(RfbVersion::V33)
    } else if minor == 55 {
        proof {
            assert(buf@ =~= spec_version_bytes(RfbVersion::V37));
        }
        Ok(RfbVersion::V37)
    } else if minor == 56 {
        proof {
            assert(buf@ =~= spec_version_bytes(RfbVersion::V38));
        }
        Ok(RfbVersion::V38)
    } else {
        Err(VncError::ProtocolError { reason: ProtocolReason::BadVersion })
    }
}

/// The security type the server offers: VncAuth when a password is
/// set, else None.
pub open spec fn spec_offered_security(has_password: bool) -> u8 {
    if has_password {
        SEC_VNC_AUTH
    } else {
        SEC_NONE
    }
}

/// The security phase bytes: 3.7 and up list the one offered type;
/// 3.3 states it in a 32-bit word.
pub open spec fn spec_security_offer(has_password: bool, v: RfbVersion) -> Seq<u8> {
    if v is V33 {
        seq![0u8, 0, 0, spec_offered_security(has_password)]
    } else {
        seq![1u8, spec_offered_security(has_password)]
    }
}

/// Build the security phase message.
pub fn security_offer_bytes(has_password: bool, v: RfbVersion) -> (r: Vec<u8>)
    ensures
        r@ == spec_security_offer(has_password, v),
{
    let t: u8 = if has_password {
        SEC_VNC_AUTH
    } else {
        SEC_NONE
    };
    let mut out: Vec<u8> = Vec::new();
    match v {
        RfbVersion::V33 => {
            out.push(0);
            out.push(0);
            out.push(0);
            out.push(t);
            assert(out@ =~= spec_security_offer(has_password, v));
        },
        _ => {
            out.push(1);
            out.push(t);
            assert(out@ =~= spec_security_offer(has_password, v));
        },
    }
    out
}

/// Accept the client's chosen security type exactly when it is the
/// one offered.  (Under 3.3 the server chooses and no byte arrives.)
pub fn check_security_choice(choice: u8, has_password: bool) -> (r: Result<u8, VncError>)
    ensures
        r is Ok <==> choice == spec_offered_security(has_password),
        r matches Ok(t) ==> t == choice,
        r is Err ==> r matches Err(
            VncError::ProtocolError { reason: ProtocolReason::BadSecurityType },
        ),
{
    let offered: u8 = if has_password {
        SEC_VNC_AUTH
    } else {
        SEC_NONE
    };
    if choice == offered {
        Ok(choice)
    } else {
        Err(VncError::ProtocolError { reason: ProtocolReason::BadSecurityType })
    }
}

/// The SecurityResult message: zero for success, one for failure, and
/// under 3.8 a reason string follows a failure.
pub open spec fn spec_security_result(ok: bool, v: RfbVersion) -> Seq<u8> {
    if ok {
        seq![0u8, 0, 0, 0]
    } else if v is V38 {
        seq![0u8, 0, 0, 1] + seq![0u8, 0, 0, 11] + spec_auth_failed_reason()
    } else {
        seq![0u8, 0, 0, 1]
    }
}

/// The reason string sent with a 3.8 failure result.
pub open spec fn spec_auth_failed_reason() -> Seq<u8> {
    seq![97u8, 117, 116, 104, 32, 102, 97, 105, 108, 101, 100]
}

/// Build the SecurityResult message.
pub fn security_result_bytes(ok: bool, v: RfbVersion) -> (r: Vec<u8>)
    ensures
        r@ == spec_security_result(ok, v),
{
    let mut out: Vec<u8> = Vec::new();
    out.push(0);
    out.push(0);
    out.push(0);
    if ok {
        out.push(0);
        assert(out@ =~= spec_security_result(ok, v));
        return out;
    }
    out.push(1);
    match v {
        RfbVersion::V38 => {
            out.push(0);
            out.push(0);
            out.push(0);
            out.push(11);
            out.push(97);
            out.push(117);
            out.push(116);
            out.push(104);
            out.push(32);
            out.push(102);
            out.push(97);
            out.push(105);
            out.push(108);
            out.push(101);
            out.push(100);
            assert(out@ =~= spec_security_result(ok, v));
        },
        _ => {
            assert(out@ =~= spec_security_result(ok, v));
        },
    }
    out
}

/// A parsed client-to-server message.
pub enum ClientMessage {
    SetPixelFormat { format: Vec<u8> },
    SetEncodings { encodings: Vec<i32> },
    UpdateRequest { incremental: bool, rect: Rect },
    KeyEvent { down: bool, key: u32 },
    PointerEvent { buttons: u8, x: u16, y: u16 },
    CutText { text: Vec<u8> },
}

/// The mathematical form of a client message.
pub enum SpecMessage {
    SetPixelFormat { format: Seq<u8> },
    SetEncodings { encodings: Seq<i32> },
    UpdateRequest { incremental: bool, rect: Rect },
    KeyEvent { down: bool, key: u32 },
    PointerEvent { buttons: u8, x: u16, y: u16 },
    CutText { text: Seq<u8> },
}

impl View for ClientMessage {
    type V = SpecMessage;

    open spec fn view(&self) -> SpecMessage {
        match self {
            ClientMessage::SetPixelFormat { format } => SpecMessage::SetPixelFormat {
                format: format@,
            },
            ClientMessage::SetEncodings { encodings } => SpecMessage::SetEncodings {
                encodings: encodings@,
            },
            ClientMessage::UpdateRequest { incremental, rect } => SpecMessage::UpdateRequest {
                incremental: *incremental,
                rect: *rect,
            },
            ClientMessage::KeyEvent { down, key } => SpecMessage::KeyEvent {
                down: *down,
                key: *key,
            },
            ClientMessage::PointerEvent { buttons, x, y } => SpecMessage::PointerEvent {
                buttons: *buttons,
                x: *x,
                y: *y,
            },
            ClientMessage::CutText { text } => SpecMessage::CutText { text: text@ },
        }
    }
}

/// The mathematical form of a server event.
pub enum SpecEvent {
    Connected { client_id: u64 },
    Disconnected { client_id: u64 },
    Key { client_id: u64, down: bool, key: u32 },
    Pointer { client_id: u64, x: u16, y: u16, button_mask: u8 },
    Cut { client_id: u64, text: Seq<u8> },
}

impl View for ServerEvent {
    type V = SpecEvent;

    open spec fn view(&self) -> SpecEvent {
        match self {
            ServerEvent::ClientConnected { client_id } => SpecEvent::Connected {
                client_id: *client_id,
            },
            ServerEvent::ClientDisconnected { client_id } => SpecEvent::Disconnected {
                client_id: *client_id,
            },
            ServerEvent::KeyPress { client_id, down, key } => SpecEvent::Key {
                client_id: *client_id,
                down: *down,
                key: *key,
            },
            ServerEvent::PointerMove { client_id, x, y, button_mask } => SpecEvent::Pointer {
                client_id: *client_id,
                x: *x,
                y: *y,
                button_mask: *button_mask,
            },
            ServerEvent::CutText { client_id, text } => SpecEvent::Cut {
                client_id: *client_id,
                text: text@,
            },
        }
    }
}

/// What reading one message from the head of a stream yields.
pub enum SpecParse {
    Incomplete,
    Malformed,
    Msg { len: int, msg: SpecMessage },
}

/// Read one client message from the head of `s`.
pub open spec fn spec_parse_one(s: Seq<u8>) -> SpecParse {
    if s.len() < 1 {
        SpecParse::Incomplete
    } else if s[0] == 0 {
        if s.len() < 20 {
            SpecParse::Incomplete
        } else {
            SpecParse::Msg { len: 20, msg: SpecMessage::SetPixelFormat { format: s.subrange(4, 20) } }
        }
    } else if s[0] == 2 {
        if s.len() < 4 {
            SpecParse::Incomplete
        } else {
            let n = spec_get_u16_be(s, 2) as int;
            if s.len() < 4 + 4 * n {
                SpecParse::Incomplete
            } else {
                SpecParse::Msg {
                    len: 4 + 4 * n,
                    msg: SpecMessage::SetEncodings {
                        encodings: Seq::new(n as nat, |j: int| spec_get_u32_be(s, 4 + 4 * j) as i32),
                    },
                }
            }
        }
    } else if s[0] == 3 {
        if s.len() < 10 {
            SpecParse::Incomplete
        } else {
            SpecParse::Msg {
                len: 10,
                msg: SpecMessage::UpdateRequest {
                    incremental: s[1] != 0,
                    rect: Rect {
                        x: spec_get_u16_be(s, 2),
                        y: spec_get_u16_be(s, 4),
                        w: spec_get_u16_be(s, 6),
                        h: spec_get_u16_be(s, 8),
                    },
                },
            }
        }
    } else if s[0] == 4 {
        if s.len() < 8 {
            SpecParse::Incomplete
        } else {
            SpecParse::Msg {
                len: 8,
                msg: SpecMessage::KeyEvent { down: s[1] != 0, key: spec_get_u32_be(s, 4) },
            }
        }
    } else if s[0] == 5 {
        if s.len() < 6 {
            SpecParse::Incomplete
        } else {
            SpecParse::Msg {
                len: 6,
                msg: SpecMessage::PointerEvent {
                    buttons: s[1],
                    x: spec_get_u16_be(s, 2),
                    y: spec_get_u16_be(s, 4),
                },
            }
        }
    } else if s[0] == 6 {
        if s.len() < 8 {
            SpecParse::Incomplete
        } else {
            let tl = spec_get_u32_be(s, 4) as int;
            if s.len() < 8 + tl {
                SpecParse::Incomplete
            } else {
                SpecParse::Msg {
                    len: 8 + tl,
                    msg: SpecMessage::CutText { text: s.subrange(8, 8 + tl) },
                }
            }
        }
    } else {
        SpecParse::Malformed
    }
}

/// The event one message carries, if any: exactly the input messages
/// (key, pointer, cut text) yield one event each.
pub open spec fn spec_event_of(m: SpecMessage, id: u64) -> Option<SpecEvent> {
    match m {
        SpecMessage::KeyEvent { down, key } => Some(
            SpecEvent::Key { client_id: id, down, key },
        ),
        SpecMessage::PointerEvent { buttons, x, y } => Some(
            SpecEvent::Pointer { client_id: id, x, y, button_mask: buttons },
        ),
        SpecMessage::CutText { text } => Some(SpecEvent::Cut { client_id: id, text }),
        _ => None,
    }
}

/// The stream splits into well-formed messages with nothing left over.
pub open spec fn spec_stream_wellformed(s: Seq<u8>) -> bool
    decreases s.len(),
{
    if s.len() == 0 {
        true
    } else {
        match spec_parse_one(s) {
            SpecParse::Msg { len, msg } => if 1 <= len <= s.len() {
                spec_stream_wellformed(s.skip(len))
            } else {
                false
            },
            _ => false,
        }
    }
}

/// The events a well-formed stream carries, in message order: one per
/// input event message, none for the others.
pub open spec fn spec_session_events(s: Seq<u8>, id: u64) -> Seq<SpecEvent>
    decreases s.len(),
{
    if s.len() == 0 {
        Seq::empty()
    } else {
        match spec_parse_one(s) {
            SpecParse::Msg { len, msg } => if 1 <= len <= s.len() {
                (match spec_event_of(msg, id) {
                    Some(e) => seq![e],
                    None => Seq::empty(),
                }) + spec_session_events(s.skip(len), id)
            } else {
                Seq::empty()
            },
            _ => Seq::empty(),
        }
    }
}

/// What the parser found at the head of the input.
pub enum ParseOutcome {
    /// More bytes must arrive before the message is whole.
    Incomplete,
    /// The leading byte is no known message type.
    Malformed,
    /// One whole message and the bytes it took.
    Parsed { consumed: usize, msg: ClientMessage },
}

/// Parse one client message from `input` at `pos`.
pub fn parse_message(input: &[u8], pos: usize) -> (r: ParseOutcome)
    requires
        pos <= input@.len(),
    ensures
        match r {
            ParseOutcome::Incomplete => spec_parse_one(input@.skip(pos as int))
                is Incomplete,
            ParseOutcome::Malformed => spec_parse_one(input@.skip(pos as int)) is Malformed,
            ParseOutcome::Parsed { consumed, msg } => spec_parse_one(input@.skip(pos as int))
                == (SpecParse::Msg { len: consumed as int, msg: msg@ }) && 1 <= consumed
                && pos + consumed <= input@.len(),
        },
{
    let ghost s = input@.skip(pos as int);
    let rem: usize = input.len() - pos;
    if rem < 1 {
        return ParseOutcome::Incomplete;
    }
    let t: u8 = input[pos];
    assert(t == s[0]);
    if t == 0 {
        if rem < 20 {
            return ParseOutcome::Incomplete;
        }
        let fmt: Vec<u8> = vstd::slice::slice_to_vec(
            vstd::slice::slice_subrange(input, pos + 4, pos + 20),
        );
        proof {
            assert(fmt@ =~= s.subrange(4, 20));
        }
        ParseOutcome::Parsed { consumed: 20, msg: ClientMessage::SetPixelFormat { format: fmt } }
    } else if t == 2 {
        if rem < 4 {
            return ParseOutcome::Incomplete;
        }
        let n: usize = get_u16_be(input, pos + 2) as usize;
        proof {
            assert(spec_get_u16_be(input@, pos + 2 as int) == spec_get_u16_be(s, 2)) by {
                assert(s[2] == input@[pos + 2 as int]);
                assert(s[3] == input@[pos + 3 as int]);
            }
        }
        if rem < 4 + 4 * n {
            return ParseOutcome::Incomplete;
        }
        let mut encs: Vec<i32> = Vec::new();
        let mut j: usize = 0;
        while j < n
            invariant
                input@.len() <= usize::MAX,
                pos + 4 + 4 * n <= input@.len(),
                s == input@.skip(pos as int),
                n == spec_get_u16_be(s, 2),
                j <= n,
                encs@.len() == j,
                forall|t2: int| 0 <= t2 < j ==> encs@[t2] == spec_get_u32_be(s, 4 + 4 * t2) as i32,
            decreases n - j,
        {
            let v: u32 = get_u32_be(input, pos + 4 + 4 * j);
            proof {
                assert(s[4 + 4 * (j as int)] == input@[pos + 4 + 4 * (j as int)]);
                assert(s[4 + 4 * (j as int) + 1] == input@[pos + 4 + 4 * (j as int) + 1]);
                assert(s[4 + 4 * (j as int) + 2] == input@[pos + 4 + 4 * (j as int) + 2]);
                assert(s[4 + 4 * (j as int) + 3] == input@[pos + 4 + 4 * (j as int) + 3]);
            }
            encs.push(#[verifier::truncate] (v as i32));
            j += 1;
        }
        proof {
            assert(encs@ =~= Seq::new(
                spec_get_u16_be(s, 2) as nat,
                |j2: int| spec_get_u32_be(s, 4 + 4 * j2) as i32,
            ));
        }
        ParseOutcome::Parsed {
            consumed: 4 + 4 * n,
            msg: ClientMessage::SetEncodings { encodings: encs },
        }
    } else if t == 3 {
        if rem < 10 {
            return ParseOutcome::Incomplete;
        }
        proof {
            lemma_skip_bytes(input@, pos as int, 10);
        }
        ParseOutcome::Parsed {
            consumed: 10,
            msg: ClientMessage::UpdateRequest {
                incremental: input[pos + 1] != 0,
                rect: Rect {
                    x: get_u16_be(input, pos + 2),
                    y: get_u16_be(input, pos + 4),
                    w: get_u16_be(input, pos + 6),
                    h: get_u16_be(input, pos + 8),
                },
            },
        }
    } else if t == 4 {
        if rem < 8 {
            return ParseOutcome::Incomplete;
        }
        proof {
            lemma_skip_bytes(input@, pos as int, 8);
        }
        ParseOutcome::Parsed {
            consumed: 8,
            msg: ClientMessage::KeyEvent {
                down: input[pos + 1] != 0,
                key: get_u32_be(input, pos + 4),
            },
        }
    } else if t == 5 {
        if rem < 6 {
            return ParseOutcome::Incomplete;
        }
        proof {
            lemma_skip_bytes(input@, pos as int, 6);
        }
        ParseOutcome::Parsed {
            consumed: 6,
            msg: ClientMessage::PointerEvent {
                buttons: input[pos + 1],
                x: get_u16_be(input, pos + 2),
                y: get_u16_be(input, pos + 4),
            },
        }
    } else if t == 6 {
        if rem < 8 {
            return ParseOutcome::Incomplete;
        }
        proof {
            lemma_skip_bytes(input@, pos as int, 8);
        }
        let tl: u32 = get_u32_be(input, pos + 4);
        if (rem as u64) < 8u64 + tl as u64 {
            return ParseOutcome::Incomplete;
        }
        let tlu: usize = tl as usize;
        let text: Vec<u8> = vstd::slice::slice_to_vec(
            vstd::slice::slice_subrange(input, pos + 8, pos + 8 + tlu),
        );
        proof {
            assert(text@ =~= s.subrange(8, 8 + tl as int));
        }
        ParseOutcome::Parsed {
            consumed: 8 + tlu,
            msg: ClientMessage::CutText { text },
        }
    } else {
        ParseOutcome::Malformed
    }
}

/// The first `n` bytes of the tail at `pos` are the bytes at
/// `pos`, `pos + 1` and so on.
proof fn lemma_skip_bytes(v: Seq<u8>, pos: int, n: int)
    requires
        0 <= pos,
        0 <= n,
        pos + n <= v.len(),
    ensures
        forall|i: int| 0 <= i < n ==> v.skip(pos)[i] == v[pos + i],
{
}

} // verus!
