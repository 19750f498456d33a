use vstd::prelude::*;
use vstd::string::*;
use vstd::utf8::*;
use crate::decimal::{decimal, decimal_string};
use crate::digest::{blake3_digest, payload_digest, digests_equal};
use crate::error::{AppError, is_protocol_error, protocol_error};

verus! {

pub const PROTOCOL_VERSION: u16 = 1;
pub const MAX_PAYLOAD_BYTES: usize = 16 * 1024 * 1024;
pub const MAX_FRAME_BYTES: usize = MAX_PAYLOAD_BYTES + 4096;

/// The first message of each side of a connection.
#[derive(Clone, Copy, Debug, PartialEq, Eq, Structural)]
pub struct Hello {
    pub protocol_version: u16,
    pub device_id: u128,
    pub listen_port: u16,
}

/// A Lamport timestamp: a counter, with the device that made the event as tie-breaker.
#[derive(Clone, Copy, Debug, PartialEq, Eq, Structural, PartialOrd, Ord)]
pub struct Version {
    pub counter: u64,
    pub device_id: u128,
}

/// The order of versions: by counter, then by device.
pub open spec fn version_lt(a: Version, b: Version) -> bool {
    a.counter < b.counter || (a.counter == b.counter && a.device_id < b.device_id)
}

impl Version {
    /// Whether `self` comes strictly before `other` in the version order.
    pub fn precedes(&self, other: &Version) -> (r: bool)
        ensures
            r == version_lt(*self, *other),
    {
        self.counter < other.counter || (self.counter == other.counter && self.device_id
            < other.device_id)
    }
}

/// Versions are totally and strictly ordered: of two distinct versions exactly
/// one precedes the other, none precedes itself, and the order is transitive.
pub proof fn lemma_version_order_total(a: Version, b: Version, c: Version)
    ensures
        !version_lt(a, a),
        a != b ==> (version_lt(a, b) != version_lt(b, a)),
        a == b ==> !version_lt(a, b),
        version_lt(a, b) && version_lt(b, c) ==> version_lt(a, c),
{
}

#[derive(Clone, Copy, Debug, PartialEq, Eq, Structural)]
pub enum ClipboardKind {
    Text,
    Png,
}

/// A clipboard change, as it travels between peers.
#[derive(Debug, PartialEq, Eq)]
pub struct ClipboardEvent {
    pub event_id: u128,
    pub origin: u128,
    pub version: Version,
    pub kind: ClipboardKind,
    pub payload: Vec<u8>,
    pub digest: [u8; 32],
}

/// The value of a `ClipboardEvent`, with its bytes as sequences.
pub struct EventView {
    pub event_id: u128,
    pub origin: u128,
    pub version: Version,
    pub kind: ClipboardKind,
    pub payload: Seq<u8>,
    pub digest: Seq<u8>,
}

impl View for ClipboardEvent {
    type V = EventView;

    open spec fn view(&self) -> EventView {
        EventView {
            event_id: self.event_id,
            origin: self.origin,
            version: self.version,
            kind: self.kind,
            payload: self.payload@,
            digest: self.digest@,
        }
    }
}

/// The eight bytes that open every PNG file.
pub open spec fn has_png_signature(p: Seq<u8>) -> bool {
    &&& p.len() >= 8
    &&& p[0] == 0x89u8
    &&& p[1] == 0x50u8
    &&& p[2] == 0x4eu8
    &&& p[3] == 0x47u8
    &&& p[4] == 0x0du8
    &&& p[5] == 0x0au8
    &&& p[6] == 0x1au8
    &&& p[7] == 0x0au8
}

/// The message of the first check that the event fails, or `None` when it passes them all.
pub open spec fn event_fault(e: EventView) -> Option<Seq<char>> {
    if e.payload.len() > MAX_PAYLOAD_BYTES {
        Some("payload exceeds configured limit"@)
    } else if e.origin != e.version.device_id {
        Some("origin and version device differ"@)
    } else if blake3_digest(e.payload) != e.digest {
        Some("payload digest mismatch"@)
    } else if e.kind == ClipboardKind::Text && !valid_utf8(e.payload) {
        Some("text payload is not valid UTF-8"@)
    } else if e.kind == ClipboardKind::Png && e.payload.len() == 0 {
        Some("PNG payload cannot be empty"@)
    } else if e.kind == ClipboardKind::Png && !has_png_signature(e.payload) {
        Some("PNG payload has an invalid signature"@)
    } else {
        None
    }
}

/// The message of an event refused for its size.
pub open spec fn oversize_message(len: nat) -> Seq<char> {
    "payload is "@ + decimal(len) + " bytes, maximum is "@ + decimal(MAX_PAYLOAD_BYTES as nat)
}

/// `id` is a random (version 4, RFC variant) UUID in its 128-bit big-endian form.
pub open spec fn is_random_uuid(id: u128) -> bool {
    id & 0xF000_C000_0000_0000_0000u128 == 0x4000_8000_0000_0000_0000u128
}

/// Draws a fresh event id with `uuid::Uuid::new_v4` and returns it as a `u128`
/// (`Uuid::as_u128`). Trusted: the contract claims only the version and variant bits
/// that `new_v4` sets; the other bits are random and nothing is said of them.
#[verifier::external_body]
fn random_event_id() -> (id: u128)
    ensures
        is_random_uuid(id),
{
    uuid::Uuid::new_v4().as_u128()
}

/// Checks bytes for UTF-8 with `std::str::from_utf8`. Trusted: the contract claims
/// that the check succeeds exactly on well-formed UTF-8, as std documents.
#[verifier::external_body]
fn is_valid_utf8(bytes: &[u8]) -> (ok: bool)
    ensures
        ok == valid_utf8(bytes@),
{
    std::str::from_utf8(bytes).is_ok()
}

fn has_png_signature_exec(p: &Vec<u8>) -> (r: bool)
    ensures
        r == has_png_signature(p@),
{
    p.len() >= 8 && p[0] == 0x89u8 && p[1] == 0x50u8 && p[2] == 0x4eu8 && p[3] == 0x47u8
        && p[4] == 0x0du8 && p[5] == 0x0au8 && p[6] == 0x1au8 && p[7] == 0x0au8
}

fn oversize_error(len: usize) -> (e: AppError)
    ensures
        is_protocol_error(e, oversize_message(len as nat)),
{
    let mut s = String::from_str("payload is ");
    let n = decimal_string(len as u64);
    s.append(n.as_str());
    s.append(" bytes, maximum is ");
    let m = decimal_string(MAX_PAYLOAD_BYTES as u64);
    s.append(m.as_str());
    AppError::Protocol(s)
}

impl Clone for ClipboardEvent {
    fn clone(&self) -> (e: Self)
        ensures
            e@ == self@,
    {
        let payload = self.payload.clone();
        proof {
            assert(payload@ =~= self.payload@);
        }
        ClipboardEvent {
            event_id: self.event_id,
            origin: self.origin,
            version: self.version,
            kind: self.kind,
            payload,
            digest: self.digest,
        }
    }
}

impl ClipboardEvent {
    /// Makes an event of `origin` at `counter` with a fresh random id and the
    /// BLAKE3 digest of the payload; refuses a payload over `MAX_PAYLOAD_BYTES`.
    pub fn new(origin: u128, counter: u64, kind: ClipboardKind, payload: Vec<u8>) -> (r: Result<
        Self,
        AppError,
    >)
        ensures
            r is Err <==> payload@.len() > MAX_PAYLOAD_BYTES,
            r matches Err(e) ==> is_protocol_error(e, oversize_message(payload@.len())),
            r matches Ok(ev) ==> {
                &&& ev@.origin == origin
                &&& ev@.version == (Version { counter, device_id: origin })
                &&& ev@.kind == kind
                &&& ev@.payload == payload@
                &&& ev@.digest == blake3_digest(payload@)
                &&& is_random_uuid(ev@.event_id)
            },
    {
        if payload.len() > MAX_PAYLOAD_BYTES {
            return Err(oversize_error(payload.len()));
        }
        let digest = payload_digest(payload.as_slice());
        let event_id = random_event_id();
        Ok(ClipboardEvent {
            event_id,
            origin,
            version: Version { counter, device_id: origin },
            kind,
            payload,
            digest,
        })
    }

    /// Checks the event: size, origin, digest, then the payload's form for its kind.
    pub fn validate(&self) -> (r: Result<(), AppError>)
        ensures
            r is Ok <==> event_fault(self@) is None,
            r matches Err(e) ==> is_protocol_error(e, event_fault(self@)->0),
    {
        if self.payload.len() > MAX_PAYLOAD_BYTES {
            return Err(protocol_error("payload exceeds configured limit"));
        }
        if self.origin != self.version.device_id {
            return Err(protocol_error("origin and version device differ"));
        }
        let digest = payload_digest(self.payload.as_slice());
        if !digests_equal(&digest, &self.digest) {
            return Err(protocol_error("payload digest mismatch"));
        }
        match self.kind {
            ClipboardKind::Text => {
                if !is_valid_utf8(self.payload.as_slice()) {
                    return Err(protocol_error("text payload is not valid UTF-8"));
                }
            },
            ClipboardKind::Png => {
                if self.payload.len() == 0 {
                    return Err(protocol_error("PNG payload cannot be empty"));
                }
                if !has_png_signature_exec(&self.payload) {
                    return Err(protocol_error("PNG payload has an invalid signature"));
                }
            },
        }
        Ok(())
    }
}

/// An event made by `new` passes `validate` when its payload has the form its
/// kind calls for (UTF-8 text, or a PNG file).
pub proof fn lemma_new_event_validates(e: EventView, origin: u128, counter: u64, kind: ClipboardKind, payload: Seq<u8>)
    requires
        payload.len() <= MAX_PAYLOAD_BYTES,
        e.origin == origin,
        e.version == (Version { counter, device_id: origin }),
        e.kind == kind,
        e.payload == payload,
        e.digest == blake3_digest(payload),
        kind == ClipboardKind::Text ==> valid_utf8(payload),
        kind == ClipboardKind::Png ==> has_png_signature(payload),
    ensures
        event_fault(e) is None,
{
}


/// A message between two connected peers.
#[derive(Debug, PartialEq, Eq)]
pub enum WireMessage {
    Hello(Hello),
    Event(ClipboardEvent),
    StateRequest { known: Option<Version> },
    State { latest: Option<ClipboardEvent> },
    Ping(u64),
    Pong(u64),
}

/// The value of a `WireMessage`.
pub enum WireView {
    Hello(Hello),
    Event(EventView),
    StateRequest { known: Option<Version> },
    State { latest: Option<EventView> },
    Ping(u64),
    Pong(u64),
}

impl View for WireMessage {
    type V = WireView;

    open spec fn view(&self) -> WireView {
        match self {
            WireMessage::Hello(h) => WireView::Hello(*h),
            WireMessage::Event(e) => WireView::Event(e@),
            WireMessage::StateRequest { known } => WireView::StateRequest { known: *known },
            WireMessage::State { latest } => WireView::State {
                latest: match latest {
                    Some(e) => Some(e@),
                    None => None,
                },
            },
            WireMessage::Ping(v) => WireView::Ping(*v),
            WireMessage::Pong(v) => WireView::Pong(*v),
        }
    }
}

impl WireMessage {
    /// Whether a frame is small enough to be decoded at all.
    pub fn frame_within_limit(frame: &[u8]) -> (ok: bool)
        ensures
            ok == (frame@.len() <= MAX_FRAME_BYTES),
    {
        frame.len() <= MAX_FRAME_BYTES
    }

    /// Finishes the decoding of `frame`, given what deserialising it gave
    /// (`parsed`): a frame over `MAX_FRAME_BYTES` is refused whatever `parsed`
    /// holds, a deserialisation error is passed on, and an event is validated.
    pub fn decode(frame: &[u8], parsed: Result<WireMessage, AppError>) -> (r: Result<
        WireMessage,
        AppError,
    >)
        ensures
            frame@.len() > MAX_FRAME_BYTES ==> (r matches Err(e) && is_protocol_error(
                e,
                "frame exceeds configured limit"@,
            )),
            frame@.len() <= MAX_FRAME_BYTES ==> match parsed {
                Err(e) => r == Err::<WireMessage, AppError>(e),
                Ok(m) => match m {
                    WireMessage::Event(ev) => match event_fault(ev@) {
                        Some(msg) => (r matches Err(e) && is_protocol_error(e, msg)),
                        None => r == Ok::<WireMessage, AppError>(m),
                    },
                    _ => r == Ok::<WireMessage, AppError>(m),
                },
            },
    {
        if frame.len() > MAX_FRAME_BYTES {
            return Err(protocol_error("frame exceeds configured limit"));
        }
        match parsed {
            Err(e) => Err(e),
            Ok(message) => {
                if let WireMessage::Event(event) = &message {
                    match event.validate() {
                        Err(e) => return Err(e),
                        Ok(()) => {},
                    }
                }
                Ok(message)
            },
        }
    }
}

} // verus!
