use std::collections::HashSet;
use vstd::prelude::*;
use vstd::string::*;
use vstd::utf8::*;
use crate::clipboard::{ClipboardItem, ItemView, item_from_parts};
use crate::decimal::{decimal, decimal_string};
use crate::error::{AppError, is_protocol_error, protocol_error};
use crate::protocol::{
    ClipboardEvent, ClipboardKind, EventView, Hello, Version, version_lt, WireMessage, WireView, event_fault,
    PROTOCOL_VERSION,
};
use crate::seen::{SEEN_EVENT_CAPACITY, lemma_offered_id_remembered};
use crate::sync_engine::{
    EngineView, RemoteEventResult, SyncEngine, remote_result, state_after_remote,
    state_worth_sending,
};

verus! {

broadcast use vstd::std_specs::hash::group_hash_axioms;

/// Of two peers, the one with the lower id dials and the other accepts.
pub open spec fn dial_allowed(local: u128, peer: u128, outgoing: bool) -> bool {
    if local < peer { outgoing } else { !outgoing }
}

/// Whether a connection in direction `outgoing` between `local` and `peer` is the one to keep.
pub fn direction_allowed(local: u128, peer: u128, outgoing: bool) -> (r: bool)
    ensures
        r == dial_allowed(local, peer, outgoing),
{
    if local < peer { outgoing } else { !outgoing }
}

/// Between two distinct peers exactly one connection survives: the lower id
/// dials, the higher id accepts, and both sides agree on it.
pub proof fn lemma_one_direction_per_pair(a: u128, b: u128)
    requires
        a != b,
    ensures
        dial_allowed(a, b, true) != dial_allowed(b, a, true),
        dial_allowed(a, b, true) == dial_allowed(b, a, false),
        dial_allowed(a, b, false) == dial_allowed(b, a, true),
{
}

/// A socket address as plain values: the family, the address (an IPv4
/// address in the low 32 bits), the port, and the IPv6 flow and scope ids
/// (zero for IPv4).
#[derive(Clone, Copy, Debug, PartialEq, Eq, Structural, Hash)]
pub struct PeerAddress {
    pub v6: bool,
    pub ip: u128,
    pub port: u16,
    pub flowinfo: u32,
    pub scope_id: u32,
}

fn list_insert(v: &mut Vec<PeerAddress>, a: PeerAddress) -> (added: bool)
    requires
        old(v)@.no_duplicates(),
    ensures
        final(v)@.no_duplicates(),
        added == !old(v)@.contains(a),
        final(v)@.to_set() == old(v)@.to_set().insert(a),
{
    let ghost orig = v@;
    let mut i: usize = 0;
    while i < v.len()
        invariant
            i <= v@.len(),
            v@ == orig,
            orig == old(v)@,
            orig.no_duplicates(),
            forall|j: int| 0 <= j < i ==> v@[j] != a,
        decreases v@.len() - i,
    {
        if v[i] == a {
            proof {
                assert(v@.to_set() =~= v@.to_set().insert(a));
            }
            return false;
        }
        i = i + 1;
    }
    let ghost before = v@;
    v.push(a);
    proof {
        assert(v@ == before.push(a));
        assert(v@[before.len() as int] == a);
        assert(v@.to_set() =~= before.to_set().insert(a)) by {
            assert forall|x: PeerAddress| v@.contains(x) implies before.to_set().insert(a).contains(x) by {
                let k = choose|k: int| 0 <= k < v@.len() && v@[k] == x;
                if k < before.len() {
                    assert(before[k] == x);
                }
            }
            assert forall|x: PeerAddress| before.to_set().insert(a).contains(x) implies v@.contains(x) by {
                if x != a {
                    let k = choose|k: int| 0 <= k < before.len() && before[k] == x;
                    assert(v@[k] == x);
                }
            }
        }
        assert(v@.no_duplicates()) by {
            assert forall|p: int, q: int| 0 <= p < v@.len() && 0 <= q < v@.len() && p != q implies v@[p] != v@[q] by {
                if p == before.len() as int {
                    assert(before[q] == v@[q]);
                } else if q == before.len() as int {
                    assert(before[p] == v@[p]);
                }
            }
        }
    }
    true
}

fn list_remove(v: &mut Vec<PeerAddress>, a: PeerAddress)
    requires
        old(v)@.no_duplicates(),
    ensures
        final(v)@.no_duplicates(),
        final(v)@.to_set() == old(v)@.to_set().remove(a),
{
    let ghost orig = v@;
    let mut i: usize = 0;
    while i < v.len()
        invariant
            i <= v@.len(),
            v@ == orig,
            orig == old(v)@,
            orig.no_duplicates(),
            forall|j: int| 0 <= j < i ==> v@[j] != a,
        decreases v@.len() - i,
    {
        if v[i] == a {
            let ghost before = v@;
            v.remove(i);
            proof {
                assert(v@ =~= before.subrange(0, i as int) + before.subrange(i + 1, before.len() as int));
                assert forall|p: int| 0 <= p < v@.len() implies #[trigger] v@[p] == (if p < i { before[p] } else { before[p + 1] }) by {}
                assert(v@.to_set() =~= before.to_set().remove(a)) by {
                    assert forall|x: PeerAddress| v@.contains(x) implies before.to_set().remove(a).contains(x) by {
                        let k = choose|k: int| 0 <= k < v@.len() && v@[k] == x;
                        if k < i {
                            assert(before[k] == x);
                            assert(before[k] != before[i as int]);
                        } else {
                            assert(before[k + 1] == x);
                            assert(before[k + 1] != before[i as int]);
                        }
                    }
                    assert forall|x: PeerAddress| before.to_set().remove(a).contains(x) implies v@.contains(x) by {
                        let k = choose|k: int| 0 <= k < before.len() && before[k] == x;
                        if k < i {
                            assert(v@[k] == x);
                        } else {
                            assert(k != i);
                            assert(v@[k - 1] == x);
                        }
                    }
                }
                assert(before == orig);
                assert(v@.no_duplicates()) by {
                    assert forall|p: int, q: int| 0 <= p < v@.len() && 0 <= q < v@.len() && p != q implies v@[p] != v@[q] by {
                        let bp = if p < i { p } else { p + 1 };
                        let bq = if q < i { q } else { q + 1 };
                        assert(before[bp] == v@[p]);
                        assert(before[bq] == v@[q]);
                    }
                }
            }
            return;
        }
        i = i + 1;
    }
    proof {
        assert(v@.to_set() =~= v@.to_set().remove(a));
    }
}

/// Who is connected, who is being dialled, and which addresses have a dialer.
#[derive(Debug)]
pub struct PeerRegistry {
    active: HashSet<u128>,
    connecting: Vec<PeerAddress>,
    scheduled: Vec<PeerAddress>,
}

impl PeerRegistry {
    pub closed spec fn active_peers(&self) -> Set<u128> {
        self.active@
    }

    pub closed spec fn connecting_addresses(&self) -> Set<PeerAddress> {
        self.connecting@.to_set()
    }

    pub closed spec fn scheduled_addresses(&self) -> Set<PeerAddress> {
        self.scheduled@.to_set()
    }

    pub closed spec fn wf(&self) -> bool {
        self.connecting@.no_duplicates() && self.scheduled@.no_duplicates()
    }

    pub fn new() -> (r: Self)
        ensures
            r.wf(),
            r.active_peers() == Set::<u128>::empty(),
            r.connecting_addresses() == Set::<PeerAddress>::empty(),
            r.scheduled_addresses() == Set::<PeerAddress>::empty(),
    {
        let r = PeerRegistry { active: HashSet::new(), connecting: Vec::new(), scheduled: Vec::new() };
        proof {
            assert(r.connecting@.to_set() =~= Set::<PeerAddress>::empty());
            assert(r.scheduled@.to_set() =~= Set::<PeerAddress>::empty());
        }
        r
    }

    /// Marks `peer_id` as connected; false when it already was.
    pub fn acquire(&mut self, peer_id: u128) -> (added: bool)
        requires
            old(self).wf(),
        ensures
            final(self).wf(),
            added == !old(self).active_peers().contains(peer_id),
            final(self).active_peers() == old(self).active_peers().insert(peer_id),
            final(self).connecting_addresses() == old(self).connecting_addresses(),
            final(self).scheduled_addresses() == old(self).scheduled_addresses(),
    {
        self.active.insert(peer_id)
    }

    /// Marks `peer_id` as no longer connected.
    pub fn release(&mut self, peer_id: u128)
        requires
            old(self).wf(),
        ensures
            final(self).wf(),
            final(self).active_peers() == old(self).active_peers().remove(peer_id),
            final(self).connecting_addresses() == old(self).connecting_addresses(),
            final(self).scheduled_addresses() == old(self).scheduled_addresses(),
    {
        self.active.remove(&peer_id);
    }

    /// Marks a dial to `address` as under way; false when one already was.
    pub fn begin_connect(&mut self, address: PeerAddress) -> (added: bool)
        requires
            old(self).wf(),
        ensures
            final(self).wf(),
            added == !old(self).connecting_addresses().contains(address),
            final(self).connecting_addresses() == old(self).connecting_addresses().insert(address),
            final(self).active_peers() == old(self).active_peers(),
            final(self).scheduled_addresses() == old(self).scheduled_addresses(),
    {
        list_insert(&mut self.connecting, address)
    }

    /// Marks the dial to `address` as over.
    pub fn end_connect(&mut self, address: PeerAddress)
        requires
            old(self).wf(),
        ensures
            final(self).wf(),
            final(self).connecting_addresses() == old(self).connecting_addresses().remove(address),
            final(self).active_peers() == old(self).active_peers(),
            final(self).scheduled_addresses() == old(self).scheduled_addresses(),
    {
        list_remove(&mut self.connecting, address)
    }

    /// Gives `address` a dialer; false when it already had one.
    pub fn schedule(&mut self, address: PeerAddress) -> (added: bool)
        requires
            old(self).wf(),
        ensures
            final(self).wf(),
            added == !old(self).scheduled_addresses().contains(address),
            final(self).scheduled_addresses() == old(self).scheduled_addresses().insert(address),
            final(self).active_peers() == old(self).active_peers(),
            final(self).connecting_addresses() == old(self).connecting_addresses(),
    {
        list_insert(&mut self.scheduled, address)
    }
}


/// What decides the outcome of a handshake: the peer's id when the first
/// message is a `Hello` of this protocol from another device, in the
/// direction that this pair keeps, from a peer not yet connected; otherwise
/// the message of the refusal.
pub open spec fn handshake_outcome(local: u128, outgoing: bool, active: Set<u128>, first: WireView) -> Result<u128, Seq<char>> {
    match first {
        WireView::Hello(h) => if h.protocol_version != PROTOCOL_VERSION {
            Err("unsupported peer protocol "@ + decimal(h.protocol_version as nat))
        } else if h.device_id == local {
            Err("refusing connection to self"@)
        } else if !dial_allowed(local, h.device_id, outgoing) {
            Err("duplicate connection direction rejected"@)
        } else if active.contains(h.device_id) {
            Err("peer already has an active connection"@)
        } else {
            Ok(h.device_id)
        },
        _ => Err("first peer message was not Hello"@),
    }
}

/// Checks the first message of a connection and, when it is accepted, marks
/// the peer as connected.
pub fn accept_handshake(local: u128, outgoing: bool, registry: &mut PeerRegistry, first: &WireMessage) -> (r: Result<u128, AppError>)
    requires
        old(registry).wf(),
    ensures
        final(registry).wf(),
        final(registry).connecting_addresses() == old(registry).connecting_addresses(),
        final(registry).scheduled_addresses() == old(registry).scheduled_addresses(),
        match handshake_outcome(local, outgoing, old(registry).active_peers(), first@) {
            Ok(p) => r == Ok::<u128, AppError>(p) && final(registry).active_peers() == old(registry).active_peers().insert(p),
            Err(msg) => (r matches Err(e) && is_protocol_error(e, msg)) && final(registry).active_peers() == old(registry).active_peers(),
        },
{
    match first {
        WireMessage::Hello(hello) => {
            if hello.protocol_version != PROTOCOL_VERSION {
                let mut msg = String::from_str("unsupported peer protocol ");
                let v = decimal_string(hello.protocol_version as u64);
                msg.append(v.as_str());
                return Err(AppError::Protocol(msg));
            }
            let peer_id = hello.device_id;
            if peer_id == local {
                return Err(protocol_error("refusing connection to self"));
            }
            if !direction_allowed(local, peer_id, outgoing) {
                return Err(protocol_error("duplicate connection direction rejected"));
            }
            if !registry.acquire(peer_id) {
                return Err(protocol_error("peer already has an active connection"));
            }
            Ok(peer_id)
        },
        _ => Err(protocol_error("first peer message was not Hello")),
    }
}

/// An event to pass on to every connected peer but `exclude`.
#[derive(Debug)]
pub struct RoutedEvent {
    pub event: ClipboardEvent,
    pub exclude: Option<u128>,
}

impl RoutedEvent {
    /// Whether the event is to be sent to `peer`.
    pub fn delivers_to(&self, peer: u128) -> (r: bool)
        ensures
            r == (self.exclude != Some(peer)),
    {
        match self.exclude {
            Some(excluded) => excluded != peer,
            None => true,
        }
    }
}

/// What a peer does in answer to a message: reply to the sender, write an
/// item to the local clipboard, pass an event on.
#[derive(Debug)]
pub struct Reaction {
    pub reply: Option<WireMessage>,
    pub apply: Option<ClipboardItem>,
    pub forward: Option<RoutedEvent>,
}

/// The value of a `Reaction`.
pub struct ReactionView {
    pub reply: Option<WireView>,
    pub apply: Option<ItemView>,
    pub forward: Option<(EventView, Option<u128>)>,
}

impl View for Reaction {
    type V = ReactionView;

    open spec fn view(&self) -> ReactionView {
        ReactionView {
            reply: match self.reply {
                Some(m) => Some(m@),
                None => None,
            },
            apply: match self.apply {
                Some(i) => Some(i@),
                None => None,
            },
            forward: match self.forward {
                Some(f) => Some((f.event@, f.exclude)),
                None => None,
            },
        }
    }
}

pub open spec fn no_reaction() -> ReactionView {
    ReactionView { reply: None, apply: None, forward: None }
}

/// The answer to an event received from `source`, or the message of the refusal.
pub open spec fn event_reaction(s: EngineView, ev: EventView, source: u128) -> Result<ReactionView, Seq<char>> {
    match remote_result(s, ev) {
        None => Err(event_fault(ev)->0),
        Some(RemoteEventResult::Duplicate) => Ok(no_reaction()),
        Some(RemoteEventResult::ForwardOnly) => Ok(
            ReactionView { reply: None, apply: None, forward: Some((ev, Some(source))) },
        ),
        Some(RemoteEventResult::ApplyAndForward) => match item_from_parts(ev.kind, ev.payload) {
            Some(item) => Ok(
                ReactionView { reply: None, apply: Some(item), forward: Some((ev, Some(source))) },
            ),
            None => Err("text payload is not UTF-8"@),
        },
    }
}

/// The answer to a message received from `source`, or the message of the refusal.
pub open spec fn message_reaction(s: EngineView, m: WireView, source: u128) -> Result<ReactionView, Seq<char>> {
    match m {
        WireView::Event(ev) => event_reaction(s, ev, source),
        WireView::StateRequest { known } => Ok(
            if state_worth_sending(s.current, known) {
                ReactionView {
                    reply: Some(WireView::State { latest: s.current }),
                    apply: None,
                    forward: None,
                }
            } else {
                no_reaction()
            },
        ),
        WireView::State { latest } => match latest {
            Some(ev) => event_reaction(s, ev, source),
            None => Ok(no_reaction()),
        },
        WireView::Ping(v) => Ok(ReactionView { reply: Some(WireView::Pong(v)), apply: None, forward: None }),
        WireView::Pong(_) => Ok(no_reaction()),
        WireView::Hello(_) => Err("Hello is only valid during handshake"@),
    }
}

/// The engine's state after a message.
pub open spec fn state_after_message(s: EngineView, m: WireView) -> EngineView {
    match m {
        WireView::Event(ev) => state_after_remote(s, ev),
        WireView::State { latest } => match latest {
            Some(ev) => state_after_remote(s, ev),
            None => s,
        },
        _ => s,
    }
}

/// An event is applied at most once: offered again right after it was taken,
/// from whatever peer, it is a duplicate and causes nothing.
pub proof fn lemma_event_applied_once(s: EngineView, ev: EventView, source: u128)
    requires
        s.window.len() <= SEEN_EVENT_CAPACITY,
        event_fault(ev) is None,
    ensures
        state_after_remote(s, ev).window.contains(ev.event_id),
        event_reaction(state_after_remote(s, ev), ev, source) == Ok::<ReactionView, Seq<char>>(no_reaction()),
        state_after_remote(state_after_remote(s, ev), ev).current == state_after_remote(s, ev).current,
{
    lemma_offered_id_remembered(s.window, ev.event_id);
}

/// An event that passes validation always converts to an item, so a peer
/// never refuses a valid event for its text.
pub proof fn lemma_valid_event_converts(ev: EventView)
    requires
        event_fault(ev) is None,
    ensures
        item_from_parts(ev.kind, ev.payload) is Some,
{
}

/// Builds a `String` from bytes with `String::from_utf8`. Trusted: the contract
/// claims that it succeeds exactly on well-formed UTF-8 and that the string's
/// UTF-8 encoding is then the given bytes, as std documents.
#[verifier::external_body]
fn string_from_utf8(bytes: Vec<u8>) -> (r: Option<String>)
    ensures
        r is Some <==> valid_utf8(bytes@),
        r matches Some(s) ==> encode_utf8(s@) == bytes@,
{
    String::from_utf8(bytes).ok()
}

/// The clipboard item that an event carries.
pub fn event_to_item(event: &ClipboardEvent) -> (r: Result<Option<ClipboardItem>, AppError>)
    ensures
        match item_from_parts(event@.kind, event@.payload) {
            Some(item) => (r matches Ok(Some(i)) && i@ == item),
            None => (r matches Err(e) && is_protocol_error(e, "text payload is not UTF-8"@)),
        },
{
    match event.kind {
        ClipboardKind::Text => match string_from_utf8(event.payload.clone()) {
            Some(text) => {
                proof {
                    encode_utf8_decode_utf8(text@);
                }
                Ok(Some(ClipboardItem::Text(text)))
            },
            None => Err(protocol_error("text payload is not UTF-8")),
        },
        ClipboardKind::Png => {
            let payload = event.payload.clone();
            proof {
                assert(payload@ =~= event.payload@);
            }
            Ok(Some(ClipboardItem::Png(payload)))
        },
    }
}

/// Takes an event from `source`: the engine decides, and the reaction writes
/// the clipboard and passes the event on as that decision calls for.
pub fn handle_event(engine: &mut SyncEngine, event: ClipboardEvent, source: u128) -> (r: Result<Reaction, AppError>)
    requires
        old(engine).wf(),
    ensures
        final(engine).wf(),
        final(engine)@ == state_after_remote(old(engine)@, event@),
        match event_reaction(old(engine)@, event@, source) {
            Ok(rv) => (r matches Ok(x) && x@ == rv),
            Err(msg) => (r matches Err(e) && is_protocol_error(e, msg)),
        },
{
    let copy = event.clone();
    let decision = match engine.accept_remote(copy) {
        Ok(d) => d,
        Err(e) => return Err(e),
    };
    match decision {
        RemoteEventResult::Duplicate => Ok(Reaction { reply: None, apply: None, forward: None }),
        RemoteEventResult::ForwardOnly => Ok(
            Reaction {
                reply: None,
                apply: None,
                forward: Some(RoutedEvent { event, exclude: Some(source) }),
            },
        ),
        RemoteEventResult::ApplyAndForward => {
            let apply = match event_to_item(&event) {
                Ok(item) => item,
                Err(e) => return Err(e),
            };
            Ok(Reaction { reply: None, apply, forward: Some(RoutedEvent { event, exclude: Some(source) }) })
        },
    }
}

/// Answers a message from a connected peer `source`.
pub fn on_message(engine: &mut SyncEngine, source: u128, message: WireMessage) -> (r: Result<Reaction, AppError>)
    requires
        old(engine).wf(),
    ensures
        final(engine).wf(),
        final(engine)@ == state_after_message(old(engine)@, message@),
        match message_reaction(old(engine)@, message@, source) {
            Ok(rv) => (r matches Ok(x) && x@ == rv),
            Err(msg) => (r matches Err(e) && is_protocol_error(e, msg)),
        },
{
    match message {
        WireMessage::Event(event) => handle_event(engine, event, source),
        WireMessage::StateRequest { known } => {
            if engine.should_send_state(known.as_ref()) {
                let latest = match engine.current() {
                    Some(e) => Some(e.clone()),
                    None => None,
                };
                Ok(Reaction { reply: Some(WireMessage::State { latest }), apply: None, forward: None })
            } else {
                Ok(Reaction { reply: None, apply: None, forward: None })
            }
        },
        WireMessage::State { latest } => match latest {
            Some(event) => handle_event(engine, event, source),
            None => Ok(Reaction { reply: None, apply: None, forward: None }),
        },
        WireMessage::Ping(value) => Ok(
            Reaction { reply: Some(WireMessage::Pong(value)), apply: None, forward: None },
        ),
        WireMessage::Pong(_) => Ok(Reaction { reply: None, apply: None, forward: None }),
        WireMessage::Hello(_) => Err(protocol_error("Hello is only valid during handshake")),
    }
}


/// What a peer announces on the local network.
#[derive(Clone, Copy, Debug, PartialEq, Eq, Structural)]
pub struct DiscoveryBeacon {
    pub protocol_version: u16,
    pub device_id: u128,
    pub websocket_port: u16,
}

/// The bytes that open every discovery packet: `CLIPSYNC-P2P` and a zero byte.
pub open spec fn discovery_magic() -> Seq<u8> {
    seq![67u8, 76u8, 73u8, 80u8, 83u8, 89u8, 78u8, 67u8, 45u8, 80u8, 50u8, 80u8, 0u8]
}

fn discovery_magic_bytes() -> (m: Vec<u8>)
    ensures
        m@ == discovery_magic(),
{
    let m = vec![67u8, 76u8, 73u8, 80u8, 83u8, 89u8, 78u8, 67u8, 45u8, 80u8, 50u8, 80u8, 0u8];
    proof {
        assert(m@ =~= discovery_magic());
    }
    m
}

/// A discovery packet: the magic bytes, then the encoded beacon.
pub fn frame_beacon(encoded: &[u8]) -> (packet: Vec<u8>)
    ensures
        packet@ == discovery_magic() + encoded@,
{
    let mut packet = discovery_magic_bytes();
    let mut i: usize = 0;
    while i < encoded.len()
        invariant
            i <= encoded@.len(),
            packet@ == discovery_magic() + encoded@.subrange(0, i as int),
        decreases encoded@.len() - i,
    {
        packet.push(encoded[i]);
        i = i + 1;
        proof {
            assert(encoded@.subrange(0, i as int) =~= encoded@.subrange(0, i - 1).push(encoded@[i - 1]));
            assert(packet@ =~= discovery_magic() + encoded@.subrange(0, i as int));
        }
    }
    proof {
        assert(encoded@.subrange(0, encoded@.len() as int) =~= encoded@);
    }
    packet
}

/// The encoded beacon in the first `size` bytes of `packet`: what follows the
/// magic bytes, when the packet is longer than them and opens with them.
pub fn beacon_body(packet: &[u8], size: usize) -> (body: Option<Vec<u8>>)
    requires
        size <= packet@.len(),
    ensures
        body is Some <==> (size > discovery_magic().len() && packet@.subrange(0, 13) == discovery_magic()),
        body matches Some(b) ==> b@ == packet@.subrange(13, size as int),
{
    let magic = discovery_magic_bytes();
    if size <= magic.len() {
        return None;
    }
    let mut i: usize = 0;
    while i < 13
        invariant
            i <= 13,
            13 < size <= packet@.len(),
            magic@ == discovery_magic(),
            forall|j: int| 0 <= j < i ==> packet@[j] == magic@[j],
        decreases 13 - i,
    {
        if packet[i] != magic[i] {
            proof {
                assert(packet@.subrange(0, 13)[i as int] != discovery_magic()[i as int]);
            }
            return None;
        }
        i = i + 1;
    }
    proof {
        assert(packet@.subrange(0, 13) =~= discovery_magic());
    }
    let mut body: Vec<u8> = Vec::new();
    let mut k: usize = 13;
    while k < size
        invariant
            13 <= k <= size,
            size <= packet@.len(),
            body@ == packet@.subrange(13, k as int),
        decreases size - k,
    {
        body.push(packet[k]);
        k = k + 1;
        proof {
            assert(body@ =~= packet@.subrange(13, k as int));
        }
    }
    Some(body)
}

/// Whether a beacon leads to a dial: it must speak this protocol, come from
/// another device with a listening port, and that device's id must be the
/// higher one.
pub open spec fn beacon_accepted_spec(local: u128, b: DiscoveryBeacon) -> bool {
    b.protocol_version == PROTOCOL_VERSION && b.device_id != local && b.websocket_port != 0
        && !(local > b.device_id)
}

/// Whether the peer that sent `beacon` is to be dialled.
pub fn beacon_accepted(local: u128, beacon: &DiscoveryBeacon) -> (r: bool)
    ensures
        r == beacon_accepted_spec(local, *beacon),
{
    !(beacon.protocol_version != PROTOCOL_VERSION || beacon.device_id == local
        || beacon.websocket_port == 0 || local > beacon.device_id)
}

/// Discovery only dials in the direction that the handshake keeps.
pub proof fn lemma_discovery_dials_allowed_direction(local: u128, b: DiscoveryBeacon)
    requires
        beacon_accepted_spec(local, b),
    ensures
        dial_allowed(local, b.device_id, true),
        !dial_allowed(b.device_id, local, true),
{
}


/// A new event that wins is written to the local clipboard whichever peer
/// relayed it: the item written is the event's own content, and only the
/// exclusion of the forwarded copy depends on the sender.
pub proof fn lemma_winning_event_applied_from_any_peer(s: EngineView, ev: EventView, source: u128, other: u128)
    requires
        remote_result(s, ev) == Some(RemoteEventResult::ApplyAndForward),
    ensures
        item_from_parts(ev.kind, ev.payload) is Some,
        event_reaction(s, ev, source) == Ok::<ReactionView, Seq<char>>(ReactionView {
            reply: None,
            apply: item_from_parts(ev.kind, ev.payload),
            forward: Some((ev, Some(source))),
        }),
        event_reaction(s, ev, source)->Ok_0.apply == event_reaction(s, ev, other)->Ok_0.apply,
        message_reaction(s, WireView::Event(ev), source) == event_reaction(s, ev, source),
        message_reaction(s, WireView::State { latest: Some(ev) }, source) == event_reaction(s, ev, source),
{
}

/// A state request is answered with the current event exactly when there is
/// one and the asking peer knows nothing or an earlier version; the answer
/// changes nothing else.
pub proof fn lemma_state_request_answer(s: EngineView, known: Option<Version>, source: u128)
    ensures
        state_worth_sending(s.current, known) <==> (s.current is Some && (known is None || version_lt(
            known->0,
            s.current->0.version,
        ))),
        message_reaction(s, WireView::StateRequest { known }, source) == Ok::<ReactionView, Seq<char>>(ReactionView {
            reply: if s.current is Some && (known is None || version_lt(known->0, s.current->0.version)) {
                Some(WireView::State { latest: s.current })
            } else {
                None
            },
            apply: None,
            forward: None,
        }),
        state_after_message(s, WireView::StateRequest { known }) == s,
{
}

/// A handshake admits a peer only if it is not connected yet, whatever the
/// direction, and only in the direction that the pair keeps; a Hello of
/// this protocol from a connected peer is refused as a second connection.
pub proof fn lemma_handshake_admits_only_new_peers(local: u128, outgoing: bool, active: Set<u128>, h: Hello)
    ensures
        handshake_outcome(local, outgoing, active, WireView::Hello(h)) matches Ok(p) ==> {
            &&& p == h.device_id
            &&& !active.contains(p)
            &&& p != local
            &&& h.protocol_version == PROTOCOL_VERSION
            &&& outgoing == (local < p)
        },
        (h.protocol_version == PROTOCOL_VERSION && h.device_id != local && outgoing == (local
            < h.device_id) && active.contains(h.device_id)) ==> handshake_outcome(
            local,
            outgoing,
            active,
            WireView::Hello(h),
        ) == Err::<u128, Seq<char>>("peer already has an active connection"@),
        (h.protocol_version == PROTOCOL_VERSION && h.device_id != local && outgoing == (local
            < h.device_id) && !active.contains(h.device_id)) ==> handshake_outcome(
            local,
            outgoing,
            active,
            WireView::Hello(h),
        ) == Ok::<u128, Seq<char>>(h.device_id),
{
}


/// An older new event is passed on to every peer but its sender and not
/// written; an event already seen causes nothing; an invalid one is refused
/// with its fault and leaves the engine as it was.
pub proof fn lemma_other_event_reactions(s: EngineView, ev: EventView, source: u128)
    ensures
        remote_result(s, ev) == Some(RemoteEventResult::ForwardOnly) ==> event_reaction(s, ev, source)
            == Ok::<ReactionView, Seq<char>>(ReactionView { reply: None, apply: None, forward: Some((ev, Some(source))) }),
        remote_result(s, ev) == Some(RemoteEventResult::Duplicate) ==> event_reaction(s, ev, source)
            == Ok::<ReactionView, Seq<char>>(ReactionView { reply: None, apply: None, forward: None }),
        remote_result(s, ev) is None ==> (event_reaction(s, ev, source) == Err::<ReactionView, Seq<char>>(
            event_fault(ev)->0) && state_after_remote(s, ev) == s),
{
}

} // verus!
