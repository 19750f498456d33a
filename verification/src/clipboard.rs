use vstd::prelude::*;
use vstd::utf8::*;
use crate::digest::{blake3_digest, payload_digest, digests_equal};
use crate::protocol::ClipboardKind;

verus! {

/// Milliseconds between two reads of the local clipboard.
pub const POLL_INTERVAL_MS: u64 = 250;
/// Milliseconds during which local changes are ignored after a remote item was written.
pub const REMOTE_SUPPRESSION_MS: u64 = 1200;

/// A clipboard content.
#[derive(Debug, PartialEq, Eq)]
pub enum ClipboardItem {
    Text(String),
    Png(Vec<u8>),
}

/// The value of a `ClipboardItem`.
pub enum ItemView {
    Text(Seq<char>),
    Png(Seq<u8>),
}

impl View for ClipboardItem {
    type V = ItemView;

    open spec fn view(&self) -> ItemView {
        match self {
            ClipboardItem::Text(t) => ItemView::Text(t@),
            ClipboardItem::Png(p) => ItemView::Png(p@),
        }
    }
}

/// The kind and the payload bytes of an item: text travels as UTF-8.
pub open spec fn item_parts(item: ItemView) -> (ClipboardKind, Seq<u8>) {
    match item {
        ItemView::Text(t) => (ClipboardKind::Text, encode_utf8(t)),
        ItemView::Png(p) => (ClipboardKind::Png, p),
    }
}

/// The item that a kind and a payload stand for; none for text that is not UTF-8.
pub open spec fn item_from_parts(kind: ClipboardKind, payload: Seq<u8>) -> Option<ItemView> {
    match kind {
        ClipboardKind::Text => if valid_utf8(payload) {
            Some(ItemView::Text(decode_utf8(payload)))
        } else {
            None
        },
        ClipboardKind::Png => Some(ItemView::Png(payload)),
    }
}

/// The bytes that are hashed for an item's fingerprint: a tag for the kind, then the content.
pub open spec fn fingerprint_input(item: ItemView) -> Seq<u8> {
    match item {
        ItemView::Text(t) => seq![116u8, 101u8, 120u8, 116u8, 0u8] + encode_utf8(t),
        ItemView::Png(p) => seq![112u8, 110u8, 103u8, 0u8] + p,
    }
}

/// Turns an item into its parts and back gives the item again.
pub proof fn lemma_parts_round_trip(item: ItemView)
    ensures
        item_from_parts(item_parts(item).0, item_parts(item).1) == Some(item),
{
    match item {
        ItemView::Text(t) => {
            encode_utf8_valid_utf8(t);
            encode_utf8_decode_utf8(t);
        },
        ItemView::Png(p) => {},
    }
}

/// Parts that stand for an item are that item's parts.
pub proof fn lemma_parts_determine_item(kind: ClipboardKind, payload: Seq<u8>)
    requires
        item_from_parts(kind, payload) is Some,
    ensures
        item_parts(item_from_parts(kind, payload)->0) == (kind, payload),
{
    if kind == ClipboardKind::Text {
        decode_utf8_encode_utf8(payload);
    }
}

/// A text and an image never hash the same input, whatever their contents.
pub proof fn lemma_fingerprint_separates_kinds(t: Seq<char>, p: Seq<u8>)
    ensures
        fingerprint_input(ItemView::Text(t)) != fingerprint_input(ItemView::Png(p)),
{
    assert(fingerprint_input(ItemView::Text(t))[0] == 116u8);
    assert(fingerprint_input(ItemView::Png(p))[0] == 112u8);
}

fn append_bytes(out: &mut Vec<u8>, bytes: &[u8])
    ensures
        final(out)@ == old(out)@ + bytes@,
{
    let mut i: usize = 0;
    let ghost start = out@;
    while i < bytes.len()
        invariant
            i <= bytes@.len(),
            out@ == start + bytes@.subrange(0, i as int),
        decreases bytes@.len() - i,
    {
        out.push(bytes[i]);
        i = i + 1;
        proof {
            assert(bytes@.subrange(0, i as int) =~= bytes@.subrange(0, i - 1).push(bytes@[i - 1]));
        }
    }
    proof {
        assert(bytes@.subrange(0, bytes@.len() as int) =~= bytes@);
    }
}

impl Clone for ClipboardItem {
    fn clone(&self) -> (c: Self)
        ensures
            c@ == self@,
    {
        match self {
            ClipboardItem::Text(t) => ClipboardItem::Text(t.clone()),
            ClipboardItem::Png(p) => {
                let q = p.clone();
                proof {
                    assert(q@ =~= p@);
                }
                ClipboardItem::Png(q)
            },
        }
    }
}

impl ClipboardItem {
    /// The BLAKE3 hash of the kind's tag followed by the content.
    pub fn fingerprint(&self) -> (fp: [u8; 32])
        ensures
            fp@ == blake3_digest(fingerprint_input(self@)),
    {
        let mut input: Vec<u8> = Vec::new();
        match self {
            ClipboardItem::Text(text) => {
                input.push(116u8);
                input.push(101u8);
                input.push(120u8);
                input.push(116u8);
                input.push(0u8);
                append_bytes(&mut input, text.as_str().as_bytes());
            },
            ClipboardItem::Png(png) => {
                input.push(112u8);
                input.push(110u8);
                input.push(103u8);
                input.push(0u8);
                append_bytes(&mut input, png.as_slice());
            },
        }
        proof {
            assert(input@ =~= fingerprint_input(self@));
        }
        payload_digest(input.as_slice())
    }

    /// The kind and payload of the item; text becomes its UTF-8 bytes.
    pub fn into_parts(self) -> (r: (ClipboardKind, Vec<u8>))
        ensures
            (r.0, r.1@) == item_parts(self@),
    {
        match self {
            ClipboardItem::Text(text) => (
                ClipboardKind::Text,
                vstd::slice::slice_to_vec(text.as_str().as_bytes()),
            ),
            ClipboardItem::Png(png) => (ClipboardKind::Png, png),
        }
    }
}

/// Orders sent to the clipboard worker.
#[derive(Debug)]
pub enum ClipboardCommand {
    Apply(ClipboardItem),
    Shutdown,
}

/// Whether a local snapshot with fingerprint `fp`, read at `now`, is a new
/// local change: it is unless it is the last item seen or written, or falls
/// in the quiet period after a remote item was written.
pub open spec fn snapshot_is_new(last: Option<Seq<u8>>, suppress_until: u64, fp: Seq<u8>, now: u64) -> bool {
    last != Some(fp) && now >= suppress_until
}

/// The value of a `ClipboardWatch`.
pub struct WatchView {
    pub last: Option<Seq<u8>>,
    pub quiet_until: u64,
    pub poll_at: u64,
}

/// One event of the clipboard worker: a remote item with this fingerprint
/// written at a time, a check whether a read is due, or a local snapshot
/// with this fingerprint read at a time.
pub enum WatchStep {
    Applied(Seq<u8>, u64),
    Poll(u64),
    Snapshot(Seq<u8>, u64),
}

/// `now + delta`, saturating at the maximum.
pub open spec fn later(now: u64, delta: u64) -> u64 {
    if now > u64::MAX - delta { u64::MAX } else { (now + delta) as u64 }
}

/// Whether the step is a snapshot that the watch publishes.
pub open spec fn publishes(w: WatchView, step: WatchStep) -> bool {
    step matches WatchStep::Snapshot(fp, t) && snapshot_is_new(w.last, w.quiet_until, fp, t)
}

/// Whether the step is a check that finds a read due.
pub open spec fn polls_due(w: WatchView, step: WatchStep) -> bool {
    step matches WatchStep::Poll(t) && t >= w.poll_at
}

/// The watch after a step.
pub open spec fn watch_step(w: WatchView, step: WatchStep) -> WatchView {
    match step {
        WatchStep::Applied(fp, t) => WatchView { last: Some(fp), quiet_until: later(t, REMOTE_SUPPRESSION_MS), poll_at: w.poll_at },
        WatchStep::Poll(t) => if t >= w.poll_at {
            WatchView { last: w.last, quiet_until: w.quiet_until, poll_at: later(t, POLL_INTERVAL_MS) }
        } else {
            w
        },
        WatchStep::Snapshot(fp, t) => if snapshot_is_new(w.last, w.quiet_until, fp, t) {
            WatchView { last: Some(fp), quiet_until: w.quiet_until, poll_at: w.poll_at }
        } else {
            w
        },
    }
}

/// The watch after a sequence of steps.
pub open spec fn watch_run(w: WatchView, steps: Seq<WatchStep>) -> WatchView
    decreases steps.len(),
{
    if steps.len() == 0 {
        w
    } else {
        watch_step(watch_run(w, steps.drop_last()), steps.last())
    }
}

/// Steps in which no remote item is written and no snapshot is published.
pub open spec fn quiet_steps(w: WatchView, steps: Seq<WatchStep>) -> bool {
    forall|i: int| 0 <= i < steps.len() ==> !(#[trigger] steps[i] is Applied) && !publishes(watch_run(w, steps.take(i)), steps[i])
}

/// The next read is never scheduled earlier than before.
proof fn lemma_poll_at_monotone(w: WatchView, steps: Seq<WatchStep>)
    ensures
        watch_run(w, steps).poll_at >= w.poll_at,
    decreases steps.len(),
{
    if steps.len() > 0 {
        lemma_poll_at_monotone(w, steps.drop_last());
    }
}

/// Through quiet steps, the last fingerprint and the quiet period stay as they were.
proof fn lemma_quiet_steps_keep_marks(w: WatchView, steps: Seq<WatchStep>)
    requires
        quiet_steps(w, steps),
    ensures
        watch_run(w, steps).last == w.last,
        watch_run(w, steps).quiet_until == w.quiet_until,
    decreases steps.len(),
{
    if steps.len() > 0 {
        let p = steps.drop_last();
        assert forall|i: int| 0 <= i < p.len() implies !(#[trigger] p[i] is Applied) && !publishes(watch_run(w, p.take(i)), p[i]) by {
            assert(p.take(i) =~= steps.take(i));
            assert(p[i] == steps[i]);
        }
        lemma_quiet_steps_keep_marks(w, p);
        assert(steps.take(steps.len() - 1) =~= p);
        assert(!(steps[steps.len() - 1] is Applied));
    }
}

/// No echo: after a remote item is written, that item is not published back
/// however late it is read, and nothing is published before the quiet
/// period ends, as long as no other remote item is written and nothing is
/// published in between.
pub proof fn lemma_no_echo(w: WatchView, fp: Seq<u8>, t_applied: u64, steps: Seq<WatchStep>, other: Seq<u8>, t: u64)
    requires
        quiet_steps(watch_step(w, WatchStep::Applied(fp, t_applied)), steps),
    ensures
        !publishes(watch_run(watch_step(w, WatchStep::Applied(fp, t_applied)), steps), WatchStep::Snapshot(fp, t)),
        t < later(t_applied, REMOTE_SUPPRESSION_MS) ==> !publishes(
            watch_run(watch_step(w, WatchStep::Applied(fp, t_applied)), steps),
            WatchStep::Snapshot(other, t),
        ),
{
    lemma_quiet_steps_keep_marks(watch_step(w, WatchStep::Applied(fp, t_applied)), steps);
}

/// Two publications in a row, with no remote item written between them,
/// carry different fingerprints.
pub proof fn lemma_publications_differ(w: WatchView, fp: Seq<u8>, t: u64, steps: Seq<WatchStep>, t_next: u64)
    requires
        publishes(w, WatchStep::Snapshot(fp, t)),
        quiet_steps(watch_step(w, WatchStep::Snapshot(fp, t)), steps),
    ensures
        !publishes(watch_run(watch_step(w, WatchStep::Snapshot(fp, t)), steps), WatchStep::Snapshot(fp, t_next)),
{
    lemma_quiet_steps_keep_marks(watch_step(w, WatchStep::Snapshot(fp, t)), steps);
}

/// Reads are spaced: after a read found due at `t1`, the next one found due,
/// whatever happens in between, comes no earlier than the poll interval later.
pub proof fn lemma_poll_spacing(w: WatchView, t1: u64, steps: Seq<WatchStep>, t2: u64)
    requires
        polls_due(w, WatchStep::Poll(t1)),
        polls_due(watch_run(watch_step(w, WatchStep::Poll(t1)), steps), WatchStep::Poll(t2)),
    ensures
        t2 >= later(t1, POLL_INTERVAL_MS),
{
    lemma_poll_at_monotone(watch_step(w, WatchStep::Poll(t1)), steps);
}

/// The clipboard worker's memory: the last item seen or written, the end of
/// the quiet period, and the time of the next read (milliseconds of a
/// monotonic clock).
#[derive(Debug)]
pub struct ClipboardWatch {
    last_fingerprint: Option<[u8; 32]>,
    suppress_until: u64,
    next_poll: u64,
}

impl View for ClipboardWatch {
    type V = WatchView;

    open spec fn view(&self) -> WatchView {
        WatchView { last: self.last(), quiet_until: self.quiet_until(), poll_at: self.poll_at() }
    }
}

impl ClipboardWatch {
    pub closed spec fn last(&self) -> Option<Seq<u8>> {
        match self.last_fingerprint {
            Some(f) => Some(f@),
            None => None,
        }
    }

    pub closed spec fn quiet_until(&self) -> u64 {
        self.suppress_until
    }

    pub closed spec fn poll_at(&self) -> u64 {
        self.next_poll
    }

    /// A watch started at `now`: nothing seen, no quiet period, a read due at once.
    pub fn new(now: u64) -> (w: Self)
        ensures
            w.last() is None,
            w.quiet_until() == now,
            w.poll_at() == now,
    {
        ClipboardWatch { last_fingerprint: None, suppress_until: now, next_poll: now }
    }

    /// Notes that a remote item with fingerprint `fingerprint` was written at
    /// `now`: it becomes the last item, and a quiet period starts.
    pub fn record_applied(&mut self, fingerprint: [u8; 32], now: u64)
        ensures
            final(self).last() == Some(fingerprint@),
            final(self).quiet_until() == if now > u64::MAX - REMOTE_SUPPRESSION_MS {
                u64::MAX
            } else {
                (now + REMOTE_SUPPRESSION_MS) as u64
            },
            final(self).poll_at() == old(self).poll_at(),
            final(self)@ == watch_step(old(self)@, WatchStep::Applied(fingerprint@, now)),
    {
        self.last_fingerprint = Some(fingerprint);
        self.suppress_until = now.saturating_add(REMOTE_SUPPRESSION_MS);
    }

    /// Whether a read is due at `now`; when it is, the next one is scheduled.
    pub fn poll_due(&mut self, now: u64) -> (due: bool)
        ensures
            due == (now >= old(self).poll_at()),
            final(self).last() == old(self).last(),
            final(self).quiet_until() == old(self).quiet_until(),
            due ==> final(self).poll_at() == if now > u64::MAX - POLL_INTERVAL_MS {
                u64::MAX
            } else {
                (now + POLL_INTERVAL_MS) as u64
            },
            !due ==> final(self).poll_at() == old(self).poll_at(),
            due == polls_due(old(self)@, WatchStep::Poll(now)),
            final(self)@ == watch_step(old(self)@, WatchStep::Poll(now)),
    {
        if now < self.next_poll {
            return false;
        }
        self.next_poll = now.saturating_add(POLL_INTERVAL_MS);
        true
    }

    /// Whether a snapshot with fingerprint `fingerprint`, read at `now`, is to
    /// be published; when it is, it becomes the last item.
    pub fn accept_snapshot(&mut self, fingerprint: [u8; 32], now: u64) -> (publish: bool)
        ensures
            publish == snapshot_is_new(old(self).last(), old(self).quiet_until(), fingerprint@, now),
            publish ==> final(self).last() == Some(fingerprint@),
            !publish ==> final(self).last() == old(self).last(),
            final(self).quiet_until() == old(self).quiet_until(),
            final(self).poll_at() == old(self).poll_at(),
            publish == publishes(old(self)@, WatchStep::Snapshot(fingerprint@, now)),
            final(self)@ == watch_step(old(self)@, WatchStep::Snapshot(fingerprint@, now)),
    {
        let same = match &self.last_fingerprint {
            Some(last) => digests_equal(last, &fingerprint),
            None => false,
        };
        if same || now < self.suppress_until {
            return false;
        }
        self.last_fingerprint = Some(fingerprint);
        true
    }
}

/// An item written from a peer is never published back as a local change,
/// however late it is read again, and nothing is published during the quiet period.
pub proof fn lemma_applied_item_not_republished(fp: Seq<u8>, suppress_until: u64, other: Seq<u8>, now: u64)
    ensures
        !snapshot_is_new(Some(fp), suppress_until, fp, now),
        now < suppress_until ==> !snapshot_is_new(Some(fp), suppress_until, other, now),
{
}


/// The fingerprint of the most recent item the watch marked: a remote item
/// written, or a snapshot published; the starting one when there is none.
pub open spec fn last_marked(w: WatchView, steps: Seq<WatchStep>) -> Option<Seq<u8>>
    decreases steps.len(),
{
    if steps.len() == 0 {
        w.last
    } else {
        let p = steps.drop_last();
        match steps.last() {
            WatchStep::Applied(fp, _) => Some(fp),
            WatchStep::Snapshot(fp, t) => if publishes(watch_run(w, p), WatchStep::Snapshot(fp, t)) {
                Some(fp)
            } else {
                last_marked(w, p)
            },
            WatchStep::Poll(_) => last_marked(w, p),
        }
    }
}

/// The end of the quiet period set by the most recent remote write: its time
/// plus the suppression delay; the starting one when there is none.
pub open spec fn quiet_end(w: WatchView, steps: Seq<WatchStep>) -> u64
    decreases steps.len(),
{
    if steps.len() == 0 {
        w.quiet_until
    } else {
        match steps.last() {
            WatchStep::Applied(_, t) => later(t, REMOTE_SUPPRESSION_MS),
            _ => quiet_end(w, steps.drop_last()),
        }
    }
}

/// The worker's publication rule over any history: the watch remembers the
/// most recent item written from a peer or published, and the quiet period
/// of the most recent remote write; so a snapshot read at `t` is published
/// exactly when it differs from that item and `t` is past that period.
pub proof fn lemma_publication_rule(w: WatchView, steps: Seq<WatchStep>, fp: Seq<u8>, t: u64)
    ensures
        watch_run(w, steps).last == last_marked(w, steps),
        watch_run(w, steps).quiet_until == quiet_end(w, steps),
        publishes(watch_run(w, steps), WatchStep::Snapshot(fp, t)) <==> (last_marked(w, steps) != Some(fp)
            && t >= quiet_end(w, steps)),
    decreases steps.len(),
{
    if steps.len() > 0 {
        lemma_publication_rule(w, steps.drop_last(), fp, t);
    }
}


/// Different items never hash the same input: the fingerprint input of an
/// item determines the item, kind and whole content.
pub proof fn lemma_fingerprint_input_injective(a: ItemView, b: ItemView)
    requires
        fingerprint_input(a) == fingerprint_input(b),
    ensures
        a == b,
{
    match a {
        ItemView::Text(ta) => match b {
            ItemView::Text(tb) => {
                let ea = encode_utf8(ta);
                let eb = encode_utf8(tb);
                assert(ea =~= fingerprint_input(a).subrange(5, fingerprint_input(a).len() as int));
                assert(eb =~= fingerprint_input(b).subrange(5, fingerprint_input(b).len() as int));
                encode_utf8_decode_utf8(ta);
                encode_utf8_decode_utf8(tb);
            },
            ItemView::Png(pb) => {
                lemma_fingerprint_separates_kinds(ta, pb);
            },
        },
        ItemView::Png(pa) => match b {
            ItemView::Text(tb) => {
                lemma_fingerprint_separates_kinds(tb, pa);
            },
            ItemView::Png(pb) => {
                assert(pa =~= fingerprint_input(a).subrange(4, fingerprint_input(a).len() as int));
                assert(pb =~= fingerprint_input(b).subrange(4, fingerprint_input(b).len() as int));
            },
        },
    }
}

} // verus!
