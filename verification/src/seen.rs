use std::collections::{HashSet, VecDeque};
use vstd::prelude::*;

verus! {

broadcast use vstd::std_specs::hash::group_hash_axioms;

/// How many event ids the engine remembers.
pub const SEEN_EVENT_CAPACITY: usize = 4096;

/// The window of remembered ids after `id` is offered to a window `order`:
/// unchanged when `id` is already in it, otherwise `id` is appended and, when
/// the window then holds more than the capacity, its oldest id is dropped.
pub open spec fn window_after(order: Seq<u128>, id: u128) -> Seq<u128> {
    if order.contains(id) {
        order
    } else if order.len() + 1 > SEEN_EVENT_CAPACITY {
        order.push(id).drop_first()
    } else {
        order.push(id)
    }
}

/// The ids of the most recent events, oldest first, each once.
#[derive(Debug)]
pub struct SeenEvents {
    ids: HashSet<u128>,
    order: VecDeque<u128>,
}

impl SeenEvents {
    /// The remembered ids, oldest first.
    pub closed spec fn window(&self) -> Seq<u128> {
        self.order@
    }

    /// The set of ids mirrors the window, which holds each id once and is
    /// never longer than the capacity.
    pub closed spec fn wf(&self) -> bool {
        &&& self.ids@ == self.order@.to_set()
        &&& self.order@.no_duplicates()
        &&& self.order@.len() <= SEEN_EVENT_CAPACITY
    }

    pub fn new() -> (s: Self)
        ensures
            s.wf(),
            s.window() == Seq::<u128>::empty(),
    {
        let s = SeenEvents { ids: HashSet::new(), order: VecDeque::new() };
        proof {
            assert(s.order@.to_set() =~= Set::<u128>::empty());
        }
        s
    }

    /// The window holds each id once and never more than the capacity.
    pub proof fn lemma_window_bounded(&self)
        requires
            self.wf(),
        ensures
            self.window().len() <= SEEN_EVENT_CAPACITY,
            self.window().no_duplicates(),
    {
    }

    /// Whether `id` is remembered.
    pub fn contains(&self, id: u128) -> (r: bool)
        requires
            self.wf(),
        ensures
            r == self.window().contains(id),
    {
        self.ids.contains(&id)
    }

    /// Remembers `id`; returns whether it was new. The window becomes
    /// `window_after(old window, id)`.
    pub fn insert(&mut self, id: u128) -> (fresh: bool)
        requires
            old(self).wf(),
        ensures
            final(self).wf(),
            fresh == !old(self).window().contains(id),
            final(self).window() == window_after(old(self).window(), id),
            final(self).window().contains(id),
    {
        let ghost old_order = self.order@;
        let ghost old_ids = self.ids@;
        if !self.ids.insert(id) {
            proof {
                assert(self.ids@ =~= old_ids);
            }
            return false;
        }
        self.order.push_back(id);
        proof {
            assert(self.order@ == old_order.push(id));
            assert(self.order@[old_order.len() as int] == id);
            assert(self.ids@ =~= self.order@.to_set()) by {
                assert forall|x: u128| self.ids@.contains(x) implies self.order@.contains(x) by {
                    if x != id {
                        assert(old_order.contains(x));
                        let k = choose|k: int| 0 <= k < old_order.len() && old_order[k] == x;
                        assert(self.order@[k] == x);
                    } else {
                        assert(self.order@[old_order.len() as int] == id);
                    }
                }
                assert forall|x: u128| self.order@.contains(x) implies self.ids@.contains(x) by {
                    let k = choose|k: int| 0 <= k < self.order@.len() && self.order@[k] == x;
                    if k < old_order.len() {
                        assert(old_order[k] == x);
                        assert(old_order.contains(x));
                    }
                }
            }
            assert(self.order@.no_duplicates()) by {
                assert forall|i: int, j: int|
                    0 <= i < self.order@.len() && 0 <= j < self.order@.len() && i != j implies
                    self.order@[i] != self.order@[j] by {
                    if i == old_order.len() as int {
                        assert(old_order[j] == self.order@[j]);
                    } else if j == old_order.len() as int {
                        assert(old_order[i] == self.order@[i]);
                    }
                }
            }
        }
        if self.order.len() > SEEN_EVENT_CAPACITY {
            let ghost pushed = self.order@;
            if let Some(expired) = self.order.pop_front() {
                self.ids.remove(&expired);
                proof {
                    assert(self.order@ =~= pushed.drop_first());
                    assert(self.order@[self.order@.len() - 1] == id);
                    assert(self.ids@ =~= self.order@.to_set()) by {
                        assert forall|x: u128| self.ids@.contains(x) implies self.order@.contains(x) by {
                            let k = choose|k: int| 0 <= k < pushed.len() && pushed[k] == x;
                            assert(k != 0);
                            assert(self.order@[k - 1] == x);
                        }
                        assert forall|x: u128| self.order@.contains(x) implies self.ids@.contains(x) by {
                            let k = choose|k: int| 0 <= k < self.order@.len() && self.order@[k] == x;
                            assert(pushed[k + 1] == x);
                            assert(pushed.contains(x));
                            assert(x != expired);
                        }
                    }
                    assert(self.order@.no_duplicates()) by {
                        assert forall|i: int, j: int|
                            0 <= i < self.order@.len() && 0 <= j < self.order@.len() && i != j implies
                            self.order@[i] != self.order@[j] by {
                            assert(pushed[i + 1] == self.order@[i]);
                            assert(pushed[j + 1] == self.order@[j]);
                        }
                    }
                }
            }
        }
        true
    }
}

/// An id offered to the window is remembered right after, so offering it
/// again at once is refused.
pub proof fn lemma_offered_id_remembered(order: Seq<u128>, id: u128)
    requires
        order.len() <= SEEN_EVENT_CAPACITY,
    ensures
        window_after(order, id).contains(id),
        window_after(window_after(order, id), id) == window_after(order, id),
{
    let w = window_after(order, id);
    if !order.contains(id) {
        let p = order.push(id);
        assert(p[p.len() - 1] == id);
        if order.len() + 1 > SEEN_EVENT_CAPACITY {
            assert(w[w.len() - 1] == id);
        }
    }
}


/// The window after each id of `ids` is offered in turn.
pub open spec fn offer_all(w: Seq<u128>, ids: Seq<u128>) -> Seq<u128>
    decreases ids.len(),
{
    if ids.len() == 0 {
        w
    } else {
        window_after(offer_all(w, ids.drop_last()), ids.last())
    }
}

/// How many of `ids` were new (not in the window) when they were offered.
pub open spec fn fresh_count(w: Seq<u128>, ids: Seq<u128>) -> nat
    decreases ids.len(),
{
    if ids.len() == 0 {
        0
    } else {
        fresh_count(w, ids.drop_last()) + if offer_all(w, ids.drop_last()).contains(ids.last()) {
            0nat
        } else {
            1nat
        }
    }
}

/// Offering ids never grows a window past the capacity.
pub proof fn lemma_offer_all_bounded(w: Seq<u128>, ids: Seq<u128>)
    requires
        w.len() <= SEEN_EVENT_CAPACITY,
    ensures
        offer_all(w, ids).len() <= SEEN_EVENT_CAPACITY,
    decreases ids.len(),
{
    if ids.len() > 0 {
        lemma_offer_all_bounded(w, ids.drop_last());
    }
}

/// An id `c` places from the end of the window moves one place towards the
/// front for each new id, and stays while fewer than the capacity arrive.
proof fn lemma_position_kept(w: Seq<u128>, ids: Seq<u128>, id: u128, c: int)
    requires
        w.len() <= SEEN_EVENT_CAPACITY,
        0 <= c,
        c + fresh_count(w, ids) < SEEN_EVENT_CAPACITY,
        w.len() - 1 - c >= 0,
        w[w.len() - 1 - c] == id,
    ensures
        offer_all(w, ids).len() - 1 - (c + fresh_count(w, ids)) >= 0,
        offer_all(w, ids)[offer_all(w, ids).len() - 1 - (c + fresh_count(w, ids))] == id,
    decreases ids.len(),
{
    if ids.len() > 0 {
        let p = ids.drop_last();
        let x = ids.last();
        lemma_position_kept(w, p, id, c);
        lemma_offer_all_bounded(w, p);
        let w1 = offer_all(w, p);
        let f1 = fresh_count(w, p);
        let pos = w1.len() - 1 - (c + f1);
        if !w1.contains(x) {
            let pushed = w1.push(x);
            assert(pushed[pos] == id);
            if w1.len() + 1 > SEEN_EVENT_CAPACITY {
                assert(offer_all(w, ids) == pushed.drop_first());
                assert(offer_all(w, ids)[pos - 1] == id);
            } else {
                assert(offer_all(w, ids) == pushed);
            }
        }
    }
}

/// A new id stays remembered, so that offering it again is refused, until
/// as many new ids as the capacity have been offered after it.
pub proof fn lemma_remembered_until_capacity(w: Seq<u128>, id: u128, ids: Seq<u128>)
    requires
        w.len() <= SEEN_EVENT_CAPACITY,
        !w.contains(id),
        fresh_count(window_after(w, id), ids) < SEEN_EVENT_CAPACITY,
    ensures
        offer_all(window_after(w, id), ids).contains(id),
{
    let w1 = window_after(w, id);
    let pushed = w.push(id);
    assert(pushed[pushed.len() - 1] == id);
    if w.len() + 1 > SEEN_EVENT_CAPACITY {
        assert(w1[w1.len() - 1] == id);
    }
    lemma_position_kept(w1, ids, id, 0);
    let w2 = offer_all(w1, ids);
    let k = w2.len() - 1 - fresh_count(w1, ids);
    assert(w2[k] == id);
}

/// A window holds only ids that were in it before or were offered since.
pub proof fn lemma_offer_all_only_offered(w: Seq<u128>, ids: Seq<u128>, x: u128)
    requires
        offer_all(w, ids).contains(x),
    ensures
        w.contains(x) || ids.contains(x),
    decreases ids.len(),
{
    if ids.len() > 0 {
        let p = ids.drop_last();
        let w1 = offer_all(w, p);
        if w1.contains(x) {
            lemma_offer_all_only_offered(w, p, x);
            if p.contains(x) {
                let k = choose|k: int| 0 <= k < p.len() && p[k] == x;
                assert(ids[k] == x);
            }
        } else {
            let w2 = offer_all(w, ids);
            let k = choose|k: int| 0 <= k < w2.len() && w2[k] == x;
            if w1.len() + 1 > SEEN_EVENT_CAPACITY && !w1.contains(ids.last()) {
                assert(w1.push(ids.last())[k + 1] == x);
            } else if !w1.contains(ids.last()) {
                assert(w1.push(ids.last())[k] == x);
            }
            assert(x == ids.last());
            assert(ids[ids.len() - 1] == x);
        }
    }
}

} // verus!
