//! The response router of one connection: pairs each arriving response
//! frame with the caller that sent the request carrying its stream id,
//! hands server events to every subscriber, and never lets a canceled
//! request's late reply reach anyone.

use vstd::prelude::*;
use crate::frame::{Opcode, StreamId};

verus! {

/// The state of one in-flight stream id.
#[derive(Debug, Clone, Copy, PartialEq, Eq, Structural)]
pub enum SlotState {
    /// A caller (named by its token) waits for the response.
    Waiting(u64),
    /// The caller canceled; the late response must be dropped and the id
    /// freed when it arrives.
    Orphaned,
}

/// What the router does with one arriving frame.
#[derive(Debug)]
pub enum RouteAction {
    /// Hand the frame to the waiter with this token.
    Deliver(u64),
    /// Drop the frame: a late arrival after cancellation, or an unknown
    /// id.
    DropLate,
    /// Publish the event to every one of these subscriber tokens.
    Publish(Vec<u64>),
    /// A frame with a negative stream id and a non-event opcode: the
    /// framing is no longer trustworthy and the connection must close.
    ProtocolError,
}

/// The router's mathematical state: which id waits for whom, who
/// subscribes to events, and whether the connection is closed.
pub struct RouterModel {
    pub slots: Map<int, SlotState>,
    pub subscribers: Seq<u64>,
    pub closed: bool,
}

/// What the router does with one arriving frame, as plain values.
pub enum RouteActionView {
    Deliver(u64),
    DropLate,
    Publish(Seq<u64>),
    ProtocolError,
}

/// The routing rule: a negative stream id must carry an event, which
/// reaches every live subscriber; a non-negative id is delivered to its
/// waiter exactly once, a canceled or unknown id is dropped, and a
/// consumed id leaves the slot map (and so becomes reusable).
pub open spec fn spec_route(m: RouterModel, stream: int, is_event: bool) -> (
    RouterModel,
    RouteActionView,
) {
    if stream < 0 {
        if is_event {
            (m, RouteActionView::Publish(m.subscribers))
        } else {
            (m, RouteActionView::ProtocolError)
        }
    } else {
        if m.slots.contains_key(stream) {
            match m.slots[stream] {
                SlotState::Waiting(t) => (
                    RouterModel { slots: m.slots.remove(stream), ..m },
                    RouteActionView::Deliver(t),
                ),
                SlotState::Orphaned => (
                    RouterModel { slots: m.slots.remove(stream), ..m },
                    RouteActionView::DropLate,
                ),
            }
        } else {
            (m, RouteActionView::DropLate)
        }
    }
}

/// The slot map carried by an association list.
pub open spec fn slots_map(s: Seq<(StreamId, SlotState)>) -> Map<int, SlotState>
    decreases s.len(),
{
    if s.len() == 0 {
        Map::empty()
    } else {
        slots_map(s.drop_last()).insert(s.last().0 as int, s.last().1)
    }
}

/// The association list holds each id at most once.
pub open spec fn slots_distinct(s: Seq<(StreamId, SlotState)>) -> bool {
    forall|i: int, j: int| 0 <= i < j < s.len() ==> (#[trigger] s[i]).0 != (#[trigger] s[j]).0
}

/// An id found at index `i` of a distinct association list is in the map,
/// with that very state.
proof fn lemma_slots_map_index(s: Seq<(StreamId, SlotState)>, i: int)
    requires
        slots_distinct(s),
        0 <= i < s.len(),
    ensures
        slots_map(s).contains_key(s[i].0 as int),
        slots_map(s)[s[i].0 as int] == s[i].1,
    decreases s.len(),
{
    if i == s.len() - 1 {
    } else {
        assert(s.drop_last()[i] == s[i]);
        assert(slots_distinct(s.drop_last())) by {
            assert(forall|a: int, b: int|
                0 <= a < b < s.drop_last().len() ==> s.drop_last()[a] == s[a] && s.drop_last()[b]
                    == s[b]);
        }
        lemma_slots_map_index(s.drop_last(), i);
        assert(s[i].0 != s.last().0);
    }
}

/// An id on no index of the association list is not in the map.
proof fn lemma_slots_map_absent(s: Seq<(StreamId, SlotState)>, id: int)
    requires
        forall|i: int| 0 <= i < s.len() ==> (#[trigger] s[i]).0 as int != id,
    ensures
        !slots_map(s).contains_key(id),
    decreases s.len(),
{
    if s.len() > 0 {
        assert(forall|i: int|
            0 <= i < s.drop_last().len() ==> (#[trigger] s.drop_last()[i]) == s[i]);
        lemma_slots_map_absent(s.drop_last(), id);
    }
}

/// Removing index `i` from a distinct association list removes exactly
/// that id from the map.
proof fn lemma_slots_map_remove(s: Seq<(StreamId, SlotState)>, i: int)
    requires
        slots_distinct(s),
        0 <= i < s.len(),
    ensures
        slots_map(s.remove(i)) == slots_map(s).remove(s[i].0 as int),
        slots_distinct(s.remove(i)),
    decreases s.len(),
{
    let id = s[i].0 as int;
    let r = s.remove(i);
    assert(slots_distinct(r)) by {
        assert(forall|a: int| 0 <= a < r.len() ==> r[a] == (if a < i {
            s[a]
        } else {
            s[a + 1]
        }));
    }
    if i == s.len() - 1 {
        assert(r =~= s.drop_last());
        lemma_slots_map_absent_of_distinct(s);
        assert(slots_map(s) == slots_map(s.drop_last()).insert(id, s.last().1));
        assert(!slots_map(s.drop_last()).contains_key(id));
        assert(slots_map(s).remove(id) =~= slots_map(s.drop_last()));
    } else {
        assert(slots_distinct(s.drop_last())) by {
            assert(forall|a: int|
                0 <= a < s.drop_last().len() ==> (#[trigger] s.drop_last()[a]) == s[a]);
        }
        lemma_slots_map_remove(s.drop_last(), i);
        assert(r.drop_last() =~= s.drop_last().remove(i));
        assert(r.last() == s.last());
        assert(slots_map(r) == slots_map(s.drop_last().remove(i)).insert(
            s.last().0 as int,
            s.last().1,
        ));
        assert(s.last().0 as int != id);
        assert(slots_map(r) =~= slots_map(s).remove(id));
    }
}

/// The last id of a distinct association list is absent from the map of
/// the list without it.
proof fn lemma_slots_map_absent_of_distinct(s: Seq<(StreamId, SlotState)>)
    requires
        slots_distinct(s),
        s.len() >= 1,
    ensures
        !slots_map(s.drop_last()).contains_key(s.last().0 as int),
{
    assert(forall|a: int|
        0 <= a < s.drop_last().len() ==> (#[trigger] s.drop_last()[a]).0 != s.last().0);
    lemma_slots_map_absent(s.drop_last(), s.last().0 as int);
}

/// The response router of one connection.
#[derive(Debug)]
pub struct ResponseRouter {
    slots: Vec<(StreamId, SlotState)>,
    subscribers: Vec<u64>,
    closed: bool,
}

impl View for ResponseRouter {
    type V = RouterModel;

    closed spec fn view(&self) -> RouterModel {
        RouterModel {
            slots: slots_map(self.slots@),
            subscribers: self.subscribers@,
            closed: self.closed,
        }
    }
}

impl ResponseRouter {
    /// The association list never repeats an id.
    pub closed spec fn inv(&self) -> bool {
        slots_distinct(self.slots@)
    }

    /// A fresh router: nothing in flight, nobody subscribed, open.
    pub fn new() -> (r: ResponseRouter)
        ensures
            r.inv(),
            r@.slots == Map::<int, SlotState>::empty(),
            r@.subscribers == Seq::<u64>::empty(),
            !r@.closed,
    {
        let r = ResponseRouter { slots: Vec::new(), subscribers: Vec::new(), closed: false };
        proof {
            assert(r@.slots =~= Map::<int, SlotState>::empty());
        }
        r
    }

    /// The index holding `id`, if any.
    fn find_slot(&self, id: StreamId) -> (r: Option<usize>)
        ensures
            r matches Some(i) ==> i < self.slots@.len() && self.slots@[i as int].0 == id,
            r is None ==> forall|i: int|
                0 <= i < self.slots@.len() ==> (#[trigger] self.slots@[i]).0 != id,
    {
        let n = self.slots.len();
        let mut i: usize = 0;
        while i < n
            invariant
                i <= n,
                n == self.slots@.len(),
                forall|k: int| 0 <= k < i ==> (#[trigger] self.slots@[k]).0 != id,
            decreases n - i,
        {
            if self.slots[i].0 == id {
                return Some(i);
            }
            i = i + 1;
        }
        None
    }

    /// Parks a waiter under a fresh stream id. The claim fails (and
    /// nothing changes) exactly when the id is still in flight or the
    /// connection is closed: no id is reused before its slot is freed.
    pub fn register(&mut self, id: StreamId, token: u64) -> (ok: bool)
        requires
            old(self).inv(),
            id >= 0,
        ensures
            final(self).inv(),
            ok <==> (!old(self)@.slots.contains_key(id as int) && !old(self)@.closed),
            ok ==> final(self)@ == (RouterModel {
                slots: old(self)@.slots.insert(id as int, SlotState::Waiting(token)),
                ..old(self)@
            }),
            !ok ==> final(self)@ == old(self)@,
    {
        if self.closed {
            return false;
        }
        match self.find_slot(id) {
            Some(i) => {
                proof {
                    lemma_slots_map_index(self.slots@, i as int);
                }
                false
            },
            None => {
                proof {
                    lemma_slots_map_absent(self.slots@, id as int);
                }
                let ghost pre = self.slots@;
                self.slots.push((id, SlotState::Waiting(token)));
                proof {
                    assert(self.slots@.drop_last() =~= pre);
                    assert(slots_distinct(self.slots@)) by {
                        assert(forall|a: int|
                            0 <= a < pre.len() ==> (#[trigger] self.slots@[a]) == pre[a]);
                    }
                }
                true
            },
        }
    }

    /// Abandons an in-flight request: the slot is kept (the id is not yet
    /// reusable) but marked orphaned, so the late response is dropped.
    pub fn cancel(&mut self, id: StreamId) -> (found: bool)
        requires
            old(self).inv(),
        ensures
            final(self).inv(),
            found <==> old(self)@.slots.contains_key(id as int),
            found ==> final(self)@ == (RouterModel {
                slots: old(self)@.slots.insert(id as int, SlotState::Orphaned),
                ..old(self)@
            }),
            !found ==> final(self)@ == old(self)@,
    {
        match self.find_slot(id) {
            Some(i) => {
                proof {
                    lemma_slots_map_index(self.slots@, i as int);
                }
                let ghost pre = self.slots@;
                self.slots.set(i, (id, SlotState::Orphaned));
                proof {
                    assert(slots_distinct(self.slots@)) by {
                        assert(forall|a: int| 0 <= a < pre.len() && a != i ==> (
                        #[trigger] self.slots@[a]) == pre[a]);
                        assert(self.slots@[i as int].0 == pre[i as int].0);
                    }
                    lemma_slots_map_set(pre, i as int, SlotState::Orphaned);
                }
                true
            },
            None => {
                proof {
                    lemma_slots_map_absent(self.slots@, id as int);
                }
                false
            },
        }
    }

    /// Adds a subscriber for server events.
    pub fn subscribe(&mut self, token: u64)
        requires
            old(self).inv(),
        ensures
            final(self).inv(),
            final(self)@ == (RouterModel {
                subscribers: old(self)@.subscribers.push(token),
                ..old(self)@
            }),
    {
        self.subscribers.push(token);
    }

    /// Routes one arriving frame by its stream id and opcode, exactly as
    /// `spec_route` says.
    pub fn route(&mut self, stream: StreamId, opcode: Opcode) -> (r: RouteAction)
        requires
            old(self).inv(),
        ensures
            final(self).inv(),
            ({
                let (m2, av) = spec_route(old(self)@, stream as int, opcode == Opcode::Event);
                &&& final(self)@ == m2
                &&& match (r, av) {
                    (RouteAction::Deliver(t), RouteActionView::Deliver(t2)) => t == t2,
                    (RouteAction::DropLate, RouteActionView::DropLate) => true,
                    (RouteAction::Publish(s), RouteActionView::Publish(s2)) => s@ == s2,
                    (RouteAction::ProtocolError, RouteActionView::ProtocolError) => true,
                    _ => false,
                }
            }),
    {
        if stream < 0 {
            if matches!(opcode, Opcode::Event) {
                let subs = self.subscribers.clone();
                proof {
                    assert(subs@ =~= self.subscribers@);
                }
                return RouteAction::Publish(subs);
            }
            return RouteAction::ProtocolError;
        }
        match self.find_slot(stream) {
            Some(i) => {
                proof {
                    lemma_slots_map_index(self.slots@, i as int);
                    lemma_slots_map_remove(self.slots@, i as int);
                }
                let (_, st) = self.slots.remove(i);
                match st {
                    SlotState::Waiting(t) => RouteAction::Deliver(t),
                    SlotState::Orphaned => RouteAction::DropLate,
                }
            },
            None => {
                proof {
                    lemma_slots_map_absent(self.slots@, stream as int);
                }
                RouteAction::DropLate
            },
        }
    }

    /// Closes the connection: every outstanding waiter's token is handed
    /// back (each exactly once, to be failed with a closed-connection
    /// error), the slot map is drained, and no new id can be parked.
    pub fn fail_all(&mut self) -> (tokens: Vec<u64>)
        requires
            old(self).inv(),
        ensures
            final(self).inv(),
            final(self)@.slots == Map::<int, SlotState>::empty(),
            final(self)@.closed,
            final(self)@.subscribers == old(self)@.subscribers,
            tokens@ == waiting_tokens(old(self).slots_seq()),
    {
        let mut tokens: Vec<u64> = Vec::new();
        let n = self.slots.len();
        let mut i: usize = 0;
        proof {
            assert(tokens@ =~= waiting_tokens(self.slots@.subrange(0, 0)));
        }
        while i < n
            invariant
                i <= n,
                n == self.slots@.len(),
                tokens@ == waiting_tokens(self.slots@.subrange(0, i as int)),
            decreases n - i,
        {
            proof {
                let pre = self.slots@.subrange(0, i as int);
                let ext = self.slots@.subrange(0, i + 1);
                assert(ext.drop_last() =~= pre);
                assert(ext.last() == self.slots@[i as int]);
            }
            match self.slots[i].1 {
                SlotState::Waiting(t) => {
                    tokens.push(t);
                },
                SlotState::Orphaned => {},
            }
            i = i + 1;
        }
        proof {
            assert(self.slots@.subrange(0, n as int) =~= self.slots@);
        }
        self.slots.clear();
        self.closed = true;
        proof {
            assert(self@.slots =~= Map::<int, SlotState>::empty());
        }
        tokens
    }

    /// The raw association list (for stating what `fail_all` returns).
    pub closed spec fn slots_seq(&self) -> Seq<(StreamId, SlotState)> {
        self.slots@
    }
}

/// Replacing index `i`'s state (keeping its id) updates the map at that
/// id.
proof fn lemma_slots_map_set(s: Seq<(StreamId, SlotState)>, i: int, st: SlotState)
    requires
        slots_distinct(s),
        0 <= i < s.len(),
    ensures
        slots_map(s.update(i, (s[i].0, st))) == slots_map(s).insert(s[i].0 as int, st),
    decreases s.len(),
{
    let u = s.update(i, (s[i].0, st));
    if i == s.len() - 1 {
        assert(u.drop_last() =~= s.drop_last());
        assert(u.last() == (s[i].0, st));
    } else {
        assert(slots_distinct(s.drop_last())) by {
            assert(forall|a: int|
                0 <= a < s.drop_last().len() ==> (#[trigger] s.drop_last()[a]) == s[a]);
        }
        lemma_slots_map_set(s.drop_last(), i, st);
        assert(u.drop_last() =~= s.drop_last().update(i, (s[i].0, st)));
        assert(u.last() == s.last());
        assert(s.last().0 != s[i].0);
        assert(slots_map(u) =~= slots_map(s).insert(s[i].0 as int, st));
    }
}

/// The tokens of the waiting slots, in list order.
pub open spec fn waiting_tokens(s: Seq<(StreamId, SlotState)>) -> Seq<u64>
    decreases s.len(),
{
    if s.len() == 0 {
        seq![]
    } else {
        waiting_tokens(s.drop_last()) + (match s.last().1 {
            SlotState::Waiting(t) => seq![t],
            SlotState::Orphaned => seq![],
        })
    }
}

/// Isolation of concurrent callers (the multiplexer law): when two
/// distinct ids wait for two callers, the responses may arrive in either
/// order and each caller receives exactly the response of its own id.
pub proof fn lemma_multiplexer_isolation(
    m: RouterModel,
    id1: int,
    id2: int,
    t1: u64,
    t2: u64,
    first_id2: bool,
)
    requires
        id1 != id2,
        0 <= id1,
        0 <= id2,
        m.slots.contains_key(id1) && m.slots[id1] == SlotState::Waiting(t1),
        m.slots.contains_key(id2) && m.slots[id2] == SlotState::Waiting(t2),
    ensures
        ({
            let (first, second) = if first_id2 {
                (id2, id1)
            } else {
                (id1, id2)
            };
            let (ft, st) = if first_id2 {
                (t2, t1)
            } else {
                (t1, t2)
            };
            let (m1, a1) = spec_route(m, first, false);
            let (m2, a2) = spec_route(m1, second, false);
            &&& a1 == RouteActionView::Deliver(ft)
            &&& a2 == RouteActionView::Deliver(st)
            &&& !m2.slots.contains_key(id1)
            &&& !m2.slots.contains_key(id2)
        }),
{
}

/// Cancellation (the orphan law): after a caller cancels, the late
/// response delivers to no one, and the id leaves the slot map, becoming
/// reusable.
pub proof fn lemma_cancellation_orphan(m: RouterModel, id: int, t: u64)
    requires
        0 <= id,
        m.slots.contains_key(id) && m.slots[id] == SlotState::Waiting(t),
    ensures
        ({
            let orphaned = RouterModel { slots: m.slots.insert(id, SlotState::Orphaned), ..m };
            let (m2, a) = spec_route(orphaned, id, false);
            &&& a == RouteActionView::DropLate
            &&& !(a matches RouteActionView::Deliver(_))
            &&& !m2.slots.contains_key(id)
        }),
{
}

/// Events (the broadcast law): a frame with a negative stream id and the
/// event opcode reaches every live subscriber; with any other opcode it
/// is a protocol error.
pub proof fn lemma_event_broadcast(m: RouterModel, stream: int, is_event: bool)
    requires
        stream < 0,
    ensures
        is_event ==> spec_route(m, stream, true).1 == RouteActionView::Publish(m.subscribers),
        !is_event ==> spec_route(m, stream, false).1 == RouteActionView::ProtocolError,
{
}

} // verus!
