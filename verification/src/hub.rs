//! Broadcast hub: the registry of live subscriber connections and the
//! fan-out of serialized frames to them.
//!
//! The hub owns the id generator. Ids are unique among simultaneously-live
//! connections, assigned in strictly increasing order, and never reused.
//! Delivery is bounded-lag: a subscriber whose pending queue is already at
//! the lag bound receives a lag signal (`lagged`) instead of the frame and
//! must treat it as session-ending. A slow subscriber never delays delivery
//! to the others: `publish` changes each connection independently.

use vstd::prelude::*;

verus! {

/// One live subscriber connection: its unique id, the frames delivered to it
/// and not yet drained by its outbound writer, and whether it has fallen
/// past the lag bound.
pub struct WsConnection {
    pub id: usize,
    pub pending: Vec<String>,
    pub lagged: bool,
}

/// How one `publish(frame)` changes one connection: a connection below the
/// lag bound receives exactly one copy of the frame, appended in publish
/// order; one at the bound receives the lag signal instead. Either way the
/// id is kept and nothing else changes.
pub open spec fn delivered_to(
    pre: WsConnection,
    post: WsConnection,
    frame: Seq<char>,
    bound: nat,
) -> bool {
    &&& post.id == pre.id
    &&& (pre.pending@.len() < bound ==> post.pending.deep_view() == pre.pending.deep_view().push(
        frame,
    ) && post.lagged == pre.lagged)
    &&& (pre.pending@.len() >= bound ==> post.pending.deep_view() == pre.pending.deep_view()
        && post.lagged)
}

/// Registry of live subscriber connections plus the id generator.
pub struct BroadcastHub {
    pub next_id: usize,
    pub lag_bound: usize,
    pub conns: Vec<WsConnection>,
}

impl BroadcastHub {
    /// Registry invariant: ids strictly increase along the registry (so they
    /// are unique and never reused), every id is below the generator's next
    /// value, and no pending queue exceeds the lag bound.
    pub open spec fn wf(self) -> bool {
        &&& self.lag_bound >= 1
        &&& forall|i: int, j: int|
            0 <= i < j < self.conns@.len() ==> (#[trigger] self.conns@[i]).id < (
            #[trigger] self.conns@[j]).id
        &&& forall|i: int|
            0 <= i < self.conns@.len() ==> (#[trigger] self.conns@[i]).id < self.next_id
        &&& forall|i: int|
            0 <= i < self.conns@.len() ==> (#[trigger] self.conns@[i]).pending@.len()
                <= self.lag_bound
    }

    /// Whether a connection with this id is currently registered.
    pub open spec fn live(self, id: usize) -> bool {
        exists|i: int| 0 <= i < self.conns@.len() && (#[trigger] self.conns@[i]).id == id
    }

    pub fn new(lag_bound: usize) -> (h: BroadcastHub)
        requires
            lag_bound >= 1,
        ensures
            h.wf(),
            h.next_id == 1,
            h.lag_bound == lag_bound,
            h.conns@.len() == 0,
    {
        BroadcastHub { next_id: 1, lag_bound, conns: Vec::new() }
    }

    /// Allocate the next strictly increasing id and insert a fresh
    /// connection for it.
    pub fn register(&mut self) -> (id: usize)
        requires
            old(self).wf(),
            old(self).next_id < usize::MAX,
        ensures
            final(self).wf(),
            id == old(self).next_id,
            final(self).next_id == old(self).next_id + 1,
            final(self).lag_bound == old(self).lag_bound,
            final(self).conns@.len() == old(self).conns@.len() + 1,
            forall|i: int|
                0 <= i < old(self).conns@.len() ==> final(self).conns@[i] == old(self).conns@[i],
            final(self).conns@.last().id == id,
            final(self).conns@.last().pending@.len() == 0,
            !final(self).conns@.last().lagged,
            final(self).live(id),
            forall|i: int|
                0 <= i < old(self).conns@.len() ==> (#[trigger] old(self).conns@[i]).id < id,
    {
        let id = self.next_id;
        self.next_id = self.next_id + 1;
        self.conns.push(WsConnection { id, pending: Vec::new(), lagged: false });
        proof {
            let n = self.conns@.len() - 1;
            assert(self.conns@[n].id == id);
        }
        id
    }

    /// Remove the connection with this id from the registry; idempotent if
    /// it was already removed. The other connections keep their state and
    /// their order.
    pub fn deregister(&mut self, id: usize)
        requires
            old(self).wf(),
        ensures
            final(self).wf(),
            final(self).next_id == old(self).next_id,
            final(self).lag_bound == old(self).lag_bound,
            !final(self).live(id),
            (old(self).live(id) ==> exists|i: int|
                {
                    &&& 0 <= i < old(self).conns@.len()
                    &&& (#[trigger] old(self).conns@[i]).id == id
                    &&& final(self).conns@ == old(self).conns@.remove(i)
                }),
            (!old(self).live(id) ==> final(self).conns@ == old(self).conns@),
    {
        let n = self.conns.len();
        let mut i: usize = 0;
        while i < n
            invariant
                n == self.conns@.len(),
                i <= n,
                self.next_id == old(self).next_id,
                self.lag_bound == old(self).lag_bound,
                self.conns@ == old(self).conns@,
                old(self).wf(),
                forall|j: int| 0 <= j < i ==> (#[trigger] self.conns@[j]).id != id,
            decreases n - i,
        {
            if self.conns[i].id == id {
                let ghost pre = self.conns@;
                self.conns.remove(i);
                proof {
                    assert(self.conns@ =~= pre.subrange(0, i as int) + pre.subrange(
                        i + 1,
                        pre.len() as int,
                    ));
                    assert forall|j: int|
                        0 <= j < self.conns@.len() implies (#[trigger] self.conns@[j]).id
                        != id by {
                        if j < i {
                            assert(self.conns@[j] == pre[j]);
                        } else {
                            assert(self.conns@[j] == pre[j + 1]);
                            assert(pre[i as int].id < pre[j + 1].id);
                        }
                    }
                    assert forall|a: int, b: int|
                        0 <= a < b < self.conns@.len() implies (#[trigger] self.conns@[a]).id < (
                    #[trigger] self.conns@[b]).id by {
                        let a0: int = if a < i { a } else { a + 1 };
                        let b0: int = if b < i { b } else { b + 1 };
                        assert(self.conns@[a] == pre[a0]);
                        assert(self.conns@[b] == pre[b0]);
                        assert(pre[a0].id < pre[b0].id);
                    }
                }
                return ;
            }
            i = i + 1;
        }
    }

    /// Fan one serialized frame out to every registered connection, each
    /// independently of the others.
    pub fn publish(&mut self, frame: &String)
        requires
            old(self).wf(),
        ensures
            final(self).wf(),
            final(self).next_id == old(self).next_id,
            final(self).lag_bound == old(self).lag_bound,
            final(self).conns@.len() == old(self).conns@.len(),
            forall|i: int|
                0 <= i < old(self).conns@.len() ==> delivered_to(
                    old(self).conns@[i],
                    #[trigger] final(self).conns@[i],
                    frame@,
                    old(self).lag_bound as nat,
                ),
    {
        let n = self.conns.len();
        let mut i: usize = 0;
        while i < n
            invariant
                n == self.conns@.len(),
                i <= n,
                self.next_id == old(self).next_id,
                self.lag_bound == old(self).lag_bound,
                self.conns@.len() == old(self).conns@.len(),
                forall|j: int|
                    i <= j < n ==> #[trigger] self.conns@[j] == old(self).conns@[j],
                forall|j: int|
                    0 <= j < i ==> delivered_to(
                        old(self).conns@[j],
                        #[trigger] self.conns@[j],
                        frame@,
                        old(self).lag_bound as nat,
                    ),
            decreases n - i,
        {
            let ghost pre_conns = self.conns@;
            let ghost pre = self.conns@[i as int];
            let mut c = self.conns.remove(i);
            if c.pending.len() < self.lag_bound {
                c.pending.push(frame.clone());
                proof {
                    assert(c.pending.deep_view() =~= pre.pending.deep_view().push(frame@));
                }
            } else {
                c.lagged = true;
            }
            self.conns.insert(i, c);
            proof {
                assert(self.conns@ =~= pre_conns.update(i as int, c));
                assert(delivered_to(pre, self.conns@[i as int], frame@, self.lag_bound as nat));
            }
            i = i + 1;
        }
        proof {
            let bound = old(self).lag_bound as nat;
            assert forall|a: int, b: int|
                0 <= a < b < self.conns@.len() implies (#[trigger] self.conns@[a]).id < (
            #[trigger] self.conns@[b]).id by {
                assert(delivered_to(old(self).conns@[a], self.conns@[a], frame@, bound));
                assert(delivered_to(old(self).conns@[b], self.conns@[b], frame@, bound));
                assert(old(self).conns@[a].id < old(self).conns@[b].id);
            }
            assert forall|a: int|
                0 <= a < self.conns@.len() implies (#[trigger] self.conns@[a]).id
                < self.next_id by {
                assert(delivered_to(old(self).conns@[a], self.conns@[a], frame@, bound));
            }
            assert forall|a: int|
                0 <= a < self.conns@.len() implies (#[trigger] self.conns@[a]).pending@.len()
                <= self.lag_bound by {
                assert(delivered_to(old(self).conns@[a], self.conns@[a], frame@, bound));
                assert(self.conns@[a].pending.deep_view().len() == self.conns@[a].pending@.len());
                assert(old(self).conns@[a].pending.deep_view().len() == old(
                    self,
                ).conns@[a].pending@.len());
            }
        }
    }

    /// Hand the frames pending for one connection to its outbound writer,
    /// leaving its queue empty. Returns `None` when the id is not live.
    pub fn drain(&mut self, id: usize) -> (r: Option<Vec<String>>)
        requires
            old(self).wf(),
        ensures
            final(self).wf(),
            final(self).next_id == old(self).next_id,
            final(self).lag_bound == old(self).lag_bound,
            final(self).conns@.len() == old(self).conns@.len(),
            r is Some <==> old(self).live(id),
            (r matches Some(frames) ==> exists|i: int|
                {
                    &&& 0 <= i < old(self).conns@.len()
                    &&& (#[trigger] old(self).conns@[i]).id == id
                    &&& frames.deep_view() == old(self).conns@[i].pending.deep_view()
                    &&& final(self).conns@[i].id == id
                    &&& final(self).conns@[i].pending@.len() == 0
                    &&& final(self).conns@[i].lagged == old(self).conns@[i].lagged
                    &&& forall|j: int|
                        0 <= j < old(self).conns@.len() && j != i ==> final(self).conns@[j] == old(
                            self,
                        ).conns@[j]
                }),
            (r is None ==> final(self).conns@ == old(self).conns@),
    {
        let n = self.conns.len();
        let mut i: usize = 0;
        while i < n
            invariant
                n == self.conns@.len(),
                i <= n,
                self.next_id == old(self).next_id,
                self.lag_bound == old(self).lag_bound,
                self.conns@ == old(self).conns@,
                old(self).wf(),
                forall|j: int| 0 <= j < i ==> (#[trigger] self.conns@[j]).id != id,
            decreases n - i,
        {
            if self.conns[i].id == id {
                let ghost pre_conns = self.conns@;
                let c = self.conns.remove(i);
                let WsConnection { id: cid, pending: taken, lagged } = c;
                self.conns.insert(i, WsConnection { id: cid, pending: Vec::new(), lagged });
                proof {
                    assert(self.conns@ =~= pre_conns.update(
                        i as int,
                        self.conns@[i as int],
                    ));
                    assert(taken.deep_view() =~= old(self).conns@[i as int].pending.deep_view());
                }
                return Some(taken);
            }
            i = i + 1;
        }
        None
    }
}

/// One frame read from a subscriber's inbound half.
pub enum InboundFrame {
    /// Arbitrary text, to be relayed verbatim.
    Text(String),
    /// A non-text frame; the relay ignores it.
    Binary(Vec<u8>),
    /// The subscriber closed its side.
    Close,
}

/// What became of one inbound frame.
#[derive(Clone, Copy, Debug, PartialEq, Eq, Structural)]
pub enum InboundDisposition {
    /// The text was re-broadcast to every subscriber, the sender included.
    Relayed,
    /// A non-text frame: nothing happened.
    Ignored,
    /// A close frame: the sender's connection left the registry and both of
    /// its halves must end.
    ConnectionClosed,
}

/// Apply one inbound frame from the subscriber with id `sender_id`: text is
/// relayed verbatim to all subscribers including the sender, a close frame
/// deregisters the sender, and any other frame is ignored.
pub fn handle_inbound(hub: &mut BroadcastHub, sender_id: usize, frame: &InboundFrame) -> (r:
    InboundDisposition)
    requires
        old(hub).wf(),
    ensures
        final(hub).wf(),
        final(hub).next_id == old(hub).next_id,
        final(hub).lag_bound == old(hub).lag_bound,
        (frame matches InboundFrame::Text(t) ==> {
            &&& r == InboundDisposition::Relayed
            &&& final(hub).conns@.len() == old(hub).conns@.len()
            &&& forall|i: int|
                0 <= i < old(hub).conns@.len() ==> delivered_to(
                    old(hub).conns@[i],
                    #[trigger] final(hub).conns@[i],
                    t@,
                    old(hub).lag_bound as nat,
                )
        }),
        (frame matches InboundFrame::Binary(_) ==> r == InboundDisposition::Ignored
            && final(hub).conns@ == old(hub).conns@),
        (frame matches InboundFrame::Close ==> r == InboundDisposition::ConnectionClosed
            && !final(hub).live(sender_id)),
{
    match frame {
        InboundFrame::Text(t) => {
            hub.publish(t);
            InboundDisposition::Relayed
        },
        InboundFrame::Binary(_) => InboundDisposition::Ignored,
        InboundFrame::Close => {
            hub.deregister(sender_id);
            InboundDisposition::ConnectionClosed
        },
    }
}

/// Fan-out correctness: one publish hands every subscriber below the lag
/// bound exactly one copy of the frame, appended after everything delivered
/// to it before, so each subscriber sees frames in publish order.
pub proof fn lemma_fanout_exact(
    pre: Seq<WsConnection>,
    post: Seq<WsConnection>,
    frame: Seq<char>,
    bound: nat,
    i: int,
)
    requires
        post.len() == pre.len(),
        forall|j: int|
            0 <= j < pre.len() ==> delivered_to(pre[j], #[trigger] post[j], frame, bound),
        0 <= i < pre.len(),
        pre[i].pending@.len() < bound,
    ensures
        post[i].pending.deep_view().len() == pre[i].pending.deep_view().len() + 1,
        post[i].pending.deep_view().last() == frame,
        forall|m: int|
            0 <= m < pre[i].pending.deep_view().len() ==> post[i].pending.deep_view()[m]
                == pre[i].pending.deep_view()[m],
{
    assert(delivered_to(pre[i], post[i], frame, bound));
}

/// Fan-out order over any publish sequence: a subscriber that stays within
/// the lag bound for a whole run of publishes observes exactly those frames,
/// appended in publish order after everything delivered before. `states`
/// are one subscriber's connection states around each publish; each step is
/// the change `publish`'s contract states.
pub proof fn lemma_publish_sequence_order(
    states: Seq<WsConnection>,
    frames: Seq<Seq<char>>,
    bound: nat,
)
    requires
        states.len() == frames.len() + 1,
        forall|k: int|
            #![trigger states[k], frames[k]]
            0 <= k < frames.len() ==> delivered_to(states[k], states[k + 1], frames[k], bound),
        states[0].pending@.len() + frames.len() <= bound,
    ensures
        states.last().pending.deep_view() == states[0].pending.deep_view() + frames,
        states.last().lagged == states[0].lagged,
        states.last().id == states[0].id,
    decreases frames.len(),
{
    if frames.len() == 0 {
        assert(states.last() == states[0]);
        assert(states[0].pending.deep_view() + frames =~= states[0].pending.deep_view());
    } else {
        assert(delivered_to(states[0], states[1], frames[0], bound));
        assert(states[1].pending.deep_view() == states[0].pending.deep_view().push(frames[0]));
        let rest_states = states.drop_first();
        let rest_frames = frames.drop_first();
        assert forall|k: int|
            #![trigger rest_states[k], rest_frames[k]]
            0 <= k < rest_frames.len() implies delivered_to(
            rest_states[k],
            rest_states[k + 1],
            rest_frames[k],
            bound,
        ) by {
            assert(rest_states[k] == states[k + 1]);
            assert(rest_states[k + 1] == states[k + 2]);
            let k1 = k + 1;
            assert(states[k1] == states[k1]);
            assert(frames[k1] == frames[k1]);
            assert(delivered_to(states[k1], states[k1 + 1], frames[k1], bound));
        }
        assert(states[1].pending@.len() == states[1].pending.deep_view().len());
        lemma_publish_sequence_order(rest_states, rest_frames, bound);
        assert(rest_states.last() == states.last());
        assert(states[0].pending.deep_view().push(frames[0]) + rest_frames
            =~= states[0].pending.deep_view() + frames);
    }
}

/// Frames arrive in publish order: when two successive publishes both fit a
/// subscriber's queue, that queue ends with the first frame then the second,
/// with everything older before them.
pub proof fn lemma_publish_order(
    c0: WsConnection,
    c1: WsConnection,
    c2: WsConnection,
    f1: Seq<char>,
    f2: Seq<char>,
    bound: nat,
)
    requires
        delivered_to(c0, c1, f1, bound),
        delivered_to(c1, c2, f2, bound),
        c0.pending@.len() + 1 < bound,
    ensures
        c2.pending.deep_view().len() == c0.pending.deep_view().len() + 2,
        c2.pending.deep_view()[c0.pending.deep_view().len() as int] == f1,
        c2.pending.deep_view().last() == f2,
        forall|m: int|
            0 <= m < c0.pending.deep_view().len() ==> #[trigger] c2.pending.deep_view()[m]
                == c0.pending.deep_view()[m],
{
    assert(c1.pending.deep_view() == c0.pending.deep_view().push(f1));
    assert(c1.pending@.len() == c1.pending.deep_view().len());
}

/// What one public hub operation does to the id generator, exactly as the
/// operations' contracts state it: `register` returns the generator's value
/// and advances it by one; every other operation leaves it unchanged.
pub open spec fn generator_step(
    pre: BroadcastHub,
    post: BroadcastHub,
    returned: Option<usize>,
) -> bool {
    match returned {
        Some(id) => id == pre.next_id && post.next_id == pre.next_id + 1,
        None => post.next_id == pre.next_id,
    }
}

proof fn lemma_generator_monotone(
    hubs: Seq<BroadcastHub>,
    returned: Seq<Option<usize>>,
    a: int,
    b: int,
)
    requires
        hubs.len() == returned.len() + 1,
        forall|k: int|
            #![trigger returned[k]]
            0 <= k < returned.len() ==> generator_step(hubs[k], hubs[k + 1], returned[k]),
        0 <= a <= b < hubs.len(),
    ensures
        hubs[a].next_id <= hubs[b].next_id,
    decreases b - a,
{
    if a < b {
        assert(generator_step(hubs[a], hubs[a + 1], returned[a]));
        lemma_generator_monotone(hubs, returned, a + 1, b);
    }
}

/// Id monotonicity across any operation history: of two registrations in one
/// run of register, deregister, publish and drain calls, the later returns
/// the strictly larger id — so no id is returned twice for the life of the
/// registry, and an id freed by `deregister` is never reused. `hubs` are the
/// registry states around each operation and `returned[k]` is the id the
/// k-th operation returned (`None` for one that allocates none); each step
/// is what the operations' contracts state.
pub proof fn lemma_ids_monotone_across_history(
    hubs: Seq<BroadcastHub>,
    returned: Seq<Option<usize>>,
    a: int,
    b: int,
)
    requires
        hubs.len() == returned.len() + 1,
        forall|k: int|
            #![trigger returned[k]]
            0 <= k < returned.len() ==> generator_step(hubs[k], hubs[k + 1], returned[k]),
        0 <= a < b < returned.len(),
        returned[a] is Some,
        returned[b] is Some,
    ensures
        returned[a]->Some_0 < returned[b]->Some_0,
{
    assert(generator_step(hubs[a], hubs[a + 1], returned[a]));
    assert(generator_step(hubs[b], hubs[b + 1], returned[b]));
    lemma_generator_monotone(hubs, returned, a + 1, b);
}

/// Id uniqueness: no two simultaneously-live connections share an id, and
/// every live id is below the id the generator will assign next — so a
/// freshly registered connection never reuses a live id.
pub proof fn lemma_live_ids_unique(h: BroadcastHub, i: int, j: int)
    requires
        h.wf(),
        0 <= i < h.conns@.len(),
        0 <= j < h.conns@.len(),
        i != j,
    ensures
        h.conns@[i].id != h.conns@[j].id,
        h.conns@[i].id < h.next_id,
{
    if i < j {
        assert(h.conns@[i].id < h.conns@[j].id);
    } else {
        assert(h.conns@[j].id < h.conns@[i].id);
    }
}

/// Slow-subscriber isolation: a subscriber that never reads (its queue
/// stands at the lag bound) only receives the lag signal, while the same
/// publish still delivers the frame to every other subscriber below the
/// bound — and `publish` itself is total, so the slow subscriber can never
/// delay its return.
pub proof fn lemma_slow_subscriber_isolated(
    pre: Seq<WsConnection>,
    post: Seq<WsConnection>,
    frame: Seq<char>,
    bound: nat,
    slow: int,
    other: int,
)
    requires
        post.len() == pre.len(),
        forall|j: int|
            0 <= j < pre.len() ==> delivered_to(pre[j], #[trigger] post[j], frame, bound),
        0 <= slow < pre.len(),
        0 <= other < pre.len(),
        other != slow,
        pre[slow].pending@.len() >= bound,
        pre[other].pending@.len() < bound,
    ensures
        post[slow].lagged,
        post[slow].pending.deep_view() == pre[slow].pending.deep_view(),
        post[other].pending.deep_view() == pre[other].pending.deep_view().push(frame),
{
    assert(delivered_to(pre[slow], post[slow], frame, bound));
    assert(delivered_to(pre[other], post[other], frame, bound));
}

} // verus!
