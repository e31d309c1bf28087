//! Peer session bookkeeping: which peers are connected, the FIFO queue of
//! pending actions (dial, send, deliver) drained by the driver, and duplicate
//! suppression of inbound vote requests.
use vstd::prelude::*;
use crate::codec::RequestVote;
use crate::dedup::{dedup_key, AddOutcome, DedupFilter, DedupKey};

verus! {

/// A peer's identity: the bytes of its public-key-derived identifier.
#[derive(Debug)]
pub struct PeerIdentity {
    pub bytes: Vec<u8>,
}

impl View for PeerIdentity {
    type V = Seq<u8>;

    open spec fn view(&self) -> Seq<u8> {
        self.bytes@
    }
}

impl PeerIdentity {
    pub fn new(bytes: Vec<u8>) -> (r: PeerIdentity)
        ensures
            r@ == bytes@,
    {
        PeerIdentity { bytes }
    }

    /// Another identity with the same bytes.
    pub fn copy(&self) -> (r: PeerIdentity)
        ensures
            r@ == self@,
    {
        PeerIdentity { bytes: self.bytes.clone() }
    }

    /// Whether the two identities are the same bytes.
    pub fn same(&self, other: &PeerIdentity) -> (r: bool)
        ensures
            r == (self@ == other@),
    {
        if self.bytes.len() != other.bytes.len() {
            return false;
        }
        let mut i: usize = 0;
        while i < self.bytes.len()
            invariant
                i <= self.bytes@.len() == other.bytes@.len(),
                forall|j: int| 0 <= j < i ==> self.bytes@[j] == other.bytes@[j],
            decreases self.bytes.len() - i,
        {
            if self.bytes[i] != other.bytes[i] {
                return false;
            }
            i = i + 1;
        }
        assert(self.bytes@ =~= other.bytes@);
        true
    }
}

/// Events that the session layer surfaces to the consensus engine.
#[derive(Debug, Clone, Copy, PartialEq, Eq, Structural)]
pub enum HiveEvent {
    RequestVote(RequestVote),
}

/// What a stream handler reports: a request received, or a request sent.
#[derive(Debug, Clone, Copy, PartialEq, Eq, Structural)]
pub enum InnerMessage {
    Rx(RequestVote),
    Sent,
}

impl InnerMessage {
    pub fn from_request(value: RequestVote) -> (r: InnerMessage)
        ensures
            r == InnerMessage::Rx(value),
    {
        InnerMessage::Rx(value)
    }
}

/// A pending action, drained in FIFO order by [`HiveBehavior::poll`].
#[derive(Debug)]
pub enum SessionAction {
    /// Open a connection to this peer.
    Dial(PeerIdentity),
    /// Send the vote request to this peer.
    Notify { peer: PeerIdentity, vote: RequestVote },
    /// Hand the event to the consensus engine.
    Deliver(HiveEvent),
}

/// Mathematical value of a [`SessionAction`].
pub enum ActionView {
    Dial(Seq<u8>),
    Notify(Seq<u8>, RequestVote),
    Deliver(HiveEvent),
}

impl View for SessionAction {
    type V = ActionView;

    open spec fn view(&self) -> ActionView {
        match self {
            SessionAction::Dial(p) => ActionView::Dial(p@),
            SessionAction::Notify { peer, vote } => ActionView::Notify(peer@, *vote),
            SessionAction::Deliver(e) => ActionView::Deliver(*e),
        }
    }
}

pub open spec fn peer_ids(v: Seq<PeerIdentity>) -> Seq<Seq<u8>> {
    v.map_values(|p: PeerIdentity| p@)
}

pub open spec fn action_views(v: Seq<SessionAction>) -> Seq<ActionView> {
    v.map_values(|a: SessionAction| a@)
}

/// The sends that a publication of `vote` queues, one per connected peer.
pub open spec fn notifications(peers: Seq<Seq<u8>>, vote: RequestVote) -> Seq<ActionView> {
    peers.map_values(|p: Seq<u8>| ActionView::Notify(p, vote))
}

/// Mathematical value of a [`HiveBehavior`].
pub struct HiveView {
    pub local: Seq<u8>,
    pub connected: Seq<Seq<u8>>,
    pub events: Seq<ActionView>,
    pub seen: Set<DedupKey>,
}

pub struct HiveBehavior {
    events: Vec<SessionAction>,
    local_peer_id: PeerIdentity,
    connected_peers: Vec<PeerIdentity>,
    received_messages: DedupFilter,
}

fn position(v: &Vec<PeerIdentity>, p: &PeerIdentity) -> (r: Option<usize>)
    ensures
        r is None <==> !peer_ids(v@).contains(p@),
        r is Some ==> r->Some_0 < v@.len() && v@[r->Some_0 as int]@ == p@,
{
    let mut i: usize = 0;
    while i < v.len()
        invariant
            i <= v@.len(),
            forall|j: int| 0 <= j < i ==> v@[j]@ != p@,
        decreases v.len() - i,
    {
        if v[i].same(p) {
            assert(peer_ids(v@)[i as int] == p@);
            return Some(i);
        }
        i = i + 1;
    }
    assert forall|j: int| 0 <= j < peer_ids(v@).len() implies peer_ids(v@)[j] != p@ by {
        assert(peer_ids(v@)[j] == v@[j]@);
    }
    None
}

impl HiveBehavior {
    pub closed spec fn view(&self) -> HiveView {
        HiveView {
            local: self.local_peer_id@,
            connected: peer_ids(self.connected_peers@),
            events: action_views(self.events@),
            seen: self.received_messages.residents(),
        }
    }

    /// Each connected peer is tracked once.
    pub closed spec fn well_formed(&self) -> bool {
        peer_ids(self.connected_peers@).no_duplicates()
    }

    /// No peer tracked, nothing queued, nothing seen.
    pub fn new(local_peer_id: PeerIdentity) -> (r: HiveBehavior)
        ensures
            r.well_formed(),
            r.view().local == local_peer_id@,
            r.view().connected == Seq::<Seq<u8>>::empty(),
            r.view().events == Seq::<ActionView>::empty(),
            r.view().seen == Set::<DedupKey>::empty(),
    {
        let r = HiveBehavior {
            events: Vec::new(),
            local_peer_id,
            connected_peers: Vec::new(),
            received_messages: DedupFilter::new(),
        };
        assert(r.view().connected =~= Seq::<Seq<u8>>::empty());
        assert(r.view().events =~= Seq::<ActionView>::empty());
        r
    }

    fn push_event(&mut self, a: SessionAction)
        ensures
            final(self).view() == (HiveView {
                events: old(self).view().events.push(a@),
                ..old(self).view()
            }),
            final(self).well_formed() == old(self).well_formed(),
    {
        self.events.push(a);
        assert(action_views(self.events@) =~= action_views(old(self).events@).push(a@));
    }

    fn track(&mut self, peer: &PeerIdentity)
        requires
            old(self).well_formed(),
            !old(self).view().connected.contains(peer@),
        ensures
            final(self).well_formed(),
            final(self).view() == (HiveView {
                connected: old(self).view().connected.push(peer@),
                ..old(self).view()
            }),
    {
        let ghost before = peer_ids(self.connected_peers@);
        self.connected_peers.push(peer.copy());
        let ghost after = peer_ids(self.connected_peers@);
        assert(after =~= before.push(peer@));
        assert forall|i: int, j: int|
            0 <= i < after.len() && 0 <= j < after.len() && i != j implies after[i]
            != after[j] by {
            if i == before.len() {
                assert(before.contains(after[j]));
            } else if j == before.len() {
                assert(before.contains(after[i]));
            }
        }
    }

    /// Begins tracking `peer`; if it was not tracked yet, queues a dial to it.
    pub fn add_node_to_partial_view(&mut self, peer_id: PeerIdentity)
        requires
            old(self).well_formed(),
        ensures
            final(self).well_formed(),
            final(self).view() == (if old(self).view().connected.contains(peer_id@) {
                old(self).view()
            } else {
                HiveView {
                    connected: old(self).view().connected.push(peer_id@),
                    events: old(self).view().events.push(ActionView::Dial(peer_id@)),
                    ..old(self).view()
                }
            }),
    {
        match position(&self.connected_peers, &peer_id) {
            Some(_) => {},
            None => {
                self.track(&peer_id);
                self.push_event(SessionAction::Dial(peer_id));
            },
        }
    }

    /// A connection to `peer_id` is up while `other_established` others to it
    /// already were: only the first one marks the peer connected.
    pub fn on_connection_established(&mut self, peer_id: &PeerIdentity, other_established: u32)
        requires
            old(self).well_formed(),
        ensures
            final(self).well_formed(),
            final(self).view() == (if other_established > 0 || old(self).view().connected.contains(
                peer_id@,
            ) {
                old(self).view()
            } else {
                HiveView { connected: old(self).view().connected.push(peer_id@), ..old(self).view() }
            }),
    {
        if other_established > 0 {
            return;
        }
        if position(&self.connected_peers, peer_id).is_none() {
            self.track(peer_id);
        }
    }

    /// A connection to `peer_id` closed, leaving `remaining_established`
    /// others. When none remain the peer is no longer connected and a new
    /// dial to it is queued.
    pub fn on_connection_closed(&mut self, peer_id: PeerIdentity, remaining_established: u32)
        requires
            old(self).well_formed(),
        ensures
            final(self).well_formed(),
            remaining_established > 0 ==> final(self).view() == old(self).view(),
            remaining_established == 0 ==> {
                &&& final(self).view().connected.to_set() == old(self).view().connected.to_set().remove(
                    peer_id@,
                )
                &&& final(self).view().events == old(self).view().events.push(
                    ActionView::Dial(peer_id@),
                )
                &&& final(self).view().local == old(self).view().local
                &&& final(self).view().seen == old(self).view().seen
            },
    {
        if remaining_established > 0 {
            return;
        }
        let ghost before = peer_ids(self.connected_peers@);
        match position(&self.connected_peers, &peer_id) {
            Some(i) => {
                self.connected_peers.remove(i);
                let ghost after = peer_ids(self.connected_peers@);
                assert(after =~= before.remove(i as int));
                assert(before[i as int] == peer_id@);
                assert forall|x: Seq<u8>|
                    #[trigger] after.contains(x) <==> (before.contains(x) && x != peer_id@) by {
                    if after.contains(x) {
                        let k = choose|k: int| 0 <= k < after.len() && after[k] == x;
                        if k < i {
                            assert(before[k] == x);
                        } else {
                            assert(before[k + 1] == x);
                        }
                        assert(x != peer_id@);
                    }
                    if before.contains(x) && x != peer_id@ {
                        let k = choose|k: int| 0 <= k < before.len() && before[k] == x;
                        if k < i {
                            assert(after[k] == x);
                        } else {
                            assert(k != i);
                            assert(after[k - 1] == x);
                        }
                    }
                }
                assert(after.to_set() =~= before.to_set().remove(peer_id@));
                assert(after.no_duplicates());
            },
            None => {
                assert(before.to_set() =~= before.to_set().remove(peer_id@));
            },
        }
        self.push_event(SessionAction::Dial(peer_id));
    }

    /// Queues a send of `request_vote` to every connected peer.
    pub fn publish(&mut self, request_vote: RequestVote)
        requires
            old(self).well_formed(),
        ensures
            final(self).well_formed(),
            final(self).view() == (HiveView {
                events: old(self).view().events + notifications(
                    old(self).view().connected,
                    request_vote,
                ),
                ..old(self).view()
            }),
    {
        let ghost start = self.view();
        let mut i: usize = 0;
        while i < self.connected_peers.len()
            invariant
                0 <= i <= self.connected_peers@.len(),
                self.well_formed(),
                self.view() == (HiveView {
                    events: start.events + notifications(start.connected, request_vote).take(
                        i as int,
                    ),
                    ..start
                }),
                start.connected.len() == self.connected_peers@.len(),
            decreases self.connected_peers.len() - i,
        {
            let peer = self.connected_peers[i].copy();
            self.push_event(SessionAction::Notify { peer, vote: request_vote });
            i = i + 1;
            assert(notifications(start.connected, request_vote).take(i as int) =~= notifications(
                start.connected,
                request_vote,
            ).take(i - 1).push(ActionView::Notify(start.connected[i - 1], request_vote)));
        }
        assert(notifications(start.connected, request_vote).take(i as int) =~= notifications(
            start.connected,
            request_vote,
        ));
    }

    /// Takes the oldest pending action, if any.
    pub fn poll(&mut self) -> (r: Option<SessionAction>)
        requires
            old(self).well_formed(),
        ensures
            final(self).well_formed(),
            old(self).view().events.len() == 0 ==> r is None && final(self).view() == old(
                self,
            ).view(),
            old(self).view().events.len() > 0 ==> {
                &&& r is Some
                &&& r->Some_0@ == old(self).view().events[0]
                &&& final(self).view() == (HiveView {
                    events: old(self).view().events.drop_first(),
                    ..old(self).view()
                })
            },
    {
        if self.events.len() == 0 {
            return None;
        }
        let a = self.events.remove(0);
        assert(action_views(self.events@) =~= action_views(old(self).events@).drop_first());
        Some(a)
    }

    /// A stream handler's report. A received request that the filter has not
    /// seen is recorded and queued for delivery, and the result says how the
    /// recording went (a full filter drops some other fingerprint); a seen one
    /// is dropped and the result is `None`.
    pub fn on_connection_handler_event(
        &mut self,
        propagation_source: &PeerIdentity,
        event: InnerMessage,
    ) -> (r: Option<AddOutcome>)
        requires
            old(self).well_formed(),
        ensures
            final(self).well_formed(),
            match event {
                InnerMessage::Sent => r is None && final(self).view() == old(self).view(),
                InnerMessage::Rx(v) => if old(self).view().seen.contains(dedup_key(v)) {
                    r is None && final(self).view() == old(self).view()
                } else {
                    &&& r is Some
                    &&& final(self).view().events == old(self).view().events.push(
                        ActionView::Deliver(HiveEvent::RequestVote(v)),
                    )
                    &&& crate::dedup::add_effect(
                        old(self).view().seen,
                        dedup_key(v),
                        r->Some_0,
                        final(self).view().seen,
                    )
                    &&& final(self).view().local == old(self).view().local
                    &&& final(self).view().connected == old(self).view().connected
                },
            },
    {
        let v = match event {
            InnerMessage::Rx(v) => v,
            InnerMessage::Sent => return None,
        };
        if self.received_messages.contains(&v) {
            return None;
        }
        let o = self.received_messages.add(&v);
        self.push_event(SessionAction::Deliver(HiveEvent::RequestVote(v)));
        Some(o)
    }

    /// The peers currently counted as connected.
    pub fn connected_peers(&self) -> (r: Vec<PeerIdentity>)
        ensures
            peer_ids(r@) == self.view().connected,
    {
        let mut out: Vec<PeerIdentity> = Vec::new();
        let mut i: usize = 0;
        while i < self.connected_peers.len()
            invariant
                i <= self.connected_peers@.len(),
                out@.len() == i,
                forall|j: int| 0 <= j < i ==> out@[j]@ == self.connected_peers@[j]@,
            decreases self.connected_peers.len() - i,
        {
            out.push(self.connected_peers[i].copy());
            i = i + 1;
        }
        assert(peer_ids(out@) =~= peer_ids(self.connected_peers@));
        out
    }
}

} // verus!
