//! The library's side of gossip broadcast: which peers discovery has admitted
//! as recipients, the commands that keep the overlay's explicit-peer list in
//! step with discovery, and the content-derived identifier under which the
//! overlay suppresses duplicate messages.
use vstd::prelude::*;
use std::collections::hash_map::DefaultHasher;
use std::hash::Hasher;
use vstd::std_specs::hash::DefaultHasherAdditionalSpecFns;
use crate::behaviour::{peer_ids, PeerIdentity};

verus! {

/// The topic on which vote requests are disseminated.
pub const REQUEST_VOTE_TOPIC: &'static str = "request_vote";

/// What the discovery collaborator reports.
#[derive(Debug)]
pub enum DiscoveryEvent {
    /// These peers were found on the local network.
    Discovered(Vec<PeerIdentity>),
    /// These peers have not been seen for too long.
    Expired(Vec<PeerIdentity>),
}

/// A change to hand to the overlay.
#[derive(Debug)]
pub enum GossipCommand {
    AddExplicitPeer(PeerIdentity),
    RemoveExplicitPeer(PeerIdentity),
}

pub enum CommandView {
    Add(Seq<u8>),
    Remove(Seq<u8>),
}

impl View for GossipCommand {
    type V = CommandView;

    open spec fn view(&self) -> CommandView {
        match self {
            GossipCommand::AddExplicitPeer(p) => CommandView::Add(p@),
            GossipCommand::RemoveExplicitPeer(p) => CommandView::Remove(p@),
        }
    }
}

pub open spec fn command_views(v: Seq<GossipCommand>) -> Seq<CommandView> {
    v.map_values(|c: GossipCommand| c@)
}

/// The identifier of a message whose payload is `data`: a hash of the bytes
/// alone, so identical payloads are one logical message whoever sends them.
pub open spec fn spec_message_id(data: Seq<u8>) -> u64 {
    DefaultHasher::spec_finish(seq![data])
}

pub fn message_id(data: &[u8]) -> (r: u64)
    ensures
        r == spec_message_id(data@),
{
    let mut hasher = DefaultHasher::new();
    hasher.write(data);
    proof {
        assert(hasher@ =~= seq![data@]);
    }
    hasher.finish()
}

/// The peers admitted to receive broadcast traffic.
pub struct Overlay {
    admitted: Vec<PeerIdentity>,
}

fn index_of(v: &Vec<PeerIdentity>, p: &PeerIdentity) -> (r: Option<usize>)
    ensures
        r is None <==> !peer_ids(v@).contains(p@),
        r is Some ==> r->Some_0 < v@.len() && v@[r->Some_0 as int]@ == p@,
{
    let mut i: usize = 0;
    while i < v.len()
        invariant
            i <= v@.len(),
            forall|j: int| 0 <= j < i ==> v@[j]@ != p@,
        decreases v.len() - i,
    {
        if v[i].same(p) {
            assert(peer_ids(v@)[i as int] == p@);
            return Some(i);
        }
        i = i + 1;
    }
    assert forall|j: int| 0 <= j < peer_ids(v@).len() implies peer_ids(v@)[j] != p@ by {
        assert(peer_ids(v@)[j] == v@[j]@);
    }
    None
}

proof fn lemma_push_to_set(s: Seq<Seq<u8>>, x: Seq<u8>)
    ensures
        s.push(x).to_set() == s.to_set().insert(x),
{
    let t = s.push(x);
    assert forall|y: Seq<u8>| #[trigger] t.contains(y) <==> (s.contains(y) || y == x) by {
        if t.contains(y) {
            let k = choose|k: int| 0 <= k < t.len() && t[k] == y;
            if k < s.len() {
                assert(s[k] == y);
            }
        }
        if s.contains(y) {
            let k = choose|k: int| 0 <= k < s.len() && s[k] == y;
            assert(t[k] == y);
        }
        if y == x {
            assert(t[s.len() as int] == x);
        }
    }
    assert(t.to_set() =~= s.to_set().insert(x));
}

impl Overlay {
    /// The admitted peers, as a set of identities.
    pub closed spec fn admitted(&self) -> Set<Seq<u8>> {
        peer_ids(self.admitted@).to_set()
    }

    pub fn new() -> (r: Overlay)
        ensures
            r.admitted() == Set::<Seq<u8>>::empty(),
    {
        let r = Overlay { admitted: Vec::new() };
        assert(r.admitted() =~= Set::<Seq<u8>>::empty());
        r
    }

    pub fn is_admitted(&self, p: &PeerIdentity) -> (r: bool)
        ensures
            r == self.admitted().contains(p@),
    {
        index_of(&self.admitted, p).is_some()
    }

    fn accept_peer(&mut self, p: &PeerIdentity)
        ensures
            final(self).admitted() == old(self).admitted().insert(p@),
    {
        if index_of(&self.admitted, p).is_none() {
            let ghost before = peer_ids(self.admitted@);
            self.admitted.push(p.copy());
            assert(peer_ids(self.admitted@) =~= before.push(p@));
            proof { lemma_push_to_set(before, p@); }
        } else {
            assert(peer_ids(self.admitted@).to_set() =~= peer_ids(self.admitted@).to_set().insert(
                p@,
            ));
        }
    }

    fn drop_peer(&mut self, p: &PeerIdentity)
        ensures
            final(self).admitted() == old(self).admitted().remove(p@),
        decreases old(self).admitted@.len(),
    {
        match index_of(&self.admitted, p) {
            None => {
                assert(peer_ids(self.admitted@).to_set() =~= peer_ids(
                    self.admitted@,
                ).to_set().remove(p@));
            },
            Some(i) => {
                let ghost before = peer_ids(self.admitted@);
                self.admitted.remove(i);
                let ghost mid = peer_ids(self.admitted@);
                assert(mid =~= before.remove(i as int));
                assert forall|x: Seq<u8>|
                    before.contains(x) && x != p@ implies #[trigger] mid.contains(x) by {
                    let k = choose|k: int| 0 <= k < before.len() && before[k] == x;
                    if k < i {
                        assert(mid[k] == x);
                    } else {
                        assert(k != i);
                        assert(mid[k - 1] == x);
                    }
                }
                assert forall|x: Seq<u8>| #[trigger] mid.contains(x) implies before.contains(
                    x,
                ) by {
                    let k = choose|k: int| 0 <= k < mid.len() && mid[k] == x;
                    if k < i {
                        assert(before[k] == x);
                    } else {
                        assert(before[k + 1] == x);
                    }
                }
                self.drop_peer(p);
                assert(self.admitted() =~= old(self).admitted().remove(p@));
            },
        }
    }

    /// Applies a discovery event: discovered peers are admitted, expired ones
    /// removed. One command per listed peer, in order, tells the overlay the
    /// same.
    pub fn on_discovery(&mut self, event: DiscoveryEvent) -> (r: Vec<GossipCommand>)
        ensures
            match event {
                DiscoveryEvent::Discovered(list) => {
                    &&& final(self).admitted() == old(self).admitted().union(
                        peer_ids(list@).to_set(),
                    )
                    &&& command_views(r@) == peer_ids(list@).map_values(
                        |p: Seq<u8>| CommandView::Add(p),
                    )
                },
                DiscoveryEvent::Expired(list) => {
                    &&& final(self).admitted() == old(self).admitted().difference(
                        peer_ids(list@).to_set(),
                    )
                    &&& command_views(r@) == peer_ids(list@).map_values(
                        |p: Seq<u8>| CommandView::Remove(p),
                    )
                },
            },
    {
        let ghost start = self.admitted();
        let mut out: Vec<GossipCommand> = Vec::new();
        match event {
            DiscoveryEvent::Discovered(list) => {
                let ghost ids = peer_ids(list@);
                let mut i: usize = 0;
                while i < list.len()
                    invariant
                        i <= list@.len(),
                        ids == peer_ids(list@),
                        self.admitted() == start.union(ids.take(i as int).to_set()),
                        out@.len() == i,
                        forall|j: int| 0 <= j < i ==> #[trigger] out@[j]@ == CommandView::Add(ids[j]),
                    decreases list.len() - i,
                {
                    self.accept_peer(&list[i]);
                    out.push(GossipCommand::AddExplicitPeer(list[i].copy()));
                    i = i + 1;
                    assert(ids.take(i as int) =~= ids.take(i - 1).push(list@[i - 1]@));
                    proof { lemma_push_to_set(ids.take(i - 1), list@[i - 1]@); }
                    assert(self.admitted() =~= start.union(ids.take(i as int).to_set()));
                }
                assert(ids.take(i as int) =~= ids);
                assert(command_views(out@) =~= ids.map_values(|p: Seq<u8>| CommandView::Add(p)));
            },
            DiscoveryEvent::Expired(list) => {
                let ghost ids = peer_ids(list@);
                let mut i: usize = 0;
                while i < list.len()
                    invariant
                        i <= list@.len(),
                        ids == peer_ids(list@),
                        self.admitted() == start.difference(ids.take(i as int).to_set()),
                        out@.len() == i,
                        forall|j: int| 0 <= j < i ==> #[trigger] out@[j]@ == CommandView::Remove(ids[j]),
                    decreases list.len() - i,
                {
                    self.drop_peer(&list[i]);
                    out.push(GossipCommand::RemoveExplicitPeer(list[i].copy()));
                    i = i + 1;
                    assert(ids.take(i as int) =~= ids.take(i - 1).push(list@[i - 1]@));
                    proof { lemma_push_to_set(ids.take(i - 1), list@[i - 1]@); }
                    assert(self.admitted() =~= start.difference(ids.take(i as int).to_set()));
                }
                assert(ids.take(i as int) =~= ids);
                assert(command_views(out@) =~= ids.map_values(|p: Seq<u8>| CommandView::Remove(p)));
            },
        }
        out
    }
}

} // verus!
