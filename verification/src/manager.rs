//! The peer registry: the set of known peers, deduplicated by endpoint
//! identity. Activating a registered peer's transport, probing
//! reachability, and dispatching the receive callback are the runtime
//! shell's work; the registry rules stand here.

use vstd::prelude::*;

use crate::epidemic::peer_eids;
use crate::peer::ClaPeer;

verus! {

/// The registry of peers a node may forward through. A second
/// registration under an identity already present is a no-op, so every
/// identity occurs at most once.
pub struct ClaManager<P: ClaPeer> {
    peers: Vec<P>,
}

impl<P: ClaPeer> ClaManager<P> {
    /// The registered peers, in registration order.
    pub closed spec fn peers_seq(self) -> Seq<P> {
        self.peers@
    }

    /// Every registered identity occurs once.
    pub open spec fn wf(self) -> bool {
        forall|i: int, j: int|
            0 <= i < j < self.peers_seq().len() ==> (#[trigger] self.peers_seq()[i])
                .spec_peer_eid() != (#[trigger] self.peers_seq()[j]).spec_peer_eid()
    }

    /// An empty registry. The receive callback the original construction
    /// takes lives with the shell.
    pub fn new() -> (r: Self)
        ensures
            r.wf(),
            r.peers_seq() =~= Seq::<P>::empty(),
    {
        ClaManager { peers: Vec::new() }
    }

    /// Register a peer unless one with the same identity already is
    /// registered; says whether the peer was added, so the shell knows
    /// to activate its transport.
    pub fn register_peer(&mut self, peer: P) -> (added: bool)
        requires
            old(self).wf(),
        ensures
            final(self).wf(),
            added == !peer_eids(old(self).peers_seq()).contains(peer.spec_peer_eid()),
            added ==> final(self).peers_seq() == old(self).peers_seq().push(peer),
            !added ==> final(self).peers_seq() == old(self).peers_seq(),
    {
        let eid = peer.get_peer_endpoint_id();
        let n = self.peers.len();
        for i in 0..n
            invariant
                n == self.peers@.len(),
                *self == *old(self),
                self.wf(),
                eid@ == peer.spec_peer_eid(),
                forall|j: int|
                    0 <= j < i ==> (#[trigger] self.peers@[j]).spec_peer_eid() != eid@,
        {
            if self.peers[i].get_peer_endpoint_id() == eid {
                proof {
                    assert(peer_eids(self.peers_seq())[i as int] == eid@);
                    assert(peer_eids(self.peers_seq()).contains(peer.spec_peer_eid()));
                }
                return false;
            }
        }
        proof {
            assert forall|j: int|
                0 <= j < peer_eids(self.peers_seq()).len() implies peer_eids(
                self.peers_seq(),
            )[j] != peer.spec_peer_eid() by {
                assert(peer_eids(self.peers_seq())[j] == self.peers@[j].spec_peer_eid());
            }
            assert(!peer_eids(self.peers_seq()).contains(peer.spec_peer_eid()));
        }
        self.peers.push(peer);
        true
    }

    /// Owned handles to all registered peers, regardless of
    /// reachability, in registration order. The reachability-filtered
    /// listing additionally needs the shell's probe.
    pub fn list_all_peers(&self) -> (r: Vec<P>)
        ensures
            r@.len() == self.peers_seq().len(),
            forall|i: int|
                0 <= i < r@.len() ==> (#[trigger] r@[i]).spec_peer_eid()
                    == self.peers_seq()[i].spec_peer_eid(),
    {
        let mut r: Vec<P> = Vec::new();
        let n = self.peers.len();
        for i in 0..n
            invariant
                n == self.peers@.len(),
                r@.len() == i,
                forall|j: int|
                    0 <= j < i ==> (#[trigger] r@[j]).spec_peer_eid() == self.peers@[j]
                        .spec_peer_eid(),
        {
            r.push(self.peers[i].clone_peer());
        }
        r
    }
}

} // verus!
