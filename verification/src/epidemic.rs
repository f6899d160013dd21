//! Epidemic routing: store-and-forward flooding. A bundle goes to every
//! distinct neighbor it has not been sent to yet; the bundle's own
//! destination is deliberately ignored, trading redundant transmissions
//! for delivery probability in unpredictable topologies.

use vstd::prelude::*;

use crate::descriptor::BundleDescriptor;
use crate::peer::ClaPeer;
use crate::routing::{RouteEntry, RoutingAlgorithm, RoutingTable};

verus! {

/// The identities of `peers`, in order.
pub open spec fn peer_eids<P: ClaPeer>(peers: Seq<P>) -> Seq<Seq<char>> {
    peers.map_values(|p: P| p.spec_peer_eid())
}

/// The flooding choice: of `peers`, those whose identity is not in
/// `sent` and has not occurred earlier in the list, in order. Every
/// not-yet-used identity is kept exactly once, at its first occurrence.
pub open spec fn epidemic_selection<P: ClaPeer>(peers: Seq<P>, sent: Set<Seq<char>>) -> Seq<P>
    decreases peers.len(),
{
    if peers.len() == 0 {
        seq![]
    } else {
        let prefix = epidemic_selection(peers.drop_last(), sent);
        let p = peers.last();
        if !sent.contains(p.spec_peer_eid()) && !peer_eids(peers.drop_last()).contains(
            p.spec_peer_eid(),
        ) {
            prefix.push(p)
        } else {
            prefix
        }
    }
}

/// An identity outside `sent` occurs among the candidates exactly when
/// it occurs in the flooding choice.
pub proof fn lemma_epidemic_selection_eids<P: ClaPeer>(
    peers: Seq<P>,
    sent: Set<Seq<char>>,
    e: Seq<char>,
)
    requires
        !sent.contains(e),
    ensures
        peer_eids(peers).contains(e) <==> peer_eids(epidemic_selection(peers, sent)).contains(e),
    decreases peers.len(),
{
    if peers.len() > 0 {
        let rest = peers.drop_last();
        let p = peers.last();
        lemma_epidemic_selection_eids(rest, sent, e);
        let prefix = epidemic_selection(rest, sent);
        let sel = epidemic_selection(peers, sent);
        let pushed = !sent.contains(p.spec_peer_eid()) && !peer_eids(rest).contains(
            p.spec_peer_eid(),
        );
        assert(peer_eids(peers) =~= peer_eids(rest).push(p.spec_peer_eid()));
        if pushed {
            assert(sel == prefix.push(p));
            assert(peer_eids(sel) =~= peer_eids(prefix).push(p.spec_peer_eid()));
        } else {
            assert(sel == prefix);
        }
        if peer_eids(peers).contains(e) {
            let i = choose|i: int| 0 <= i < peer_eids(peers).len() && peer_eids(peers)[i] == e;
            if i < rest.len() {
                assert(peer_eids(rest)[i] == e);
                assert(peer_eids(rest).contains(e));
                let j = choose|j: int|
                    0 <= j < peer_eids(prefix).len() && peer_eids(prefix)[j] == e;
                assert(peer_eids(sel)[j] == e);
                assert(peer_eids(sel).contains(e));
            } else {
                assert(e == p.spec_peer_eid());
                if pushed {
                    assert(peer_eids(sel)[peer_eids(sel).len() - 1] == e);
                    assert(peer_eids(sel).contains(e));
                } else {
                    assert(peer_eids(rest).contains(e));
                    let j = choose|j: int|
                        0 <= j < peer_eids(prefix).len() && peer_eids(prefix)[j] == e;
                    assert(peer_eids(sel)[j] == e);
                    assert(peer_eids(sel).contains(e));
                }
            }
        }
        if peer_eids(sel).contains(e) {
            let j = choose|j: int| 0 <= j < peer_eids(sel).len() && peer_eids(sel)[j] == e;
            if pushed && j == peer_eids(sel).len() - 1 {
                assert(e == p.spec_peer_eid());
                assert(peer_eids(peers)[peers.len() - 1] == e);
                assert(peer_eids(peers).contains(e));
            } else {
                assert(peer_eids(prefix)[j] == e);
                assert(peer_eids(prefix).contains(e));
                let i = choose|i: int|
                    0 <= i < peer_eids(rest).len() && peer_eids(rest)[i] == e;
                assert(peer_eids(peers)[i] == e);
                assert(peer_eids(peers).contains(e));
            }
        }
    }
}

/// Epidemic routing keeps no state of its own: all bundles are forwarded
/// to all available neighbors regardless of destination.
#[derive(Debug, Default)]
pub struct EpidemicRouting;

impl RoutingAlgorithm for EpidemicRouting {
    /// Epidemic routing tracks no per-bundle statistics.
    fn notify_new_bundle(&mut self, descriptor: &BundleDescriptor) {
    }

    /// Flood: every candidate not yet sent to, once per identity, in
    /// candidate order, as handles borrowed from the candidate list.
    fn select_peers_for_forwarding<'a, P: ClaPeer>(
        &self,
        descriptor: &BundleDescriptor,
        all_peers: &'a Vec<P>,
    ) -> (r: Vec<&'a P>)
        ensures
            r@.map_values(|p: &'a P| *p) == epidemic_selection(
                all_peers@,
                descriptor@.already_sent,
            ),
    {
        let ghost sent = descriptor@.already_sent;
        let mut result: Vec<&'a P> = Vec::new();
        let n = all_peers.len();
        for i in 0..n
            invariant
                n == all_peers@.len(),
                sent == descriptor@.already_sent,
                result@.map_values(|p: &'a P| *p) =~= epidemic_selection(
                    all_peers@.subrange(0, i as int),
                    sent,
                ),
        {
            proof {
                assert(all_peers@.subrange(0, i + 1).drop_last() =~= all_peers@.subrange(
                    0,
                    i as int,
                ));
                assert(all_peers@.subrange(0, i + 1).last() == all_peers@[i as int]);
            }
            let peer = &all_peers[i];
            let eid = peer.get_peer_endpoint_id();
            if !descriptor.has_been_sent_to(&eid) {
                let ghost chosen = epidemic_selection(all_peers@.subrange(0, i as int), sent);
                let mut dup = false;
                let m = result.len();
                for k in 0..m
                    invariant
                        m == result@.len(),
                        result@.map_values(|p: &'a P| *p) == chosen,
                        dup ==> exists|k2: int|
                            0 <= k2 < k && (#[trigger] result@[k2]).spec_peer_eid() == eid@,
                        !dup ==> forall|k2: int|
                            0 <= k2 < k ==> (#[trigger] result@[k2]).spec_peer_eid() != eid@,
                {
                    if result[k].get_peer_endpoint_id() == eid {
                        dup = true;
                    }
                }
                proof {
                    assert forall|k2: int| 0 <= k2 < chosen.len() implies (#[trigger] chosen[
                        k2]).spec_peer_eid() == result@[k2].spec_peer_eid() by {
                        assert(chosen[k2] == result@[k2]);
                    }
                    if dup {
                        let k2 = choose|k2: int|
                            0 <= k2 < result@.len() && (#[trigger] result@[
                            k2]).spec_peer_eid() == eid@;
                        assert(peer_eids(chosen)[k2] == eid@);
                        assert(peer_eids(chosen).contains(eid@));
                    } else {
                        assert forall|k2: int| 0 <= k2 < chosen.len() implies peer_eids(chosen)[
                            k2] != eid@ by {
                            assert(chosen[k2].spec_peer_eid() == result@[k2].spec_peer_eid());
                        }
                        assert(!peer_eids(chosen).contains(eid@));
                    }
                    lemma_epidemic_selection_eids(all_peers@.subrange(0, i as int), sent, eid@);
                }
                if !dup {
                    result.push(peer);
                    proof {
                        assert(result@.map_values(|p: &'a P| *p) =~= chosen.push(
                            all_peers@[i as int],
                        ));
                    }
                }
            }
        }
        proof {
            assert(all_peers@.subrange(0, n as int) =~= all_peers@);
        }
        result
    }

    /// Flood over the table as well: every active route towards a next
    /// hop the bundle has not yet been sent to, one route per next hop,
    /// in table order.
    fn select_routes_for_forwarding(
        &self,
        descriptor: &BundleDescriptor,
        routing_table: &RoutingTable,
    ) -> (r: Vec<RouteEntry>) {
        crate::routing::select_table_routes(descriptor, routing_table)
    }
}

} // verus!
