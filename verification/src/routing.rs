//! The routing table: destination to candidate routes, cost-ordered
//! lookup, and the capability interface routing algorithms implement.

use vstd::prelude::*;

use crate::descriptor::BundleDescriptor;
use crate::endpoint::EndpointId;
use crate::peer::ClaPeer;

verus! {

/// One route: a destination, the neighbor to hand bundles to on the way
/// there, the transport to use, a cost (lower is better), and a
/// soft-delete flag. Deactivation is the only removal the table knows.
#[derive(Debug)]
pub struct RouteEntry {
    pub destination: EndpointId,
    pub next_hop: EndpointId,
    pub cla_type: String,
    pub cost: u32,
    pub is_active: bool,
}

/// The mathematical value of a route entry.
#[verifier::ext_equal]
pub ghost struct RouteView {
    pub destination: Seq<char>,
    pub next_hop: Seq<char>,
    pub cla_type: Seq<char>,
    pub cost: u32,
    pub is_active: bool,
}

impl View for RouteEntry {
    type V = RouteView;

    open spec fn view(&self) -> RouteView {
        RouteView {
            destination: self.destination@,
            next_hop: self.next_hop@,
            cla_type: self.cla_type@,
            cost: self.cost,
            is_active: self.is_active,
        }
    }
}

impl Clone for RouteEntry {
    fn clone(&self) -> (r: Self)
        ensures
            r@ == self@,
    {
        let r = RouteEntry {
            destination: self.destination.clone(),
            next_hop: self.next_hop.clone(),
            cla_type: self.cla_type.clone(),
            cost: self.cost,
            is_active: self.is_active,
        };
        proof {
            assert(r@ =~= self@);
        }
        r
    }
}

/// The active routes among `routes`, in table order.
pub open spec fn active_routes(routes: Seq<RouteView>) -> Seq<RouteView>
    decreases routes.len(),
{
    if routes.len() == 0 {
        seq![]
    } else {
        let prefix = active_routes(routes.drop_last());
        if routes.last().is_active {
            prefix.push(routes.last())
        } else {
            prefix
        }
    }
}

/// The active routes towards `dest`, in table order.
pub open spec fn active_routes_for(routes: Seq<RouteView>, dest: Seq<char>) -> Seq<RouteView>
    decreases routes.len(),
{
    if routes.len() == 0 {
        seq![]
    } else {
        let prefix = active_routes_for(routes.drop_last(), dest);
        if routes.last().is_active && routes.last().destination == dest {
            prefix.push(routes.last())
        } else {
            prefix
        }
    }
}

/// The routing table. Inactive entries are excluded from every query;
/// multiple entries per destination are allowed (multipath).
#[derive(Debug)]
pub struct RoutingTable {
    routes: Vec<RouteEntry>,
}

impl View for RoutingTable {
    type V = Seq<RouteView>;

    closed spec fn view(&self) -> Seq<RouteView> {
        self.routes@.map_values(|e: RouteEntry| e@)
    }
}

impl RoutingTable {
    /// An empty table.
    pub fn new() -> (r: Self)
        ensures
            r@ =~= Seq::<RouteView>::empty(),
    {
        RoutingTable { routes: Vec::new() }
    }

    /// Append a route; the only mutation the table supports.
    pub fn add_route(&mut self, entry: RouteEntry)
        ensures
            final(self)@ == old(self)@.push(entry@),
    {
        self.routes.push(entry);
        proof {
            assert(self@ =~= old(self)@.push(self.routes@.last()@));
        }
    }

    /// The active routes towards `destination`, as owned copies.
    pub fn get_routes_for_destination(&self, destination: &EndpointId) -> (r: Vec<RouteEntry>)
        ensures
            r@.map_values(|e: RouteEntry| e@) == active_routes_for(self@, destination@),
    {
        let ghost rv = self@;
        let mut r: Vec<RouteEntry> = Vec::new();
        let n = self.routes.len();
        for i in 0..n
            invariant
                n == self.routes@.len(),
                rv == self@,
                rv.len() == n,
                r@.map_values(|e: RouteEntry| e@) =~= active_routes_for(
                    rv.subrange(0, i as int),
                    destination@,
                ),
        {
            proof {
                assert(rv.subrange(0, i + 1).drop_last() =~= rv.subrange(0, i as int));
                assert(rv.subrange(0, i + 1).last() == rv[i as int]);
                assert(rv[i as int] == self.routes@[i as int]@);
            }
            if self.routes[i].is_active && &self.routes[i].destination == destination {
                let e = self.routes[i].clone();
                r.push(e);
            }
        }
        proof {
            assert(rv.subrange(0, n as int) =~= rv);
        }
        r
    }

    /// All active routes, as owned copies.
    pub fn get_all_routes(&self) -> (r: Vec<RouteEntry>)
        ensures
            r@.map_values(|e: RouteEntry| e@) == active_routes(self@),
    {
        let ghost rv = self@;
        let mut r: Vec<RouteEntry> = Vec::new();
        let n = self.routes.len();
        for i in 0..n
            invariant
                n == self.routes@.len(),
                rv == self@,
                rv.len() == n,
                r@.map_values(|e: RouteEntry| e@) =~= active_routes(rv.subrange(0, i as int)),
        {
            proof {
                assert(rv.subrange(0, i + 1).drop_last() =~= rv.subrange(0, i as int));
                assert(rv.subrange(0, i + 1).last() == rv[i as int]);
                assert(rv[i as int] == self.routes@[i as int]@);
            }
            if self.routes[i].is_active {
                let e = self.routes[i].clone();
                r.push(e);
            }
        }
        proof {
            assert(rv.subrange(0, n as int) =~= rv);
        }
        r
    }

    /// How many entries the table holds, inactive ones included.
    pub fn route_count(&self) -> (r: usize)
        ensures
            r == self@.len(),
    {
        self.routes.len()
    }

    /// The entry at a table position, as an owned copy.
    pub fn route_at(&self, i: usize) -> (r: RouteEntry)
        requires
            i < self@.len(),
        ensures
            r@ == self@[i as int],
    {
        self.routes[i].clone()
    }

    /// The cheapest active route towards `destination`: the first entry
    /// with minimum cost among the active candidates, or none when no
    /// active route exists.
    pub fn find_best_route(&self, destination: &EndpointId) -> (r: Option<RouteEntry>)
        ensures
            ({
                let cands = active_routes_for(self@, destination@);
                match r {
                    None => cands.len() == 0,
                    Some(e) => exists|i: int|
                        0 <= i < cands.len() && cands[i] == e@ && (forall|j: int|
                            0 <= j < cands.len() ==> (#[trigger] cands[j]).cost >= e@.cost)
                            && (forall|j: int| 0 <= j < i ==> (#[trigger] cands[j]).cost
                            > e@.cost),
                }
            }),
    {
        let cands = self.get_routes_for_destination(destination);
        let ghost cv = active_routes_for(self@, destination@);
        let n = cands.len();
        if n == 0 {
            return None;
        }
        let mut best: usize = 0;
        for i in 1..n
            invariant
                n == cands@.len(),
                cands@.map_values(|e: RouteEntry| e@) == cv,
                best < i <= n,
                forall|j: int| 0 <= j < i ==> (#[trigger] cv[j]).cost >= cv[best as int].cost,
                forall|j: int| 0 <= j < best ==> (#[trigger] cv[j]).cost > cv[best as int].cost,
        {
            proof {
                assert(cv[i as int] == cands@[i as int]@);
                assert(cv[best as int] == cands@[best as int]@);
            }
            if cands[i].cost < cands[best].cost {
                best = i;
            }
        }
        let e = cands[best].clone();
        proof {
            assert(cv[best as int] == cands@[best as int]@);
            assert(cv[best as int] == e@);
        }
        Some(e)
    }
}

impl Default for RoutingTable {
    /// An empty table.
    fn default() -> (r: Self)
        ensures
            r@ =~= Seq::<RouteView>::empty(),
    {
        RoutingTable::new()
    }
}

/// What a routing algorithm decides: it is told of new bundles, and it
/// selects forwarding targets, either from a reachable-peer snapshot or
/// from the routing table. Selection must skip neighbors the bundle
/// already went to and not name the same neighbor twice.
pub trait RoutingAlgorithm: Sized {
    /// Hook invoked whenever a bundle is newly introduced, locally or by
    /// receipt; stateful algorithms update their statistics here.
    fn notify_new_bundle(&mut self, descriptor: &BundleDescriptor);

    /// Choose, from the candidate peers, the ones this bundle should be
    /// forwarded to, as borrowed handles into the candidate list.
    fn select_peers_for_forwarding<'a, P: ClaPeer>(
        &self,
        descriptor: &BundleDescriptor,
        all_peers: &'a Vec<P>,
    ) -> Vec<&'a P>;

    /// Choose routes from the routing table, as owned copies: the
    /// table-driven analogue of peer selection. Every active route whose
    /// next hop the bundle has not already been sent to is chosen, one
    /// route per next hop even when several destinations share one.
    fn select_routes_for_forwarding(
        &self,
        descriptor: &BundleDescriptor,
        routing_table: &RoutingTable,
    ) -> (r: Vec<RouteEntry>)
        ensures
            r@.map_values(|e: RouteEntry| e@) == route_selection(
                routing_table@,
                descriptor@.already_sent,
            ),
    ;
}

/// The selectable routing algorithms. Prophet, a probabilistic
/// utility-based scheme, is a named option without a distinct
/// implementation: selecting it falls back to epidemic behavior.
#[derive(Debug)]
pub enum RoutingAlgorithmType {
    Epidemic,
    Prophet,
}

/// Which routing algorithm a node runs.
pub struct RoutingConfig {
    pub algorithm_type: RoutingAlgorithmType,
}

impl RoutingConfig {
    /// A configuration naming the given algorithm.
    pub fn new(algorithm_type: RoutingAlgorithmType) -> (r: Self)
        ensures
            r.algorithm_type == algorithm_type,
    {
        RoutingConfig { algorithm_type }
    }

    /// The algorithm to run. Prophet has no implementation of its own
    /// and falls back to epidemic flooding; the shell warns about that.
    pub fn create_algorithm(&self) -> crate::epidemic::EpidemicRouting {
        match self.algorithm_type {
            RoutingAlgorithmType::Epidemic => crate::epidemic::EpidemicRouting,
            RoutingAlgorithmType::Prophet => crate::epidemic::EpidemicRouting,
        }
    }
}


/// The next-hop identities of the active routes among `routes`.
pub open spec fn active_hops(routes: Seq<RouteView>) -> Seq<Seq<char>> {
    active_routes(routes).map_values(|r: RouteView| r.next_hop)
}

/// The table-driven analogue of peer selection: of `routes`, the active
/// ones whose next hop is not in `sent` and has not occurred as an
/// active next hop earlier in the table -- one route per next hop, even
/// when several destinations share one.
pub open spec fn route_selection(routes: Seq<RouteView>, sent: Set<Seq<char>>) -> Seq<RouteView>
    decreases routes.len(),
{
    if routes.len() == 0 {
        seq![]
    } else {
        let prefix = route_selection(routes.drop_last(), sent);
        let r = routes.last();
        if r.is_active && !sent.contains(r.next_hop) && !active_hops(
            routes.drop_last(),
        ).contains(r.next_hop) {
            prefix.push(r)
        } else {
            prefix
        }
    }
}

/// A next hop outside `sent` occurs among the active routes exactly when
/// it occurs in the selection.
pub proof fn lemma_route_selection_hops(routes: Seq<RouteView>, sent: Set<Seq<char>>, h: Seq<char>)
    requires
        !sent.contains(h),
    ensures
        active_hops(routes).contains(h) <==> route_selection(routes, sent).map_values(
            |r: RouteView| r.next_hop,
        ).contains(h),
    decreases routes.len(),
{
    if routes.len() > 0 {
        let rest = routes.drop_last();
        let r = routes.last();
        lemma_route_selection_hops(rest, sent, h);
        let prefix = route_selection(rest, sent);
        let sel = route_selection(routes, sent);
        let prefix_hops = prefix.map_values(|x: RouteView| x.next_hop);
        let sel_hops = sel.map_values(|x: RouteView| x.next_hop);
        let picked = r.is_active && !sent.contains(r.next_hop) && !active_hops(rest).contains(
            r.next_hop,
        );
        if r.is_active {
            assert(active_routes(routes) == active_routes(rest).push(r));
            assert(active_hops(routes) =~= active_hops(rest).push(r.next_hop));
        } else {
            assert(active_hops(routes) == active_hops(rest));
        }
        if picked {
            assert(sel == prefix.push(r));
            assert(sel_hops =~= prefix_hops.push(r.next_hop));
        } else {
            assert(sel == prefix);
        }
        if active_hops(routes).contains(h) {
            let i = choose|i: int|
                0 <= i < active_hops(routes).len() && active_hops(routes)[i] == h;
            if r.is_active && i == active_hops(routes).len() - 1 {
                assert(h == r.next_hop);
                if picked {
                    assert(sel_hops[sel_hops.len() - 1] == h);
                    assert(sel_hops.contains(h));
                } else {
                    assert(active_hops(rest).contains(h));
                    let j = choose|j: int| 0 <= j < prefix_hops.len() && prefix_hops[j] == h;
                    assert(sel_hops[j] == h);
                    assert(sel_hops.contains(h));
                }
            } else {
                assert(active_hops(rest)[i] == h);
                assert(active_hops(rest).contains(h));
                let j = choose|j: int| 0 <= j < prefix_hops.len() && prefix_hops[j] == h;
                assert(sel_hops[j] == h);
                assert(sel_hops.contains(h));
            }
        }
        if sel_hops.contains(h) {
            let j = choose|j: int| 0 <= j < sel_hops.len() && sel_hops[j] == h;
            if picked && j == sel_hops.len() - 1 {
                assert(h == r.next_hop);
                assert(active_hops(routes)[active_hops(routes).len() - 1] == h);
                assert(active_hops(routes).contains(h));
            } else {
                assert(prefix_hops[j] == h);
                assert(prefix_hops.contains(h));
                assert(active_hops(rest).contains(h));
                let i = choose|i: int|
                    0 <= i < active_hops(rest).len() && active_hops(rest)[i] == h;
                assert(active_hops(routes)[i] == h);
                assert(active_hops(routes).contains(h));
            }
        }
    }
}

/// Select routes from the table: every active route whose next hop the
/// bundle has not already been sent to, one route per next hop, in
/// table order, as owned copies. This is the table-driven analogue of
/// peer selection that [`RoutingAlgorithm::select_routes_for_forwarding`]
/// demands of every algorithm.
pub fn select_table_routes(descriptor: &BundleDescriptor, routing_table: &RoutingTable) -> (r:
    Vec<RouteEntry>)
    ensures
        r@.map_values(|e: RouteEntry| e@) == route_selection(
            routing_table@,
            descriptor@.already_sent,
        ),
{
    let ghost sent = descriptor@.already_sent;
    let ghost rv = routing_table@;
    let mut result: Vec<RouteEntry> = Vec::new();
    let n = routing_table.route_count();
    for i in 0..n
        invariant
            n == rv.len(),
            rv == routing_table@,
            sent == descriptor@.already_sent,
            result@.map_values(|e: RouteEntry| e@) =~= route_selection(
                rv.subrange(0, i as int),
                sent,
            ),
    {
        proof {
            assert(rv.subrange(0, i + 1).drop_last() =~= rv.subrange(0, i as int));
            assert(rv.subrange(0, i + 1).last() == rv[i as int]);
        }
        let entry = routing_table.route_at(i);
        let hop = entry.next_hop.clone();
        if entry.is_active && !descriptor.has_been_sent_to(&hop) {
            let ghost chosen = route_selection(rv.subrange(0, i as int), sent);
            let ghost chosen_hops = chosen.map_values(|x: RouteView| x.next_hop);
            let mut dup = false;
            let m = result.len();
            for k in 0..m
                invariant
                    m == result@.len(),
                    result@.map_values(|e: RouteEntry| e@) == chosen,
                    hop@ == rv[i as int].next_hop,
                    dup ==> exists|k2: int|
                        0 <= k2 < k && (#[trigger] result@[k2]).next_hop@ == hop@,
                    !dup ==> forall|k2: int|
                        0 <= k2 < k ==> (#[trigger] result@[k2]).next_hop@ != hop@,
            {
                if &result[k].next_hop == &hop {
                    dup = true;
                }
            }
            proof {
                assert forall|k2: int| 0 <= k2 < chosen.len() implies (#[trigger] chosen[
                    k2]).next_hop == result@[k2].next_hop@ by {
                    assert(chosen[k2] == result@[k2]@);
                }
                if dup {
                    let k2 = choose|k2: int|
                        0 <= k2 < result@.len() && (#[trigger] result@[k2]).next_hop@ == hop@;
                    assert(chosen_hops[k2] == hop@);
                    assert(chosen_hops.contains(hop@));
                } else {
                    assert forall|k2: int| 0 <= k2 < chosen_hops.len() implies chosen_hops[k2]
                        != hop@ by {
                        assert(chosen_hops[k2] == result@[k2].next_hop@);
                    }
                    assert(!chosen_hops.contains(hop@));
                }
                lemma_route_selection_hops(rv.subrange(0, i as int), sent, hop@);
            }
            if !dup {
                result.push(entry);
                proof {
                    assert(result@.map_values(|e: RouteEntry| e@) =~= chosen.push(rv[i as int]));
                }
            }
        }
    }
    proof {
        assert(rv.subrange(0, n as int) =~= rv);
    }
    result
}

} // verus!
