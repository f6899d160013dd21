//! The node API: one bundle store, one routing table, and one routing
//! algorithm, tied together for the application. Locks, the peer
//! registry's transports, and every socket belong to the runtime shell;
//! the node's decisions and bookkeeping stand here.

use vstd::prelude::*;
use vstd::string::*;

use crate::bundle::{Bundle, BundleView, PrimaryBlock};
use crate::config::{spec_default_config, Config};
use crate::descriptor::BundleDescriptor;
use crate::endpoint::EndpointId;
use crate::epidemic::{epidemic_selection, EpidemicRouting};
use crate::peer::ClaPeer;
use crate::routing::{
    active_routes, active_routes_for, RouteEntry, RouteView, RoutingAlgorithm,
    RoutingAlgorithmType, RoutingConfig, RoutingTable,
};
use crate::store::{count_expired, insert_effect, live_entries, BundleStore, StoreError};
use crate::types::BundleStatus;

verus! {

/// The bundle a node builds for a message: the configured version,
/// endpoint identities and lifetime, the given creation stamp, and the
/// message's UTF-8 bytes as payload.
pub open spec fn configured_bundle_view(c: Config, message: Seq<char>, ts: u64) -> BundleView {
    BundleView {
        version: c.bundle.version,
        destination: c.endpoints.destination@,
        source: c.endpoints.source@,
        report_to: c.endpoints.report_to@,
        creation_timestamp: ts,
        lifetime: c.bundle.lifetime,
        payload: vstd::utf8::encode_utf8(message),
    }
}

/// A node: the persistent store of bundles, the routing table, and the
/// routing algorithm consulted for forwarding decisions.
pub struct DtnNode {
    store: BundleStore,
    store_path: String,
    routing_table: RoutingTable,
    algorithm: EpidemicRouting,
    algorithm_type: RoutingAlgorithmType,
    config: Config,
}

impl DtnNode {
    /// The node's bundle store.
    pub closed spec fn spec_store(self) -> BundleStore {
        self.store
    }

    /// The configured store directory path.
    pub closed spec fn spec_path(self) -> Seq<char> {
        self.store_path@
    }

    /// The routing table's entries.
    pub closed spec fn spec_table(self) -> Seq<RouteView> {
        self.routing_table@
    }

    /// The configured algorithm.
    pub closed spec fn spec_algorithm_type(self) -> RoutingAlgorithmType {
        self.algorithm_type
    }

    /// The node's configuration values.
    pub closed spec fn spec_config(self) -> Config {
        self.config
    }

    /// The node's invariant: its store's invariant.
    pub open spec fn wf(self) -> bool {
        self.spec_store().wf()
    }

    /// A fresh node: empty store, empty table, built-in configuration.
    pub open spec fn spec_fresh(self, path: Seq<char>) -> bool {
        &&& self.wf()
        &&& self.spec_path() == path
        &&& self.spec_store().active_seq().len() == 0
        &&& self.spec_store().dispatched_seq().len() == 0
        &&& self.spec_table().len() == 0
        &&& spec_default_config(self.spec_config())
    }

    fn build(store_path: &str, config: Config) -> (r: DtnNode)
        requires
            spec_default_config(config),
        ensures
            r.spec_fresh(store_path@),
            r.spec_algorithm_type() == config.spec_algorithm_type(),
    {
        let algorithm_type = config.get_routing_algorithm_type();
        let r = DtnNode {
            store: BundleStore::new(store_path),
            store_path: store_path.to_owned(),
            routing_table: RoutingTable::new(),
            algorithm: EpidemicRouting,
            algorithm_type,
            config,
        };
        r
    }

    /// A node over the default store directory with the built-in
    /// configuration.
    pub fn new() -> (r: Result<DtnNode, StoreError>)
        ensures
            r matches Ok(n) && n.spec_fresh("./bundles"@),
    {
        Ok(DtnNode::build("./bundles", Config::default()))
    }

    /// A node whose store lives under the given path.
    pub fn with_store_path(store_path: &str) -> (r: Result<DtnNode, StoreError>)
        ensures
            r matches Ok(n) && n.spec_fresh(store_path@),
    {
        Ok(DtnNode::build(store_path, Config::default()))
    }

    /// A node over the given path, or the default one.
    pub fn with_config(store_path: Option<&str>) -> (r: Result<DtnNode, StoreError>)
        ensures
            match store_path {
                Some(p) => r matches Ok(n) && n.spec_fresh(p@),
                None => r matches Ok(n) && n.spec_fresh("./bundles"@),
            },
    {
        match store_path {
            Some(p) => DtnNode::with_store_path(p),
            None => DtnNode::with_store_path("./bundles"),
        }
    }

    /// A node with an explicitly chosen routing algorithm.
    pub fn with_routing_algorithm(store_path: &str, routing_config: RoutingConfig) -> (r: Result<
        DtnNode,
        StoreError,
    >)
        ensures
            r matches Ok(n) && n.spec_fresh(store_path@) && n.spec_algorithm_type()
                == routing_config.algorithm_type,
    {
        let mut n = DtnNode::build(store_path, Config::default());
        let algorithm = routing_config.create_algorithm();
        n.algorithm = algorithm;
        n.algorithm_type = routing_config.algorithm_type;
        Ok(n)
    }

    /// Add a route to the routing table.
    pub fn add_route(&mut self, entry: RouteEntry) -> (r: Result<(), StoreError>)
        requires
            old(self).wf(),
        ensures
            r is Ok,
            final(self).wf(),
            final(self).spec_table() == old(self).spec_table().push(entry@),
            final(self).spec_store() == old(self).spec_store(),
            final(self).spec_path() == old(self).spec_path(),
    {
        self.routing_table.add_route(entry);
        Ok(())
    }

    /// The routing table, for read-only queries.
    pub fn get_routing_table(&self) -> (r: &RoutingTable)
        ensures
            r@ == self.spec_table(),
    {
        &self.routing_table
    }

    /// All active routes.
    pub fn get_all_routes(&self) -> (r: Result<Vec<RouteEntry>, StoreError>)
        ensures
            r matches Ok(v) && v@.map_values(|e: RouteEntry| e@) == active_routes(
                self.spec_table(),
            ),
    {
        Ok(self.routing_table.get_all_routes())
    }

    /// The cheapest active route towards `destination`, if any.
    pub fn find_best_route(&self, destination: &EndpointId) -> (r: Result<
        Option<RouteEntry>,
        StoreError,
    >)
        ensures
            r matches Ok(best) && ({
                let cands = active_routes_for(self.spec_table(), destination@);
                match best {
                    None => cands.len() == 0,
                    Some(e) => exists|i: int|
                        0 <= i < cands.len() && cands[i] == e@ && (forall|j: int|
                            0 <= j < cands.len() ==> (#[trigger] cands[j]).cost >= e@.cost)
                            && (forall|j: int| 0 <= j < i ==> (#[trigger] cands[j]).cost
                            > e@.cost),
                }
            }),
    {
        let best = self.routing_table.find_best_route(destination);
        match &best {
            Some(e) => {
                proof {
                    let cands = active_routes_for(self.routing_table@, destination@);
                    let i = choose|i: int|
                        0 <= i < cands.len() && cands[i] == e@ && (forall|j: int|
                            0 <= j < cands.len() ==> (#[trigger] cands[j]).cost >= e@.cost) && (
                        forall|j: int| 0 <= j < i ==> (#[trigger] cands[j]).cost > e@.cost);
                    assert(active_routes_for(self.spec_table(), destination@) == cands);
                }
            },
            None => {
                proof {
                    assert(active_routes_for(self.spec_table(), destination@)
                        == active_routes_for(self.routing_table@, destination@));
                }
            },
        }
        Ok(best)
    }

    /// Store a new bundle carrying `message`, stamped with the node's
    /// configured identities and the current wall-clock time, and tell
    /// the routing algorithm about it.
    pub fn insert_bundle(&mut self, message: String) -> (r: Result<(), StoreError>)
        requires
            old(self).wf(),
        ensures
            r is Ok,
            final(self).wf(),
            final(self).spec_table() == old(self).spec_table(),
            final(self).spec_path() == old(self).spec_path(),
            final(self).spec_config() == old(self).spec_config(),
            final(self).spec_store().dispatched_seq() == old(self).spec_store().dispatched_seq(),
            exists|ts: u64|
                final(self).spec_store().active_seq() == insert_effect(
                    old(self).spec_store().active_seq(),
                    crate::digest::spec_bundle_id(
                        #[trigger] configured_bundle_view(old(self).spec_config(), message@, ts),
                    ),
                    configured_bundle_view(old(self).spec_config(), message@, ts),
                ),
    {
        let creation_timestamp = crate::config::generate_creation_timestamp();
        let payload = message.as_str().as_bytes_vec();
        let bundle = Bundle {
            primary: PrimaryBlock {
                version: self.config.bundle.version,
                destination: self.config.endpoints.destination.clone(),
                source: self.config.endpoints.source.clone(),
                report_to: self.config.endpoints.report_to.clone(),
                creation_timestamp,
                lifetime: self.config.bundle.lifetime,
            },
            payload,
        };
        let ghost b = configured_bundle_view(old(self).spec_config(), message@, creation_timestamp);
        proof {
            assert(bundle@ =~= b);
        }
        let insert_result = self.store.insert(&bundle);
        let descriptor = BundleDescriptor::new(bundle);
        self.algorithm.notify_new_bundle(&descriptor);
        proof {
            assert(self.spec_store().active_seq() == insert_effect(
                old(self).spec_store().active_seq(),
                crate::digest::spec_bundle_id(b),
                b,
            ));
        }
        insert_result
    }

    /// The forwarding targets for a bundle among the given reachable
    /// peers, per the routing algorithm: every distinct peer identity,
    /// since a freshly wrapped bundle has been sent nowhere yet. The
    /// reachable-peer snapshot comes from the shell's probes.
    pub fn select_peers_for_forwarding<P: ClaPeer>(
        &self,
        bundle: &Bundle,
        reachable_peers: &Vec<P>,
    ) -> (r: Result<Vec<P>, StoreError>)
        ensures
            r matches Ok(v) && ({
                let chosen = epidemic_selection(reachable_peers@, Set::<Seq<char>>::empty());
                &&& v@.len() == chosen.len()
                &&& forall|i: int|
                    0 <= i < v@.len() ==> (#[trigger] v@[i]).spec_peer_eid()
                        == chosen[i].spec_peer_eid()
            }),
    {
        let descriptor = BundleDescriptor::new(bundle.clone());
        let selected = self.algorithm.select_peers_for_forwarding(&descriptor, reachable_peers);
        let ghost chosen = epidemic_selection(reachable_peers@, descriptor@.already_sent);
        proof {
            assert(descriptor@.already_sent =~= Set::<Seq<char>>::empty());
        }
        let mut owned: Vec<P> = Vec::new();
        let m = selected.len();
        for k in 0..m
            invariant
                m == selected@.len(),
                selected@.map_values(|p: &P| *p) == chosen,
                owned@.len() == k,
                forall|i: int|
                    0 <= i < k ==> (#[trigger] owned@[i]).spec_peer_eid() == chosen[
                        i].spec_peer_eid(),
        {
            proof {
                assert(selected@.map_values(|p: &P| *p)[k as int] == chosen[k as int]);
            }
            owned.push(selected[k].clone_peer());
        }
        Ok(owned)
    }

    /// The routes the algorithm selects for a bundle: every active route
    /// of the table, one per next hop, since a freshly wrapped bundle
    /// has been sent nowhere yet.
    pub fn select_routes_for_forwarding(&self, bundle: &Bundle) -> (r: Result<
        Vec<RouteEntry>,
        StoreError,
    >)
        ensures
            r matches Ok(v) && v@.map_values(|e: RouteEntry| e@) == crate::routing::route_selection(
                self.spec_table(),
                Set::<Seq<char>>::empty(),
            ),
    {
        let descriptor = BundleDescriptor::new(bundle.clone());
        let selected = self.algorithm.select_routes_for_forwarding(&descriptor, &self.routing_table);
        proof {
            assert(descriptor@.already_sent =~= Set::<Seq<char>>::empty());
            assert(self.spec_table() == self.routing_table@);
            assert(crate::routing::route_selection(self.routing_table@, descriptor@.already_sent)
                == crate::routing::route_selection(self.spec_table(), Set::<Seq<char>>::empty()));
        }
        Ok(selected)
    }

    /// The identifiers of all stored bundles.
    pub fn list_bundles(&self) -> (r: Result<Vec<String>, StoreError>)
        ensures
            r matches Ok(ids) && ids@.map_values(|s: String| s@) == self.spec_store()
                .active_ids(),
    {
        self.store.list()
    }

    /// The bundle whose identifier the given prefix resolves to, first
    /// match first.
    pub fn show_bundle(&self, partial_id: &str) -> (r: Result<Bundle, StoreError>)
        requires
            self.wf(),
        ensures
            match r {
                Ok(b) => exists|i: int|
                    0 <= i < self.spec_store().active_ids().len() && crate::text::is_prefix(
                        partial_id@,
                        #[trigger] self.spec_store().active_ids()[i],
                    ) && b@ == self.spec_store().active_map()[self.spec_store().active_ids()[i]]
                        && (forall|j: int|
                        0 <= j < i ==> !crate::text::is_prefix(
                            partial_id@,
                            #[trigger] self.spec_store().active_ids()[j],
                        )),
                Err(e) => e is NotFound && forall|j: int|
                    0 <= j < self.spec_store().active_ids().len() ==> !crate::text::is_prefix(
                        partial_id@,
                        #[trigger] self.spec_store().active_ids()[j],
                    ),
            },
    {
        self.store.load_by_partial_id(partial_id)
    }

    /// Status at an explicit time stamp: one bundle in full, or the
    /// counts of active and expired bundles.
    pub fn get_bundle_status_at(&self, partial_id: Option<&str>, now: u64) -> (r: Result<
        BundleStatus,
        StoreError,
    >)
        requires
            self.wf(),
        ensures
            match partial_id {
                Some(pid) => match r {
                    Ok(st) => st matches BundleStatus::Single { id, bundle } && id@ == pid@
                        && exists|i: int|
                        0 <= i < self.spec_store().active_ids().len() && crate::text::is_prefix(
                            pid@,
                            #[trigger] self.spec_store().active_ids()[i],
                        ) && bundle@ == self.spec_store().active_map()[self.spec_store()
                            .active_ids()[i]] && (forall|j: int|
                            0 <= j < i ==> !crate::text::is_prefix(
                                pid@,
                                #[trigger] self.spec_store().active_ids()[j],
                            )),
                    Err(e) => e is NotFound && forall|j: int|
                        0 <= j < self.spec_store().active_ids().len()
                            ==> !crate::text::is_prefix(
                            pid@,
                            #[trigger] self.spec_store().active_ids()[j],
                        ),
                },
                None => r matches Ok(st) && st matches BundleStatus::Summary {
                    active,
                    expired,
                    total,
                } && expired == count_expired(self.spec_store().active_seq(), now) && active
                    + expired == total && total == self.spec_store().active_seq().len(),
            },
    {
        match partial_id {
            Some(pid) => {
                match self.store.load_by_partial_id(pid) {
                    Ok(bundle) => Ok(BundleStatus::Single { id: pid.to_owned(), bundle }),
                    Err(e) => Err(e),
                }
            },
            None => {
                let counts = self.store.expired_counts_at(now);
                let active = counts.0;
                let expired = counts.1;
                let total = active + expired;
                Ok(BundleStatus::Summary { active, expired, total })
            },
        }
    }

    /// Status against the system clock; the decision for a given time
    /// stamp is [`DtnNode::get_bundle_status_at`].
    pub fn get_bundle_status(&self, partial_id: Option<&str>) -> (r: Result<
        BundleStatus,
        StoreError,
    >)
        requires
            self.wf(),
        ensures
            match partial_id {
                Some(pid) => match r {
                    Ok(st) => st matches BundleStatus::Single { id, bundle } && id@ == pid@
                        && exists|i: int|
                        0 <= i < self.spec_store().active_ids().len() && crate::text::is_prefix(
                            pid@,
                            #[trigger] self.spec_store().active_ids()[i],
                        ) && bundle@ == self.spec_store().active_map()[self.spec_store()
                            .active_ids()[i]] && (forall|j: int|
                            0 <= j < i ==> !crate::text::is_prefix(
                                pid@,
                                #[trigger] self.spec_store().active_ids()[j],
                            )),
                    Err(e) => e is NotFound && forall|j: int|
                        0 <= j < self.spec_store().active_ids().len()
                            ==> !crate::text::is_prefix(
                            pid@,
                            #[trigger] self.spec_store().active_ids()[j],
                        ),
                },
                None => r matches Ok(st) && st matches BundleStatus::Summary {
                    active,
                    expired,
                    total,
                } && active + expired == total && total == self.spec_store().active_seq().len()
                    && exists|now: u64|
                    expired == count_expired(self.spec_store().active_seq(), now),
            },
    {
        let now = crate::config::generate_creation_timestamp();
        self.get_bundle_status_at(partial_id, now)
    }

    /// Purge expired bundles from the store.
    pub fn cleanup_expired(&mut self) -> (r: Result<(), StoreError>)
        requires
            old(self).wf(),
        ensures
            r is Ok,
            final(self).wf(),
            final(self).spec_table() == old(self).spec_table(),
            final(self).spec_path() == old(self).spec_path(),
            final(self).spec_store().dispatched_seq() == old(self).spec_store().dispatched_seq(),
            exists|now: u64|
                final(self).spec_store().active_seq() == live_entries(
                    old(self).spec_store().active_seq(),
                    now,
                ),
    {
        self.store.cleanup_expired()
    }
}

impl Default for DtnNode {
    /// A node over the default store directory.
    fn default() -> (r: DtnNode)
        ensures
            r.spec_fresh("./bundles"@),
    {
        DtnNode::build("./bundles", Config::default())
    }
}

} // verus!
