//! Forwarding bookkeeping for one bundle: which neighbors have already
//! received it and how many forwarding rounds it has been through.

use vstd::prelude::*;
use vstd::string::*;

use crate::bundle::{Bundle, BundleView};
use crate::endpoint::EndpointId;

verus! {

/// Wraps one bundle by value together with its transient forwarding
/// state. Only the bundle itself is durable; the descriptor is created
/// when a bundle is handed to the routing layer and discarded when the
/// bookkeeping is no longer needed.
#[derive(Debug)]
pub struct BundleDescriptor {
    pub bundle: Bundle,
    pub already_sent: Vec<EndpointId>,
    pub forwarding_attempts: u32,
    pub created_at: u64,
}

/// The mathematical value of a descriptor: the bundle, the set of
/// endpoints already sent to (order is irrelevant), the attempt counter,
/// and the local creation stamp.
#[verifier::ext_equal]
pub ghost struct DescriptorView {
    pub bundle: BundleView,
    pub already_sent: Set<Seq<char>>,
    pub forwarding_attempts: u32,
    pub created_at: u64,
}

impl View for BundleDescriptor {
    type V = DescriptorView;

    open spec fn view(&self) -> DescriptorView {
        DescriptorView {
            bundle: self.bundle@,
            already_sent: self.already_sent@.map_values(|e: EndpointId| e@).to_set(),
            forwarding_attempts: self.forwarding_attempts,
            created_at: self.created_at,
        }
    }
}

/// The logical identity string of a bundle, `{source}-{creation_timestamp}`,
/// used for diagnostics and routing-layer deduplication. It is deliberately
/// distinct from the store's content digest.
pub open spec fn spec_logical_id(b: BundleView) -> Seq<char> {
    b.source + "-"@ + crate::text::dec_chars_of(b.creation_timestamp as nat)
}

impl Clone for BundleDescriptor {
    fn clone(&self) -> (r: Self)
        ensures
            r@ == self@,
    {
        let mut sent: Vec<EndpointId> = Vec::new();
        let n = self.already_sent.len();
        for i in 0..n
            invariant
                n == self.already_sent@.len(),
                sent@.len() == i,
                forall|j: int| 0 <= j < i ==> sent@[j]@ == self.already_sent@[j]@,
        {
            sent.push(self.already_sent[i].clone());
        }
        let r = BundleDescriptor {
            bundle: self.bundle.clone(),
            already_sent: sent,
            forwarding_attempts: self.forwarding_attempts,
            created_at: self.created_at,
        };
        proof {
            assert(r.already_sent@.map_values(|e: EndpointId| e@) =~= self.already_sent@
                .map_values(|e: EndpointId| e@));
            assert(r@ =~= self@);
        }
        r
    }
}

impl BundleDescriptor {
    /// Take ownership of a bundle and start with empty forwarding state;
    /// `created_at` is stamped from the system clock.
    pub fn new(bundle: Bundle) -> (r: Self)
        ensures
            r@.bundle == bundle@,
            r@.already_sent =~= Set::<Seq<char>>::empty(),
            r@.forwarding_attempts == 0,
    {
        let now = crate::config::generate_creation_timestamp();
        let r = BundleDescriptor {
            bundle,
            already_sent: Vec::new(),
            forwarding_attempts: 0,
            created_at: now,
        };
        proof {
            assert(r@.already_sent =~= Set::<Seq<char>>::empty());
        }
        r
    }

    /// Record that the bundle went to `eid`; idempotent, and the set of
    /// endpoints already sent to only grows.
    pub fn mark_sent(&mut self, eid: EndpointId)
        ensures
            final(self)@.already_sent == old(self)@.already_sent.insert(eid@),
            final(self)@.bundle == old(self)@.bundle,
            final(self)@.forwarding_attempts == old(self)@.forwarding_attempts,
            final(self)@.created_at == old(self)@.created_at,
            old(self)@.already_sent.subset_of(final(self)@.already_sent),
    {
        if self.has_been_sent_to(&eid) {
            proof {
                assert(self@.already_sent =~= old(self)@.already_sent.insert(eid@));
            }
        } else {
            self.already_sent.push(eid);
            proof {
                let mapped = self.already_sent@.map_values(|e: EndpointId| e@);
                let old_mapped = old(self).already_sent@.map_values(|e: EndpointId| e@);
                assert(mapped =~= old_mapped.push(eid@));
                assert forall|x: Seq<char>| mapped.to_set().contains(x) implies old_mapped
                    .to_set().insert(eid@).contains(x) by {
                    let i = choose|i: int| 0 <= i < mapped.len() && mapped[i] == x;
                    if i < old_mapped.len() {
                        assert(old_mapped.to_set().contains(x));
                    }
                }
                assert forall|x: Seq<char>| old_mapped.to_set().insert(eid@).contains(x)
                    implies mapped.to_set().contains(x) by {
                    if old_mapped.to_set().contains(x) {
                        let i = choose|i: int| 0 <= i < old_mapped.len() && old_mapped[i] == x;
                        assert(mapped[i] == x);
                    } else {
                        assert(mapped[mapped.len() - 1] == eid@);
                    }
                }
                assert(self@.already_sent =~= old(self)@.already_sent.insert(eid@));
            }
        }
    }

    /// The endpoints this bundle has already been sent to.
    pub fn get_already_sent(&self) -> (r: &Vec<EndpointId>)
        ensures
            r@.map_values(|e: EndpointId| e@).to_set() == self@.already_sent,
    {
        &self.already_sent
    }

    /// Whether the bundle already went to `eid`; routing consults this to
    /// avoid forwarding twice to the same neighbor.
    pub fn has_been_sent_to(&self, eid: &EndpointId) -> (r: bool)
        ensures
            r == self@.already_sent.contains(eid@),
    {
        let n = self.already_sent.len();
        for i in 0..n
            invariant
                n == self.already_sent@.len(),
                forall|j: int| 0 <= j < i ==> self.already_sent@[j]@ != eid@,
        {
            if &self.already_sent[i] == eid {
                proof {
                    let mapped = self.already_sent@.map_values(|e: EndpointId| e@);
                    assert(mapped[i as int] == eid@);
                }
                return true;
            }
        }
        proof {
            let mapped = self.already_sent@.map_values(|e: EndpointId| e@);
            assert(forall|j: int| 0 <= j < mapped.len() ==> mapped[j] != eid@);
        }
        false
    }

    /// Count one more forwarding round.
    pub fn increment_forwarding_attempts(&mut self)
        requires
            old(self).forwarding_attempts < u32::MAX,
        ensures
            final(self)@.forwarding_attempts == old(self)@.forwarding_attempts + 1,
            final(self)@.bundle == old(self)@.bundle,
            final(self)@.already_sent == old(self)@.already_sent,
            final(self)@.created_at == old(self)@.created_at,
    {
        self.forwarding_attempts = self.forwarding_attempts + 1;
    }

    /// The number of forwarding rounds so far.
    pub fn get_forwarding_attempts(&self) -> (r: u32)
        ensures
            r == self@.forwarding_attempts,
    {
        self.forwarding_attempts
    }

    /// Forwarding readiness against an explicit time stamp: the bundle is
    /// not expired and the attempt budget is not used up.
    pub fn is_ready_for_forwarding_at(&self, now: u64, max_attempts: u32) -> (r: bool)
        ensures
            r == (!self@.bundle.expired_at(now) && self@.forwarding_attempts < max_attempts),
    {
        !self.bundle.is_expired_at(now) && self.forwarding_attempts < max_attempts
    }

    /// Forwarding readiness against the system clock; the decision for a
    /// given time stamp is [`BundleDescriptor::is_ready_for_forwarding_at`].
    pub fn is_ready_for_forwarding(&self, max_attempts: u32) -> (r: bool)
        ensures
            r ==> self@.forwarding_attempts < max_attempts,
    {
        let now = crate::config::generate_creation_timestamp();
        self.is_ready_for_forwarding_at(now, max_attempts)
    }

    /// The logical identity string `{source}-{creation_timestamp}`.
    pub fn get_bundle_id(&self) -> (r: String)
        ensures
            r@ == spec_logical_id(self@.bundle),
    {
        let digits = crate::text::u64_dec_bytes(self.bundle.primary.creation_timestamp);
        proof {
            crate::text::lemma_dec_bytes_ascii(self.bundle.primary.creation_timestamp as nat);
        }
        let digits_str = crate::text::ascii_to_string(digits);
        let mut r = self.bundle.primary.source.clone();
        r.append("-");
        r.append(digits_str.as_str());
        r
    }
}

} // verus!
