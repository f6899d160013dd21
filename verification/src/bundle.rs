//! The bundle: the store-and-forward message unit, a primary block of
//! routing metadata plus an opaque payload.

use vstd::prelude::*;

verus! {

/// The primary block: the fields routing and lifetime handling need.
#[derive(Debug)]
pub struct PrimaryBlock {
    pub version: u8,
    pub destination: String,
    pub source: String,
    pub report_to: String,
    pub creation_timestamp: u64,
    pub lifetime: u64,
}

/// A bundle: primary block plus raw payload bytes, opaque to routing.
#[derive(Debug)]
pub struct Bundle {
    pub primary: PrimaryBlock,
    pub payload: Vec<u8>,
}

/// The mathematical value of a bundle: its primary fields over character
/// sequences, and the payload as a byte sequence.
#[verifier::ext_equal]
pub ghost struct BundleView {
    pub version: u8,
    pub destination: Seq<char>,
    pub source: Seq<char>,
    pub report_to: Seq<char>,
    pub creation_timestamp: u64,
    pub lifetime: u64,
    pub payload: Seq<u8>,
}

impl BundleView {
    /// Whether the bundle is expired at wall-clock time `now` (seconds
    /// since the epoch): strictly past `creation_timestamp + lifetime`.
    pub open spec fn expired_at(self, now: u64) -> bool {
        now > self.creation_timestamp + self.lifetime
    }
}

impl View for Bundle {
    type V = BundleView;

    open spec fn view(&self) -> BundleView {
        BundleView {
            version: self.primary.version,
            destination: self.primary.destination@,
            source: self.primary.source@,
            report_to: self.primary.report_to@,
            creation_timestamp: self.primary.creation_timestamp,
            lifetime: self.primary.lifetime,
            payload: self.payload@,
        }
    }
}

impl Clone for PrimaryBlock {
    fn clone(&self) -> (r: Self)
        ensures
            r.version == self.version,
            r.destination@ == self.destination@,
            r.source@ == self.source@,
            r.report_to@ == self.report_to@,
            r.creation_timestamp == self.creation_timestamp,
            r.lifetime == self.lifetime,
    {
        PrimaryBlock {
            version: self.version,
            destination: self.destination.clone(),
            source: self.source.clone(),
            report_to: self.report_to.clone(),
            creation_timestamp: self.creation_timestamp,
            lifetime: self.lifetime,
        }
    }
}

impl Clone for Bundle {
    fn clone(&self) -> (r: Self)
        ensures
            r@ == self@,
    {
        let r = Bundle { primary: self.primary.clone(), payload: crate::text::clone_bytes(&self.payload) };
        proof {
            assert(r@ =~= self@);
        }
        r
    }
}

impl Bundle {
    /// Build a bundle with the default version (7), lifetime (3600 s) and
    /// null report-to endpoint, stamped with the current wall-clock time.
    pub fn new(source: &str, destination: &str, payload: Vec<u8>) -> (r: Bundle)
        ensures
            r@.version == 7,
            r@.source == source@,
            r@.destination == destination@,
            r@.report_to == "none"@,
            r@.lifetime == 3600,
            r@.payload == payload@,
    {
        let creation_timestamp = crate::config::generate_creation_timestamp();
        Bundle {
            primary: PrimaryBlock {
                version: 7,
                source: source.to_owned(),
                destination: destination.to_owned(),
                report_to: "none".to_owned(),
                creation_timestamp,
                lifetime: 3600,
            },
            payload,
        }
    }

    /// Expiry test against an explicit time stamp.
    pub fn is_expired_at(&self, now: u64) -> (r: bool)
        ensures
            r == self@.expired_at(now),
    {
        match self.primary.creation_timestamp.checked_add(self.primary.lifetime) {
            Some(deadline) => now > deadline,
            None => false,
        }
    }

    /// Expiry test against the system clock; the decision for a given
    /// time stamp is [`Bundle::is_expired_at`].
    pub fn is_expired(&self) -> bool {
        let now = crate::config::generate_creation_timestamp();
        self.is_expired_at(now)
    }
}

/// A bundle is not expired at any time up to the end of its lifetime, and
/// is expired at every later time. In particular, with a positive
/// lifetime a bundle is not expired at its own creation instant.
pub proof fn lemma_bundle_expiry(b: BundleView, now: u64)
    ensures
        now <= b.creation_timestamp + b.lifetime ==> !b.expired_at(now),
        now > b.creation_timestamp + b.lifetime ==> b.expired_at(now),
        now == b.creation_timestamp && b.lifetime > 0 ==> !b.expired_at(now),
{
}

} // verus!
