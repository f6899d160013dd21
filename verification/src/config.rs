//! Node configuration values: bundle defaults, local endpoint identities,
//! the storage path, and the chosen routing algorithm name. Reading a
//! configuration from disk or the environment is the runtime shell's job;
//! here stand the values themselves and the rules applied to them.

use vstd::prelude::*;
use vstd::string::*;

verus! {

/// Bundle defaults: protocol version and lifetime in seconds.
#[derive(Debug)]
pub struct BundleConfig {
    pub version: u8,
    pub lifetime: u64,
}

/// The local endpoint identities new bundles are stamped with.
#[derive(Debug)]
pub struct EndpointsConfig {
    pub destination: String,
    pub source: String,
    pub report_to: String,
}

/// Where the bundle store lives and how large it may grow.
#[derive(Debug)]
pub struct StorageConfig {
    pub path: String,
    pub max_size: u64,
}

/// The routing algorithm, by name.
#[derive(Debug)]
pub struct RoutingConfig {
    pub algorithm: String,
}

/// A node's full configuration.
#[derive(Debug)]
pub struct Config {
    pub bundle: BundleConfig,
    pub endpoints: EndpointsConfig,
    pub storage: StorageConfig,
    pub routing: RoutingConfig,
}

/// Whether `s` equals `kw` up to ASCII case, where `kw` is all lowercase
/// ASCII letters.
pub open spec fn spec_matches_keyword(s: Seq<char>, kw: Seq<char>) -> bool {
    s.len() == kw.len() && forall|i: int|
        0 <= i < s.len() ==> (#[trigger] s[i] == kw[i] || s[i] as u32 + 32 == kw[i] as u32)
}

/// Case-insensitive comparison against an all-lowercase ASCII keyword.
pub fn matches_keyword(s: &str, kw: &str) -> (r: bool)
    requires
        forall|i: int| 0 <= i < kw@.len() ==> 'a' <= #[trigger] kw@[i] <= 'z',
    ensures
        r == spec_matches_keyword(s@, kw@),
{
    let n = s.unicode_len();
    if n != kw.unicode_len() {
        return false;
    }
    for i in 0..n
        invariant
            n == s@.len() == kw@.len(),
            forall|j: int|
                0 <= j < i ==> (#[trigger] s@[j] == kw@[j] || s@[j] as u32 + 32 == kw@[j] as u32),
            forall|j: int| 0 <= j < kw@.len() ==> 'a' <= #[trigger] kw@[j] <= 'z',
    {
        let c = s.get_char(i);
        let k = kw.get_char(i);
        if !(c == k || (c as u32) + 32 == (k as u32)) {
            return false;
        }
    }
    true
}

/// The built-in configuration values: version 7 bundles with a one-hour
/// lifetime, the local endpoint identities, a `bundles` storage
/// directory of bounded size, and epidemic routing.
pub open spec fn spec_default_config(c: Config) -> bool {
    &&& c.bundle.version == 7
    &&& c.bundle.lifetime == 3600
    &&& c.endpoints.destination@ == "dtn://dest"@
    &&& c.endpoints.source@ == "dtn://src"@
    &&& c.endpoints.report_to@ == "dtn://report"@
    &&& c.storage.path@ == "bundles"@
    &&& c.storage.max_size == 1024
    &&& c.routing.algorithm@ == "epidemic"@
}

impl Config {
    /// The algorithm that the configured name selects: `prophet` (in any
    /// ASCII case) selects the probabilistic scheme; every other name,
    /// the unrecognized ones included, falls back to epidemic flooding.
    pub open spec fn spec_algorithm_type(self) -> crate::routing::RoutingAlgorithmType {
        if spec_matches_keyword(self.routing.algorithm@, "prophet"@) {
            crate::routing::RoutingAlgorithmType::Prophet
        } else {
            crate::routing::RoutingAlgorithmType::Epidemic
        }
    }

    /// Map the configured algorithm name to an algorithm type.
    pub fn get_routing_algorithm_type(&self) -> (r: crate::routing::RoutingAlgorithmType)
        ensures
            r == self.spec_algorithm_type(),
    {
        proof {
            reveal_strlit("prophet");
        }
        if matches_keyword(self.routing.algorithm.as_str(), "prophet") {
            crate::routing::RoutingAlgorithmType::Prophet
        } else {
            crate::routing::RoutingAlgorithmType::Epidemic
        }
    }

    /// The built-in configuration: version 7 bundles with a one-hour
    /// lifetime, the local endpoint identities, a `bundles` storage
    /// directory, and epidemic routing.
    pub fn test_config() -> (r: Config)
        ensures
            spec_default_config(r),
    {
        Config {
            bundle: BundleConfig { version: 7, lifetime: 3600 },
            endpoints: EndpointsConfig {
                destination: String::from_str("dtn://dest"),
                source: String::from_str("dtn://src"),
                report_to: String::from_str("dtn://report"),
            },
            storage: StorageConfig { path: String::from_str("bundles"), max_size: 1024 },
            routing: RoutingConfig { algorithm: String::from_str("epidemic") },
        }
    }
}

impl Default for Config {
    /// The same values as [`Config::test_config`].
    fn default() -> (r: Config)
        ensures
            spec_default_config(r),
    {
        Config::test_config()
    }
}

/// Relies on `std::time::SystemTime`: the wall-clock seconds since the
/// Unix epoch, or zero if the clock stands before the epoch. Nothing can
/// be promised of a clock reading.
#[verifier::external_body]
pub fn generate_creation_timestamp() -> u64 {
    match std::time::SystemTime::now().duration_since(std::time::UNIX_EPOCH) {
        Ok(elapsed) => elapsed.as_secs(),
        Err(_) => 0,
    }
}

} // verus!
