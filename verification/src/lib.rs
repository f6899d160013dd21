//! A store-and-forward bundle networking node: content-addressed bundle
//! storage with expiration and dispatch, a cost-based routing table with
//! pluggable routing algorithms (epidemic flooding), peer registry
//! management, and the length-prefixed framing protocol used to exchange
//! bundles over a reliable byte stream.

pub mod endpoint;
pub mod text;
pub mod consts;
pub mod bundle;
pub mod config;
pub mod descriptor;
pub mod peer;
pub mod routing;
pub mod epidemic;
pub mod digest;
pub mod store;
pub mod framing;
pub mod manager;
pub mod node;
pub mod types;
pub mod convenience;

pub use bundle::Bundle;
pub use endpoint::EndpointId;
pub use node::DtnNode;
pub use store::BundleStore;
pub use types::BundleStatus;
