//! Status reporting types of the node API.

use vstd::prelude::*;

use crate::bundle::Bundle;

verus! {

/// What the node knows about stored bundles: one bundle in full, or the
/// counts of active and expired bundles.
#[derive(Debug)]
pub enum BundleStatus {
    /// Status of a single bundle.
    Single { id: String, bundle: Bundle },
    /// Summary status of all bundles.
    Summary { active: usize, expired: usize, total: usize },
}

} // verus!
