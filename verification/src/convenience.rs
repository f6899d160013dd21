//! One-call helpers over a default node. Each builds a fresh node with
//! the built-in settings, so they are for quick, self-contained use;
//! an application that wants state to accumulate keeps its own node.

use vstd::prelude::*;

use crate::bundle::Bundle;
use crate::node::DtnNode;
use crate::store::StoreError;

verus! {

/// Insert one bundle carrying `message` into a fresh default node.
pub fn insert_bundle_quick(message: &str) -> (r: Result<(), StoreError>)
    ensures
        r is Ok,
{
    let mut node = match DtnNode::new() {
        Ok(n) => n,
        Err(e) => {
            return Err(e);
        },
    };
    node.insert_bundle(message.to_owned())
}

/// The listing of a fresh default node: empty.
pub fn list_bundles_quick() -> (r: Result<Vec<String>, StoreError>)
    ensures
        r matches Ok(ids) && ids@.len() == 0,
{
    let node = match DtnNode::new() {
        Ok(n) => n,
        Err(e) => {
            return Err(e);
        },
    };
    let r = node.list_bundles();
    proof {
        assert(node.spec_store().active_ids().len() == node.spec_store().active_seq().len());
    }
    r
}

/// Resolve a bundle prefix against a fresh default node: nothing is
/// stored there, so this always fails not-found.
pub fn show_bundle_quick(partial_id: &str) -> (r: Result<Bundle, StoreError>)
    ensures
        r matches Err(e) && e is NotFound,
{
    let node = match DtnNode::new() {
        Ok(n) => n,
        Err(e) => {
            return Err(e);
        },
    };
    node.show_bundle(partial_id)
}

} // verus!
