//! Shared constants: bundle defaults, store directories, and the tag
//! strings used by the transports.

use vstd::prelude::*;

pub mod ble;
pub mod tcp;

verus! {

pub const DEFAULT_VERSION: u8 = 7;

pub const DEFAULT_LIFETIME: u64 = 3600;

pub const DEFAULT_REPORT_TO: &'static str = "none";

pub const BUNDLES_DIR: &'static str = "./bundles";

pub const DISPATCHED_DIR: &'static str = "./dispatched";

} // verus!
