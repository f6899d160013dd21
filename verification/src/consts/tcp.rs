//! Acknowledgment strings used by the stream transport.

use vstd::prelude::*;

verus! {

pub const ACK: &'static str = "ACK";

pub const OK: &'static str = "OK";

pub const SUCCESS: &'static str = "SUCCESS";

pub const RECEIVED: &'static str = "RECEIVED";

} // verus!
