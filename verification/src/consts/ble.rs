//! Identifiers of the GATT service used by the short-range-radio transport.

use vstd::prelude::*;

verus! {

pub const SERVICE_UUID: &'static str = "12345678-1234-5678-1234-56789abcdef0";

pub const WRITE_CHAR_UUID: &'static str = "12345678-1234-5678-1234-56789abcdef1";

pub const NOTIFY_CHAR_UUID: &'static str = "12345678-1234-5678-1234-56789abcdef2";

pub const ADV_NAME: &'static str = "spacearth-dtn-ble";

/// The acknowledgment bytes `ACK\n` written back after a received frame.
pub fn ack() -> (r: Vec<u8>)
    ensures
        r@ == seq![65u8, 67u8, 75u8, 10u8],
{
    let mut r: Vec<u8> = Vec::new();
    r.push(65);
    r.push(67);
    r.push(75);
    r.push(10);
    proof {
        assert(r@ =~= seq![65u8, 67u8, 75u8, 10u8]);
    }
    r
}

} // verus!
