//! Rules shared by the command-line tools.

use vstd::prelude::*;

verus! {

/// The server number and range index of a server id: ids from 1 000 000
/// and from 2 000 000 are ranges 1 and 2; the number is the offset in the
/// range less 27 (not below 0).
pub fn decode_server(server_id: u64) -> (r: (u64, u64))
    ensures
        r.0 == crate::config::server_number(server_id).0,
        r.1 == crate::config::server_number(server_id).1,
{
    let mut sid = server_id;
    let idx: u64 = if sid >= 2_000_000 {
        sid = sid - 2_000_000;
        2
    } else if sid >= 1_000_000 {
        sid = sid - 1_000_000;
        1
    } else {
        0
    };
    (sid.saturating_sub(27), idx)
}

} // verus!
