//! What both ends of the tunnel share: the commands to an agent and the counting of traffic.
use vstd::prelude::*;

verus! {

/// A command from the server to an agent.
#[derive(Debug)]
pub enum TunnelCmd {
    /// Open a data connection for the request with this number.
    RequireConn(u32),
    /// Connect to a target and open a data connection under this token.
    Open { token: [u8; 16], target: Vec<u8> },
    /// Start a UDP session with the server's port.
    UdpSession(u16),
    /// Change the device's public address.
    ResetIp,
}

/// A traffic total after more bytes; it starts again at zero where it outgrows its type.
pub open spec fn counted(total: u64, bytes: usize) -> u64 {
    ((total + bytes) % 0x1_0000_0000_0000_0000) as u64
}

/// A traffic total after more bytes.
pub fn count(total: u64, bytes: usize) -> (res: u64)
    ensures
        res == counted(total, bytes),
{
    let sum: u128 = (total as u128) + (bytes as u128);
    (sum % 0x1_0000_0000_0000_0000) as u64
}

/// What is counted is added to the total; a total that does not fit any more starts again from
/// nothing.
pub proof fn law_traffic_adds_up(total: u64, first: usize, second: usize)
    ensures
        total + first <= u64::MAX ==> counted(total, first) == total + first,
        total + first + second <= u64::MAX ==> counted(counted(total, first), second) == total
            + first + second,
        total + first > u64::MAX ==> counted(total, first) == total + first - u64::MAX - 1,
{
}

} // verus!
