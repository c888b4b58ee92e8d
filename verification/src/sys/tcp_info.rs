//! What `TCP_INFO` tells about an upstream socket.

use vstd::prelude::*;

verus! {

/// Where `tcpi_bytes_acked` ends in the structure that the kernel fills.
pub const BYTES_ACKED_END: usize = 128;

#[derive(Clone, Copy, Debug, PartialEq, Eq, Structural)]
pub enum TcpInfoError {
    /// The kernel's structure is too short to hold `tcpi_bytes_acked`; Linux
    /// 6.6 or newer is needed.
    Unsupported,
}

/// The acknowledged byte count, if the kernel filled it in.
pub fn decode_bytes_acked(bytes_acked: u64, returned_len: usize) -> (result: Result<
    u64,
    TcpInfoError,
>)
    ensures
        match result {
            Ok(count) => returned_len >= BYTES_ACKED_END && count == bytes_acked,
            Err(error) => returned_len < BYTES_ACKED_END && error == TcpInfoError::Unsupported,
        },
{
    if returned_len < BYTES_ACKED_END {
        return Err(TcpInfoError::Unsupported);
    }
    Ok(bytes_acked)
}

} // verus!
