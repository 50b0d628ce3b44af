//! Mixed-case checksum encoding of EVM account addresses, and a resumable
//! scan of recent blocks for the transactions that touch one address.

pub mod codec;
pub mod scan;
