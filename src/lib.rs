//! Decoding of the binary payloads of an on-chain program from its interface schema:
//! instruction call data, account storage and emitted events.
use vstd::prelude::*;

pub mod accounts;
pub mod compile;
pub mod decode;
pub mod dispatch;
pub mod document;
pub mod idl;
pub mod laws;
pub mod naming;
pub mod schema;

verus! {

/// Number of bytes in every discriminator.
pub const DISC_LEN: usize = 8;

} // verus!
