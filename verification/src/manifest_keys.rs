//! CBOR integer map keys of a discovery manifest.
use vstd::prelude::*;

verus! {

pub const PROTOCOL_VERSION: u64 = 1;
pub const PEER_ID: u64 = 2;
pub const SEQUENCE_NUM: u64 = 3;
pub const CAPABILITIES: u64 = 4;
pub const PERSONAL_HASH: u64 = 5;
pub const HASH_ALGORITHM: u64 = 6;

} // verus!
