//! CBOR integer map keys of a capability declaration.
use vstd::prelude::*;

verus! {

pub const NAME: u64 = 1;
pub const ROLE: u64 = 2;
pub const MUTUAL: u64 = 3;
/// Reserved for the local classification, which never appears on the wire.
pub const CLASSIFICATION: u64 = 4;
pub const SCOPE: u64 = 5;
pub const APPLICABLE_SCOPE_KEYS: u64 = 6;

} // verus!
