//! CBOR integer map keys of the protocol message envelope.
use vstd::prelude::*;

verus! {

pub const MESSAGE_TYPE: u64 = 1;
/// OFFER: the sender's manifest.
pub const MANIFEST: u64 = 2;
/// CONFIRM and CLOSE: the sender's personal hash.
pub const PERSONAL_HASH: u64 = 3;
/// CONFIRM: the active set.
pub const ACTIVE_SET: u64 = 4;
/// CONFIRM: the accepted scope parameters.
pub const ACCEPTED_PARAMS: u64 = 5;
/// CLOSE: the reason.
pub const REASON: u64 = 6;
/// PING and PONG: the timestamp.
pub const TIMESTAMP: u64 = 7;
/// Reserved key for an opaque capability payload.
pub const PAYLOAD: u64 = 8;

} // verus!
