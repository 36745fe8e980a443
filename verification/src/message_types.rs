//! Wire message type registry.
use vstd::prelude::*;

verus! {

// Protocol core (1-3)
pub const OFFER: u64 = 1;
pub const CONFIRM: u64 = 2;
pub const CLOSE: u64 = 3;
// core.session.heartbeat.1 (4-5)
pub const PING: u64 = 4;
pub const PONG: u64 = 5;
// core.session.attest.1 (6)
pub const BUILD_ATTEST: u64 = 6;
// core.session.timesync.1 (7-8)
pub const TIME_REQ: u64 = 7;
pub const TIME_RESP: u64 = 8;
// core.session.latency.1 (9-10)
pub const LAT_PING: u64 = 9;
pub const LAT_PONG: u64 = 10;
// core.network.endpoint.1 (11-12)
pub const WHOAMI_REQ: u64 = 11;
pub const WHOAMI_RESP: u64 = 12;
// core.network.relay.1 (13-15)
pub const CIRCUIT_OPEN: u64 = 13;
pub const CIRCUIT_DATA: u64 = 14;
pub const CIRCUIT_CLOSE: u64 = 15;
// core.network.peerexchange.1 (16-17)
pub const PEX_REQ: u64 = 16;
pub const PEX_RESP: u64 = 17;
// core.data.blob.1 (18-21)
pub const BLOB_REQ: u64 = 18;
pub const BLOB_OFFER: u64 = 19;
pub const BLOB_CHUNK: u64 = 20;
pub const BLOB_ACK: u64 = 21;
// core.data.rpc.1 (22-23)
pub const RPC_REQ: u64 = 22;
pub const RPC_RESP: u64 = 23;
// core.data.event.1 (24-26)
pub const EVENT_SUB: u64 = 24;
pub const EVENT_UNSUB: u64 = 25;
pub const EVENT_MSG: u64 = 26;
// core.data.stream.1 (27-30)
pub const STREAM_OPEN: u64 = 27;
pub const STREAM_DATA: u64 = 28;
pub const STREAM_CLOSE: u64 = 29;
pub const STREAM_CONTROL: u64 = 30;
// 31-35: reserved for v2 core extensions; 36+: application-defined

} // verus!
