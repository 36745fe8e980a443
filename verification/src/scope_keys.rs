//! CBOR integer map keys of scope parameters.
use vstd::prelude::*;

verus! {

pub const RATE_LIMIT: u64 = 1;
pub const TTL: u64 = 2;
// Core capability-specific params (keys 3-23)
pub const HEARTBEAT_INTERVAL_MS: u64 = 3;
pub const HEARTBEAT_TIMEOUT_MS: u64 = 4;
pub const TIMESYNC_PRECISION_MS: u64 = 5;
pub const LATENCY_SAMPLE_INTERVAL_MS: u64 = 6;
pub const LATENCY_WINDOW_SIZE: u64 = 7;
pub const ENDPOINT_INCLUDE_GEO: u64 = 8;
pub const RELAY_MAX_CIRCUITS: u64 = 9;
pub const RELAY_MAX_BANDWIDTH_KBPS: u64 = 10;
pub const RELAY_TTL: u64 = 11;
pub const PEX_MAX_PEERS: u64 = 12;
pub const PEX_INCLUDE_CAPABILITIES: u64 = 13;
pub const STREAM_BITRATE_KBPS: u64 = 14;
pub const STREAM_CODEC: u64 = 15;
pub const BLOB_MAX_BYTES: u64 = 16;
pub const BLOB_CHUNK_SIZE: u64 = 17;
pub const BLOB_HASH_ALGORITHM: u64 = 18;
pub const RPC_MAX_REQUEST_BYTES: u64 = 19;
pub const RPC_MAX_RESPONSE_BYTES: u64 = 20;
pub const RPC_METHODS: u64 = 21;
pub const EVENT_TOPICS: u64 = 22;
pub const EVENT_MAX_PAYLOAD_BYTES: u64 = 23;
// core.data.stream.1 (keys 24-26)
pub const STREAM_MAX_CONCURRENT: u64 = 24;
pub const STREAM_MAX_FRAME_BYTES: u64 = 25;
pub const STREAM_TIMEOUT_SECS: u64 = 26;

} // verus!
