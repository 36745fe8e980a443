//! The peer configuration: its sections and defaults, capability-name
//! validation, and what a configuration turns into (manifest, trust policies).
use vstd::prelude::*;

use crate::codec::{hash_basis, manifest_cbor, personal_hash, sha256_digest};
use crate::cbor_value::cbor_encoding;
use crate::encoding::{b64_decode, b64_encode, base64_decoded, base64_encoded};
use crate::manifest::{
    cap_name_key, caps_model, sort_caps_by_name, CapModel, CapabilityDeclaration, DiscoveryManifest,
    ManifestModel, PeerId,
};
use crate::scope::{ClassificationTier, ScopeModel, ScopeParams, TrustPolicy};
use crate::sorting::sort_by_key;
use crate::paths::{join, path_join};
use crate::strings::{decimal_value, digit_value};
use crate::wire::Role;

verus! {

/// Identity section.
#[derive(Debug, Clone)]
pub struct IdentityConfig {
    /// Path to WireGuard private key file (derive public key from this).
    pub wireguard_private_key_file: Option<String>,
    /// Alternatively, specify the WireGuard interface to read the key from.
    pub wireguard_interface: Option<String>,
    /// Human-readable display name (not transmitted in protocol).
    pub display_name: String,
}

/// Protocol section.
#[derive(Debug, Clone)]
pub struct ProtocolConfig {
    /// Protocol version (must be 1).
    pub version: u64,
    /// IANA hash algorithm name (e.g. "sha-256").
    pub hash_algorithm: String,
}

pub fn default_protocol_version() -> (r: u64)
    ensures
        r == 1,
{
    1
}

pub fn default_hash_algorithm() -> (r: String)
    ensures
        r@ == "sha-256"@,
{
    "sha-256".to_owned()
}

impl Default for ProtocolConfig {
    fn default() -> (r: Self)
        ensures
            r.version == 1,
            r.hash_algorithm@ == "sha-256"@,
    {
        ProtocolConfig { version: default_protocol_version(), hash_algorithm: default_hash_algorithm() }
    }
}

/// Transport section.
#[derive(Debug, Clone)]
pub struct TransportConfig {
    /// TCP port for the session protocol (default 7654).
    pub listen_port: u16,
    /// WireGuard interface name.
    pub wireguard_interface: String,
    /// HTTP port for daemon management API (default 7000).
    pub http_port: u16,
}

pub fn default_listen_port() -> (r: u16)
    ensures
        r == 7654,
{
    7654
}

pub fn default_wg_interface() -> (r: String)
    ensures
        r@ == "howm0"@,
{
    "howm0".to_owned()
}

pub fn default_http_port() -> (r: u16)
    ensures
        r == 7000,
{
    7000
}

impl Default for TransportConfig {
    fn default() -> (r: Self)
        ensures
            r.listen_port == 7654,
            r.wireguard_interface@ == "howm0"@,
            r.http_port == 7000,
    {
        TransportConfig {
            listen_port: default_listen_port(),
            wireguard_interface: default_wg_interface(),
            http_port: default_http_port(),
        }
    }
}

/// Discovery section.
#[derive(Debug, Clone)]
pub struct DiscoveryConfig {
    /// How to detect new WireGuard peers: "wireguard" | "mdns" | "manual"
    pub mode: String,
    /// How often to poll WireGuard peer state (milliseconds).
    pub poll_interval_ms: u64,
    /// Also broadcast on mDNS for peers not yet in WG config.
    pub mdns_fallback: bool,
    /// Send full manifest in initial discovery (normally only hash).
    pub broadcast_full_manifest: bool,
}

pub fn default_discovery_mode() -> (r: String)
    ensures
        r@ == "wireguard"@,
{
    "wireguard".to_owned()
}

pub fn default_poll_interval_ms() -> (r: u64)
    ensures
        r == 2000,
{
    2000
}

impl Default for DiscoveryConfig {
    fn default() -> (r: Self)
        ensures
            r.mode@ == "wireguard"@,
            r.poll_interval_ms == 2000,
            !r.mdns_fallback,
            !r.broadcast_full_manifest,
    {
        DiscoveryConfig {
            mode: default_discovery_mode(),
            poll_interval_ms: default_poll_interval_ms(),
            mdns_fallback: false,
            broadcast_full_manifest: false,
        }
    }
}

/// Role of a configured capability: "provide" | "consume" | "both".
#[derive(Debug, Clone, Copy, PartialEq, Eq, Structural)]
pub enum RoleConfig {
    Provide,
    Consume,
    Both,
}

/// The wire role of a configured role.
pub open spec fn role_of(r: RoleConfig) -> Role {
    match r {
        RoleConfig::Provide => Role::Provide,
        RoleConfig::Consume => Role::Consume,
        RoleConfig::Both => Role::Both,
    }
}

/// The wire role of a configured role.
pub fn role_from_config(r: &RoleConfig) -> (out: Role)
    ensures
        out == role_of(*r),
{
    match r {
        RoleConfig::Provide => Role::Provide,
        RoleConfig::Consume => Role::Consume,
        RoleConfig::Both => Role::Both,
    }
}

/// Scope limits of a configured capability.
#[derive(Debug, Clone)]
pub struct ScopeConfig {
    pub rate_limit: u64,
    pub ttl: u64,
}

/// The scope parameters of configured limits: no extensions.
pub fn scope_from_config(s: &ScopeConfig) -> (r: ScopeParams)
    ensures
        r.model() == (ScopeModel { rate_limit: s.rate_limit, ttl: s.ttl, extensions: Map::empty() }),
{
    let d = ScopeParams::default();
    let r = ScopeParams { rate_limit: s.rate_limit, ttl: s.ttl, extensions: d.extensions };
    assert(r.model().extensions =~= Map::<u64, crate::scope::ScopeTerm>::empty());
    r
}

/// Trust classification of a configured capability.
#[derive(Debug, Clone)]
pub struct ClassificationConfig {
    /// Default tier: "public" | "friends" | "blocked"
    pub default_tier: ClassificationTier,
    /// Per-peer overrides: base64-encoded WG public key -> tier.
    pub overrides: Vec<(String, ClassificationTier)>,
}

/// Heartbeat parameters of a configured capability.
#[derive(Debug, Clone)]
pub struct HeartbeatParams {
    pub interval_ms: u64,
    pub timeout_ms: u64,
}

pub fn default_heartbeat_interval() -> (r: u64)
    ensures
        r == 5000,
{
    5000
}

pub fn default_heartbeat_timeout() -> (r: u64)
    ensures
        r == 15000,
{
    15000
}

/// A configured capability.
#[derive(Debug, Clone)]
pub struct CapabilityConfig {
    /// Fully-qualified capability name (e.g. "howm.social.feed.1").
    pub name: String,
    /// Role: "provide" | "consume" | "both"
    pub role: RoleConfig,
    /// Required for both+both matching (heartbeat).
    pub mutual: bool,
    /// Scope params advertised to remote peers.
    pub scope: Option<ScopeConfig>,
    /// Trust gate classification (local-only, not on wire).
    pub classification: Option<ClassificationConfig>,
    /// Heartbeat-specific params.
    pub params: Option<HeartbeatParams>,
}

/// Friends list.
#[derive(Debug, Clone)]
pub struct FriendsConfig {
    /// WireGuard public keys (base64-encoded, same format as wg0.conf).
    pub list: Vec<String>,
}

impl Default for FriendsConfig {
    fn default() -> (r: Self)
        ensures
            r.list@ == Seq::<String>::empty(),
    {
        FriendsConfig { list: Vec::new() }
    }
}

/// Invite section.
#[derive(Debug, Clone)]
pub struct InviteConfig {
    pub ttl_s: u64,
    pub open_max_peers: u32,
    pub open_rate_limit: u32,
    pub open_prune_days: u64,
}

pub fn default_invite_ttl() -> (r: u64)
    ensures
        r == 900,
{
    900
}

pub fn default_open_max_peers() -> (r: u32)
    ensures
        r == 256,
{
    256
}

pub fn default_open_rate_limit() -> (r: u32)
    ensures
        r == 10,
{
    10
}

pub fn default_open_prune_days() -> (r: u64)
    ensures
        r == 5,
{
    5
}

impl Default for InviteConfig {
    fn default() -> (r: Self)
        ensures
            r.ttl_s == 900,
            r.open_max_peers == 256,
            r.open_rate_limit == 10,
            r.open_prune_days == 5,
    {
        InviteConfig {
            ttl_s: default_invite_ttl(),
            open_max_peers: default_open_max_peers(),
            open_rate_limit: default_open_rate_limit(),
            open_prune_days: default_open_prune_days(),
        }
    }
}

/// Data directory section.
#[derive(Debug, Clone)]
pub struct DataConfig {
    pub dir: String,
}

/// The user's local data directory as `dirs_next::data_local_dir` finds it
/// (as text), if any. Nothing is claimed of it: it depends on the platform
/// and the environment.
#[verifier::external_body]
fn local_data_dir() -> Option<String> {
    dirs_next::data_local_dir().map(|d| d.to_string_lossy().to_string())
}

/// The default data directory given the local data directory, if any:
/// `howm` under it, or `~/.local/howm`.
pub open spec fn default_data_dir(local: Option<Seq<char>>) -> Seq<char> {
    match local {
        Some(d) => path_join(d, "howm"@),
        None => "~/.local/howm"@,
    }
}

/// The default data directory for a local data directory, if one was found:
/// `howm` under it, or `~/.local/howm`.
pub fn data_dir_for(local: Option<&str>) -> (r: String)
    ensures
        r@ == default_data_dir(
            match local {
                Some(d) => Some(d@),
                None => None,
            },
        ),
{
    match local {
        Some(d) => join(d, "howm"),
        None => "~/.local/howm".to_owned(),
    }
}

impl Default for DataConfig {
    fn default() -> (r: Self)
        ensures
            exists|local: Option<Seq<char>>| r.dir@ == default_data_dir(local),
    {
        let local = local_data_dir();
        let dir = match &local {
            Some(d) => data_dir_for(Some(d.as_str())),
            None => data_dir_for(None),
        };
        let r = DataConfig { dir };
        assert(r.dir@ == default_data_dir(
            match local {
                Some(d) => Some(d@),
                None => None,
            },
        ));
        r
    }
}

/// The whole peer configuration.
#[derive(Debug, Clone)]
pub struct PeerConfig {
    pub identity: IdentityConfig,
    pub protocol: ProtocolConfig,
    pub transport: TransportConfig,
    pub discovery: DiscoveryConfig,
    /// Configured capabilities by config key.
    pub capabilities: Vec<(String, CapabilityConfig)>,
    pub friends: FriendsConfig,
    pub invite: InviteConfig,
    pub data: DataConfig,
}

/// A character of a capability-name component: lowercase ASCII letter,
/// ASCII digit or hyphen.
pub open spec fn is_name_char(c: char) -> bool {
    ('a' <= c && c <= 'z') || ('0' <= c && c <= '9') || c == '-'
}

/// An ASCII digit.
pub open spec fn is_digit(c: char) -> bool {
    '0' <= c && c <= '9'
}

/// The parts of a text between its dots.
pub open spec fn split_dots(s: Seq<char>) -> Seq<Seq<char>>
    decreases s.len(),
{
    if s.len() == 0 {
        seq![Seq::empty()]
    } else {
        let p = split_dots(s.drop_last());
        if s.last() == '.' {
            p.push(Seq::empty())
        } else {
            p.update(p.len() - 1, p.last().push(s.last()))
        }
    }
}

/// A name component: non-empty, of name characters only.
pub open spec fn name_part_ok(p: Seq<char>) -> bool {
    p.len() > 0 && forall|i: int| 0 <= i < p.len() ==> is_name_char(#[trigger] p[i])
}

/// The digits of a version: the text without a leading `+`.
pub open spec fn version_digits(p: Seq<char>) -> Seq<char> {
    if p.len() > 0 && p[0] == '+' {
        p.drop_first()
    } else {
        p
    }
}

/// A version: a non-empty run of ASCII digits denoting a positive integer.
pub open spec fn version_ok(p: Seq<char>) -> bool {
    &&& p.len() > 0
    &&& forall|i: int| 0 <= i < p.len() ==> is_digit(#[trigger] p[i])
    &&& decimal_value(p) > 0
}

/// The capability-name grammar: `<org>.<component>[.<subcomponent>].<version>`,
/// at least three dot-separated parts, the last a positive integer version, the others
/// non-empty runs of `[a-z0-9-]`.
pub open spec fn valid_capability_name(s: Seq<char>) -> bool {
    let parts = split_dots(s);
    &&& parts.len() >= 3
    &&& version_ok(parts.last())
    &&& forall|i: int| 0 <= i < parts.len() - 1 ==> name_part_ok(#[trigger] parts[i])
}

/// The parts before index `count` are all name components.
pub open spec fn parts_ok_before(parts: Seq<Seq<char>>, count: int) -> bool {
    forall|j: int| 0 <= j < count ==> name_part_ok(#[trigger] parts[j])
}

proof fn lemma_split_dots_len(s: Seq<char>)
    ensures
        split_dots(s).len() >= 1,
    decreases s.len(),
{
    if s.len() > 0 {
        lemma_split_dots_len(s.drop_last());
    }
}

/// A prefix of digits denotes at most what the whole does.
pub proof fn lemma_decimal_value_prefix(s: Seq<char>, k: int)
    requires
        0 <= k <= s.len(),
    ensures
        decimal_value(s.subrange(0, k)) <= decimal_value(s),
    decreases s.len(),
{
    if k < s.len() {
        lemma_decimal_value_prefix(s.drop_last(), k);
        assert(s.drop_last().subrange(0, k) =~= s.subrange(0, k));
    } else {
        assert(s.subrange(0, k) =~= s);
    }
}

fn part_ok(p: &Vec<char>) -> (r: bool)
    ensures
        r == name_part_ok(p@),
{
    if p.len() == 0 {
        return false;
    }
    let mut i: usize = 0;
    while i < p.len()
        invariant
            i <= p.len(),
            forall|k: int| 0 <= k < i ==> is_name_char(#[trigger] p@[k]),
        decreases p.len() - i,
    {
        let c = p[i];
        if !(('a' <= c && c <= 'z') || ('0' <= c && c <= '9') || c == '-') {
            assert(!is_name_char(p@[i as int]));
            return false;
        }
        i = i + 1;
    }
    true
}

pub(crate) fn digit_of(c: char) -> (d: u64)
    ensures
        d == digit_value(c),
{
    if c == '1' { 1 } else if c == '2' { 2 } else if c == '3' { 3 } else if c == '4' { 4 } else if c == '5' { 5 }
    else if c == '6' { 6 } else if c == '7' { 7 } else if c == '8' { 8 } else if c == '9' { 9 } else { 0 }
}

fn version_part_ok(p: &Vec<char>) -> (r: bool)
    ensures
        r == version_ok(p@),
{
    if p.len() == 0 {
        return false;
    }
    let mut positive = false;
    let mut i: usize = 0;
    assert(p@.subrange(0, 0) =~= Seq::<char>::empty());
    while i < p.len()
        invariant
            i <= p.len(),
            forall|k: int| 0 <= k < i ==> is_digit(#[trigger] p@[k]),
            positive == (decimal_value(p@.subrange(0, i as int)) > 0),
        decreases p.len() - i,
    {
        let c = p[i];
        if !('0' <= c && c <= '9') {
            assert(!is_digit(p@[i as int]));
            return false;
        }
        let ghost pre = p@.subrange(0, i + 1);
        assert(pre.drop_last() =~= p@.subrange(0, i as int));
        assert(pre.last() == c);
        assert(decimal_value(pre) == decimal_value(pre.drop_last()) * 10 + digit_value(c));
        if c != '0' {
            positive = true;
        }
        i = i + 1;
    }
    assert(p@.subrange(0, i as int) =~= p@);
    positive
}

/// Whether a capability name follows the namespace grammar:
/// `<org>.<component>[.<subcomponent>].<version>`; components are lowercase
/// alpha, digits and hyphens; the version is an integer.
pub fn validate_capability_name(name: &str) -> (r: bool)
    ensures
        r == valid_capability_name(name@),
{
    let n = name.unicode_len();
    let ghost s = name@;
    let mut count: usize = 0;
    let mut prev_ok = true;
    let mut current: Vec<char> = Vec::new();
    let mut i: usize = 0;
    assert(s.subrange(0, 0) =~= Seq::<char>::empty());
    while i < n
        invariant
            i <= n,
            n == s.len(),
            s == name@,
            count <= i,
            split_dots(s.subrange(0, i as int)).len() == count + 1,
            split_dots(s.subrange(0, i as int)).last() == current@,
            prev_ok == parts_ok_before(split_dots(s.subrange(0, i as int)), count as int),
        decreases n - i,
    {
        let c = name.get_char(i);
        let ghost pre = s.subrange(0, i + 1);
        let ghost old_parts = split_dots(s.subrange(0, i as int));
        assert(pre.drop_last() =~= s.subrange(0, i as int));
        assert(pre.last() == c);
        if c == '.' {
            let ok = part_ok(&current);
            proof {
                let np = split_dots(pre);
                assert(np == old_parts.push(Seq::empty()));
                assert forall|j: int| 0 <= j < count + 1 implies #[trigger] np[j] == old_parts[j] by {}
                assert((prev_ok && ok) == parts_ok_before(np, count + 1)) by {
                    if prev_ok && ok {
                        assert forall|j: int| 0 <= j < count + 1 implies name_part_ok(#[trigger] np[j]) by {
                            assert(np[j] == old_parts[j]);
                        }
                    }
                    if parts_ok_before(np, count + 1) {
                        assert(name_part_ok(np[count as int]));
                        assert(np[count as int] == old_parts[count as int]);
                        assert forall|j: int| 0 <= j < count implies name_part_ok(#[trigger] old_parts[j]) by {
                            assert(name_part_ok(np[j]));
                            assert(np[j] == old_parts[j]);
                        }
                    }
                }
            }
            prev_ok = prev_ok && ok;
            count = count + 1;
            current = Vec::new();
            assert(current@ =~= Seq::<char>::empty());
        } else {
            let ghost before = current@;
            current.push(c);
            proof {
                let np = split_dots(pre);
                assert(np == old_parts.update(old_parts.len() - 1, old_parts.last().push(c)));
                assert forall|j: int| 0 <= j < count implies #[trigger] np[j] == old_parts[j] by {}
                assert(parts_ok_before(np, count as int) == parts_ok_before(old_parts, count as int)) by {
                    if parts_ok_before(np, count as int) {
                        assert forall|j: int| 0 <= j < count implies name_part_ok(#[trigger] old_parts[j]) by {
                            assert(np[j] == old_parts[j]);
                        }
                    }
                    if parts_ok_before(old_parts, count as int) {
                        assert forall|j: int| 0 <= j < count implies name_part_ok(#[trigger] np[j]) by {
                            assert(np[j] == old_parts[j]);
                        }
                    }
                }
            }
        }
        i = i + 1;
    }
    assert(s.subrange(0, i as int) =~= s);
    if count < 2 {
        return false;
    }
    if !prev_ok {
        return false;
    }
    version_part_ok(&current)
}

/// The public key a base64 text holds: its bytes, when there are 32.
pub open spec fn pubkey_of(text: Seq<char>) -> Option<Seq<u8>> {
    match base64_decoded(text) {
        Some(b) => if b.len() == 32 {
            Some(b)
        } else {
            None
        },
        None => None,
    }
}

/// Parse a base64-encoded WireGuard public key to a 32-byte PeerId.
pub fn parse_wg_pubkey(b64: &str) -> (r: Option<PeerId>)
    ensures
        match r {
            Some(p) => pubkey_of(b64@) == Some(p@),
            None => pubkey_of(b64@) is None,
        },
{
    match b64_decode(b64) {
        Ok(bytes) => {
            if bytes.len() != 32 {
                return None;
            }
            Some(crate::manifest::peer_id_from_bytes(bytes.as_slice()))
        },
        Err(_) => None,
    }
}

/// Encode a PeerId as base64 (standard, padded).
pub fn peer_id_to_base64(peer_id: &PeerId) -> (r: String)
    ensures
        r@ == base64_encoded(peer_id@),
        base64_decoded(r@) == Some(peer_id@),
{
    b64_encode(peer_id.as_slice())
}

/// The capability declaration a configured capability advertises.
pub open spec fn declared_cap(c: CapabilityConfig) -> CapModel {
    CapModel {
        name: c.name@,
        role: role_of(c.role),
        mutual: c.mutual,
        scope: match c.scope {
            Some(s) => Some(ScopeModel { rate_limit: s.rate_limit, ttl: s.ttl, extensions: Map::empty() }),
            None => None,
        },
        applicable_scope_keys: None,
    }
}

/// The declarations of configured capabilities, in configuration order.
pub open spec fn declared_caps(caps: Seq<(String, CapabilityConfig)>) -> Seq<CapModel> {
    caps.map_values(|e: (String, CapabilityConfig)| declared_cap(e.1))
}

/// The manifest a configuration advertises, before its personal hash.
pub open spec fn config_manifest(cfg: PeerConfig, peer_id: PeerId, sequence_num: u64) -> ManifestModel {
    ManifestModel {
        protocol_version: cfg.protocol.version,
        peer_id: peer_id@,
        sequence_num,
        capabilities: sort_by_key(declared_caps(cfg.capabilities@), cap_name_key()),
        personal_hash: Seq::empty(),
        hash_algorithm: cfg.protocol.hash_algorithm@,
    }
}

/// The keys of a list of base64 texts that parse, in order.
pub open spec fn parsed_keys(list: Seq<String>) -> Seq<Seq<u8>>
    decreases list.len(),
{
    if list.len() == 0 {
        Seq::empty()
    } else {
        let rest = parsed_keys(list.drop_last());
        match pubkey_of(list.last()@) {
            Some(k) => rest.push(k),
            None => rest,
        }
    }
}

/// The overrides of a classification whose keys parse, in order.
pub open spec fn parsed_overrides(list: Seq<(String, ClassificationTier)>) -> Seq<(Seq<u8>, ClassificationTier)>
    decreases list.len(),
{
    if list.len() == 0 {
        Seq::empty()
    } else {
        let rest = parsed_overrides(list.drop_last());
        match pubkey_of(list.last().0@) {
            Some(k) => rest.push((k, list.last().1)),
            None => rest,
        }
    }
}

/// The capabilities of a configuration that carry a classification, in order.
pub open spec fn classified(caps: Seq<(String, CapabilityConfig)>) -> Seq<CapabilityConfig>
    decreases caps.len(),
{
    if caps.len() == 0 {
        Seq::empty()
    } else {
        let rest = classified(caps.drop_last());
        if caps.last().1.classification is Some {
            rest.push(caps.last().1)
        } else {
            rest
        }
    }
}

fn parse_keys(list: &Vec<String>) -> (r: Vec<PeerId>)
    ensures
        r@.map_values(|p: PeerId| p@) == parsed_keys(list@),
{
    let mut out: Vec<PeerId> = Vec::new();
    let mut i: usize = 0;
    assert(list@.subrange(0, 0) =~= Seq::<String>::empty());
    assert(out@.map_values(|p: PeerId| p@) =~= Seq::<Seq<u8>>::empty());
    while i < list.len()
        invariant
            i <= list.len(),
            out@.map_values(|p: PeerId| p@) == parsed_keys(list@.subrange(0, i as int)),
        decreases list.len() - i,
    {
        let ghost pre = list@.subrange(0, i + 1);
        assert(pre.drop_last() =~= list@.subrange(0, i as int));
        match parse_wg_pubkey(list[i].as_str()) {
            Some(k) => {
                let ghost before = out@;
                out.push(k);
                assert(out@.map_values(|p: PeerId| p@) =~= before.map_values(|p: PeerId| p@).push(k@));
            },
            None => {},
        }
        i = i + 1;
    }
    assert(list@.subrange(0, i as int) =~= list@);
    out
}

fn parse_overrides(list: &Vec<(String, ClassificationTier)>) -> (r: Vec<(PeerId, ClassificationTier)>)
    ensures
        r@.map_values(|e: (PeerId, ClassificationTier)| (e.0@, e.1)) == parsed_overrides(list@),
{
    let mut out: Vec<(PeerId, ClassificationTier)> = Vec::new();
    let mut i: usize = 0;
    assert(list@.subrange(0, 0) =~= Seq::<(String, ClassificationTier)>::empty());
    assert(out@.map_values(|e: (PeerId, ClassificationTier)| (e.0@, e.1)) =~= Seq::<(Seq<u8>, ClassificationTier)>::empty());
    while i < list.len()
        invariant
            i <= list.len(),
            out@.map_values(|e: (PeerId, ClassificationTier)| (e.0@, e.1)) == parsed_overrides(list@.subrange(0, i as int)),
        decreases list.len() - i,
    {
        let ghost pre = list@.subrange(0, i + 1);
        assert(pre.drop_last() =~= list@.subrange(0, i as int));
        match parse_wg_pubkey(list[i].0.as_str()) {
            Some(k) => {
                let ghost before = out@;
                out.push((k, list[i].1));
                assert(out@.map_values(|e: (PeerId, ClassificationTier)| (e.0@, e.1)) =~= before.map_values(
                    |e: (PeerId, ClassificationTier)| (e.0@, e.1),
                ).push((k@, list@[i as int].1)));
            },
            None => {},
        }
        i = i + 1;
    }
    assert(list@.subrange(0, i as int) =~= list@);
    out
}

impl PeerConfig {
    /// Generate a default Normal User archetype config: a social feed
    /// capability and the heartbeat, data kept in `data_dir`.
    pub fn generate_default(data_dir: &str) -> (r: Self)
        ensures
            r.identity.wireguard_private_key_file is None,
            r.identity.wireguard_interface matches Some(w) && w@ == "howm0"@,
            r.identity.display_name@ == "howm-user"@,
            r.protocol.version == 1,
            r.protocol.hash_algorithm@ == "sha-256"@,
            r.transport.listen_port == 7654,
            r.transport.http_port == 7000,
            r.capabilities@.len() == 2,
            r.capabilities@[0].0@ == "social_feed"@,
            r.capabilities@[0].1.name@ == "howm.social.feed.1"@,
            r.capabilities@[0].1.role == RoleConfig::Both,
            r.capabilities@[0].1.mutual,
            r.capabilities@[0].1.scope matches Some(s) && s.rate_limit == 10 && s.ttl == 3600,
            r.capabilities@[0].1.classification matches Some(c) && c.default_tier == ClassificationTier::Public
                && c.overrides@.len() == 0,
            r.capabilities@[0].1.params is None,
            r.capabilities@[1].0@ == "heartbeat"@,
            r.capabilities@[1].1.name@ == "core.session.heartbeat.1"@,
            r.capabilities@[1].1.role == RoleConfig::Both,
            r.capabilities@[1].1.mutual,
            r.capabilities@[1].1.scope is None,
            r.capabilities@[1].1.classification is None,
            r.capabilities@[1].1.params matches Some(p) && p.interval_ms == 5000 && p.timeout_ms == 15000,
            r.friends.list@.len() == 0,
            r.invite.ttl_s == 900,
            r.data.dir@ == data_dir@,
    {
        let mut capabilities: Vec<(String, CapabilityConfig)> = Vec::new();
        capabilities.push(
            (
                "social_feed".to_owned(),
                CapabilityConfig {
                    name: "howm.social.feed.1".to_owned(),
                    role: RoleConfig::Both,
                    mutual: true,
                    scope: Some(ScopeConfig { rate_limit: 10, ttl: 3600 }),
                    classification: Some(
                        ClassificationConfig { default_tier: ClassificationTier::Public, overrides: Vec::new() },
                    ),
                    params: None,
                },
            ),
        );
        capabilities.push(
            (
                "heartbeat".to_owned(),
                CapabilityConfig {
                    name: "core.session.heartbeat.1".to_owned(),
                    role: RoleConfig::Both,
                    mutual: true,
                    scope: None,
                    classification: None,
                    params: Some(HeartbeatParams { interval_ms: 5000, timeout_ms: 15000 }),
                },
            ),
        );
        PeerConfig {
            identity: IdentityConfig {
                wireguard_private_key_file: None,
                wireguard_interface: Some("howm0".to_owned()),
                display_name: "howm-user".to_owned(),
            },
            protocol: ProtocolConfig::default(),
            transport: TransportConfig::default(),
            discovery: DiscoveryConfig::default(),
            capabilities,
            friends: FriendsConfig::default(),
            invite: InviteConfig::default(),
            data: DataConfig { dir: data_dir.to_owned() },
        }
    }

    /// Convert config into a DiscoveryManifest: its capabilities sorted by
    /// name, the personal hash computed and embedded.
    pub fn to_manifest(&self, peer_id: PeerId, sequence_num: u64) -> (r: DiscoveryManifest)
        ensures
            r.model() == (ManifestModel {
                personal_hash: sha256_digest(
                    cbor_encoding(manifest_cbor(hash_basis(config_manifest(*self, peer_id, sequence_num)))),
                ),
                ..config_manifest(*self, peer_id, sequence_num)
            }),
            r.personal_hash@.len() == 32,
    {
        let mut caps: Vec<CapabilityDeclaration> = Vec::new();
        let mut i: usize = 0;
        while i < self.capabilities.len()
            invariant
                i <= self.capabilities.len(),
                caps_model(caps@) == declared_caps(self.capabilities@.subrange(0, i as int)),
            decreases self.capabilities.len() - i,
        {
            let c = &self.capabilities[i].1;
            let scope = match &c.scope {
                Some(s) => Some(scope_from_config(s)),
                None => None,
            };
            let decl = CapabilityDeclaration {
                name: c.name.clone(),
                role: role_from_config(&c.role),
                mutual: c.mutual,
                scope,
                applicable_scope_keys: None,
            };
            let ghost before = caps@;
            assert(decl.model() == declared_cap(self.capabilities@[i as int].1));
            caps.push(decl);
            assert(declared_caps(self.capabilities@.subrange(0, i + 1)) =~= declared_caps(
                self.capabilities@.subrange(0, i as int),
            ).push(declared_cap(self.capabilities@[i as int].1)));
            assert(caps_model(caps@) =~= caps_model(before).push(decl.model()));
            assert(caps_model(caps@) =~= declared_caps(self.capabilities@.subrange(0, i + 1)));
            i = i + 1;
        }
        assert(self.capabilities@.subrange(0, i as int) =~= self.capabilities@);
        let caps = sort_caps_by_name(caps);
        let mut manifest = DiscoveryManifest {
            protocol_version: self.protocol.version,
            peer_id,
            sequence_num,
            capabilities: caps,
            personal_hash: Vec::new(),
            hash_algorithm: self.protocol.hash_algorithm.clone(),
        };
        assert(manifest.model() == config_manifest(*self, peer_id, sequence_num));
        manifest.personal_hash = personal_hash(&manifest);
        manifest
    }

    /// Build the trust policy of each capability with a classification, in
    /// configuration order: its tier, its overrides and the friends list,
    /// keys that do not parse left out.
    pub fn trust_policies(&self) -> (r: Vec<(String, TrustPolicy)>)
        ensures
            r@.len() == classified(self.capabilities@).len(),
            forall|i: int| 0 <= i < r@.len() ==> {
                let c = #[trigger] classified(self.capabilities@)[i];
                let cls = c.classification->0;
                &&& r@[i].0@ == c.name@
                &&& r@[i].1.default_tier == cls.default_tier
                &&& r@[i].1.overrides@.map_values(|e: (PeerId, ClassificationTier)| (e.0@, e.1)) == parsed_overrides(cls.overrides@)
                &&& r@[i].1.friends@.map_values(|p: PeerId| p@) == parsed_keys(self.friends.list@)
            },
    {
        let friends = parse_keys(&self.friends.list);
        let mut out: Vec<(String, TrustPolicy)> = Vec::new();
        let mut i: usize = 0;
        assert(self.capabilities@.subrange(0, 0) =~= Seq::<(String, CapabilityConfig)>::empty());
        while i < self.capabilities.len()
            invariant
                i <= self.capabilities.len(),
                friends@.map_values(|p: PeerId| p@) == parsed_keys(self.friends.list@),
                out@.len() == classified(self.capabilities@.subrange(0, i as int)).len(),
                forall|k: int| 0 <= k < out@.len() ==> {
                    let c = #[trigger] classified(self.capabilities@.subrange(0, i as int))[k];
                    let cls = c.classification->0;
                    &&& out@[k].0@ == c.name@
                    &&& out@[k].1.default_tier == cls.default_tier
                    &&& out@[k].1.overrides@.map_values(|e: (PeerId, ClassificationTier)| (e.0@, e.1)) == parsed_overrides(cls.overrides@)
                    &&& out@[k].1.friends@.map_values(|p: PeerId| p@) == parsed_keys(self.friends.list@)
                },
            decreases self.capabilities.len() - i,
        {
            let ghost pre = self.capabilities@.subrange(0, i + 1);
            assert(pre.drop_last() =~= self.capabilities@.subrange(0, i as int));
            let c = &self.capabilities[i].1;
            match &c.classification {
                Some(class) => {
                    let overrides = parse_overrides(&class.overrides);
                    let fr = clone_keys(&friends);
                    let policy = TrustPolicy { default_tier: class.default_tier, overrides, friends: fr };
                    out.push((c.name.clone(), policy));
                },
                None => {},
            }
            i = i + 1;
        }
        assert(self.capabilities@.subrange(0, i as int) =~= self.capabilities@);
        out
    }

    /// The data directory.
    pub fn data_dir(&self) -> (r: String)
        ensures
            r@ == self.data.dir@,
    {
        self.data.dir.clone()
    }
}

fn clone_keys(keys: &Vec<PeerId>) -> (r: Vec<PeerId>)
    ensures
        r@ == keys@,
{
    let mut out: Vec<PeerId> = Vec::new();
    let mut i: usize = 0;
    while i < keys.len()
        invariant
            i <= keys.len(),
            out@ == keys@.subrange(0, i as int),
        decreases keys.len() - i,
    {
        out.push(keys[i]);
        i = i + 1;
    }
    assert(keys@.subrange(0, i as int) =~= keys@);
    out
}

} // verus!
