//! WireGuard: its configuration and peer records, keys, address allocation
//! in 100.222.0.0/16, and the reachability monitor that turns successive
//! `wg show dump` polls into peer events.
use vstd::prelude::*;

use crate::encoding::{b64_decode, b64_encode, base64_decoded, base64_encoded};
use crate::manifest::{peer_id_eq, PeerId};
use crate::config::{parse_wg_pubkey, pubkey_of};
use crate::strings::{decimal, push_decimal, text_eq};
use crate::text::{
    lemma_split_on_len, lines_of, parse_u64_or_zero, split_on, split_text, text_lines, trim_text, trimmed, u64_or_zero,
    views,
};

verus! {

#[derive(Debug, Clone)]
pub struct WgConfig {
    pub enabled: bool,
    pub port: u16,
    /// Public addr:port for peers to reach us.
    pub endpoint: Option<String>,
    /// Override WG address (100.222.x.y).
    pub address: Option<String>,
    pub data_dir: String,
    pub node_id: String,
}

#[derive(Debug, Clone)]
pub struct WgState {
    pub public_key: Option<String>,
    /// 100.222.x.y
    pub address: Option<String>,
    /// Public addr:port.
    pub endpoint: Option<String>,
    pub tunnel_handle: Option<()>,
}

#[derive(Debug, Clone)]
pub struct WgPeerConfig {
    pub pubkey: String,
    pub endpoint: String,
    pub psk: Option<String>,
    pub allowed_ip: String,
    pub name: String,
    pub node_id: String,
}

#[derive(Debug, Clone)]
pub struct WgPeerStatus {
    pub pubkey: String,
    pub endpoint: String,
    pub allowed_ips: String,
    pub latest_handshake: u64,
    pub transfer_rx: u64,
    pub transfer_tx: u64,
}

/// A peer as `wg show dump` lists it.
#[derive(Debug, Clone)]
pub struct WgPeerState {
    pub public_key: PeerId,
    /// The endpoint text, when the peer has one.
    pub endpoint: Option<String>,
    pub allowed_ips: Vec<String>,
    /// Timestamp of last successful handshake (Unix epoch seconds; 0 = never)
    pub latest_handshake: u64,
    /// Bytes received (cumulative)
    pub rx_bytes: u64,
    /// Bytes transmitted (cumulative)
    pub tx_bytes: u64,
}

/// Mathematical model of a listed peer.
pub struct WgPeerModel {
    pub public_key: Seq<u8>,
    pub endpoint: Option<Seq<char>>,
    pub allowed_ips: Seq<Seq<char>>,
    pub latest_handshake: u64,
    pub rx_bytes: u64,
    pub tx_bytes: u64,
}

impl WgPeerState {
    /// The model of the peer.
    pub open spec fn model(&self) -> WgPeerModel {
        WgPeerModel {
            public_key: self.public_key@,
            endpoint: match self.endpoint {
                Some(e) => Some(e@),
                None => None,
            },
            allowed_ips: views(self.allowed_ips@),
            latest_handshake: self.latest_handshake,
            rx_bytes: self.rx_bytes,
            tx_bytes: self.tx_bytes,
        }
    }

    /// Returns true if the peer has ever completed a WireGuard handshake.
    pub fn is_reachable(&self) -> (r: bool)
        ensures
            r == (self.latest_handshake > 0),
    {
        self.latest_handshake > 0
    }
}

/// The trimmed pieces of a list that are not empty, in order.
pub open spec fn nonempty_trimmed(parts: Seq<Seq<char>>) -> Seq<Seq<char>>
    decreases parts.len(),
{
    if parts.len() == 0 {
        Seq::empty()
    } else {
        let r = nonempty_trimmed(parts.drop_last());
        let t = trimmed(parts.last());
        if t.len() > 0 {
            r.push(t)
        } else {
            r
        }
    }
}

/// The peer a line of `wg show <iface> dump` describes, if it describes one:
/// tab-separated public key, preshared key, endpoint (`(none)` when there is
/// none), comma-separated allowed IPs, latest handshake, received and sent
/// bytes (numbers that do not read as `u64` count as 0). A line with fewer
/// than seven fields, or whose key is not 32 bytes of base64, describes none.
pub open spec fn dump_line_peer(line: Seq<char>) -> Option<WgPeerModel> {
    let f = split_on(line, '\t');
    if f.len() < 7 {
        None
    } else {
        match pubkey_of(f[0]) {
            None => None,
            Some(key) => Some(
                WgPeerModel {
                    public_key: key,
                    endpoint: if f[2] == "(none)"@ {
                        None
                    } else {
                        Some(f[2])
                    },
                    allowed_ips: nonempty_trimmed(split_on(f[3], ',')),
                    latest_handshake: u64_or_zero(f[4]),
                    rx_bytes: u64_or_zero(f[5]),
                    tx_bytes: u64_or_zero(f[6]),
                },
            ),
        }
    }
}

/// The peers that a sequence of dump lines describes, in order.
pub open spec fn dump_peers(lines: Seq<Seq<char>>) -> Seq<WgPeerModel>
    decreases lines.len(),
{
    if lines.len() == 0 {
        Seq::empty()
    } else {
        let r = dump_peers(lines.drop_last());
        match dump_line_peer(lines.last()) {
            Some(p) => r.push(p),
            None => r,
        }
    }
}

/// A sequence without its first element (empty stays empty).
pub open spec fn after_first<A>(s: Seq<A>) -> Seq<A> {
    if s.len() == 0 {
        s
    } else {
        s.drop_first()
    }
}

/// The models of a sequence of peers.
pub open spec fn peer_models(v: Seq<WgPeerState>) -> Seq<WgPeerModel> {
    v.map_values(|p: WgPeerState| p.model())
}

fn allowed_ip_list(field: &str) -> (r: Vec<String>)
    ensures
        views(r@) == nonempty_trimmed(split_on(field@, ',')),
{
    let parts = split_text(field, ',');
    let ghost ps = views(parts@);
    let mut out: Vec<String> = Vec::new();
    let mut i: usize = 0;
    assert(ps.take(0) =~= Seq::<Seq<char>>::empty());
    while i < parts.len()
        invariant
            i <= parts.len(),
            ps == views(parts@),
            views(out@) == nonempty_trimmed(ps.take(i as int)),
        decreases parts.len() - i,
    {
        let t = trim_text(parts[i].as_str());
        let ghost before = views(out@);
        assert(ps.take(i + 1).drop_last() =~= ps.take(i as int));
        assert(ps.take(i + 1).last() == parts@[i as int]@);
        if t.unicode_len() > 0 {
            out.push(t);
            assert(views(out@) =~= before.push(t@));
        }
        i = i + 1;
    }
    assert(ps.take(i as int) =~= ps);
    out
}

fn dump_line(line: &str) -> (r: Option<WgPeerState>)
    ensures
        match r {
            Some(p) => dump_line_peer(line@) == Some(p.model()),
            None => dump_line_peer(line@) is None,
        },
{
    let fields = split_text(line, '\t');
    let ghost f = views(fields@);
    if fields.len() < 7 {
        return None;
    }
    let public_key = match parse_wg_pubkey(fields[0].as_str()) {
        Some(k) => k,
        None => {
            return None;
        },
    };
    let endpoint = if text_eq(fields[2].as_str(), "(none)") {
        None
    } else {
        Some(fields[2].clone())
    };
    let allowed_ips = allowed_ip_list(fields[3].as_str());
    let latest_handshake = parse_u64_or_zero(fields[4].as_str());
    let rx_bytes = parse_u64_or_zero(fields[5].as_str());
    let tx_bytes = parse_u64_or_zero(fields[6].as_str());
    let p = WgPeerState { public_key, endpoint, allowed_ips, latest_handshake, rx_bytes, tx_bytes };
    assert(p.model() == dump_line_peer(line@)->0);
    Some(p)
}

/// Parse the output of `wg show <iface> dump` into peer states: the first
/// line (the interface itself) is skipped, then each line that describes a
/// peer gives one, in order. The endpoint is carried as the text WireGuard
/// printed.
pub fn parse_wg_dump(output: &str) -> (r: Vec<WgPeerState>)
    ensures
        peer_models(r@) == dump_peers(after_first(text_lines(output@))),
{
    let lines = lines_of(output);
    let ghost ls = views(lines@);
    let mut peers: Vec<WgPeerState> = Vec::new();
    if lines.len() == 0 {
        assert(peer_models(peers@) =~= Seq::<WgPeerModel>::empty());
        return peers;
    }
    let ghost rest = ls.drop_first();
    let mut i: usize = 1;
    assert(rest.take(0) =~= Seq::<Seq<char>>::empty());
    assert(peer_models(peers@) =~= Seq::<WgPeerModel>::empty());
    while i < lines.len()
        invariant
            1 <= i <= lines.len(),
            ls == views(lines@),
            rest == ls.drop_first(),
            peer_models(peers@) == dump_peers(rest.take(i - 1)),
        decreases lines.len() - i,
    {
        let ghost before = peer_models(peers@);
        assert(rest.take(i as int).drop_last() =~= rest.take(i - 1));
        assert(rest.take(i as int).last() == lines@[i as int]@);
        match dump_line(lines[i].as_str()) {
            Some(p) => {
                peers.push(p);
                assert(peer_models(peers@) =~= before.push(p.model()));
            },
            None => {},
        }
        i = i + 1;
    }
    assert(rest.take(i - 1) =~= rest);
    peers
}

/// The public key x25519 derives from a secret key (`PublicKey::from` a
/// `StaticSecret` holding those bytes).
pub uninterp spec fn x25519_public(secret: Seq<u8>) -> Seq<u8>;

/// Derives the public key of a secret with `x25519_dalek`. Claims: the
/// result is `x25519_public` of the secret bytes.
#[verifier::external_body]
fn x25519_public_key(secret: [u8; 32]) -> (r: [u8; 32])
    ensures
        r@ == x25519_public(secret@),
{
    *x25519_dalek::PublicKey::from(&x25519_dalek::StaticSecret::from(secret)).as_bytes()
}

/// Fresh secret key bytes from `StaticSecret::random_from_rng` with the
/// thread RNG. Nothing is claimed of them: they are random.
#[verifier::external_body]
fn x25519_random_secret() -> [u8; 32] {
    x25519_dalek::StaticSecret::random_from_rng(rand::thread_rng()).to_bytes()
}

/// 32 random bytes from the thread RNG (`RngCore::fill_bytes`). Nothing is
/// claimed of them: they are random.
#[verifier::external_body]
fn random_bytes_32() -> [u8; 32] {
    let mut key = [0u8; 32];
    rand::RngCore::fill_bytes(&mut rand::thread_rng(), &mut key);
    key
}

/// Generate a WireGuard private key (random 32 bytes, base64-encoded).
pub fn generate_private_key() -> (r: String)
    ensures
        exists|secret: Seq<u8>| secret.len() == 32 && r@ == base64_encoded(secret),
{
    let secret = x25519_random_secret();
    b64_encode(secret.as_slice())
}

/// Generate a WireGuard pre-shared key (random 32 bytes, base64-encoded).
pub fn generate_psk() -> (r: String)
    ensures
        exists|key: Seq<u8>| key.len() == 32 && r@ == base64_encoded(key),
{
    let key = random_bytes_32();
    b64_encode(key.as_slice())
}

/// The public key of a base64 private key: x25519 of its first 32 bytes,
/// base64-encoded.
pub open spec fn public_key_of(private_key_b64: Seq<char>) -> Seq<char> {
    base64_encoded(x25519_public(base64_decoded(private_key_b64)->0.subrange(0, 32)))
}

/// Derive a WireGuard public key from a base64-encoded private key of at
/// least 32 bytes.
pub fn derive_public_key(private_key_b64: &str) -> (r: String)
    requires
        base64_decoded(private_key_b64@) matches Some(b) && b.len() >= 32,
    ensures
        r@ == public_key_of(private_key_b64@),
{
    let bytes = match b64_decode(private_key_b64) {
        Ok(b) => b,
        Err(_) => Vec::new(),
    };
    let mut key = [0u8; 32];
    let mut i: usize = 0;
    while i < 32
        invariant
            i <= 32,
            bytes@.len() >= 32,
            key@.len() == 32,
            forall|k: int| 0 <= k < i ==> key@[k] == bytes@[k],
        decreases 32 - i,
    {
        key.set(i, bytes[i]);
        i = i + 1;
    }
    assert(key@ =~= bytes@.subrange(0, 32));
    let public = x25519_public_key(key);
    b64_encode(public.as_slice())
}

/// The public key of a base64 private key, or `None` when the text is not
/// base64 of at least 32 bytes.
pub fn derive_public_key_checked(private_key_b64: &str) -> (r: Option<String>)
    ensures
        match base64_decoded(private_key_b64@) {
            Some(b) => if b.len() >= 32 {
                r matches Some(k) && k@ == public_key_of(private_key_b64@)
            } else {
                r is None
            },
            None => r is None,
        },
{
    match b64_decode(private_key_b64) {
        Ok(b) => {
            if b.len() >= 32 {
                Some(derive_public_key(private_key_b64))
            } else {
                None
            }
        },
        Err(_) => None,
    }
}

/// The text of the WG address with third and fourth octets `k / 256` and
/// `k % 256`: `100.222.<k/256>.<k%256>`.
pub open spec fn wg_address(k: nat) -> Seq<char> {
    "100.222."@ + decimal(k / 256) + seq!['.'] + decimal(k % 256)
}

/// The address `assign_next_address` allocates: the first of
/// `100.222.0.2`, `100.222.0.3`, ..., `100.222.255.255` that is not taken.
pub open spec fn first_free(taken: Seq<Seq<char>>, k: nat) -> Option<Seq<char>>
    decreases 65536 - k,
{
    if k >= 65536 {
        None
    } else if !taken.contains(wg_address(k)) {
        Some(wg_address(k))
    } else {
        first_free(taken, k + 1)
    }
}

/// The address allocated is free, and every address tried before it is
/// taken.
pub proof fn lemma_first_free_fresh(taken: Seq<Seq<char>>, k: nat)
    ensures
        first_free(taken, k) matches Some(a) ==> !taken.contains(a) && exists|j: nat|
            k <= j < 65536 && a == #[trigger] wg_address(j) && forall|i: nat|
                k <= i < j ==> taken.contains(#[trigger] wg_address(i)),
    decreases 65536 - k,
{
    if k < 65536 && taken.contains(wg_address(k)) {
        lemma_first_free_fresh(taken, k + 1);
        if first_free(taken, k) is Some {
            let a = first_free(taken, k)->0;
            let j = choose|j: nat|
                k + 1 <= j < 65536 && a == #[trigger] wg_address(j) && forall|i: nat|
                    k + 1 <= i < j ==> taken.contains(#[trigger] wg_address(i));
            assert forall|i: nat| k <= i < j implies taken.contains(#[trigger] wg_address(i)) by {
                if i > k {
                    assert(k + 1 <= i < j);
                }
            }
        }
    } else if k < 65536 {
        assert(forall|i: nat| k <= i < k ==> taken.contains(#[trigger] wg_address(i)));
    }
}

/// A dump line lists `pubkey` with a handshake fresh at `now`: at least five
/// tab-separated fields, the first being the key, the fifth a handshake time
/// (0 when it does not read as a number) that is fresh.
pub open spec fn line_shows_fresh(line: Seq<char>, pubkey: Seq<char>, now: u64) -> bool {
    let f = split_on(line, '\t');
    f.len() >= 5 && f[0] == pubkey && fresh(u64_or_zero(f[4]), now)
}

/// Some line after the first of a dump shows a fresh handshake of `pubkey`.
pub open spec fn dump_shows_fresh(lines: Seq<Seq<char>>, pubkey: Seq<char>, now: u64) -> bool {
    exists|i: int| 1 <= i < lines.len() && line_shows_fresh(#[trigger] lines[i], pubkey, now)
}

/// Whether `wg show <iface> dump` output shows a completed handshake with
/// `pubkey` less than the timeout before `now`.
pub fn dump_has_fresh_handshake(output: &str, pubkey: &str, now: u64) -> (r: bool)
    ensures
        r == dump_shows_fresh(text_lines(output@), pubkey@, now),
{
    let lines = lines_of(output);
    let ghost ls = views(lines@);
    let mut i: usize = 1;
    while i < lines.len()
        invariant
            1 <= i,
            ls == views(lines@),
            ls == text_lines(output@),
            forall|k: int| 1 <= k < i && k < ls.len() ==> !line_shows_fresh(#[trigger] ls[k], pubkey@, now),
        decreases lines.len() - i,
    {
        let fields = split_text(lines[i].as_str(), '\t');
        assert(ls[i as int] == lines@[i as int]@);
        if fields.len() >= 5 && text_eq(fields[0].as_str(), pubkey) {
            let hs = parse_u64_or_zero(fields[4].as_str());
            if hs > 0 && now.saturating_sub(hs) < HANDSHAKE_TIMEOUT_SECS {
                assert(line_shows_fresh(ls[i as int], pubkey@, now));
                return true;
            }
        }
        i = i + 1;
    }
    false
}

/// The status a dump line gives, if it has at least seven tab-separated
/// fields: key, endpoint and allowed IPs as printed, numbers read as `u64`
/// (0 when they do not read as one).
pub open spec fn status_line(line: Seq<char>) -> Option<(Seq<char>, Seq<char>, Seq<char>, u64, u64, u64)> {
    let f = split_on(line, '\t');
    if f.len() < 7 {
        None
    } else {
        Some((f[0], f[2], f[3], u64_or_zero(f[4]), u64_or_zero(f[5]), u64_or_zero(f[6])))
    }
}

/// The statuses of a sequence of dump lines, in order.
pub open spec fn status_lines(lines: Seq<Seq<char>>) -> Seq<(Seq<char>, Seq<char>, Seq<char>, u64, u64, u64)>
    decreases lines.len(),
{
    if lines.len() == 0 {
        Seq::empty()
    } else {
        let r = status_lines(lines.drop_last());
        match status_line(lines.last()) {
            Some(x) => r.push(x),
            None => r,
        }
    }
}

/// The model of a peer status.
pub open spec fn status_model(p: WgPeerStatus) -> (Seq<char>, Seq<char>, Seq<char>, u64, u64, u64) {
    (p.pubkey@, p.endpoint@, p.allowed_ips@, p.latest_handshake, p.transfer_rx, p.transfer_tx)
}

/// Parse `wg show <iface> dump` into peer statuses: the interface line is
/// skipped, and each later line with at least seven fields gives one.
pub fn parse_wg_status(output: &str) -> (r: Vec<WgPeerStatus>)
    ensures
        r@.map_values(|p: WgPeerStatus| status_model(p)) == status_lines(after_first(text_lines(output@))),
{
    let lines = lines_of(output);
    let ghost ls = views(lines@);
    let mut out: Vec<WgPeerStatus> = Vec::new();
    if lines.len() == 0 {
        assert(out@.map_values(|p: WgPeerStatus| status_model(p)) =~= Seq::<(Seq<char>, Seq<char>, Seq<char>, u64, u64, u64)>::empty());
        return out;
    }
    let ghost rest = ls.drop_first();
    let mut i: usize = 1;
    assert(rest.take(0) =~= Seq::<Seq<char>>::empty());
    assert(out@.map_values(|p: WgPeerStatus| status_model(p)) =~= Seq::<(Seq<char>, Seq<char>, Seq<char>, u64, u64, u64)>::empty());
    while i < lines.len()
        invariant
            1 <= i <= lines.len(),
            ls == views(lines@),
            rest == ls.drop_first(),
            out@.map_values(|p: WgPeerStatus| status_model(p)) == status_lines(rest.take(i - 1)),
        decreases lines.len() - i,
    {
        let ghost before = out@.map_values(|p: WgPeerStatus| status_model(p));
        assert(rest.take(i as int).drop_last() =~= rest.take(i - 1));
        assert(rest.take(i as int).last() == lines@[i as int]@);
        let fields = split_text(lines[i].as_str(), '\t');
        if fields.len() >= 7 {
            let st = WgPeerStatus {
                pubkey: fields[0].clone(),
                endpoint: fields[2].clone(),
                allowed_ips: fields[3].clone(),
                latest_handshake: parse_u64_or_zero(fields[4].as_str()),
                transfer_rx: parse_u64_or_zero(fields[5].as_str()),
                transfer_tx: parse_u64_or_zero(fields[6].as_str()),
            };
            assert(status_model(st) == status_line(lines@[i as int]@)->0);
            out.push(st);
            assert(out@.map_values(|p: WgPeerStatus| status_model(p)) =~= before.push(status_model(st)));
        }
        i = i + 1;
    }
    assert(rest.take(i - 1) =~= rest);
    out
}

/// The address part of an allowed-IPs entry: trimmed, before any `/`.
pub open spec fn entry_address(entry: Seq<char>) -> Seq<char> {
    split_on(trimmed(entry), '/')[0]
}

/// The address part of each entry of a comma-separated allowed-IPs list.
pub fn allowed_addresses(allowed_ips: &str) -> (r: Vec<String>)
    ensures
        views(r@) == split_on(allowed_ips@, ',').map_values(|e: Seq<char>| entry_address(e)),
{
    let parts = split_text(allowed_ips, ',');
    let mut out: Vec<String> = Vec::new();
    let mut i: usize = 0;
    while i < parts.len()
        invariant
            i <= parts.len(),
            views(parts@) == split_on(allowed_ips@, ','),
            out@.len() == i,
            forall|k: int| 0 <= k < i ==> (#[trigger] out@[k])@ == entry_address(parts@[k]@),
        decreases parts.len() - i,
    {
        let t = trim_text(parts[i].as_str());
        let pieces = split_text(t.as_str(), '/');
        proof {
            lemma_split_on_len(t@, '/');
        }
        out.push(pieces[0].clone());
        assert(views(parts@)[i as int] == parts@[i as int]@);
        i = i + 1;
    }
    assert(views(out@) =~= split_on(allowed_ips@, ',').map_values(|e: Seq<char>| entry_address(e)));
    out
}

/// The `wg` arguments that configure a peer: its address as a /32, its
/// endpoint, the preshared-key file if any, and keepalive 25 s.
pub open spec fn peer_config_args_spec(iface: Seq<char>, peer: WgPeerConfig, psk_path: Option<Seq<char>>) -> Seq<Seq<char>> {
    seq!["set"@, iface, "peer"@, peer.pubkey@, "allowed-ips"@, peer.allowed_ip@ + "/32"@, "endpoint"@, peer.endpoint@]
        + match psk_path {
        Some(p) => seq!["preshared-key"@, p],
        None => Seq::empty(),
    } + seq!["persistent-keepalive"@, "25"@]
}

/// The `wg` arguments that configure a peer.
pub fn peer_config_args(iface: &str, peer: &WgPeerConfig, psk_path: Option<&str>) -> (r: Vec<String>)
    ensures
        views(r@) == peer_config_args_spec(
            iface@,
            *peer,
            match psk_path {
                Some(p) => Some(p@),
                None => None,
            },
        ),
{
    let mut ip = peer.allowed_ip.clone();
    crate::strings::push_str(&mut ip, "/32");
    let mut args: Vec<String> = Vec::new();
    args.push("set".to_owned());
    args.push(iface.to_owned());
    args.push("peer".to_owned());
    args.push(peer.pubkey.clone());
    args.push("allowed-ips".to_owned());
    args.push(ip);
    args.push("endpoint".to_owned());
    args.push(peer.endpoint.clone());
    match psk_path {
        Some(p) => {
            args.push("preshared-key".to_owned());
            args.push(p.to_owned());
        },
        None => {},
    }
    args.push("persistent-keepalive".to_owned());
    args.push("25".to_owned());
    let ghost want = peer_config_args_spec(
        iface@,
        *peer,
        match psk_path {
            Some(p) => Some(p@),
            None => None,
        },
    );
    assert(views(args@) =~= want);
    args
}

/// This node's own WG address: the configured one, else the one stored
/// (trimmed), else `100.222.0.1`, which is then to be stored. Returns the
/// address and whether to store it.
pub fn local_address(configured: Option<String>, stored: Option<&str>) -> (r: (String, bool))
    ensures
        match configured {
            Some(a) => r.0@ == a@ && !r.1,
            None => match stored {
                Some(t) => r.0@ == trimmed(t@) && !r.1,
                None => r.0@ == "100.222.0.1"@ && r.1,
            },
        },
{
    match configured {
        Some(a) => (a, false),
        None => match stored {
            Some(t) => (trim_text(t), false),
            None => ("100.222.0.1".to_owned(), true),
        },
    }
}

/// The WG state of a node with WireGuard disabled: nothing set.
pub fn disabled_state() -> (r: WgState)
    ensures
        r.public_key is None && r.address is None && r.endpoint is None && r.tunnel_handle is None,
{
    WgState { public_key: None, address: None, endpoint: None, tunnel_handle: None }
}

/// The WG state after setting the interface up: key, address and endpoint
/// are known either way; the tunnel runs only when the interface came up.
pub fn enabled_state(public_key: String, address: String, endpoint: Option<String>, interface_up: bool) -> (r: WgState)
    ensures
        r.public_key matches Some(k) && k@ == public_key@,
        r.address matches Some(a) && a@ == address@,
        r.endpoint == endpoint,
        r.tunnel_handle is Some <==> interface_up,
{
    WgState {
        public_key: Some(public_key),
        address: Some(address),
        endpoint,
        tunnel_handle: if interface_up {
            Some(())
        } else {
            None
        },
    }
}

/// Why no address could be allocated.
#[derive(Debug, Clone, Copy, PartialEq, Eq, Structural)]
pub enum AddressError {
    /// Every address of 100.222.0.2 to 100.222.255.255 is taken.
    Exhausted,
}

fn address_text(k: u32) -> (r: String)
    requires
        k < 65536,
    ensures
        r@ == wg_address(k as nat),
{
    let mut s = "100.222.".to_owned();
    push_decimal(&mut s, (k / 256) as u64);
    crate::strings::push_char(&mut s, '.');
    push_decimal(&mut s, (k % 256) as u64);
    s
}

fn contains_text(items: &Vec<String>, s: &String) -> (r: bool)
    ensures
        r == items@.map_values(|t: String| t@).contains(s@),
{
    let mut i: usize = 0;
    while i < items.len()
        invariant
            i <= items.len(),
            forall|k: int| 0 <= k < i ==> items@[k]@ != s@,
        decreases items.len() - i,
    {
        if text_eq(items[i].as_str(), s.as_str()) {
            assert(items@.map_values(|t: String| t@)[i as int] == s@);
            return true;
        }
        i = i + 1;
    }
    proof {
        let v = items@.map_values(|t: String| t@);
        if v.contains(s@) {
            let k = choose|k: int| 0 <= k < v.len() && v[k] == s@;
            assert(items@[k]@ == s@);
        }
    }
    false
}

/// Allocate the next free address in 100.222.0.0/16 given those already
/// assigned: the first free of 100.222.0.2, 100.222.0.3, ...
pub fn assign_next_address(assigned: &Vec<String>) -> (r: Result<String, AddressError>)
    ensures
        match first_free(assigned@.map_values(|t: String| t@), 2) {
            Some(a) => r matches Ok(s) && s@ == a,
            None => r == Err::<String, AddressError>(AddressError::Exhausted),
        },
{
    let ghost taken = assigned@.map_values(|t: String| t@);
    let mut k: u32 = 2;
    while k < 65536
        invariant
            2 <= k <= 65536,
            taken == assigned@.map_values(|t: String| t@),
            first_free(taken, 2) == first_free(taken, k as nat),
        decreases 65536 - k,
    {
        let candidate = address_text(k);
        if !contains_text(assigned, &candidate) {
            return Ok(candidate);
        }
        k = k + 1;
    }
    Err(AddressError::Exhausted)
}

/// The allocated addresses without `address`.
pub open spec fn without_address(assigned: Seq<Seq<char>>, address: Seq<char>) -> Seq<Seq<char>>
    decreases assigned.len(),
{
    if assigned.len() == 0 {
        Seq::empty()
    } else {
        let rest = without_address(assigned.drop_last(), address);
        if assigned.last() == address {
            rest
        } else {
            rest.push(assigned.last())
        }
    }
}

/// Reclaim a previously assigned address, making it available for reuse.
pub fn reclaim_address(assigned: &Vec<String>, address: &str) -> (r: Vec<String>)
    ensures
        r@.map_values(|t: String| t@) == without_address(assigned@.map_values(|t: String| t@), address@),
{
    let ghost all = assigned@.map_values(|t: String| t@);
    let mut out: Vec<String> = Vec::new();
    let mut i: usize = 0;
    assert(all.subrange(0, 0) =~= Seq::<Seq<char>>::empty());
    assert(out@.map_values(|t: String| t@) =~= Seq::<Seq<char>>::empty());
    while i < assigned.len()
        invariant
            i <= assigned.len(),
            all == assigned@.map_values(|t: String| t@),
            out@.map_values(|t: String| t@) == without_address(all.subrange(0, i as int), address@),
        decreases assigned.len() - i,
    {
        let ghost pre = all.subrange(0, i + 1);
        assert(pre.drop_last() =~= all.subrange(0, i as int));
        assert(pre.last() == assigned@[i as int]@);
        if !text_eq(assigned[i].as_str(), address) {
            let ghost before = out@;
            out.push(assigned[i].clone());
            assert(out@.map_values(|t: String| t@) =~= before.map_values(|t: String| t@).push(assigned@[i as int]@));
        }
        i = i + 1;
    }
    assert(all.subrange(0, i as int) =~= all);
    out
}

/// Events emitted by the monitor to the protocol engine.
#[derive(Debug, Clone, Copy)]
pub enum WgPeerEvent {
    /// A peer has become reachable (new handshake detected).
    PeerVisible(PeerId),
    /// A peer's handshake has timed out.
    PeerUnreachable(PeerId),
    /// A peer has been completely removed from the WireGuard interface.
    PeerRemoved(PeerId),
}

/// Handshake timeout: a handshake older than this many seconds makes the
/// peer unreachable even while it is still listed.
pub const HANDSHAKE_TIMEOUT_SECS: u64 = 180;

/// A handshake at `hs` is fresh at `now`: it happened, and less than the
/// timeout ago (a clock that went backwards counts as no time passed).
pub open spec fn fresh(hs: u64, now: u64) -> bool {
    hs > 0 && (if now >= hs { now - hs } else { 0 }) < HANDSHAKE_TIMEOUT_SECS
}

/// What the monitor remembers between polls: the last handshake seen of
/// each peer it tracks, and which peers it considers reachable.
#[derive(Debug)]
pub struct MonitorState {
    pub last_handshake: Vec<(PeerId, u64)>,
    pub reachable: Vec<PeerId>,
}

/// The model of the monitor state: handshakes by key, reachable keys.
pub open spec fn handshakes_of(s: Seq<(PeerId, u64)>) -> Map<Seq<u8>, u64>
    decreases s.len(),
{
    if s.len() == 0 {
        Map::empty()
    } else {
        handshakes_of(s.drop_last()).insert(s.last().0@, s.last().1)
    }
}

/// The keys of a list of peer ids.
pub open spec fn key_set(s: Seq<PeerId>) -> Set<Seq<u8>> {
    Set::new(|k: Seq<u8>| exists|i: int| 0 <= i < s.len() && #[trigger] s[i]@ == k)
}

/// The keys listed in a dump.
pub open spec fn listed(peers: Seq<WgPeerState>) -> Set<Seq<u8>> {
    Set::new(|k: Seq<u8>| exists|i: int| 0 <= i < peers.len() && #[trigger] peers[i].public_key@ == k)
}

/// The freshness of the last listing of `key` in `peers`, if listed.
pub open spec fn last_listing_fresh(peers: Seq<WgPeerState>, key: Seq<u8>, now: u64) -> Option<bool>
    decreases peers.len(),
{
    if peers.len() == 0 {
        None
    } else if peers.last().public_key@ == key {
        Some(fresh(peers.last().latest_handshake, now))
    } else {
        last_listing_fresh(peers.drop_last(), key, now)
    }
}

/// The events one observation of a listed peer emits, given the keys
/// reachable before it: a fresh peer not yet reachable becomes visible; a
/// stale peer that was reachable becomes unreachable; nothing otherwise.
pub open spec fn observation_events(reach: Set<Seq<u8>>, peer: WgPeerState, now: u64) -> Seq<WgPeerEvent> {
    if fresh(peer.latest_handshake, now) {
        if reach.contains(peer.public_key@) {
            Seq::empty()
        } else {
            seq![WgPeerEvent::PeerVisible(peer.public_key)]
        }
    } else if reach.contains(peer.public_key@) {
        seq![WgPeerEvent::PeerUnreachable(peer.public_key)]
    } else {
        Seq::empty()
    }
}

/// The reachable keys after one observation of a listed peer.
pub open spec fn observed_reach(reach: Set<Seq<u8>>, peer: WgPeerState, now: u64) -> Set<Seq<u8>> {
    if fresh(peer.latest_handshake, now) {
        reach.insert(peer.public_key@)
    } else {
        reach.remove(peer.public_key@)
    }
}

/// Observing the listed peers in order, from the reachable keys `reach`:
/// the reachable keys afterwards and the events emitted.
pub open spec fn observe_all(reach: Set<Seq<u8>>, peers: Seq<WgPeerState>, now: u64) -> (Set<Seq<u8>>, Seq<WgPeerEvent>)
    decreases peers.len(),
{
    if peers.len() == 0 {
        (reach, Seq::empty())
    } else {
        let (r, e) = observe_all(reach, peers.drop_last(), now);
        (observed_reach(r, peers.last(), now), e + observation_events(r, peers.last(), now))
    }
}

/// `events` announces the removal of exactly the keys of `keys`, each once.
pub open spec fn removal_events(events: Seq<WgPeerEvent>, keys: Set<Seq<u8>>) -> bool {
    &&& forall|i: int| 0 <= i < events.len() ==> #[trigger] events[i] is PeerRemoved
    &&& forall|i: int, j: int|
        0 <= i < j < events.len() ==> (#[trigger] events[i])->PeerRemoved_0@ != (#[trigger] events[j])->PeerRemoved_0@
    &&& forall|k: Seq<u8>|
        keys.contains(k) <==> exists|i: int| 0 <= i < events.len() && (#[trigger] events[i])->PeerRemoved_0@ == k
}

impl MonitorState {
    pub fn new() -> (r: Self)
        ensures
            r.last_handshake@.len() == 0,
            r.reachable@.len() == 0,
    {
        MonitorState { last_handshake: Vec::new(), reachable: Vec::new() }
    }

    /// The reachable set holds each key once.
    pub open spec fn wf(&self) -> bool {
        forall|i: int, j: int| 0 <= i < j < self.reachable@.len() ==> self.reachable@[i]@ != self.reachable@[j]@
    }

    fn find_reachable(&self, id: &PeerId) -> (r: Option<usize>)
        ensures
            match r {
                Some(i) => i < self.reachable@.len() && self.reachable@[i as int]@ == id@,
                None => !key_set(self.reachable@).contains(id@),
            },
    {
        let mut i: usize = 0;
        while i < self.reachable.len()
            invariant
                i <= self.reachable.len(),
                forall|k: int| 0 <= k < i ==> self.reachable@[k]@ != id@,
            decreases self.reachable.len() - i,
        {
            if peer_id_eq(&self.reachable[i], id) {
                return Some(i);
            }
            i = i + 1;
        }
        proof {
            if key_set(self.reachable@).contains(id@) {
                let k = choose|k: int| 0 <= k < self.reachable@.len() && #[trigger] self.reachable@[k]@ == id@;
                assert(self.reachable@[k]@ == id@);
            }
        }
        None
    }

    fn last_seen(&self, id: &PeerId) -> (r: u64)
        ensures
            r == (if handshakes_of(self.last_handshake@).contains_key(id@) {
                handshakes_of(self.last_handshake@)[id@]
            } else {
                0
            }),
    {
        let mut i: usize = self.last_handshake.len();
        let ghost all = self.last_handshake@;
        assert(all.subrange(0, i as int) =~= all);
        while i > 0
            invariant
                i <= all.len(),
                all == self.last_handshake@,
                forall|k: int| i <= k < all.len() ==> all[k].0@ != id@,
                handshakes_of(all).contains_key(id@) == handshakes_of(all.subrange(0, i as int)).contains_key(id@),
                handshakes_of(all).contains_key(id@) ==> handshakes_of(all)[id@] == handshakes_of(all.subrange(0, i as int))[id@],
            decreases i,
        {
            let ghost pre = all.subrange(0, i as int);
            assert(pre.drop_last() =~= all.subrange(0, i - 1));
            if peer_id_eq(&self.last_handshake[i - 1].0, id) {
                return self.last_handshake[i - 1].1;
            }
            i = i - 1;
        }
        assert(all.subrange(0, 0) =~= Seq::<(PeerId, u64)>::empty());
        0
    }

    /// Process one peer line of a poll: a fresh handshake that advanced, or
    /// a fresh peer not yet reachable, records the handshake and makes the
    /// peer reachable (announcing it if it was not); a stale handshake makes
    /// a reachable peer unreachable.
    fn observe(&mut self, peer: &WgPeerState, now: u64, events: &mut Vec<WgPeerEvent>)
        requires
            old(self).wf(),
        ensures
            final(self).wf(),
            key_set(final(self).reachable@) == observed_reach(key_set(old(self).reachable@), *peer, now),
            final(events)@ == old(events)@ + observation_events(key_set(old(self).reachable@), *peer, now),
    {
        let id = peer.public_key;
        let is_fresh = peer.latest_handshake > 0 && now.saturating_sub(peer.latest_handshake) < HANDSHAKE_TIMEOUT_SECS;
        let prev = self.last_seen(&id);
        let advanced = peer.latest_handshake > prev;
        let found = self.find_reachable(&id);
        let ghost before = self.reachable@;
        if is_fresh && (advanced || found.is_none()) {
            self.last_handshake.push((id, peer.latest_handshake));
            if found.is_none() {
                self.reachable.push(id);
                events.push(WgPeerEvent::PeerVisible(id));
                assert(key_set(self.reachable@) =~= key_set(before).insert(id@)) by {
                    assert forall|k: Seq<u8>| key_set(self.reachable@).contains(k) == key_set(before).insert(id@).contains(k) by {
                        if key_set(self.reachable@).contains(k) {
                            let i = choose|i: int| 0 <= i < self.reachable@.len() && #[trigger] self.reachable@[i]@ == k;
                            if i < before.len() {
                                assert(before[i]@ == k);
                            }
                        }
                        if key_set(before).contains(k) {
                            let i = choose|i: int| 0 <= i < before.len() && #[trigger] before[i]@ == k;
                            assert(self.reachable@[i]@ == k);
                        }
                        if k == id@ {
                            assert(self.reachable@[before.len() as int]@ == k);
                        }
                    }
                }
            } else {
                assert(key_set(before).contains(id@)) by {
                    let i = found.unwrap();
                    assert(before[i as int]@ == id@);
                }
                assert(key_set(self.reachable@) =~= key_set(before).insert(id@));
            }
        } else if is_fresh {
            assert(key_set(before).contains(id@)) by {
                let i = found.unwrap();
                assert(before[i as int]@ == id@);
            }
            assert(key_set(self.reachable@) =~= key_set(before).insert(id@));
        } else {
            match found {
                Some(i) => {
                    self.reachable.remove(i);
                    events.push(WgPeerEvent::PeerUnreachable(id));
                    assert(key_set(self.reachable@) =~= key_set(before).remove(id@)) by {
                        assert forall|k: Seq<u8>| key_set(self.reachable@).contains(k) == key_set(before).remove(id@).contains(k) by {
                            if key_set(self.reachable@).contains(k) {
                                let j = choose|j: int| 0 <= j < self.reachable@.len() && #[trigger] self.reachable@[j]@ == k;
                                if j < i {
                                    assert(before[j]@ == k);
                                    assert(before[j]@ != before[i as int]@);
                                } else {
                                    assert(before[j + 1]@ == k);
                                    assert(before[j + 1]@ != before[i as int]@);
                                }
                            }
                            if key_set(before).remove(id@).contains(k) {
                                let j = choose|j: int| 0 <= j < before.len() && #[trigger] before[j]@ == k;
                                assert(j != i);
                                if j < i {
                                    assert(self.reachable@[j]@ == k);
                                } else {
                                    assert(self.reachable@[j - 1]@ == k);
                                }
                            }
                        }
                    }
                },
                None => {
                    assert(key_set(self.reachable@) =~= key_set(before).remove(id@));
                },
            }
        }
    }

    /// One poll of the monitor: each listed peer is observed in turn, then
    /// every reachable peer no longer listed is removed. Returns the events:
    /// those of the observations in order, then one removal per reachable
    /// peer no longer listed. Afterwards the reachable peers are exactly the
    /// listed ones whose last listing has a fresh handshake.
    pub fn poll(&mut self, peers: &Vec<WgPeerState>, now: u64) -> (events: Vec<WgPeerEvent>)
        requires
            old(self).wf(),
        ensures
            final(self).wf(),
            forall|k: Seq<u8>| #[trigger] key_set(final(self).reachable@).contains(k) <==> last_listing_fresh(peers@, k, now)
                == Some(true),
            ({
                let (r1, e1) = observe_all(key_set(old(self).reachable@), peers@, now);
                &&& e1.len() <= events@.len()
                &&& events@.subrange(0, e1.len() as int) == e1
                &&& removal_events(
                    events@.subrange(e1.len() as int, events@.len() as int),
                    r1.filter(|k: Seq<u8>| !listed(peers@).contains(k)),
                )
            }),
    {
        let mut events: Vec<WgPeerEvent> = Vec::new();
        let ghost start = key_set(self.reachable@);
        let mut i: usize = 0;
        assert(peers@.subrange(0, 0) =~= Seq::<WgPeerState>::empty());
        while i < peers.len()
            invariant
                i <= peers.len(),
                self.wf(),
                start == key_set(old(self).reachable@),
                key_set(self.reachable@) == observe_all(start, peers@.subrange(0, i as int), now).0,
                events@ == observe_all(start, peers@.subrange(0, i as int), now).1,
                forall|k: Seq<u8>| #[trigger] key_set(self.reachable@).contains(k) <==> (match last_listing_fresh(
                    peers@.subrange(0, i as int),
                    k,
                    now,
                ) {
                    Some(f) => f,
                    None => start.contains(k),
                }),
            decreases peers.len() - i,
        {
            let ghost pre = peers@.subrange(0, i + 1);
            assert(pre.drop_last() =~= peers@.subrange(0, i as int));
            assert(pre.last() == peers@[i as int]);
            self.observe(&peers[i], now, &mut events);
            i = i + 1;
        }
        assert(peers@.subrange(0, i as int) =~= peers@);
        let ghost r1 = key_set(self.reachable@);
        let ghost e1 = events@;
        let ghost mut removed: Seq<PeerId> = Seq::empty();
        proof {
            assert forall|k: Seq<u8>| #[trigger] last_listing_fresh(peers@, k, now) is Some <==> listed(peers@).contains(k) by {
                lemma_listing_listed(peers@, k, now);
            }
            assert(e1 + removed.map_values(|id: PeerId| WgPeerEvent::PeerRemoved(id)) =~= e1);
        }
        let mut j: usize = 0;
        while j < self.reachable.len()
            invariant
                j <= self.reachable.len(),
                self.wf(),
                forall|x: int| 0 <= x < j ==> listed(peers@).contains(#[trigger] self.reachable@[x]@),
                forall|k: Seq<u8>| #[trigger] key_set(self.reachable@).contains(k) ==> r1.contains(k),
                forall|k: Seq<u8>| r1.contains(k) && listed(peers@).contains(k) ==> #[trigger] key_set(self.reachable@).contains(k),
                events@ == e1 + removed.map_values(|id: PeerId| WgPeerEvent::PeerRemoved(id)),
                forall|x: int| 0 <= x < removed.len() ==> r1.contains(#[trigger] removed[x]@) && !listed(peers@).contains(removed[x]@),
                forall|x: int| 0 <= x < removed.len() ==> !key_set(self.reachable@).contains(#[trigger] removed[x]@),
                forall|x: int, y: int| 0 <= x < y < removed.len() ==> (#[trigger] removed[x])@ != (#[trigger] removed[y])@,
                forall|k: Seq<u8>| #[trigger] r1.contains(k) ==> key_set(self.reachable@).contains(k) || exists|x: int|
                    0 <= x < removed.len() && (#[trigger] removed[x])@ == k,
            decreases self.reachable.len() - j,
        {
            let id = self.reachable[j];
            if !listed_exec(peers, &id) {
                let ghost before = self.reachable@;
                let ghost removed_before = removed;
                self.reachable.remove(j);
                events.push(WgPeerEvent::PeerRemoved(id));
                proof {
                    assert(key_set(before).contains(id@)) by {
                        assert(before[j as int]@ == id@);
                    }
                    removed = removed.push(id);
                    assert(events@ =~= e1 + removed.map_values(|id: PeerId| WgPeerEvent::PeerRemoved(id)));
                    assert forall|x: int| 0 <= x < self.reachable@.len() implies self.reachable@[x]@ != id@ by {
                        let bx = if x < j { x } else { x + 1 };
                        assert(self.reachable@[x] == before[bx]);
                        assert(before[bx]@ != before[j as int]@);
                    }
                    assert(!key_set(self.reachable@).contains(id@)) by {
                        if key_set(self.reachable@).contains(id@) {
                            let x = choose|x: int| 0 <= x < self.reachable@.len() && #[trigger] self.reachable@[x]@ == id@;
                        }
                    }
                    assert forall|x: int| 0 <= x < removed_before.len() implies (#[trigger] removed_before[x])@ != id@ by {
                        assert(!key_set(before).contains(removed_before[x]@));
                    }
                    assert forall|x: int| 0 <= x < removed.len() implies !key_set(self.reachable@).contains(
                        #[trigger] removed[x]@,
                    ) by {
                        if x < removed_before.len() {
                            assert(removed[x] == removed_before[x]);
                            assert(!key_set(before).contains(removed_before[x]@));
                            if key_set(self.reachable@).contains(removed[x]@) {
                                let y = choose|y: int| 0 <= y < self.reachable@.len() && #[trigger] self.reachable@[y]@ == removed[x]@;
                                let by = if y < j { y } else { y + 1 };
                                assert(self.reachable@[y] == before[by]);
                            }
                        }
                    }
                    assert forall|k: Seq<u8>| #[trigger] r1.contains(k) implies key_set(self.reachable@).contains(k) || exists|x: int|
                        0 <= x < removed.len() && (#[trigger] removed[x])@ == k by {
                        if k == id@ {
                            assert(removed[removed.len() - 1]@ == k);
                        } else if key_set(before).contains(k) {
                            let x = choose|x: int| 0 <= x < before.len() && #[trigger] before[x]@ == k;
                            assert(x != j);
                            if x < j {
                                assert(self.reachable@[x]@ == k);
                            } else {
                                assert(self.reachable@[x - 1]@ == k);
                            }
                        } else {
                            let x = choose|x: int| 0 <= x < removed_before.len() && (#[trigger] removed_before[x])@ == k;
                            assert(removed[x] == removed_before[x]);
                        }
                    }
                    assert forall|x: int, y: int| 0 <= x < y < self.reachable@.len() implies self.reachable@[x]@
                        != self.reachable@[y]@ by {
                        let bx = if x < j { x } else { x + 1 };
                        let by = if y < j { y } else { y + 1 };
                        assert(self.reachable@[x] == before[bx]);
                        assert(self.reachable@[y] == before[by]);
                    }
                    assert forall|x: int| 0 <= x < j implies listed(peers@).contains(#[trigger] self.reachable@[x]@) by {
                        assert(self.reachable@[x] == before[x]);
                    }
                    assert forall|k: Seq<u8>| #[trigger] key_set(self.reachable@).contains(k) implies r1.contains(k) by {
                        let x = choose|x: int| 0 <= x < self.reachable@.len() && #[trigger] self.reachable@[x]@ == k;
                        let bx = if x < j { x } else { x + 1 };
                        assert(before[bx]@ == k);
                        assert(key_set(before).contains(k));
                    }
                    assert forall|k: Seq<u8>| r1.contains(k) && listed(peers@).contains(k) implies #[trigger] key_set(
                        self.reachable@,
                    ).contains(k) by {
                        assert(key_set(before).contains(k));
                        let x = choose|x: int| 0 <= x < before.len() && #[trigger] before[x]@ == k;
                        assert(x != j);
                        if x < j {
                            assert(self.reachable@[x]@ == k);
                        } else {
                            assert(self.reachable@[x - 1]@ == k);
                        }
                    }
                }
            } else {
                j = j + 1;
            }
        }
        proof {
            assert forall|k: Seq<u8>| #[trigger] key_set(self.reachable@).contains(k) <==> last_listing_fresh(peers@, k, now)
                == Some(true) by {
                if key_set(self.reachable@).contains(k) {
                    let x = choose|x: int| 0 <= x < self.reachable@.len() && #[trigger] self.reachable@[x]@ == k;
                    assert(listed(peers@).contains(self.reachable@[x]@));
                }
            }
            let tail = events@.subrange(e1.len() as int, events@.len() as int);
            assert(tail =~= removed.map_values(|id: PeerId| WgPeerEvent::PeerRemoved(id)));
            assert(events@.subrange(0, e1.len() as int) =~= e1);
            let gone = r1.filter(|k: Seq<u8>| !listed(peers@).contains(k));
            assert forall|k: Seq<u8>| gone.contains(k) <==> exists|i: int| 0 <= i < tail.len() && (#[trigger] tail[i])->PeerRemoved_0@ == k by {
                if gone.contains(k) {
                    if key_set(self.reachable@).contains(k) {
                        let x = choose|x: int| 0 <= x < self.reachable@.len() && #[trigger] self.reachable@[x]@ == k;
                        assert(listed(peers@).contains(self.reachable@[x]@));
                    }
                    let x = choose|x: int| 0 <= x < removed.len() && (#[trigger] removed[x])@ == k;
                    assert(tail[x]->PeerRemoved_0@ == k);
                }
                if exists|i: int| 0 <= i < tail.len() && (#[trigger] tail[i])->PeerRemoved_0@ == k {
                    let i = choose|i: int| 0 <= i < tail.len() && (#[trigger] tail[i])->PeerRemoved_0@ == k;
                    assert(tail[i] == WgPeerEvent::PeerRemoved(removed[i]));
                    assert(r1.contains(removed[i]@));
                }
            }
            assert forall|i: int, j: int| 0 <= i < j < tail.len() implies (#[trigger] tail[i])->PeerRemoved_0@ != (
            #[trigger] tail[j])->PeerRemoved_0@ by {
                assert(tail[i] == WgPeerEvent::PeerRemoved(removed[i]));
                assert(tail[j] == WgPeerEvent::PeerRemoved(removed[j]));
            }
        }
        events
    }
}

/// A key has a last listing exactly when it is listed.
proof fn lemma_listing_listed(peers: Seq<WgPeerState>, key: Seq<u8>, now: u64)
    ensures
        last_listing_fresh(peers, key, now) is Some <==> listed(peers).contains(key),
    decreases peers.len(),
{
    if peers.len() > 0 {
        let init = peers.drop_last();
        lemma_listing_listed(init, key, now);
        if listed(peers).contains(key) {
            let i = choose|i: int| 0 <= i < peers.len() && #[trigger] peers[i].public_key@ == key;
            if i < peers.len() - 1 {
                assert(init[i].public_key@ == key);
            }
        }
        if listed(init).contains(key) {
            let i = choose|i: int| 0 <= i < init.len() && #[trigger] init[i].public_key@ == key;
            assert(peers[i].public_key@ == key);
        }
        if peers.last().public_key@ == key {
            assert(peers[peers.len() - 1].public_key@ == key);
        }
    }
}

/// Whether a key is listed in a dump.
fn listed_exec(peers: &Vec<WgPeerState>, id: &PeerId) -> (r: bool)
    ensures
        r == listed(peers@).contains(id@),
{
    let mut i: usize = 0;
    while i < peers.len()
        invariant
            i <= peers.len(),
            forall|k: int| 0 <= k < i ==> peers@[k].public_key@ != id@,
        decreases peers.len() - i,
    {
        if peer_id_eq(&peers[i].public_key, id) {
            assert(peers@[i as int].public_key@ == id@);
            return true;
        }
        i = i + 1;
    }
    proof {
        if listed(peers@).contains(id@) {
            let k = choose|k: int| 0 <= k < peers@.len() && #[trigger] peers@[k].public_key@ == id@;
            assert(peers@[k].public_key@ == id@);
        }
    }
    false
}

} // verus!
