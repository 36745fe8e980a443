//! Where a peer is reached and who an address belongs to: the addresses the
//! engine was given for peers (test overrides and LAN transport hints),
//! then the allowed IPs of the WireGuard peers.
use vstd::prelude::*;

use crate::bridge::decode_peer_id;
use crate::encoding::{b64_encode, base64_decoded, base64_encoded};
use crate::manifest::{peer_id_eq, PeerId};
use crate::strings::text_eq;
use crate::stun::IpAddr;

verus! {

/// A transport address: IP and port.
#[derive(Debug, Clone, Copy, PartialEq, Eq)]
pub struct PeerAddr {
    pub ip: IpAddr,
    pub port: u16,
}

/// Equality of two byte strings.
pub fn bytes_equal(a: &[u8], b: &[u8]) -> (r: bool)
    ensures
        r == (a@ == b@),
{
    if a.len() != b.len() {
        return false;
    }
    let mut i: usize = 0;
    while i < a.len()
        invariant
            i <= a.len(),
            a.len() == b.len(),
            forall|k: int| 0 <= k < i ==> a@[k] == b@[k],
        decreases a.len() - i,
    {
        if a[i] != b[i] {
            return false;
        }
        i = i + 1;
    }
    assert(a@ =~= b@);
    true
}

proof fn lemma_array_view_eq<const N: usize>(a: [u8; N], b: [u8; N])
    requires
        a@ == b@,
    ensures
        a == b,
{
    assert(a =~= b);
}

/// Whether two peer ids are the same.
pub fn same_peer(a: &PeerId, b: &PeerId) -> (r: bool)
    ensures
        r == (*a == *b),
{
    let r = peer_id_eq(a, b);
    proof {
        if r {
            lemma_array_view_eq(*a, *b);
        }
    }
    r
}

/// Whether two IP addresses are the same: same family, same octets.
pub fn same_ip(a: &IpAddr, b: &IpAddr) -> (r: bool)
    ensures
        r == (*a == *b),
{
    match (a, b) {
        (IpAddr::V4(x), IpAddr::V4(y)) => {
            let r = bytes_equal(x.as_slice(), y.as_slice());
            proof {
                if r {
                    lemma_array_view_eq(*x, *y);
                }
            }
            r
        },
        (IpAddr::V6(x), IpAddr::V6(y)) => {
            let r = bytes_equal(x.as_slice(), y.as_slice());
            proof {
                if r {
                    lemma_array_view_eq(*x, *y);
                }
            }
            r
        },
        _ => false,
    }
}

/// Each peer occurs at most once in a list of addresses.
pub open spec fn keys_unique(s: Seq<(PeerId, PeerAddr)>) -> bool {
    forall|i: int, j: int| 0 <= i < s.len() && 0 <= j < s.len() && i != j ==> #[trigger] s[i].0 != #[trigger] s[j].0
}

/// Whether a list of addresses has an entry for `id`.
pub open spec fn has_entry(s: Seq<(PeerId, PeerAddr)>, id: PeerId) -> bool {
    exists|i: int| 0 <= i < s.len() && #[trigger] s[i].0 == id
}

/// The address a list gives for `id`, if it has one.
pub open spec fn addr_in(s: Seq<(PeerId, PeerAddr)>, id: PeerId) -> Option<PeerAddr> {
    if has_entry(s, id) {
        Some(s[choose|i: int| 0 <= i < s.len() && #[trigger] s[i].0 == id].1)
    } else {
        None
    }
}

proof fn lemma_addr_at(s: Seq<(PeerId, PeerAddr)>, i: int)
    requires
        keys_unique(s),
        0 <= i < s.len(),
    ensures
        addr_in(s, s[i].0) == Some(s[i].1),
{
    assert(has_entry(s, s[i].0));
    let j = choose|j: int| 0 <= j < s.len() && #[trigger] s[j].0 == s[i].0;
    if j != i {
        assert(s[i].0 != s[j].0);
    }
}

/// Addresses given to the engine for peers, one per peer: the test
/// overrides, or the LAN transport hints.
#[derive(Debug, Clone)]
pub struct AddrTable {
    entries: Vec<(PeerId, PeerAddr)>,
}

impl AddrTable {
    /// The address held for a peer.
    pub closed spec fn addr(&self, id: PeerId) -> Option<PeerAddr> {
        addr_in(self.entries@, id)
    }

    /// The table holds `id` at an address with IP `ip`.
    pub open spec fn holds_at(&self, id: PeerId, ip: IpAddr) -> bool {
        self.addr(id) matches Some(a) && a.ip == ip
    }

    /// One entry per peer.
    pub closed spec fn wf(&self) -> bool {
        keys_unique(self.entries@)
    }

    /// An empty table.
    pub fn new() -> (r: Self)
        ensures
            r.wf(),
            forall|id: PeerId| #[trigger] r.addr(id) is None,
    {
        AddrTable { entries: Vec::new() }
    }

    /// Set the address of a peer, replacing the one it had.
    pub fn insert(&mut self, id: PeerId, addr: PeerAddr)
        requires
            old(self).wf(),
        ensures
            final(self).wf(),
            forall|n: PeerId|
                #[trigger] final(self).addr(n) == (if n == id {
                    Some(addr)
                } else {
                    old(self).addr(n)
                }),
    {
        let ghost s = self.entries@;
        let mut i: usize = 0;
        while i < self.entries.len()
            invariant
                i <= self.entries.len(),
                self.entries@ == s,
                s == old(self).entries@,
                keys_unique(s),
                forall|k: int| 0 <= k < i ==> s[k].0 != id,
            decreases self.entries.len() - i,
        {
            if same_peer(&self.entries[i].0, &id) {
                self.entries.set(i, (id, addr));
                let ghost t = self.entries@;
                assert(t == s.update(i as int, (id, addr)));
                assert(keys_unique(t)) by {
                    assert forall|a: int, b: int| 0 <= a < t.len() && 0 <= b < t.len() && a != b implies #[trigger] t[a].0 != #[trigger] t[b].0 by {
                        assert(t[a].0 == s[a].0);
                        assert(t[b].0 == s[b].0);
                    }
                }
                proof {
                    lemma_addr_at(t, i as int);
                    assert forall|n: PeerId| n != id implies #[trigger] addr_in(t, n) == addr_in(s, n) by {
                        if has_entry(s, n) {
                            let j = choose|j: int| 0 <= j < s.len() && #[trigger] s[j].0 == n;
                            assert(t[j].0 == n);
                            lemma_addr_at(t, j);
                            lemma_addr_at(s, j);
                        } else if has_entry(t, n) {
                            let j = choose|j: int| 0 <= j < t.len() && #[trigger] t[j].0 == n;
                            assert(s[j].0 == n);
                        }
                    }
                }
                return;
            }
            i = i + 1;
        }
        self.entries.push((id, addr));
        let ghost t = self.entries@;
        assert(t == s.push((id, addr)));
        assert(keys_unique(t)) by {
            assert forall|a: int, b: int| 0 <= a < t.len() && 0 <= b < t.len() && a != b implies #[trigger] t[a].0 != #[trigger] t[b].0 by {
                if a < s.len() && b < s.len() {
                    assert(t[a] == s[a] && t[b] == s[b]);
                } else if a < s.len() {
                    assert(t[a] == s[a] && t[b].0 == id);
                } else {
                    assert(t[b] == s[b] && t[a].0 == id);
                }
            }
        }
        proof {
            lemma_addr_at(t, s.len() as int);
            assert forall|n: PeerId| n != id implies #[trigger] addr_in(t, n) == addr_in(s, n) by {
                if has_entry(s, n) {
                    let j = choose|j: int| 0 <= j < s.len() && #[trigger] s[j].0 == n;
                    assert(t[j] == s[j]);
                    lemma_addr_at(t, j);
                    lemma_addr_at(s, j);
                } else if has_entry(t, n) {
                    let j = choose|j: int| 0 <= j < t.len() && #[trigger] t[j].0 == n;
                    assert(j < s.len());
                    assert(s[j].0 == n);
                }
            }
        }
    }

    /// The address held for a peer.
    pub fn get(&self, id: &PeerId) -> (r: Option<PeerAddr>)
        requires
            self.wf(),
        ensures
            r == self.addr(*id),
    {
        let mut i: usize = 0;
        while i < self.entries.len()
            invariant
                i <= self.entries.len(),
                self.wf(),
                forall|k: int| 0 <= k < i ==> self.entries@[k].0 != *id,
            decreases self.entries.len() - i,
        {
            if same_peer(&self.entries[i].0, id) {
                proof {
                    lemma_addr_at(self.entries@, i as int);
                }
                return Some(self.entries[i].1);
            }
            i = i + 1;
        }
        None
    }

    /// A peer held at an address with IP `ip`, if any.
    pub fn peer_at(&self, ip: &IpAddr) -> (r: Option<PeerId>)
        requires
            self.wf(),
        ensures
            match r {
                Some(id) => self.holds_at(id, *ip),
                None => forall|id: PeerId| !(#[trigger] self.holds_at(id, *ip)),
            },
    {
        let mut i: usize = 0;
        while i < self.entries.len()
            invariant
                i <= self.entries.len(),
                self.wf(),
                forall|k: int| 0 <= k < i ==> self.entries@[k].1.ip != *ip,
            decreases self.entries.len() - i,
        {
            if same_ip(&self.entries[i].1.ip, ip) {
                proof {
                    lemma_addr_at(self.entries@, i as int);
                }
                return Some(self.entries[i].0);
            }
            i = i + 1;
        }
        proof {
            assert forall|id: PeerId| !(#[trigger] self.holds_at(id, *ip)) by {
                if has_entry(self.entries@, id) {
                    let j = choose|j: int| 0 <= j < self.entries@.len() && #[trigger] self.entries@[j].0 == id;
                    lemma_addr_at(self.entries@, j);
                }
            }
        }
        None
    }
}

/// A WireGuard peer as the address lookups read it: its public key (base64)
/// and each entry of its allowed IPs, parsed where it is an IP address.
#[derive(Debug, Clone)]
pub struct WgPeerAddrs {
    pub pubkey: String,
    pub addresses: Vec<Option<IpAddr>>,
}

/// The models of a list of WG peers: key text and parsed entries.
pub open spec fn wg_models(v: Seq<WgPeerAddrs>) -> Seq<(Seq<char>, Seq<Option<IpAddr>>)> {
    v.map_values(|p: WgPeerAddrs| (p.pubkey@, p.addresses@))
}

/// The overlay IP of the first WG peer with public key `key` whose first
/// allowed-IP entry is an IP address.
pub open spec fn wg_addr_of(peers: Seq<(Seq<char>, Seq<Option<IpAddr>>)>, key: Seq<char>) -> Option<IpAddr>
    decreases peers.len(),
{
    if peers.len() == 0 {
        None
    } else if peers[0].0 == key && peers[0].1.len() > 0 && peers[0].1[0] is Some {
        peers[0].1[0]
    } else {
        wg_addr_of(peers.drop_first(), key)
    }
}

/// The bytes of a base64 key when they are 32.
pub open spec fn key_bytes(key: Seq<char>) -> Option<Seq<u8>> {
    match base64_decoded(key) {
        Some(b) => if b.len() == 32 {
            Some(b)
        } else {
            None
        },
        None => None,
    }
}

/// The key of the first WG peer that lists `ip` among its allowed IPs and
/// whose key decodes to 32 bytes.
pub open spec fn wg_peer_at(peers: Seq<(Seq<char>, Seq<Option<IpAddr>>)>, ip: IpAddr) -> Option<Seq<u8>>
    decreases peers.len(),
{
    if peers.len() == 0 {
        None
    } else if peers[0].1.contains(Some(ip)) && key_bytes(peers[0].0) is Some {
        key_bytes(peers[0].0)
    } else {
        wg_peer_at(peers.drop_first(), ip)
    }
}

fn wg_lookup_addr(peers: &Vec<WgPeerAddrs>, key: &str) -> (r: Option<IpAddr>)
    ensures
        r == wg_addr_of(wg_models(peers@), key@),
{
    let ghost all = wg_models(peers@);
    let mut i: usize = 0;
    assert(all.skip(0) =~= all);
    while i < peers.len()
        invariant
            i <= peers.len(),
            all == wg_models(peers@),
            wg_addr_of(all, key@) == wg_addr_of(all.skip(i as int), key@),
        decreases peers.len() - i,
    {
        assert(all.skip(i as int)[0] == (peers@[i as int].pubkey@, peers@[i as int].addresses@));
        assert(all.skip(i as int).drop_first() =~= all.skip(i + 1));
        let p = &peers[i];
        if text_eq(p.pubkey.as_str(), key) && p.addresses.len() > 0 {
            if let Some(ip) = p.addresses[0] {
                return Some(ip);
            }
        }
        i = i + 1;
    }
    None
}

fn lists_ip(addrs: &Vec<Option<IpAddr>>, ip: &IpAddr) -> (r: bool)
    ensures
        r == addrs@.contains(Some(*ip)),
{
    let mut i: usize = 0;
    while i < addrs.len()
        invariant
            i <= addrs.len(),
            forall|k: int| 0 <= k < i ==> addrs@[k] != Some(*ip),
        decreases addrs.len() - i,
    {
        if let Some(a) = &addrs[i] {
            if same_ip(a, ip) {
                assert(addrs@[i as int] == Some(*ip));
                return true;
            }
        }
        i = i + 1;
    }
    false
}

fn wg_lookup_peer(peers: &Vec<WgPeerAddrs>, ip: &IpAddr) -> (r: Option<PeerId>)
    ensures
        match wg_peer_at(wg_models(peers@), *ip) {
            Some(b) => r matches Some(id) && id@ == b,
            None => r is None,
        },
{
    let ghost all = wg_models(peers@);
    let mut i: usize = 0;
    assert(all.skip(0) =~= all);
    while i < peers.len()
        invariant
            i <= peers.len(),
            all == wg_models(peers@),
            wg_peer_at(all, *ip) == wg_peer_at(all.skip(i as int), *ip),
        decreases peers.len() - i,
    {
        assert(all.skip(i as int)[0] == (peers@[i as int].pubkey@, peers@[i as int].addresses@));
        assert(all.skip(i as int).drop_first() =~= all.skip(i + 1));
        let p = &peers[i];
        if lists_ip(&p.addresses, ip) {
            if let Ok(id) = decode_peer_id(p.pubkey.as_str()) {
                return Some(id);
            }
        }
        i = i + 1;
    }
    None
}

/// Where a peer is reached: its test override, else its LAN transport hint,
/// else the first allowed IP of its WireGuard peer (by public key) at the
/// listen port; nothing without WireGuard peers.
pub open spec fn resolved_addr(
    peer_id: PeerId,
    overrides: AddrTable,
    hints: AddrTable,
    wg: Option<Seq<(Seq<char>, Seq<Option<IpAddr>>)>>,
    listen_port: u16,
) -> Option<PeerAddr> {
    match overrides.addr(peer_id) {
        Some(a) => Some(a),
        None => match hints.addr(peer_id) {
            Some(a) => Some(a),
            None => match wg {
                None => None,
                Some(peers) => match wg_addr_of(peers, base64_encoded(peer_id@)) {
                    Some(ip) => Some(PeerAddr { ip, port: listen_port }),
                    None => None,
                },
            },
        },
    }
}

/// Resolve where a peer is reached. `wg_peers` is the WireGuard peer list,
/// `None` where it was not read or could not be.
pub fn resolve_peer_addr(
    peer_id: &PeerId,
    overrides: &AddrTable,
    hints: &AddrTable,
    wg_peers: Option<&Vec<WgPeerAddrs>>,
    listen_port: u16,
) -> (r: Option<PeerAddr>)
    requires
        overrides.wf(),
        hints.wf(),
    ensures
        r == resolved_addr(
            *peer_id,
            *overrides,
            *hints,
            match wg_peers {
                Some(p) => Some(wg_models(p@)),
                None => None,
            },
            listen_port,
        ),
{
    if let Some(a) = overrides.get(peer_id) {
        return Some(a);
    }
    if let Some(a) = hints.get(peer_id) {
        return Some(a);
    }
    match wg_peers {
        None => None,
        Some(peers) => {
            let target = b64_encode(peer_id.as_slice());
            match wg_lookup_addr(peers, target.as_str()) {
                Some(ip) => Some(PeerAddr { ip, port: listen_port }),
                None => None,
            }
        },
    }
}

/// Who an incoming address belongs to: a peer the test overrides hold at
/// that IP, else one the LAN hints hold there, else the first WireGuard peer
/// listing it among its allowed IPs whose key is 32 bytes of base64.
/// `wg_peers` is the WireGuard peer list, `None` where it was not read or
/// could not be.
pub fn identify_peer_by_addr(
    ip: &IpAddr,
    overrides: &AddrTable,
    hints: &AddrTable,
    wg_peers: Option<&Vec<WgPeerAddrs>>,
) -> (r: Option<PeerId>)
    requires
        overrides.wf(),
        hints.wf(),
    ensures
        (exists|id: PeerId| #[trigger] overrides.holds_at(id, *ip)) ==> (r matches Some(id) && overrides.holds_at(id, *ip)),
        !(exists|id: PeerId| #[trigger] overrides.holds_at(id, *ip)) && (exists|id: PeerId| #[trigger] hints.holds_at(id, *ip))
            ==> (r matches Some(id) && hints.holds_at(id, *ip)),
        !(exists|id: PeerId| #[trigger] overrides.holds_at(id, *ip)) && !(exists|id: PeerId| #[trigger] hints.holds_at(id, *ip))
            ==> match wg_peers {
            None => r is None,
            Some(p) => match wg_peer_at(wg_models(p@), *ip) {
                Some(b) => r matches Some(id) && id@ == b,
                None => r is None,
            },
        },
{
    if let Some(id) = overrides.peer_at(ip) {
        return Some(id);
    }
    if let Some(id) = hints.peer_at(ip) {
        return Some(id);
    }
    match wg_peers {
        None => None,
        Some(peers) => wg_lookup_peer(peers, ip),
    }
}

} // verus!
