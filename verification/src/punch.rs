//! NAT hole punching: the candidate endpoints to rotate a WireGuard peer
//! through, and which side starts.
use vstd::prelude::*;

use crate::strings::{decimal, lemma_decimal_value, push_char, push_decimal};
use crate::stun::NatType;

verus! {

/// Configuration for a hole punch attempt.
#[derive(Debug, Clone)]
pub struct PunchConfig {
    /// Peer's WG public key (base64).
    pub peer_pubkey: String,
    /// Peer's external IP as reported by STUN.
    pub peer_external_ip: String,
    /// Peer's STUN-reflected external port.
    pub peer_external_port: u16,
    /// Peer's observed port allocation stride (0 = port-preserving).
    pub peer_stride: i32,
    /// Peer's actual WG listen port.
    pub peer_wg_port: u16,
    /// Peer's NAT type.
    pub peer_nat_type: NatType,
    /// Our NAT type.
    pub our_nat_type: NatType,
    /// PSK for the WG peer (optional).
    pub psk: Option<String>,
    /// WG address to assign to this peer.
    pub allowed_ip: String,
    /// Whether we should initiate first (true for cone vs symmetric).
    pub we_initiate: bool,
}

/// Result of a hole punch attempt.
#[derive(Debug)]
pub enum PunchResult {
    /// WG handshake succeeded on this endpoint.
    Success { endpoint: String, elapsed: std::time::Duration },
    /// All candidates exhausted or timeout reached.
    Timeout { elapsed: std::time::Duration },
    /// Error during punch attempt.
    Error(String),
}

/// The magnitude of a stride.
pub open spec fn stride_size(stride: i32) -> nat {
    if stride < 0 {
        (-(stride as int)) as nat
    } else {
        stride as nat
    }
}

/// `p` as a port, when it is one (0 to 65535).
pub open spec fn port_at(p: int) -> Option<u16> {
    if 0 <= p <= 0xffff {
        Some(p as u16)
    } else {
        None
    }
}

/// `p` when present, nothing otherwise.
pub open spec fn opt_port(p: Option<u16>) -> Seq<u16> {
    match p {
        Some(v) => seq![v],
        None => Seq::empty(),
    }
}

/// The ports `i` strides above and below `base` (base + i·|stride|, then
/// base − i·|stride|), whatever the stride's sign; a port out of range is
/// left out.
pub open spec fn stride_pair(base: u16, stride: i32, i: i32) -> Seq<u16> {
    let off = stride_size(stride) * i;
    opt_port(port_at(base + off)) + opt_port(port_at(base - off))
}

/// The stride candidates for `i` from 1 to `n`.
pub open spec fn stride_ports(base: u16, stride: i32, n: i32) -> Seq<u16>
    decreases n,
{
    if n <= 0 {
        Seq::empty()
    } else {
        stride_ports(base, stride, (n - 1) as i32) + stride_pair(base, stride, n)
    }
}

/// The neighbours `base + k`, `base - k` for `k` from 1 to `n`, where in range.
pub open spec fn neighbor_ports(base: u16, n: u16) -> Seq<u16>
    decreases n,
{
    if n == 0 {
        Seq::empty()
    } else {
        neighbor_ports(base, (n - 1) as u16) + opt_port(base.checked_add(n)) + opt_port(base.checked_sub(n))
    }
}

/// All candidate ports in priority order, before duplicates and port 0 are removed:
/// the STUN-reflected port, the WG listen port if different, the stride
/// offsets (1 to 5 strides), then the neighbours (1 to 10 away).
pub open spec fn raw_ports(base: u16, wg_port: u16, stride: i32) -> Seq<u16> {
    seq![base] + (if wg_port != base { seq![wg_port] } else { Seq::empty() }) + (if stride != 0 {
        stride_ports(base, stride, 5)
    } else {
        Seq::empty()
    }) + neighbor_ports(base, 10)
}

/// The first occurrence of each port, in order.
pub open spec fn dedup_ports(s: Seq<u16>) -> Seq<u16>
    decreases s.len(),
{
    if s.len() == 0 {
        Seq::empty()
    } else {
        let d = dedup_ports(s.drop_last());
        if s.drop_last().contains(s.last()) {
            d
        } else {
            d.push(s.last())
        }
    }
}

/// The ports other than 0, in order.
pub open spec fn nonzero_ports(s: Seq<u16>) -> Seq<u16>
    decreases s.len(),
{
    if s.len() == 0 {
        Seq::empty()
    } else {
        let d = nonzero_ports(s.drop_last());
        if s.last() > 0 {
            d.push(s.last())
        } else {
            d
        }
    }
}

/// The candidate ports of a punch, in priority order, each once, no port 0.
pub open spec fn candidate_ports(base: u16, wg_port: u16, stride: i32) -> Seq<u16> {
    nonzero_ports(dedup_ports(raw_ports(base, wg_port, stride)))
}

/// The endpoint text `ip:port`.
pub open spec fn endpoint(ip: Seq<char>, port: u16) -> Seq<char> {
    ip.push(':') + decimal(port as nat)
}

fn push_opt(v: &mut Vec<u16>, p: Option<u16>)
    ensures
        final(v)@ == old(v)@ + opt_port(p),
{
    match p {
        Some(x) => {
            v.push(x);
            assert(final(v)@ =~= old(v)@ + opt_port(p));
        },
        None => {
            assert(final(v)@ =~= old(v)@ + opt_port(p));
        },
    }
}

fn raw_candidate_ports(base: u16, wg_port: u16, stride: i32) -> (r: Vec<u16>)
    ensures
        r@ == raw_ports(base, wg_port, stride),
{
    let mut ports: Vec<u16> = Vec::new();
    ports.push(base);
    if wg_port != base {
        ports.push(wg_port);
    }
    let ghost head = ports@;
    if stride != 0 {
        let mut i: i32 = 1;
        while i <= 5
            invariant
                1 <= i <= 6,
                ports@ == head + stride_ports(base, stride, (i - 1) as i32),
            decreases 6 - i,
        {
            let size: u64 = if stride < 0 { (0i64 - (stride as i64)) as u64 } else { stride as u64 };
            assert(size <= 0x8000_0000);
            assert(size * (i as u64) <= 0x8000_0000 * 5) by (nonlinear_arith)
                requires
                    size <= 0x8000_0000,
                    1 <= i <= 5;
            let off: u64 = size * (i as u64);
            assert(off == stride_size(stride) * i) by (nonlinear_arith)
                requires
                    size == stride_size(stride),
                    off == size * i,
                    1 <= i <= 5;
            let above: u64 = (base as u64) + off;
            push_opt(&mut ports, if above <= 0xffff { Some(above as u16) } else { None });
            push_opt(&mut ports, if off <= (base as u64) { Some(((base as u64) - off) as u16) } else { None });
            assert(ports@ =~= head + stride_ports(base, stride, i));
            i = i + 1;
        }
    }
    let ghost mid = ports@;
    let mut k: u16 = 1;
    while k <= 10
        invariant
            1 <= k <= 11,
            ports@ == mid + neighbor_ports(base, (k - 1) as u16),
        decreases 11 - k,
    {
        push_opt(&mut ports, base.checked_add(k));
        push_opt(&mut ports, base.checked_sub(k));
        assert(ports@ =~= mid + neighbor_ports(base, k));
        k = k + 1;
    }
    assert(ports@ =~= raw_ports(base, wg_port, stride));
    ports
}

fn contains_port(v: &Vec<u16>, p: u16) -> (r: bool)
    ensures
        r == v@.contains(p),
{
    let mut i: usize = 0;
    while i < v.len()
        invariant
            i <= v.len(),
            forall|k: int| 0 <= k < i ==> v@[k] != p,
        decreases v.len() - i,
    {
        if v[i] == p {
            assert(v@[i as int] == p);
            return true;
        }
        i = i + 1;
    }
    false
}

/// The ports of `dedup_ports(s)` are those of `s`.
proof fn lemma_dedup_contains(s: Seq<u16>, p: u16)
    ensures
        dedup_ports(s).contains(p) == s.contains(p),
    decreases s.len(),
{
    if s.len() > 0 {
        let init = s.drop_last();
        lemma_dedup_contains(init, p);
        assert(s =~= init.push(s.last()));
        assert(s.contains(p) == (init.contains(p) || s.last() == p)) by {
            if s.contains(p) {
                let k = choose|k: int| 0 <= k < s.len() && s[k] == p;
                if k < s.len() - 1 {
                    assert(init[k] == p);
                }
            }
            if init.contains(p) {
                let k = choose|k: int| 0 <= k < init.len() && init[k] == p;
                assert(s[k] == p);
            }
        }
        let d = dedup_ports(init);
        if !init.contains(s.last()) {
            let dp = d.push(s.last());
            assert(dp.contains(p) == (d.contains(p) || s.last() == p)) by {
                if dp.contains(p) {
                    let k = choose|k: int| 0 <= k < dp.len() && dp[k] == p;
                    if k < d.len() {
                        assert(d[k] == p);
                    }
                }
                if d.contains(p) {
                    let k = choose|k: int| 0 <= k < d.len() && d[k] == p;
                    assert(dp[k] == p);
                }
                if s.last() == p {
                    assert(dp[d.len() as int] == p);
                }
            }
        }
    }
}

/// No port occurs twice in `dedup_ports(s)`.
pub proof fn lemma_dedup_distinct(s: Seq<u16>)
    ensures
        forall|i: int, j: int| 0 <= i < j < dedup_ports(s).len() ==> dedup_ports(s)[i] != dedup_ports(s)[j],
    decreases s.len(),
{
    if s.len() > 0 {
        let init = s.drop_last();
        lemma_dedup_distinct(init);
        lemma_dedup_contains(init, s.last());
        let d = dedup_ports(init);
        if !init.contains(s.last()) {
            let dp = d.push(s.last());
            assert forall|i: int, j: int| 0 <= i < j < dp.len() implies dp[i] != dp[j] by {
                if j == d.len() {
                    assert(dp[i] == d[i]);
                    if d[i] == s.last() {
                        assert(d.contains(s.last()));
                    }
                } else {
                    assert(dp[i] == d[i] && dp[j] == d[j]);
                }
            }
        }
    }
}

/// The ports of `nonzero_ports(s)` are the nonzero ports of `s`, each at
/// most as often as in `s`; distinct ports stay distinct.
proof fn lemma_nonzero(s: Seq<u16>)
    ensures
        forall|i: int| 0 <= i < nonzero_ports(s).len() ==> #[trigger] nonzero_ports(s)[i] > 0,
        (forall|i: int, j: int| 0 <= i < j < s.len() ==> s[i] != s[j]) ==> (forall|i: int, j: int|
            0 <= i < j < nonzero_ports(s).len() ==> nonzero_ports(s)[i] != nonzero_ports(s)[j]),
        forall|i: int| 0 <= i < nonzero_ports(s).len() ==> s.contains(#[trigger] nonzero_ports(s)[i]),
    decreases s.len(),
{
    if s.len() > 0 {
        let init = s.drop_last();
        lemma_nonzero(init);
        let d = nonzero_ports(init);
        assert forall|i: int| 0 <= i < d.len() implies s.contains(#[trigger] d[i]) by {
            let k = choose|k: int| 0 <= k < init.len() && init[k] == d[i];
            assert(s[k] == d[i]);
        }
        if s.last() > 0 {
            let dp = d.push(s.last());
            assert(s[s.len() - 1] == s.last());
            assert forall|i: int| 0 <= i < dp.len() implies s.contains(#[trigger] dp[i]) by {
                if i < d.len() {
                    assert(dp[i] == d[i]);
                }
            }
            if forall|i: int, j: int| 0 <= i < j < s.len() ==> s[i] != s[j] {
                assert forall|i: int, j: int| 0 <= i < j < init.len() implies init[i] != init[j] by {
                    assert(init[i] == s[i] && init[j] == s[j]);
                }
                assert forall|i: int, j: int| 0 <= i < j < dp.len() implies dp[i] != dp[j] by {
                    if j == d.len() {
                        assert(dp[i] == d[i]);
                        let k = choose|k: int| 0 <= k < init.len() && init[k] == d[i];
                        assert(s[k] == d[i]);
                        assert(s[s.len() - 1] == dp[j]);
                    } else {
                        assert(dp[i] == d[i] && dp[j] == d[j]);
                    }
                }
            }
        } else {
            if forall|i: int, j: int| 0 <= i < j < s.len() ==> s[i] != s[j] {
                assert forall|i: int, j: int| 0 <= i < j < init.len() implies init[i] != init[j] by {
                    assert(init[i] == s[i] && init[j] == s[j]);
                }
            }
        }
    }
}

/// Dedup extends the dedup of any prefix.
proof fn lemma_dedup_extends(s: Seq<u16>, m: int)
    requires
        0 <= m <= s.len(),
    ensures
        dedup_ports(s.subrange(0, m)).len() <= dedup_ports(s).len(),
        dedup_ports(s).subrange(0, dedup_ports(s.subrange(0, m)).len() as int) == dedup_ports(s.subrange(0, m)),
    decreases s.len(),
{
    if m < s.len() {
        let init = s.drop_last();
        lemma_dedup_extends(init, m);
        assert(init.subrange(0, m) =~= s.subrange(0, m));
        let d = dedup_ports(init);
        let k = dedup_ports(s.subrange(0, m)).len() as int;
        assert(d.push(s.last()).subrange(0, k) =~= d.subrange(0, k));
    } else {
        assert(s.subrange(0, m) =~= s);
        assert(dedup_ports(s).subrange(0, dedup_ports(s).len() as int) =~= dedup_ports(s));
    }
}

/// The nonzero filter extends the filter of any prefix.
proof fn lemma_nonzero_extends(s: Seq<u16>, m: int)
    requires
        0 <= m <= s.len(),
    ensures
        nonzero_ports(s.subrange(0, m)).len() <= nonzero_ports(s).len(),
        nonzero_ports(s).subrange(0, nonzero_ports(s.subrange(0, m)).len() as int) == nonzero_ports(s.subrange(0, m)),
    decreases s.len(),
{
    if m < s.len() {
        let init = s.drop_last();
        lemma_nonzero_extends(init, m);
        assert(init.subrange(0, m) =~= s.subrange(0, m));
        let d = nonzero_ports(init);
        let k = nonzero_ports(s.subrange(0, m)).len() as int;
        assert(d.push(s.last()).subrange(0, k) =~= d.subrange(0, k));
    } else {
        assert(s.subrange(0, m) =~= s);
        assert(nonzero_ports(s).subrange(0, nonzero_ports(s).len() as int) =~= nonzero_ports(s));
    }
}

/// The first ports of the candidate list: the STUN-reflected port first,
/// then the WG listen port when it differs (each when not 0).
proof fn lemma_candidate_head(base: u16, wg_port: u16, stride: i32)
    ensures
        base != 0 ==> candidate_ports(base, wg_port, stride).len() >= 1 && candidate_ports(base, wg_port, stride)[0] == base,
        base != 0 && wg_port != base && wg_port != 0 ==> candidate_ports(base, wg_port, stride).len() >= 2
            && candidate_ports(base, wg_port, stride)[1] == wg_port,
{
    let raw = raw_ports(base, wg_port, stride);
    let d = dedup_ports(raw);
    let one = seq![base];
    assert(raw.subrange(0, 1) =~= one);
    assert(one.drop_last() =~= Seq::<u16>::empty());
    assert(dedup_ports(one.drop_last()) =~= Seq::<u16>::empty());
    assert(nonzero_ports(one.drop_last()) =~= Seq::<u16>::empty());
    assert(!one.drop_last().contains(one.last()));
    assert(dedup_ports(one) =~= one);
    lemma_dedup_extends(raw, 1);
    if base != 0 {
        assert(d.subrange(0, 1) =~= one);
        lemma_nonzero_extends(d, 1);
        assert(nonzero_ports(one) =~= one);
    }
    if base != 0 && wg_port != base && wg_port != 0 {
        let two = seq![base, wg_port];
        assert(raw.subrange(0, 2) =~= two);
        assert(two.drop_last() =~= one);
        assert(!one.contains(wg_port));
        assert(dedup_ports(two) =~= two);
        assert(nonzero_ports(two.drop_last()) =~= one);
        lemma_dedup_extends(raw, 2);
        assert(d.subrange(0, 2) =~= two);
        lemma_nonzero_extends(d, 2);
        assert(nonzero_ports(two) =~= two);
    }
}

/// Two endpoints on one address are equal only for equal ports.
pub proof fn lemma_endpoint_injective(ip: Seq<char>, a: u16, b: u16)
    ensures
        endpoint(ip, a) == endpoint(ip, b) ==> a == b,
{
    if endpoint(ip, a) == endpoint(ip, b) {
        let n = ip.len() + 1;
        assert(endpoint(ip, a).subrange(n as int, endpoint(ip, a).len() as int) =~= decimal(a as nat));
        assert(endpoint(ip, b).subrange(n as int, endpoint(ip, b).len() as int) =~= decimal(b as nat));
        lemma_decimal_value(a as nat);
        lemma_decimal_value(b as nat);
    }
}

/// Build the list of candidate endpoints to try, in priority order.
///
/// 1. STUN-reflected port (most likely for port-preserving NATs)
/// 2. Actual WG listen port (if different from STUN-reflected)
/// 3. Stride offsets: base ± stride, base ± 2*stride, ...
/// 4. Sequential neighbors: base ± 1..10
///
/// Duplicates and port 0 are left out.
pub fn build_candidates(config: &PunchConfig) -> (r: Vec<String>)
    ensures
        r@.map_values(|s: String| s@) == candidate_ports(
            config.peer_external_port,
            config.peer_wg_port,
            config.peer_stride,
        ).map_values(|p: u16| endpoint(config.peer_external_ip@, p)),
        forall|i: int, j: int| 0 <= i < j < r@.len() ==> r@[i]@ != r@[j]@,
        config.peer_external_port != 0 ==> r@.len() >= 1 && r@[0]@ == endpoint(
            config.peer_external_ip@,
            config.peer_external_port,
        ),
        config.peer_external_port != 0 && config.peer_wg_port != config.peer_external_port && config.peer_wg_port
            != 0 ==> r@.len() >= 2 && r@[1]@ == endpoint(config.peer_external_ip@, config.peer_wg_port),
{
    let base = config.peer_external_port;
    let raw = raw_candidate_ports(base, config.peer_wg_port, config.peer_stride);
    let ghost rs = raw@;
    let mut unique: Vec<u16> = Vec::new();
    let mut i: usize = 0;
    assert(rs.subrange(0, 0) =~= Seq::<u16>::empty());
    while i < raw.len()
        invariant
            i <= raw.len(),
            rs == raw@,
            unique@ == dedup_ports(rs.subrange(0, i as int)),
        decreases raw.len() - i,
    {
        let ghost pre = rs.subrange(0, i + 1);
        assert(pre.drop_last() =~= rs.subrange(0, i as int));
        proof {
            lemma_dedup_contains(rs.subrange(0, i as int), raw@[i as int]);
        }
        if !contains_port(&unique, raw[i]) {
            unique.push(raw[i]);
        }
        i = i + 1;
    }
    assert(rs.subrange(0, i as int) =~= rs);
    let ghost us = unique@;
    let mut ports: Vec<u16> = Vec::new();
    let mut j: usize = 0;
    assert(us.subrange(0, 0) =~= Seq::<u16>::empty());
    while j < unique.len()
        invariant
            j <= unique.len(),
            us == unique@,
            ports@ == nonzero_ports(us.subrange(0, j as int)),
        decreases unique.len() - j,
    {
        let ghost pre = us.subrange(0, j + 1);
        assert(pre.drop_last() =~= us.subrange(0, j as int));
        if unique[j] > 0 {
            ports.push(unique[j]);
        }
        j = j + 1;
    }
    assert(us.subrange(0, j as int) =~= us);
    let ghost ps = ports@;
    let ghost ip = config.peer_external_ip@;
    let mut out: Vec<String> = Vec::new();
    let mut k: usize = 0;
    while k < ports.len()
        invariant
            k <= ports.len(),
            ps == ports@,
            ip == config.peer_external_ip@,
            out@.len() == k,
            forall|x: int| 0 <= x < k ==> (#[trigger] out@[x])@ == endpoint(ip, ps[x]),
        decreases ports.len() - k,
    {
        let mut s = config.peer_external_ip.clone();
        push_char(&mut s, ':');
        push_decimal(&mut s, ports[k] as u64);
        out.push(s);
        k = k + 1;
    }
    proof {
        let cp = candidate_ports(base, config.peer_wg_port, config.peer_stride);
        assert(ps == cp);
        assert(out@.map_values(|s: String| s@) =~= cp.map_values(|p: u16| endpoint(ip, p)));
        lemma_dedup_distinct(rs);
        lemma_nonzero(us);
        assert forall|a: int, b: int| 0 <= a < b < out@.len() implies out@[a]@ != out@[b]@ by {
            lemma_endpoint_injective(ip, ps[a], ps[b]);
        }
        lemma_candidate_head(base, config.peer_wg_port, config.peer_stride);
    }
    out
}

/// The side behind `our_nat` initiates against `their_nat`: a cone NAT
/// initiates to a symmetric one.
pub open spec fn initiates(our_nat: NatType, their_nat: NatType) -> bool {
    our_nat == NatType::Cone && their_nat == NatType::Symmetric
}

/// Two peers never both initiate a punch to each other.
pub proof fn lemma_single_initiator(a: NatType, b: NatType)
    ensures
        !(initiates(a, b) && initiates(b, a)),
{
}

/// Decide which side initiates: cone NAT initiates to symmetric; in every
/// other pairing neither side is designated (both probe at once).
pub fn should_we_initiate(our_nat: NatType, their_nat: NatType) -> (r: bool)
    ensures
        r == initiates(our_nat, their_nat),
{
    match (our_nat, their_nat) {
        (NatType::Cone, NatType::Symmetric) => true,
        (NatType::Symmetric, NatType::Cone) => false,
        _ => false,
    }
}

/// How long the punch loop waits after setting each candidate, in ms: the
/// initiator rotates slowly to keep mappings alive, the responder fast.
pub fn punch_interval_ms(we_initiate: bool) -> (r: u64)
    ensures
        r == (if we_initiate { 1000u64 } else { 200u64 }),
{
    if we_initiate {
        1000
    } else {
        200
    }
}

/// The candidate set on attempt `attempt`: the candidates in turn, cycling.
pub fn punch_candidate(candidates: &Vec<String>, attempt: usize) -> (r: &String)
    requires
        candidates.len() > 0,
    ensures
        *r == candidates@[(attempt % candidates.len()) as int],
{
    &candidates[attempt % candidates.len()]
}

/// What the punch loop does after checking for a handshake.
#[derive(Debug)]
pub enum PunchStep {
    /// The handshake completed on the candidate just tried.
    Succeeded { endpoint: String },
    /// The time is up.
    TimedOut,
    /// Try the next attempt.
    Continue { next_attempt: usize },
}

/// After attempt `attempt`: success when the handshake completed (on that
/// attempt's candidate), else a timeout once `elapsed_ms` reaches
/// `timeout_ms`, else the next attempt.
pub fn punch_after_check(candidates: &Vec<String>, attempt: usize, handshake: bool, elapsed_ms: u64, timeout_ms: u64) -> (r: PunchStep)
    requires
        candidates.len() > 0,
        attempt < usize::MAX,
    ensures
        handshake ==> (r matches PunchStep::Succeeded { endpoint } && endpoint@ == candidates@[(attempt % candidates.len()) as int]@),
        !handshake && elapsed_ms >= timeout_ms ==> r is TimedOut,
        !handshake && elapsed_ms < timeout_ms ==> r == (PunchStep::Continue { next_attempt: (attempt + 1) as usize }),
{
    if handshake {
        PunchStep::Succeeded { endpoint: punch_candidate(candidates, attempt).clone() }
    } else if elapsed_ms >= timeout_ms {
        PunchStep::TimedOut
    } else {
        PunchStep::Continue { next_attempt: attempt + 1 }
    }
}

/// The `wg` arguments that add the peer for punching: no endpoint yet, its
/// address as a /32, keepalive 25 s, and the preshared-key file if any.
pub open spec fn punch_peer_args_spec(iface: Seq<char>, pubkey: Seq<char>, allowed_ip: Seq<char>, psk_path: Option<Seq<char>>) -> Seq<Seq<char>> {
    seq!["set"@, iface, "peer"@, pubkey, "allowed-ips"@, allowed_ip + "/32"@, "persistent-keepalive"@, "25"@] + match psk_path {
        Some(p) => seq!["preshared-key"@, p],
        None => Seq::empty(),
    }
}

/// The `wg` arguments that add the peer for punching.
pub fn punch_peer_args(iface: &str, pubkey: &str, allowed_ip: &str, psk_path: Option<&str>) -> (r: Vec<String>)
    ensures
        r@.map_values(|s: String| s@) == punch_peer_args_spec(
            iface@,
            pubkey@,
            allowed_ip@,
            match psk_path {
                Some(p) => Some(p@),
                None => None,
            },
        ),
{
    let mut ip = allowed_ip.to_owned();
    crate::strings::push_str(&mut ip, "/32");
    let mut args: Vec<String> = Vec::new();
    args.push("set".to_owned());
    args.push(iface.to_owned());
    args.push("peer".to_owned());
    args.push(pubkey.to_owned());
    args.push("allowed-ips".to_owned());
    args.push(ip);
    args.push("persistent-keepalive".to_owned());
    args.push("25".to_owned());
    match psk_path {
        Some(p) => {
            args.push("preshared-key".to_owned());
            args.push(p.to_owned());
        },
        None => {},
    }
    let ghost want = punch_peer_args_spec(
        iface@,
        pubkey@,
        allowed_ip@,
        match psk_path {
            Some(p) => Some(p@),
            None => None,
        },
    );
    assert(args@.map_values(|s: String| s@) =~= want);
    args
}

/// The `wg` arguments that point the peer at a candidate endpoint.
pub fn endpoint_args(iface: &str, pubkey: &str, endpoint: &str) -> (r: Vec<String>)
    ensures
        r@.map_values(|s: String| s@) == seq!["set"@, iface@, "peer"@, pubkey@, "endpoint"@, endpoint@],
{
    let mut args: Vec<String> = Vec::new();
    args.push("set".to_owned());
    args.push(iface.to_owned());
    args.push("peer".to_owned());
    args.push(pubkey.to_owned());
    args.push("endpoint".to_owned());
    args.push(endpoint.to_owned());
    assert(args@.map_values(|s: String| s@) =~= seq!["set"@, iface@, "peer"@, pubkey@, "endpoint"@, endpoint@]);
    args
}

} // verus!

verus! {

proof fn lemma_neighbor_ports_contain(base: u16, n: u16, k: u16)
    requires
        1 <= k <= n,
    ensures
        base as int + k as int <= 0xffff ==> neighbor_ports(base, n).contains((base + k) as u16),
        base as int - k as int >= 0 ==> neighbor_ports(base, n).contains((base - k) as u16),
    decreases n,
{
    let prev = neighbor_ports(base, (n - 1) as u16);
    let up = opt_port(base.checked_add(n));
    let down = opt_port(base.checked_sub(n));
    assert(neighbor_ports(base, n) == prev + up + down);
    if k < n {
        lemma_neighbor_ports_contain(base, (n - 1) as u16, k);
        if base as int + k as int <= 0xffff {
            let i = choose|i: int| 0 <= i < prev.len() && prev[i] == (base + k) as u16;
            assert((prev + up + down)[i] == (base + k) as u16);
        }
        if base as int - k as int >= 0 {
            let i = choose|i: int| 0 <= i < prev.len() && prev[i] == (base - k) as u16;
            assert((prev + up + down)[i] == (base - k) as u16);
        }
    } else {
        if base as int + k as int <= 0xffff {
            assert(up == seq![(base + k) as u16]);
            assert((prev + up + down)[prev.len() as int] == (base + k) as u16);
        }
        if base as int - k as int >= 0 {
            assert(down == seq![(base - k) as u16]);
            assert((prev + up + down)[(prev.len() + up.len()) as int] == (base - k) as u16);
        }
    }
}

proof fn lemma_nonzero_keeps(s: Seq<u16>, p: u16)
    requires
        p > 0,
        s.contains(p),
    ensures
        nonzero_ports(s).contains(p),
    decreases s.len(),
{
    let init = s.drop_last();
    if s.last() == p {
        let d = nonzero_ports(init);
        assert(nonzero_ports(s) == d.push(p));
        assert(d.push(p)[d.len() as int] == p);
    } else {
        let i = choose|i: int| 0 <= i < s.len() && s[i] == p;
        assert(init[i] == p);
        lemma_nonzero_keeps(init, p);
        let d = nonzero_ports(init);
        let j = choose|j: int| 0 <= j < d.len() && d[j] == p;
        if s.last() > 0 {
            assert(d.push(s.last())[j] == p);
        }
    }
}

/// Whatever the stride, every port from 1 to 10 above and below the
/// STUN-reflected port that is a port (1 to 65535) is among the candidates.
pub proof fn lemma_neighbours_tried(base: u16, wg_port: u16, stride: i32, k: u16)
    requires
        1 <= k <= 10,
    ensures
        base as int + k as int <= 0xffff ==> candidate_ports(base, wg_port, stride).contains((base + k) as u16),
        base as int - k as int >= 1 ==> candidate_ports(base, wg_port, stride).contains((base - k) as u16),
{
    lemma_neighbor_ports_contain(base, 10, k);
    let n = neighbor_ports(base, 10);
    let head = seq![base] + (if wg_port != base { seq![wg_port] } else { Seq::empty() }) + (if stride != 0 {
        stride_ports(base, stride, 5)
    } else {
        Seq::empty()
    });
    let raw = raw_ports(base, wg_port, stride);
    assert(raw == head + n);
    if base as int + k as int <= 0xffff {
        let p = (base + k) as u16;
        let i = choose|i: int| 0 <= i < n.len() && n[i] == p;
        assert(raw[head.len() + i] == p);
        lemma_dedup_contains(raw, p);
        lemma_nonzero_keeps(dedup_ports(raw), p);
    }
    if base as int - k as int >= 1 {
        let p = (base - k) as u16;
        let i = choose|i: int| 0 <= i < n.len() && n[i] == p;
        assert(raw[head.len() + i] == p);
        lemma_dedup_contains(raw, p);
        lemma_nonzero_keeps(dedup_ports(raw), p);
    }
}

/// Only a side behind a cone NAT initiates, and only against a symmetric
/// NAT; a cone side does initiate against a symmetric one.
pub proof fn lemma_initiator_is_cone(a: NatType, b: NatType)
    ensures
        initiates(a, b) ==> a == NatType::Cone,
        initiates(a, b) ==> b == NatType::Symmetric,
        initiates(NatType::Cone, NatType::Symmetric),
        !initiates(NatType::Open, b),
{
}

} // verus!

verus! {

proof fn lemma_stride_ports_contain(base: u16, stride: i32, n: i32, i: i32)
    requires
        1 <= i <= n,
    ensures
        base as int + stride_size(stride) * i <= 0xffff ==> stride_ports(base, stride, n).contains(
            (base as int + stride_size(stride) * i) as u16,
        ),
        base as int - stride_size(stride) * i >= 0 ==> stride_ports(base, stride, n).contains(
            (base as int - stride_size(stride) * i) as u16,
        ),
    decreases n,
{
    let prev = stride_ports(base, stride, (n - 1) as i32);
    let pair = stride_pair(base, stride, n);
    assert(stride_ports(base, stride, n) == prev + pair);
    let up = base as int + stride_size(stride) * i;
    let down = base as int - stride_size(stride) * i;
    if i < n {
        lemma_stride_ports_contain(base, stride, (n - 1) as i32, i);
        if up <= 0xffff {
            let k = choose|k: int| 0 <= k < prev.len() && prev[k] == up as u16;
            assert((prev + pair)[k] == up as u16);
        }
        if down >= 0 {
            let k = choose|k: int| 0 <= k < prev.len() && prev[k] == down as u16;
            assert((prev + pair)[k] == down as u16);
        }
    } else {
        let a = opt_port(port_at(up));
        let b = opt_port(port_at(down));
        assert(pair == a + b);
        if up <= 0xffff {
            assert(stride_size(stride) * i >= 0) by (nonlinear_arith)
                requires
                    i >= 1,
            ;
            assert(a == seq![up as u16]);
            assert((prev + pair)[prev.len() as int] == up as u16);
        }
        if down >= 0 {
            assert(stride_size(stride) * i >= 0) by (nonlinear_arith)
                requires
                    i >= 1,
            ;
            assert(b == seq![down as u16]);
            assert((prev + pair)[(prev.len() + a.len()) as int] == down as u16);
        }
    }
}

/// With a non-zero stride, each port 1 to 5 strides above and below the
/// STUN-reflected port (whatever the stride's sign) that is a port
/// (1 to 65535) is among the candidates.
pub proof fn lemma_strides_tried(base: u16, wg_port: u16, stride: i32, i: i32)
    requires
        stride != 0,
        1 <= i <= 5,
    ensures
        base as int + stride_size(stride) * i <= 0xffff ==> candidate_ports(base, wg_port, stride).contains(
            (base as int + stride_size(stride) * i) as u16,
        ),
        base as int - stride_size(stride) * i >= 1 ==> candidate_ports(base, wg_port, stride).contains(
            (base as int - stride_size(stride) * i) as u16,
        ),
{
    lemma_stride_ports_contain(base, stride, 5, i);
    let sp = stride_ports(base, stride, 5);
    let head = seq![base] + (if wg_port != base { seq![wg_port] } else { Seq::empty() });
    let n = neighbor_ports(base, 10);
    let raw = raw_ports(base, wg_port, stride);
    assert(raw == head + sp + n);
    let up = base as int + stride_size(stride) * i;
    let down = base as int - stride_size(stride) * i;
    assert(stride_size(stride) * i >= 1) by (nonlinear_arith)
        requires
            i >= 1,
            stride_size(stride) >= 1,
    ;
    if up <= 0xffff {
        let p = up as u16;
        let k = choose|k: int| 0 <= k < sp.len() && sp[k] == p;
        assert(raw[head.len() + k] == p);
        lemma_dedup_contains(raw, p);
        lemma_nonzero_keeps(dedup_ports(raw), p);
    }
    if down >= 1 {
        let p = down as u16;
        let k = choose|k: int| 0 <= k < sp.len() && sp[k] == p;
        assert(raw[head.len() + k] == p);
        lemma_dedup_contains(raw, p);
        lemma_nonzero_keeps(dedup_ports(raw), p);
    }
}

} // verus!
