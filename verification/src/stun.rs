//! STUN Binding requests and responses, and the NAT classification made
//! from the mappings two STUN servers report.
use vstd::prelude::*;

verus! {

/// STUN magic cookie.
pub const MAGIC_COOKIE: u32 = 0x2112A442;

/// STUN message type: Binding Request.
pub const BINDING_REQUEST: u16 = 0x0001;

/// STUN message type: Binding Success Response.
pub const BINDING_RESPONSE: u16 = 0x0101;

/// STUN attribute: XOR-MAPPED-ADDRESS.
pub const ATTR_XOR_MAPPED_ADDRESS: u16 = 0x0020;

/// STUN attribute: MAPPED-ADDRESS (fallback).
pub const ATTR_MAPPED_ADDRESS: u16 = 0x0001;

/// Address family: IPv4.
pub const FAMILY_IPV4: u8 = 0x01;

/// Address family: IPv6.
pub const FAMILY_IPV6: u8 = 0x02;

/// An IP address by its octets.
#[derive(Debug, Clone, Copy, PartialEq, Eq)]
pub enum IpAddr {
    V4([u8; 4]),
    V6([u8; 16]),
}

/// NAT classification based on STUN results.
#[derive(Debug, Clone, Copy, PartialEq, Eq, Structural)]
pub enum NatType {
    /// No NAT — external IP matches local IP.
    Open,
    /// Port-preserving cone NAT — punchable.
    Cone,
    /// Symmetric NAT — port changes per destination, not directly punchable.
    Symmetric,
    /// Detection failed or not run.
    Unknown,
}

/// The lowercase name of a NAT type.
pub open spec fn nat_type_name(t: NatType) -> Seq<char> {
    match t {
        NatType::Open => "open"@,
        NatType::Cone => "cone"@,
        NatType::Symmetric => "symmetric"@,
        NatType::Unknown => "unknown"@,
    }
}

impl NatType {
    /// The lowercase name of the NAT type ("open", "cone", "symmetric", "unknown").
    pub fn to_string(&self) -> (r: String)
        ensures
            r@ == nat_type_name(*self),
    {
        match self {
            NatType::Open => "open".to_owned(),
            NatType::Cone => "cone".to_owned(),
            NatType::Symmetric => "symmetric".to_owned(),
            NatType::Unknown => "unknown".to_owned(),
        }
    }
}

/// Cached NAT profile.
#[derive(Debug, Clone)]
pub struct NatProfile {
    pub detected_at: u64,
    pub nat_type: NatType,
    pub external_ip: String,
    pub external_port: u16,
    pub observed_stride: i32,
}

/// The bytes of a Binding Request: type, zero length, magic cookie, then
/// the transaction id.
pub open spec fn binding_request(txn: Seq<u8>) -> Seq<u8> {
    seq![0x00u8, 0x01u8, 0x00u8, 0x00u8, 0x21u8, 0x12u8, 0xA4u8, 0x42u8] + txn
}

/// Build a STUN Binding Request (20 bytes header, no attributes).
pub fn build_binding_request(transaction_id: &[u8; 12]) -> (r: [u8; 20])
    ensures
        r@ == binding_request(transaction_id@),
{
    let t = transaction_id;
    let r: [u8; 20] = [
        0x00, 0x01, 0x00, 0x00, 0x21, 0x12, 0xA4, 0x42,
        t[0], t[1], t[2], t[3], t[4], t[5], t[6], t[7], t[8], t[9], t[10], t[11],
    ];
    assert(r@ =~= binding_request(transaction_id@));
    r
}

/// A big-endian 16-bit value.
pub open spec fn be16(hi: u8, lo: u8) -> int {
    hi * 256 + lo
}

/// The address an XOR-MAPPED-ADDRESS value holds: an IPv4 address and port
/// XOR-ed with the magic cookie. IPv6 is not read.
pub open spec fn xor_mapped(data: Seq<u8>) -> Option<(Seq<u8>, u16)> {
    if data.len() < 4 || data[1] != FAMILY_IPV4 || data.len() < 8 {
        None
    } else {
        Some((
            seq![data[4] ^ 0x21u8, data[5] ^ 0x12u8, data[6] ^ 0xA4u8, data[7] ^ 0x42u8],
            be16(data[2] ^ 0x21u8, data[3] ^ 0x12u8) as u16,
        ))
    }
}

/// The address a MAPPED-ADDRESS value holds: IPv4 or IPv6 octets and port.
pub open spec fn plain_mapped(data: Seq<u8>) -> Option<(Seq<u8>, u16)> {
    if data.len() < 4 {
        None
    } else if data[1] == FAMILY_IPV4 && data.len() >= 8 {
        Some((data.subrange(4, 8), be16(data[2], data[3]) as u16))
    } else if data[1] == FAMILY_IPV6 && data.len() >= 20 {
        Some((data.subrange(4, 20), be16(data[2], data[3]) as u16))
    } else {
        None
    }
}

/// The octets of an address.
pub open spec fn ip_octets(ip: IpAddr) -> Seq<u8> {
    match ip {
        IpAddr::V4(o) => o@,
        IpAddr::V6(o) => o@,
    }
}

/// `r` is the parsed form of the octets-and-port `s`.
pub open spec fn parsed_as(r: Option<(IpAddr, u16)>, s: Option<(Seq<u8>, u16)>) -> bool {
    match (r, s) {
        (Some((ip, port)), Some((octets, p))) => ip_octets(ip) == octets && port == p,
        (None, None) => true,
        _ => false,
    }
}

/// Parse XOR-MAPPED-ADDRESS attribute value.
pub fn parse_xor_mapped_address(data: &[u8]) -> (r: Option<(IpAddr, u16)>)
    ensures
        parsed_as(r, xor_mapped(data@)),
        r matches Some((ip, _)) ==> ip is V4,
{
    if data.len() < 4 {
        return None;
    }
    if data[1] != FAMILY_IPV4 || data.len() < 8 {
        return None;
    }
    let port: u16 = ((data[2] ^ 0x21u8) as u16) * 256 + ((data[3] ^ 0x12u8) as u16);
    let o: [u8; 4] = [data[4] ^ 0x21u8, data[5] ^ 0x12u8, data[6] ^ 0xA4u8, data[7] ^ 0x42u8];
    assert(o@ =~= seq![data@[4] ^ 0x21u8, data@[5] ^ 0x12u8, data@[6] ^ 0xA4u8, data@[7] ^ 0x42u8]);
    Some((IpAddr::V4(o), port))
}

/// Parse MAPPED-ADDRESS attribute value (non-XOR).
pub fn parse_mapped_address(data: &[u8]) -> (r: Option<(IpAddr, u16)>)
    ensures
        parsed_as(r, plain_mapped(data@)),
        r matches Some((ip, _)) ==> (ip is V4 <==> data@[1] == FAMILY_IPV4),
{
    if data.len() < 4 {
        return None;
    }
    let port: u16 = (data[2] as u16) * 256 + (data[3] as u16);
    if data[1] == FAMILY_IPV4 && data.len() >= 8 {
        let o: [u8; 4] = [data[4], data[5], data[6], data[7]];
        assert(o@ =~= data@.subrange(4, 8));
        Some((IpAddr::V4(o), port))
    } else if data[1] == FAMILY_IPV6 && data.len() >= 20 {
        let o: [u8; 16] = [
            data[4], data[5], data[6], data[7], data[8], data[9], data[10], data[11],
            data[12], data[13], data[14], data[15], data[16], data[17], data[18], data[19],
        ];
        assert(o@ =~= data@.subrange(4, 20));
        Some((IpAddr::V6(o), port))
    } else {
        None
    }
}

/// Attributes are padded to 4-byte boundaries.
pub open spec fn padded(len: int) -> int {
    len + 3 - (len + 3) % 4
}

/// Walks the attributes between `offset` and `end`: the first
/// XOR-MAPPED-ADDRESS decides; a MAPPED-ADDRESS that parses decides; an
/// attribute running past `end` ends the walk.
pub open spec fn attrs_mapped(buf: Seq<u8>, offset: int, end: int) -> Option<(Seq<u8>, u16)>
    decreases end + 4 - offset,
{
    if offset < 0 || offset + 4 > end || end > buf.len() {
        None
    } else {
        let t = be16(buf[offset], buf[offset + 1]);
        let l = be16(buf[offset + 2], buf[offset + 3]);
        let o = offset + 4;
        if o + l > end {
            None
        } else if t == ATTR_XOR_MAPPED_ADDRESS {
            xor_mapped(buf.subrange(o, o + l))
        } else if t == ATTR_MAPPED_ADDRESS && plain_mapped(buf.subrange(o, o + l)) is Some {
            plain_mapped(buf.subrange(o, o + l))
        } else {
            attrs_mapped(buf, o + padded(l), end)
        }
    }
}

/// The mapped address a Binding Response carries, if the header is that of a
/// success response with the magic cookie and the expected transaction.
pub open spec fn binding_response_mapped(buf: Seq<u8>, txn: Seq<u8>) -> Option<(Seq<u8>, u16)> {
    if buf.len() < 20 {
        None
    } else if be16(buf[0], buf[1]) != BINDING_RESPONSE {
        None
    } else if buf.subrange(4, 8) != seq![0x21u8, 0x12u8, 0xA4u8, 0x42u8] {
        None
    } else if buf.subrange(8, 20) != txn {
        None
    } else if buf.len() < 20 + be16(buf[2], buf[3]) {
        None
    } else {
        attrs_mapped(buf, 20, 20 + be16(buf[2], buf[3]))
    }
}

/// Without an XOR-MAPPED-ADDRESS, a MAPPED-ADDRESS is the fallback: a
/// Binding Response for the expected transaction whose only attribute is an
/// IPv4 MAPPED-ADDRESS gives that address and port.
pub proof fn lemma_mapped_address_fallback(
    txn: Seq<u8>,
    reserved: u8,
    port_hi: u8,
    port_lo: u8,
    a: u8,
    b: u8,
    c: u8,
    d: u8,
)
    requires
        txn.len() == 12,
    ensures
        ({
            let buf = seq![0x01u8, 0x01u8, 0x00u8, 0x0Cu8, 0x21u8, 0x12u8, 0xA4u8, 0x42u8] + txn + seq![
                0x00u8,
                0x01u8,
                0x00u8,
                0x08u8,
                reserved,
                0x01u8,
                port_hi,
                port_lo,
                a,
                b,
                c,
                d,
            ];
            binding_response_mapped(buf, txn) == Some((seq![a, b, c, d], (port_hi as int * 256 + port_lo as int) as u16))
        }),
{
    let head = seq![0x01u8, 0x01u8, 0x00u8, 0x0Cu8, 0x21u8, 0x12u8, 0xA4u8, 0x42u8];
    let attr = seq![0x00u8, 0x01u8, 0x00u8, 0x08u8, reserved, 0x01u8, port_hi, port_lo, a, b, c, d];
    let buf = head + txn + attr;
    assert(buf.len() == 32);
    assert(buf.subrange(4, 8) =~= seq![0x21u8, 0x12u8, 0xA4u8, 0x42u8]);
    assert(buf.subrange(8, 20) =~= txn);
    assert(buf[0] == 0x01u8 && buf[1] == 0x01u8 && buf[2] == 0x00u8 && buf[3] == 0x0Cu8);
    assert(buf[20] == 0x00u8 && buf[21] == 0x01u8 && buf[22] == 0x00u8 && buf[23] == 0x08u8);
    let v = buf.subrange(24, 32);
    assert(v =~= attr.subrange(4, 12));
    assert(v.subrange(4, 8) =~= seq![a, b, c, d]);
    assert(v[1] == 0x01u8 && v[2] == port_hi && v[3] == port_lo);
    assert(plain_mapped(v) == Some((seq![a, b, c, d], be16(port_hi, port_lo) as u16)));
    assert(attrs_mapped(buf, 20, 32) == plain_mapped(v));
}

/// Only a Binding Success Response with the magic cookie and the expected
/// transaction id yields an address.
pub proof fn lemma_response_checked(buf: Seq<u8>, txn: Seq<u8>)
    ensures
        binding_response_mapped(buf, txn) is Some ==> buf.len() >= 20 && buf[0] == 0x01u8 && buf[1] == 0x01u8
            && buf.subrange(4, 8) == seq![0x21u8, 0x12u8, 0xA4u8, 0x42u8] && buf.subrange(8, 20) == txn,
{
    if binding_response_mapped(buf, txn) is Some {
        assert(be16(buf[0], buf[1]) == 0x0101);
        assert(buf[0] == 0x01u8 && buf[1] == 0x01u8) by (nonlinear_arith)
            requires
                buf[0] * 256 + buf[1] == 0x0101,
                buf[0] < 256,
                buf[1] < 256,
        ;
    }
}

/// A Binding Response for the expected transaction whose only attribute is
/// an IPv4 XOR-MAPPED-ADDRESS gives the address and port XOR-ed with the
/// magic cookie.
pub proof fn lemma_xor_mapped_address(
    txn: Seq<u8>,
    reserved: u8,
    port_hi: u8,
    port_lo: u8,
    a: u8,
    b: u8,
    c: u8,
    d: u8,
)
    requires
        txn.len() == 12,
    ensures
        ({
            let buf = seq![0x01u8, 0x01u8, 0x00u8, 0x0Cu8, 0x21u8, 0x12u8, 0xA4u8, 0x42u8] + txn + seq![
                0x00u8,
                0x20u8,
                0x00u8,
                0x08u8,
                reserved,
                0x01u8,
                port_hi,
                port_lo,
                a,
                b,
                c,
                d,
            ];
            binding_response_mapped(buf, txn) == Some((
                seq![a ^ 0x21u8, b ^ 0x12u8, c ^ 0xA4u8, d ^ 0x42u8],
                ((port_hi ^ 0x21u8) as int * 256 + (port_lo ^ 0x12u8) as int) as u16,
            ))
        }),
{
    let head = seq![0x01u8, 0x01u8, 0x00u8, 0x0Cu8, 0x21u8, 0x12u8, 0xA4u8, 0x42u8];
    let attr = seq![0x00u8, 0x20u8, 0x00u8, 0x08u8, reserved, 0x01u8, port_hi, port_lo, a, b, c, d];
    let buf = head + txn + attr;
    assert(buf.len() == 32);
    assert(buf.subrange(4, 8) =~= seq![0x21u8, 0x12u8, 0xA4u8, 0x42u8]);
    assert(buf.subrange(8, 20) =~= txn);
    assert(buf[0] == 0x01u8 && buf[1] == 0x01u8 && buf[2] == 0x00u8 && buf[3] == 0x0Cu8);
    assert(buf[20] == 0x00u8 && buf[21] == 0x20u8 && buf[22] == 0x00u8 && buf[23] == 0x08u8);
    let v = buf.subrange(24, 32);
    assert(v =~= attr.subrange(4, 12));
    assert(v[1] == 0x01u8 && v[2] == port_hi && v[3] == port_lo && v[4] == a && v[5] == b && v[6] == c && v[7] == d);
    assert(attrs_mapped(buf, 20, 32) == xor_mapped(v));
}

/// Parse a STUN Binding Response and extract the mapped address.
pub fn parse_binding_response(buf: &[u8], expected_txn: &[u8; 12]) -> (r: Option<(IpAddr, u16)>)
    ensures
        parsed_as(r, binding_response_mapped(buf@, expected_txn@)),
{
    if buf.len() < 20 {
        return None;
    }
    let msg_type: u16 = (buf[0] as u16) * 256 + (buf[1] as u16);
    if msg_type != BINDING_RESPONSE {
        return None;
    }
    if buf[4] != 0x21 || buf[5] != 0x12 || buf[6] != 0xA4 || buf[7] != 0x42 {
        assert(buf@.subrange(4, 8) != seq![0x21u8, 0x12u8, 0xA4u8, 0x42u8]) by {
            if buf@.subrange(4, 8) == seq![0x21u8, 0x12u8, 0xA4u8, 0x42u8] {
                assert(buf@.subrange(4, 8)[0] == buf@[4]);
                assert(buf@.subrange(4, 8)[1] == buf@[5]);
                assert(buf@.subrange(4, 8)[2] == buf@[6]);
                assert(buf@.subrange(4, 8)[3] == buf@[7]);
            }
        }
        return None;
    }
    assert(buf@.subrange(4, 8) =~= seq![0x21u8, 0x12u8, 0xA4u8, 0x42u8]);
    let mut k: usize = 0;
    while k < 12
        invariant
            k <= 12,
            buf@.len() >= 20,
            expected_txn@.len() == 12,
            forall|j: int| 0 <= j < k ==> buf@[8 + j] == expected_txn@[j],
        decreases 12 - k,
    {
        if buf[8 + k] != expected_txn[k] {
            assert(buf@.subrange(8, 20)[k as int] != expected_txn@[k as int]);
            return None;
        }
        k = k + 1;
    }
    assert(buf@.subrange(8, 20) =~= expected_txn@);
    let msg_len: usize = (buf[2] as usize) * 256 + (buf[3] as usize);
    if buf.len() < 20 + msg_len {
        return None;
    }
    let end: usize = 20 + msg_len;
    let mut offset: usize = 20;
    assert(binding_response_mapped(buf@, expected_txn@) == attrs_mapped(buf@, 20, end as int));
    while offset + 4 <= end
        invariant
            20 <= offset,
            end <= buf@.len(),
            end <= 20 + 65535,
            binding_response_mapped(buf@, expected_txn@) == attrs_mapped(buf@, 20, end as int),
            offset <= end + 3,
            attrs_mapped(buf@, 20, end as int) == attrs_mapped(buf@, offset as int, end as int),
        decreases end + 4 - offset,
    {
        let attr_type: u16 = (buf[offset] as u16) * 256 + (buf[offset + 1] as u16);
        let attr_len: usize = (buf[offset + 2] as usize) * 256 + (buf[offset + 3] as usize);
        offset = offset + 4;
        if offset + attr_len > end {
            return None;
        }
        let (_, after) = buf.split_at(offset);
        let (value, _) = after.split_at(attr_len);
        assert(value@ =~= buf@.subrange(offset as int, offset + attr_len));
        if attr_type == ATTR_XOR_MAPPED_ADDRESS {
            return parse_xor_mapped_address(value);
        }
        if attr_type == ATTR_MAPPED_ADDRESS {
            let parsed = parse_mapped_address(value);
            if parsed.is_some() {
                return parsed;
            }
        }
        offset = offset + (attr_len + 3 - (attr_len + 3) % 4);
    }
    None
}

/// The profile NAT detection reports: `Unknown` when no mapping came back
/// from the first server; `Open` when that mapping is our own address;
/// `Cone` when the second server failed or saw the same port; otherwise
/// `Symmetric`, with the stride between the two ports.
pub open spec fn nat_profile_of(
    now: u64,
    mapping_a: Option<(Seq<char>, u16)>,
    a_is_local: bool,
    port_b: Option<u16>,
) -> (NatType, Seq<char>, u16, i32) {
    match mapping_a {
        None => (NatType::Unknown, Seq::empty(), 0, 0),
        Some((ip, port_a)) => if a_is_local {
            (NatType::Open, ip, port_a, 0)
        } else {
            match port_b {
                None => (NatType::Cone, ip, port_a, 0),
                Some(pb) => if pb == port_a {
                    (NatType::Cone, ip, port_a, 0)
                } else {
                    (NatType::Symmetric, ip, port_a, (pb - port_a) as i32)
                },
            }
        },
    }
}

/// Classify the NAT from the external address server A reported (as text
/// and port), whether that address is our local one, and the port server B
/// reported.
pub fn classify_nat(now: u64, mapping_a: Option<(String, u16)>, a_is_local: bool, port_b: Option<u16>) -> (r: NatProfile)
    ensures
        r.detected_at == now,
        (r.nat_type, r.external_ip@, r.external_port, r.observed_stride) == nat_profile_of(
            now,
            match mapping_a {
                Some((ip, p)) => Some((ip@, p)),
                None => None,
            },
            a_is_local,
            port_b,
        ),
{
    match mapping_a {
        None => NatProfile {
            detected_at: now,
            nat_type: NatType::Unknown,
            external_ip: String::new(),
            external_port: 0,
            observed_stride: 0,
        },
        Some((ip, port_a)) => {
            if a_is_local {
                NatProfile { detected_at: now, nat_type: NatType::Open, external_ip: ip, external_port: port_a, observed_stride: 0 }
            } else {
                match port_b {
                    None => NatProfile {
                        detected_at: now,
                        nat_type: NatType::Cone,
                        external_ip: ip,
                        external_port: port_a,
                        observed_stride: 0,
                    },
                    Some(pb) => {
                        if pb == port_a {
                            NatProfile {
                                detected_at: now,
                                nat_type: NatType::Cone,
                                external_ip: ip,
                                external_port: port_a,
                                observed_stride: 0,
                            }
                        } else {
                            let stride: i32 = pb as i32 - port_a as i32;
                            NatProfile {
                                detected_at: now,
                                nat_type: NatType::Symmetric,
                                external_ip: ip,
                                external_port: port_a,
                                observed_stride: stride,
                            }
                        }
                    },
                }
            }
        },
    }
}

/// After a fresh detection: a failed one (`Unknown`) keeps the cached
/// profile when there is one, and nothing is saved; otherwise the fresh
/// profile is used and saved. Returns the profile and whether to save it.
pub fn refresh_mapping(existing: Option<NatProfile>, fresh: NatProfile) -> (r: (NatProfile, bool))
    ensures
        (fresh.nat_type == NatType::Unknown && existing is Some) ==> (r.0 == existing->0 && !r.1),
        !(fresh.nat_type == NatType::Unknown && existing is Some) ==> (r.0 == fresh && r.1),
{
    if fresh.nat_type == NatType::Unknown {
        match existing {
            Some(e) => {
                return (e, false);
            },
            None => {},
        }
    }
    (fresh, true)
}

} // verus!
