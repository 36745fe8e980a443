//! Proxying a request to a local capability process: which capability a
//! route names, the URL the request goes to, and which headers pass.
use vstd::prelude::*;

use crate::strings::{decimal, push_char, push_decimal, push_str, text_eq};
use crate::text::chars_of;

verus! {

broadcast use vstd::string::group_string_axioms;

/// The longest query string passed on, in bytes.
pub const MAX_QUERY_LEN: usize = 4096;

/// What the proxy reads of an installed capability.
#[derive(Debug, Clone)]
pub struct InstalledCapability {
    /// Fully qualified capability name.
    pub name: String,
    /// Short route name from the capability's API base path (`/cap/feed` gives `feed`).
    pub route_name: Option<String>,
    /// Local port the capability process listens on.
    pub port: u16,
}

/// A capability answers to a route: by its route name, or by its full name.
pub open spec fn answers_to(c: InstalledCapability, route: Seq<char>) -> bool {
    (c.route_name matches Some(r) && r@ == route) || c.name@ == route
}

/// The first installed capability that answers to `route`.
pub open spec fn capability_for(caps: Seq<InstalledCapability>, route: Seq<char>) -> Option<int>
    decreases caps.len(),
{
    if caps.len() == 0 {
        None
    } else if answers_to(caps[0], route) {
        Some(0)
    } else {
        match capability_for(caps.drop_first(), route) {
            Some(i) => Some(i + 1),
            None => None,
        }
    }
}

/// The index of the first installed capability that answers to `route`.
pub fn find_capability(caps: &Vec<InstalledCapability>, route: &str) -> (r: Option<usize>)
    ensures
        match capability_for(caps@, route@) {
            Some(i) => r == Some(i as usize),
            None => r is None,
        },
{
    let ghost all = caps@;
    let mut i: usize = 0;
    assert(all.skip(0) =~= all);
    while i < caps.len()
        invariant
            i <= caps.len(),
            all == caps@,
            capability_for(all, route@) == match capability_for(all.skip(i as int), route@) {
                Some(k) => Some(k + i),
                None => None,
            },
        decreases caps.len() - i,
    {
        assert(all.skip(i as int)[0] == caps@[i as int]);
        assert(all.skip(i as int).drop_first() =~= all.skip(i + 1));
        let c = &caps[i];
        let by_route = match &c.route_name {
            Some(r) => text_eq(r.as_str(), route),
            None => false,
        };
        if by_route || text_eq(c.name.as_str(), route) {
            return Some(i);
        }
        i = i + 1;
    }
    None
}

/// A path without its leading slashes (`trim_start_matches('/')`).
pub open spec fn without_leading_slashes(p: Seq<char>) -> Seq<char>
    decreases p.len(),
{
    if p.len() > 0 && p[0] == '/' {
        without_leading_slashes(p.drop_first())
    } else {
        p
    }
}

/// Why a request cannot be proxied.
#[derive(Debug, Clone, Copy, PartialEq, Eq, Structural)]
pub enum ProxyError {
    /// The query string is longer than `MAX_QUERY_LEN` bytes.
    QueryTooLong,
}

/// The URL a proxied request goes to: the capability's port on localhost,
/// the rest of the path without leading slashes, and the query if any.
pub open spec fn target_url(port: u16, rest_path: Seq<char>, query: Option<Seq<char>>) -> Seq<char> {
    let base = "http://localhost:"@ + decimal(port as nat) + "/"@ + without_leading_slashes(rest_path);
    match query {
        Some(q) => base + "?"@ + q,
        None => base,
    }
}

/// The URL to proxy a request to; refused when the query string is longer
/// than `MAX_QUERY_LEN` bytes.
pub fn proxy_target_url(port: u16, rest_path: &str, query: Option<&str>) -> (r: Result<String, ProxyError>)
    ensures
        match query {
            Some(q) => if q.len() > MAX_QUERY_LEN {
                r == Err::<String, ProxyError>(ProxyError::QueryTooLong)
            } else {
                r matches Ok(u) && u@ == target_url(port, rest_path@, Some(q@))
            },
            None => r matches Ok(u) && u@ == target_url(port, rest_path@, None),
        },
{
    let cs = chars_of(rest_path);
    let mut start: usize = 0;
    assert(cs@.skip(0) =~= cs@);
    while start < cs.len() && cs[start] == '/'
        invariant
            start <= cs.len(),
            cs@ == rest_path@,
            without_leading_slashes(rest_path@) == without_leading_slashes(cs@.skip(start as int)),
        decreases cs.len() - start,
    {
        assert(cs@.skip(start as int).drop_first() =~= cs@.skip(start + 1));
        start = start + 1;
    }
    let mut url = "http://localhost:".to_owned();
    push_decimal(&mut url, port as u64);
    push_char(&mut url, '/');
    let ghost head = url@;
    let mut i: usize = start;
    while i < cs.len()
        invariant
            start <= i <= cs.len(),
            url@ == head + cs@.subrange(start as int, i as int),
        decreases cs.len() - i,
    {
        push_char(&mut url, cs[i]);
        assert(url@ =~= head + cs@.subrange(start as int, i + 1));
        i = i + 1;
    }
    assert(cs@.subrange(start as int, cs.len() as int) =~= cs@.skip(start as int));
    proof {
        reveal_strlit("/");
        reveal_strlit("?");
        assert(head == "http://localhost:"@ + decimal(port as nat) + "/"@);
    }
    let ghost base = url@;
    assert(base == "http://localhost:"@ + decimal(port as nat) + "/"@ + without_leading_slashes(rest_path@));
    match query {
        Some(q) => {
            if q.len() > MAX_QUERY_LEN {
                return Err(ProxyError::QueryTooLong);
            }
            push_char(&mut url, '?');
            push_str(&mut url, q);
            assert(url@ =~= base + "?"@ + q@);
        },
        None => {},
    }
    Ok(url)
}

/// Request headers that stay behind: hop-by-hop and length headers, and the
/// identity headers the proxy sets itself.
pub open spec fn dropped_request_header(name: Seq<char>) -> bool {
    name == "host"@ || name == "connection"@ || name == "transfer-encoding"@ || name == "content-length"@
        || name == "x-peer-id"@ || name == "x-node-id"@ || name == "x-node-name"@
}

/// Whether a request header (by its lowercase name) is passed on.
pub fn forwards_request_header(name: &str) -> (r: bool)
    ensures
        r == !dropped_request_header(name@),
{
    !(text_eq(name, "host") || text_eq(name, "connection") || text_eq(name, "transfer-encoding") || text_eq(
        name,
        "content-length",
    ) || text_eq(name, "x-peer-id") || text_eq(name, "x-node-id") || text_eq(name, "x-node-name"))
}

/// Whether a response header (by its lowercase name) is passed back: all but
/// `transfer-encoding` and `connection`.
pub fn forwards_response_header(name: &str) -> (r: bool)
    ensures
        r == !(name@ == "transfer-encoding"@ || name@ == "connection"@),
{
    !(text_eq(name, "transfer-encoding") || text_eq(name, "connection"))
}

} // verus!
