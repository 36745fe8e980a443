//! The optional tailnet (Tailscale/Headscale) overlay: its settings and
//! state, the coordination server and auth key it uses, the environment of
//! the tailscale container, and what its status report gives.
use vstd::prelude::*;

use crate::strings::{decimal, push_decimal, push_str};
use crate::text::{chars_of, lines_of, string_of, text_lines, trim_text, trimmed, views};

verus! {

/// Where the tailnet stands.
#[derive(Debug)]
pub struct TailnetState {
    pub ip: Option<String>,
    pub name: Option<String>,
    pub status: String,
    pub headscale_container_id: Option<String>,
    pub tailscale_container_id: Option<String>,
}

/// Tailnet settings.
#[derive(Debug)]
pub struct TailnetConfig {
    pub enabled: bool,
    pub coordination_url: Option<String>,
    pub authkey: Option<String>,
    pub data_dir: String,
    pub headscale_enabled: bool,
    pub headscale_port: u16,
}

/// The text of an optional text, empty when absent.
pub open spec fn or_empty(t: Option<String>) -> Seq<char> {
    match t {
        Some(s) => s@,
        None => Seq::empty(),
    }
}

/// The coordination server: the local headscale when it runs, else the
/// configured URL (empty when none).
pub open spec fn coordination_url_of(config: TailnetConfig) -> Seq<char> {
    if config.headscale_enabled {
        "http://127.0.0.1:"@ + decimal(config.headscale_port as nat)
    } else {
        or_empty(config.coordination_url)
    }
}

/// The coordination server the tailscale container logs in to.
pub fn coordination_url(config: &TailnetConfig) -> (r: String)
    ensures
        r@ == coordination_url_of(*config),
{
    if config.headscale_enabled {
        let mut s = "http://127.0.0.1:".to_owned();
        push_decimal(&mut s, config.headscale_port as u64);
        s
    } else {
        match &config.coordination_url {
            Some(u) => u.clone(),
            None => String::new(),
        }
    }
}

/// The auth key from the output of `headscale authkeys generate`: its last
/// non-blank line, trimmed.
pub open spec fn last_nonblank_line(lines: Seq<Seq<char>>) -> Option<Seq<char>>
    decreases lines.len(),
{
    if lines.len() == 0 {
        None
    } else if trimmed(lines.last()).len() > 0 {
        Some(trimmed(lines.last()))
    } else {
        last_nonblank_line(lines.drop_last())
    }
}

/// The auth key headscale printed, if its output has a non-blank line.
pub fn authkey_from_output(output: &str) -> (r: Option<String>)
    ensures
        match last_nonblank_line(text_lines(output@)) {
            Some(k) => r matches Some(s) && s@ == k,
            None => r is None,
        },
{
    let lines = lines_of(output);
    let ghost ls = views(lines@);
    let mut i: usize = lines.len();
    assert(ls.take(i as int) =~= ls);
    while i > 0
        invariant
            i <= lines.len(),
            ls == views(lines@),
            ls == text_lines(output@),
            last_nonblank_line(ls) == last_nonblank_line(ls.take(i as int)),
        decreases i,
    {
        assert(ls.take(i as int).drop_last() =~= ls.take(i - 1));
        assert(ls.take(i as int).last() == lines@[i - 1]@);
        let t = trim_text(lines[i - 1].as_str());
        if t.unicode_len() > 0 {
            return Some(t);
        }
        i = i - 1;
    }
    None
}

/// The environment of the tailscale container: its state directory and
/// host name, the auth key when there is one, the extra arguments (the
/// login server when there is one, and route acceptance), and userspace
/// networking on hosts other than Linux.
pub open spec fn tailscale_env_spec(authkey: Seq<char>, coordination_url: Seq<char>, is_linux: bool) -> Seq<Seq<char>> {
    let extra = if coordination_url.len() > 0 {
        "--login-server="@ + coordination_url + " --accept-routes"@
    } else {
        "--accept-routes"@
    };
    seq!["TS_STATE_DIR=/var/lib/tailscale"@, "TS_HOSTNAME=howm-node"@] + (if authkey.len() > 0 {
        seq!["TS_AUTHKEY="@ + authkey]
    } else {
        Seq::empty()
    }) + seq!["TS_EXTRA_ARGS="@ + extra] + (if is_linux {
        Seq::empty()
    } else {
        seq!["TS_USERSPACE=1"@]
    })
}

/// The environment of the tailscale container.
pub fn tailscale_env(authkey: &str, coordination_url: &str, is_linux: bool) -> (r: Vec<String>)
    ensures
        views(r@) == tailscale_env_spec(authkey@, coordination_url@, is_linux),
{
    let mut env: Vec<String> = Vec::new();
    env.push("TS_STATE_DIR=/var/lib/tailscale".to_owned());
    env.push("TS_HOSTNAME=howm-node".to_owned());
    if authkey.unicode_len() > 0 {
        let mut k = "TS_AUTHKEY=".to_owned();
        push_str(&mut k, authkey);
        env.push(k);
    }
    let mut extra = "TS_EXTRA_ARGS=".to_owned();
    if coordination_url.unicode_len() > 0 {
        push_str(&mut extra, "--login-server=");
        push_str(&mut extra, coordination_url);
        push_str(&mut extra, " --accept-routes");
    } else {
        push_str(&mut extra, "--accept-routes");
    }
    env.push(extra);
    if !is_linux {
        env.push("TS_USERSPACE=1".to_owned());
    }
    let ghost want = tailscale_env_spec(authkey@, coordination_url@, is_linux);
    proof {
        let extra_spec = if coordination_url@.len() > 0 {
            "--login-server="@ + coordination_url@ + " --accept-routes"@
        } else {
            "--accept-routes"@
        };
        assert(extra@ =~= "TS_EXTRA_ARGS="@ + extra_spec);
    }
    assert(views(env@) =~= want);
    env
}

/// The address a status report's list of tailnet addresses gives (each
/// entry a text, or `None` where the report holds something else): the
/// first IPv4 one (no `:`), else whatever the first entry is.
pub open spec fn pick_ip(ips: Seq<Option<Seq<char>>>) -> Option<Seq<char>> {
    match first_v4(ips) {
        Some(ip) => Some(ip),
        None => if ips.len() > 0 {
            ips[0]
        } else {
            None
        },
    }
}

/// The first text entry without a `:`.
pub open spec fn first_v4(ips: Seq<Option<Seq<char>>>) -> Option<Seq<char>>
    decreases ips.len(),
{
    if ips.len() == 0 {
        None
    } else if ips[0] matches Some(s) && !s.contains(':') {
        Some(ips[0]->0)
    } else {
        first_v4(ips.drop_first())
    }
}

/// The models of optional texts.
pub open spec fn opt_texts(v: Seq<Option<String>>) -> Seq<Option<Seq<char>>> {
    v.map_values(|o: Option<String>| match o {
        Some(s) => Some(s@),
        None => None,
    })
}

fn has_colon(s: &str) -> (r: bool)
    ensures
        r == s@.contains(':'),
{
    let cs = chars_of(s);
    let mut i: usize = 0;
    while i < cs.len()
        invariant
            i <= cs.len(),
            cs@ == s@,
            forall|k: int| 0 <= k < i ==> cs@[k] != ':',
        decreases cs.len() - i,
    {
        if cs[i] == ':' {
            assert(s@[i as int] == ':');
            return true;
        }
        i = i + 1;
    }
    false
}

/// The tailnet address of a status report.
pub fn pick_tailnet_ip(ips: &Vec<Option<String>>) -> (r: Option<String>)
    ensures
        match pick_ip(opt_texts(ips@)) {
            Some(ip) => r matches Some(s) && s@ == ip,
            None => r is None,
        },
{
    let ghost all = opt_texts(ips@);
    let mut i: usize = 0;
    assert(all.skip(0) =~= all);
    while i < ips.len()
        invariant
            i <= ips.len(),
            all == opt_texts(ips@),
            first_v4(all) == first_v4(all.skip(i as int)),
        decreases ips.len() - i,
    {
        assert(all.skip(i as int)[0] == all[i as int]);
        assert(all.skip(i as int).drop_first() =~= all.skip(i + 1));
        match &ips[i] {
            Some(s) => {
                if !has_colon(s.as_str()) {
                    return Some(s.clone());
                }
            },
            None => {},
        }
        i = i + 1;
    }
    assert(all.skip(i as int) =~= Seq::<Option<Seq<char>>>::empty());
    if ips.len() > 0 {
        match &ips[0] {
            Some(s) => Some(s.clone()),
            None => None,
        }
    } else {
        None
    }
}

/// A DNS name without its trailing dots.
pub open spec fn without_trailing_dots(s: Seq<char>) -> Seq<char>
    decreases s.len(),
{
    if s.len() > 0 && s.last() == '.' {
        without_trailing_dots(s.drop_last())
    } else {
        s
    }
}

/// The tailnet name of a status report: its DNS name without trailing dots,
/// else its host name.
pub fn tailnet_name(dns_name: Option<&str>, host_name: Option<&str>) -> (r: Option<String>)
    ensures
        match dns_name {
            Some(d) => r matches Some(s) && s@ == without_trailing_dots(d@),
            None => match host_name {
                Some(h) => r matches Some(s) && s@ == h@,
                None => r is None,
            },
        },
{
    match dns_name {
        Some(d) => {
            let cs = chars_of(d);
            let mut end: usize = cs.len();
            assert(cs@.take(end as int) =~= cs@);
            while end > 0 && cs[end - 1] == '.'
                invariant
                    end <= cs.len(),
                    cs@ == d@,
                    without_trailing_dots(d@) == without_trailing_dots(cs@.take(end as int)),
                decreases end,
            {
                assert(cs@.take(end as int).drop_last() =~= cs@.take(end - 1));
                end = end - 1;
            }
            assert(cs@.subrange(0, end as int) =~= cs@.take(end as int));
            Some(string_of(&cs, 0, end))
        },
        None => match host_name {
            Some(h) => Some(h.to_owned()),
            None => None,
        },
    }
}

/// What a status report gives: the address and name, once an address that
/// is not empty is assigned.
pub fn tailnet_status(ip: Option<String>, name: Option<String>) -> (r: Option<(String, String)>)
    ensures
        match ip {
            Some(a) => if a@.len() > 0 {
                r matches Some((x, n)) && x@ == a@ && n@ == or_empty(name)
            } else {
                r is None
            },
            None => r is None,
        },
{
    match ip {
        Some(a) => {
            if a.unicode_len() > 0 {
                let n = match name {
                    Some(n) => n,
                    None => String::new(),
                };
                Some((a, n))
            } else {
                None
            }
        },
        None => None,
    }
}

/// The state once the wait for an address is over: connected when an
/// address came, pending otherwise.
pub fn state_after_wait(
    assigned: Option<(String, String)>,
    headscale_container_id: Option<String>,
    tailscale_container_id: String,
) -> (r: TailnetState)
    ensures
        r.status@ == (if assigned is Some {
            "connected"@
        } else {
            "pending"@
        }),
        match assigned {
            Some((ip, name)) => (r.ip matches Some(i) && i@ == ip@) && (r.name matches Some(n) && n@ == name@),
            None => r.ip is None && r.name is None,
        },
        r.headscale_container_id == headscale_container_id,
        r.tailscale_container_id == Some(tailscale_container_id),
{
    match assigned {
        Some((ip, name)) => TailnetState {
            ip: Some(ip),
            name: Some(name),
            status: "connected".to_owned(),
            headscale_container_id,
            tailscale_container_id: Some(tailscale_container_id),
        },
        None => TailnetState {
            ip: None,
            name: None,
            status: "pending".to_owned(),
            headscale_container_id,
            tailscale_container_id: Some(tailscale_container_id),
        },
    }
}

/// The state of a tailnet that does not run: `disabled` when turned off,
/// `docker-unavailable` when Docker cannot be reached.
pub fn idle_state(enabled: bool) -> (r: TailnetState)
    ensures
        r.status@ == (if enabled {
            "docker-unavailable"@
        } else {
            "disabled"@
        }),
        r.ip is None && r.name is None && r.headscale_container_id is None && r.tailscale_container_id is None,
{
    let status = if enabled {
        "docker-unavailable".to_owned()
    } else {
        "disabled".to_owned()
    };
    TailnetState { ip: None, name: None, status, headscale_container_id: None, tailscale_container_id: None }
}

/// What `serde_json` reads of a `tailscale status --json` report under
/// `Self`: the `TailscaleIPs` array (each entry's text, `None` for an entry
/// that is not a string; `None` for the whole when it is not an array), and
/// the `DNSName` and `HostName` strings; `None` when the text is not JSON.
pub uninterp spec fn tailscale_self(
    text: Seq<char>,
) -> Option<(Option<Seq<Option<Seq<char>>>>, Option<Seq<char>>, Option<Seq<char>>)>;

/// The fields of a status report's `Self` entry that the tailnet reads.
#[derive(Debug)]
pub struct TailscaleSelf {
    pub ips: Option<Vec<Option<String>>>,
    pub dns_name: Option<String>,
    pub host_name: Option<String>,
}

/// Parses a status report with `serde_json::from_str` into a `Value` and
/// reads `["Self"]["TailscaleIPs"]` (`as_array`, each entry `as_str`),
/// `["Self"]["DNSName"]` and `["Self"]["HostName"]` (`as_str`). Claims: the
/// result is `tailscale_self` of the text.
#[verifier::external_body]
fn tailscale_self_of(text: &str) -> (r: Option<TailscaleSelf>)
    ensures
        match r {
            None => tailscale_self(text@) is None,
            Some(t) => tailscale_self(text@) == Some((
                match t.ips {
                    Some(l) => Some(opt_texts(l@)),
                    None => None,
                },
                match t.dns_name {
                    Some(d) => Some(d@),
                    None => None,
                },
                match t.host_name {
                    Some(h) => Some(h@),
                    None => None,
                },
            )),
        },
{
    let v: serde_json::Value = serde_json::from_str(text).ok()?;
    let me = &v["Self"];
    Some(TailscaleSelf {
        ips: me["TailscaleIPs"].as_array().map(|a| a.iter().map(|x| x.as_str().map(|s| s.to_owned())).collect()),
        dns_name: me["DNSName"].as_str().map(|s| s.to_owned()),
        host_name: me["HostName"].as_str().map(|s| s.to_owned()),
    })
}

/// What a `tailscale status --json` report gives once read: the address
/// (the first IPv4 entry, else the first entry) when it is not empty, with
/// the name (the DNS name without trailing dots, else the host name, else
/// empty).
pub open spec fn status_report(
    ips: Option<Seq<Option<Seq<char>>>>,
    dns_name: Option<Seq<char>>,
    host_name: Option<Seq<char>>,
) -> Option<(Seq<char>, Seq<char>)> {
    let ip = match ips {
        Some(l) => pick_ip(l),
        None => None,
    };
    let name: Seq<char> = match dns_name {
        Some(d) => without_trailing_dots(d),
        None => match host_name {
            Some(h) => h,
            None => Seq::empty(),
        },
    };
    match ip {
        Some(a) => if a.len() > 0 {
            Some((a, name))
        } else {
            None
        },
        None => None,
    }
}

/// The address and name a `tailscale status --json` report gives (the
/// text trimmed, then read as JSON); nothing when it is not JSON or no
/// address is assigned yet.
pub fn tailscale_status_of(output: &str) -> (r: Option<(String, String)>)
    ensures
        match tailscale_self(trimmed(output@)) {
            None => r is None,
            Some((ips, dns_name, host_name)) => match status_report(ips, dns_name, host_name) {
                Some((a, n)) => r matches Some((x, m)) && x@ == a && m@ == n,
                None => r is None,
            },
        },
{
    let t = trim_text(output);
    match tailscale_self_of(t.as_str()) {
        None => None,
        Some(me) => {
            let ip = match &me.ips {
                Some(l) => pick_tailnet_ip(l),
                None => None,
            };
            let dns: Option<&str> = match &me.dns_name {
                Some(d) => Some(d.as_str()),
                None => None,
            };
            let host: Option<&str> = match &me.host_name {
                Some(h) => Some(h.as_str()),
                None => None,
            };
            let name = tailnet_name(dns, host);
            tailnet_status(ip, name)
        },
    }
}

} // verus!
