use howm::paths::join;
use std::collections::HashMap;
use std::sync::Mutex;
use std::time::Instant;

struct RateLimiter {
    limit: u32,
    window_secs: u64,
    buckets: Mutex<HashMap<String, Vec<Instant>>>,
}

impl RateLimiter {
    fn new(limit: u32, window_secs: u64) -> Self {
        Self { limit, window_secs, buckets: Mutex::new(HashMap::new()) }
    }

    fn check(&self, key: &str) -> bool {
        let now = Instant::now();
        let mut buckets = self.buckets.lock().unwrap();
        let entries = buckets.entry(key.to_string()).or_default();
        let cutoff = now - std::time::Duration::from_secs(self.window_secs);
        entries.retain(|t| *t > cutoff);
        if entries.len() < self.limit as usize {
            entries.push(now);
            true
        } else {
            false
        }
    }
}

#[test]
fn test_rate_limiter() {
    let limiter = RateLimiter::new(3, 60);
    assert!(limiter.check("test"));
    assert!(limiter.check("test"));
    assert!(limiter.check("test"));
    assert!(!limiter.check("test")); // 4th should fail

    // Different key should still work
    assert!(limiter.check("other"));
}

#[test]
fn test_resource_limit_parsing() {
    let parse_mem = |s: &str| -> Option<i64> {
        let s = s.trim();
        if s.is_empty() {
            return None;
        }
        let (num_str, mul) = if s.ends_with("Gi") || s.ends_with("G") {
            (s.trim_end_matches("Gi").trim_end_matches("G"), 1024 * 1024 * 1024i64)
        } else if s.ends_with("Mi") || s.ends_with("M") {
            (s.trim_end_matches("Mi").trim_end_matches("M"), 1024 * 1024i64)
        } else if s.ends_with("Ki") || s.ends_with("K") {
            (s.trim_end_matches("Ki").trim_end_matches("K"), 1024i64)
        } else {
            (s, 1i64)
        };
        num_str.trim().parse::<i64>().ok().map(|n| n * mul)
    };

    assert_eq!(parse_mem("256M"), Some(256 * 1024 * 1024));
    assert_eq!(parse_mem("1G"), Some(1024 * 1024 * 1024));
    assert_eq!(parse_mem("512Mi"), Some(512 * 1024 * 1024));
    assert_eq!(parse_mem("1024K"), Some(1024 * 1024));

    let parse_cpu = |s: &str| -> Option<i64> {
        let s = s.trim();
        if s.ends_with("m") {
            s.trim_end_matches("m").parse::<i64>().ok().map(|v| v * 1_000_000)
        } else {
            s.parse::<f64>().ok().map(|v| (v * 1_000_000_000.0) as i64)
        }
    };

    assert_eq!(parse_cpu("500m"), Some(500_000_000));
    assert_eq!(parse_cpu("0.5"), Some(500_000_000));
    assert_eq!(parse_cpu("1"), Some(1_000_000_000));
    assert_eq!(parse_cpu("250m"), Some(250_000_000));
}

#[test]
fn test_visibility_enforcement_logic() {
    let check_visibility = |vis: &str, source_ip: &str, known_peers: &[&str]| -> bool {
        let is_local = source_ip == "127.0.0.1" || source_ip == "::1";
        match vis {
            "private" => is_local,
            "friends" => is_local || known_peers.contains(&source_ip),
            _ => true,
        }
    };

    assert!(check_visibility("private", "127.0.0.1", &[]));
    assert!(!check_visibility("private", "10.47.0.2", &[]));

    assert!(check_visibility("friends", "127.0.0.1", &[]));
    assert!(check_visibility("friends", "10.47.0.2", &["10.47.0.2"]));
    assert!(!check_visibility("friends", "10.47.0.3", &["10.47.0.2"]));

    assert!(check_visibility("public", "1.2.3.4", &[]));
}

#[test]
fn test_bearer_auth_parsing() {
    let check_auth = |header: Option<&str>, expected_token: &str| -> bool {
        match header {
            Some(h) if h.starts_with("Bearer ") => h.trim_start_matches("Bearer ").trim() == expected_token,
            _ => false,
        }
    };

    assert!(check_auth(Some("Bearer my-secret-token"), "my-secret-token"));
    assert!(!check_auth(Some("Bearer wrong-token"), "my-secret-token"));
    assert!(!check_auth(Some("Basic abc123"), "my-secret-token"));
    assert!(!check_auth(None, "my-secret-token"));
}

#[test]
fn data_paths_join_under_the_data_dir() {
    assert_eq!(join("/var/lib/howm", "wireguard"), "/var/lib/howm/wireguard");
    assert_eq!(join("/var/lib/howm/", "wireguard"), "/var/lib/howm/wireguard");
    assert_eq!(join("/var/lib/howm", "/etc"), "/etc");
}
