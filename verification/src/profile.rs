//! User profile: where its files live, which avatar uploads are accepted,
//! how a homepage path is confined to its directory, and the metadata
//! exchanged with and cached from peers.
use vstd::prelude::*;

use crate::paths::{canonical_within, join, parent, path_join, path_parent, within};
use crate::codec::{sha256, sha256_digest};
use crate::peers::Peer;
use crate::strings::{decimal, push_char, push_decimal, push_str};

verus! {

/// Maximum avatar file size: 1 MB.
pub const MAX_AVATAR_SIZE: usize = 1048576;

/// On-disk profile metadata.
#[derive(Debug, Clone)]
pub struct Profile {
    /// Display name (synced from identity on first load).
    pub name: String,
    /// Short bio / status text (~280 chars).
    pub bio: String,
    /// Filename of the avatar image (relative to profile dir), e.g. "avatar.png".
    pub avatar: Option<String>,
    /// Path to the homepage index.html (relative to profile dir), e.g. "homepage/index.html".
    pub homepage: Option<String>,
}

impl Default for Profile {
    fn default() -> (r: Self)
        ensures
            r.name@ == Seq::<char>::empty(),
            r.bio@ == Seq::<char>::empty(),
            r.avatar is None,
            r.homepage is None,
    {
        Profile { name: String::new(), bio: String::new(), avatar: None, homepage: None }
    }
}

/// Resolved paths for profile assets.
#[derive(Debug)]
pub struct ProfilePaths {
    pub dir: String,
    pub json: String,
    pub homepage_dir: String,
}

impl ProfilePaths {
    /// The profile directory under the data directory, its metadata file and
    /// its homepage directory.
    pub fn new(data_dir: &str) -> (r: Self)
        ensures
            r.dir@ == path_join(data_dir@, "profile"@),
            r.json@ == path_join(r.dir@, "profile.json"@),
            r.homepage_dir@ == path_join(r.dir@, "homepage"@),
    {
        let dir = join(data_dir, "profile");
        let json = join(dir.as_str(), "profile.json");
        let homepage_dir = join(dir.as_str(), "homepage");
        ProfilePaths { dir, json, homepage_dir }
    }
}

/// The file name of a path: its text after the last `/`.
pub open spec fn file_name(p: Seq<char>) -> Seq<char> {
    p.subrange(crate::paths::last_slash_before(p, p.len() as int) + 1, p.len() as int)
}

/// The extension of a file name: the text after its last `.`, when that dot
/// is not its first character.
pub open spec fn extension_of(name: Seq<char>) -> Option<Seq<char>> {
    let k = last_dot_before(name, name.len() as int);
    if k <= 0 {
        None
    } else {
        Some(name.subrange(k + 1, name.len() as int))
    }
}

/// The index of the last `.` before `end`, or -1.
pub open spec fn last_dot_before(p: Seq<char>, end: int) -> int
    decreases end,
{
    if end <= 0 {
        -1
    } else if p[end - 1] == '.' {
        end - 1
    } else {
        last_dot_before(p, end - 1)
    }
}

/// ASCII lowercase of a character.
pub open spec fn lower_char(c: char) -> char {
    if 'A' <= c && c <= 'Z' {
        (((c as u32) + 32) as u8) as char
    } else {
        c
    }
}

/// Why an avatar upload is refused.
#[derive(Debug, Clone, PartialEq, Eq)]
pub enum AvatarError {
    /// Larger than the limit; the size found.
    TooLarge(usize),
    /// Not one of png, jpg, jpeg, webp; the (lowercased) extension found.
    InvalidFormat(String),
}

/// The avatar extensions accepted.
pub open spec fn avatar_extension_ok(ext: Seq<char>) -> bool {
    ext == "png"@ || ext == "jpg"@ || ext == "jpeg"@ || ext == "webp"@
}

/// The lowercased extension of an upload's file name ("" when it has none).
pub open spec fn upload_extension(filename: Seq<char>) -> Seq<char> {
    match extension_of(file_name(filename)) {
        Some(e) => e.map_values(|c: char| lower_char(c)),
        None => Seq::empty(),
    }
}

proof fn lemma_last_dot_bounds(p: Seq<char>, end: int)
    requires
        end <= p.len(),
    ensures
        -1 <= last_dot_before(p, end) < (if end > 0 { end } else { 0 }),
    decreases end,
{
    if end > 0 && p[end - 1] != '.' {
        lemma_last_dot_bounds(p, end - 1);
    }
}

proof fn lemma_last_slash_bounds(p: Seq<char>, end: int)
    requires
        end <= p.len(),
    ensures
        -1 <= crate::paths::last_slash_before(p, end) < (if end > 0 { end } else { 0 }),
    decreases end,
{
    if end > 0 && p[end - 1] != '/' {
        lemma_last_slash_bounds(p, end - 1);
    }
}

fn lower(c: char) -> (r: char)
    ensures
        r == lower_char(c),
{
    if 'A' <= c && c <= 'Z' {
        let v: u8 = ((c as u32) + 32) as u8;
        v as char
    } else {
        c
    }
}

/// The lowercased extension of a file name.
pub fn extension_lowercase(filename: &str) -> (r: String)
    ensures
        r@ == upload_extension(filename@),
{
    let n = filename.unicode_len();
    let mut s: usize = n;
    while s > 0 && filename.get_char(s - 1) != '/'
        invariant
            s <= n,
            n == filename@.len(),
            crate::paths::last_slash_before(filename@, n as int) == crate::paths::last_slash_before(filename@, s as int),
        decreases s,
    {
        s = s - 1;
    }
    proof {
        lemma_last_slash_bounds(filename@, n as int);
    }
    let ghost name = file_name(filename@);
    assert(name =~= filename@.subrange(s as int, n as int));
    let mut d: usize = n;
    while d > s && filename.get_char(d - 1) != '.'
        invariant
            s <= d <= n,
            n == filename@.len(),
            name == filename@.subrange(s as int, n as int),
            last_dot_before(name, name.len() as int) == last_dot_before(name, (d - s) as int),
        decreases d,
    {
        assert(name[d - s - 1] == filename@[d - 1]);
        d = d - 1;
    }
    proof {
        if d > s {
            assert(name[d - s - 1] == filename@[d - 1]);
        }
        lemma_last_dot_bounds(name, name.len() as int);
    }
    let mut out = String::new();
    if d - s <= 1 {
        assert(extension_of(name) is None);
        return out;
    }
    let mut i: usize = d;
    let ghost ext = name.subrange(d - s, name.len() as int);
    assert(ext =~= filename@.subrange(d as int, n as int));
    while i < n
        invariant
            d <= i <= n,
            n == filename@.len(),
            ext == filename@.subrange(d as int, n as int),
            out@ == ext.subrange(0, i - d).map_values(|c: char| lower_char(c)),
        decreases n - i,
    {
        let c = lower(filename.get_char(i));
        push_char(&mut out, c);
        assert(ext.subrange(0, i + 1 - d) =~= ext.subrange(0, i - d).push(ext[i - d]));
        assert(out@ =~= ext.subrange(0, i + 1 - d).map_values(|c: char| lower_char(c)));
        i = i + 1;
    }
    assert(ext.subrange(0, i - d) =~= ext);
    out
}

/// Validate an avatar upload: at most `MAX_AVATAR_SIZE` bytes and a png,
/// jpg, jpeg or webp extension (any case). Returns the file name to store
/// it under, `avatar.<ext>`.
pub fn validate_avatar(filename: &str, size: usize) -> (r: Result<String, AvatarError>)
    ensures
        size > MAX_AVATAR_SIZE ==> r == Err::<String, AvatarError>(AvatarError::TooLarge(size)),
        size <= MAX_AVATAR_SIZE && !avatar_extension_ok(upload_extension(filename@)) ==> (r matches Err(
            AvatarError::InvalidFormat(e),
        ) && e@ == upload_extension(filename@)),
        size <= MAX_AVATAR_SIZE && avatar_extension_ok(upload_extension(filename@)) ==> (r matches Ok(name) && name@
            == "avatar."@ + upload_extension(filename@)),
{
    if size > MAX_AVATAR_SIZE {
        return Err(AvatarError::TooLarge(size));
    }
    let ext = extension_lowercase(filename);
    let ok = crate::strings::text_eq(ext.as_str(), "png") || crate::strings::text_eq(ext.as_str(), "jpg")
        || crate::strings::text_eq(ext.as_str(), "jpeg") || crate::strings::text_eq(ext.as_str(), "webp");
    if !ok {
        return Err(AvatarError::InvalidFormat(ext));
    }
    let mut name = "avatar.".to_owned();
    push_str(&mut name, ext.as_str());
    Ok(name)
}

/// The content type served for an avatar file name.
pub open spec fn avatar_content_type(name: Seq<char>) -> Seq<char> {
    match extension_of(file_name(name)) {
        Some(e) => if e == "png"@ {
            "image/png"@
        } else if e == "jpg"@ || e == "jpeg"@ {
            "image/jpeg"@
        } else if e == "webp"@ {
            "image/webp"@
        } else {
            "application/octet-stream"@
        },
        None => "application/octet-stream"@,
    }
}

/// The content type of an avatar, by its (case-sensitive) extension.
pub fn content_type(avatar_name: &str) -> (r: &'static str)
    ensures
        r@ == avatar_content_type(avatar_name@),
{
    let n = avatar_name.unicode_len();
    let mut s: usize = n;
    while s > 0 && avatar_name.get_char(s - 1) != '/'
        invariant
            s <= n,
            n == avatar_name@.len(),
            crate::paths::last_slash_before(avatar_name@, n as int) == crate::paths::last_slash_before(avatar_name@, s as int),
        decreases s,
    {
        s = s - 1;
    }
    proof {
        lemma_last_slash_bounds(avatar_name@, n as int);
    }
    let ghost name = file_name(avatar_name@);
    assert(name =~= avatar_name@.subrange(s as int, n as int));
    let mut d: usize = n;
    while d > s && avatar_name.get_char(d - 1) != '.'
        invariant
            s <= d <= n,
            n == avatar_name@.len(),
            name == avatar_name@.subrange(s as int, n as int),
            last_dot_before(name, name.len() as int) == last_dot_before(name, (d - s) as int),
        decreases d,
    {
        assert(name[d - s - 1] == avatar_name@[d - 1]);
        d = d - 1;
    }
    proof {
        if d > s {
            assert(name[d - s - 1] == avatar_name@[d - 1]);
        }
        lemma_last_dot_bounds(name, name.len() as int);
    }
    if d - s <= 1 {
        return "application/octet-stream";
    }
    let ext = avatar_name.substring_char(d, n);
    assert(ext@ =~= name.subrange(d - s, name.len() as int));
    if crate::strings::text_eq(ext, "png") {
        "image/png"
    } else if crate::strings::text_eq(ext, "jpg") || crate::strings::text_eq(ext, "jpeg") {
        "image/jpeg"
    } else if crate::strings::text_eq(ext, "webp") {
        "image/webp"
    } else {
        "application/octet-stream"
    }
}

/// Where a homepage lookup points: the directory it must stay within and
/// the path asked for.
#[derive(Debug)]
pub struct ConfinedPath {
    pub dir: String,
    pub path: String,
}

/// The homepage index to serve: the profile's homepage path under the
/// profile directory, confined to the profile directory; `None` when the
/// profile has no homepage.
pub fn resolve_homepage(data_dir: &str, profile: &Profile) -> (r: Option<ConfinedPath>)
    ensures
        match profile.homepage {
            None => r is None,
            Some(rel) => r matches Some(c) && c.dir@ == path_join(data_dir@, "profile"@) && c.path@ == path_join(
                c.dir@,
                rel@,
            ),
        },
{
    match &profile.homepage {
        None => None,
        Some(rel) => {
            let paths = ProfilePaths::new(data_dir);
            let path = join(paths.dir.as_str(), rel.as_str());
            Some(ConfinedPath { dir: paths.dir, path })
        },
    }
}

/// A homepage asset to serve: `asset_path` under the directory of the
/// homepage index, confined to that directory; `None` when the profile has
/// no homepage or the index has no parent directory.
pub fn resolve_homepage_asset(data_dir: &str, profile: &Profile, asset_path: &str) -> (r: Option<ConfinedPath>)
    ensures
        match profile.homepage {
            None => r is None,
            Some(rel) => match path_parent(path_join(path_join(data_dir@, "profile"@), rel@)) {
                None => r is None,
                Some(hd) => r matches Some(c) && c.dir@ == hd && c.path@ == path_join(hd, asset_path@),
            },
        },
{
    match &profile.homepage {
        None => None,
        Some(rel) => {
            let paths = ProfilePaths::new(data_dir);
            let index = join(paths.dir.as_str(), rel.as_str());
            match parent(index.as_str()) {
                None => None,
                Some(hd) => {
                    let path = join(hd.as_str(), asset_path);
                    Some(ConfinedPath { dir: hd, path })
                },
            }
        },
    }
}

/// Whether a confined path may be served, given the canonical forms of its
/// directory and of the path (`None` where canonicalisation failed) and
/// whether the path exists: both canonicalise, the path lies within the
/// directory, and it exists. Returns the path to serve.
pub fn confine(target: ConfinedPath, canonical_dir: Option<String>, canonical_path: Option<String>, exists: bool) -> (r: Option<String>)
    ensures
        match (canonical_dir, canonical_path) {
            (Some(d), Some(f)) => if canonical_within(d@, f@) && exists {
                r matches Some(p) && p@ == target.path@
            } else {
                r is None
            },
            _ => r is None,
        },
{
    match (canonical_dir, canonical_path) {
        (Some(d), Some(f)) => {
            if within(d.as_str(), f.as_str()) && exists {
                Some(target.path)
            } else {
                None
            }
        },
        _ => None,
    }
}

/// Profile metadata exchanged between peers.
#[derive(Debug, Clone)]
pub struct ProfileMeta {
    pub node_id: String,
    pub name: String,
    pub bio: String,
    /// SHA-256 hash of the avatar file (hex). Peers use this to know if they need to re-fetch.
    pub avatar_hash: Option<String>,
    pub has_homepage: bool,
}

/// Cached peer profile metadata (what we've received from other nodes).
#[derive(Debug, Clone)]
pub struct PeerProfileCache {
    pub node_id: String,
    pub name: String,
    pub bio: String,
    pub avatar_hash: Option<String>,
    pub has_homepage: bool,
    /// Timestamp of last update.
    pub updated_at: u64,
}

impl Default for PeerProfileCache {
    fn default() -> (r: Self)
        ensures
            r.node_id@ == Seq::<char>::empty(),
            r.name@ == Seq::<char>::empty(),
            r.bio@ == Seq::<char>::empty(),
            r.avatar_hash is None,
            !r.has_homepage,
            r.updated_at == 0,
    {
        PeerProfileCache {
            node_id: String::new(),
            name: String::new(),
            bio: String::new(),
            avatar_hash: None,
            has_homepage: false,
            updated_at: 0,
        }
    }
}

/// Whether `char::is_alphanumeric` holds of a character (the Unicode
/// Alphabetic or Numeric property).
pub uninterp spec fn alphanumeric(c: char) -> bool;

/// Asks `char::is_alphanumeric`. Claims: the answer is `alphanumeric(c)`.
#[verifier::external_body]
fn is_alphanumeric(c: char) -> (r: bool)
    ensures
        r == alphanumeric(c),
{
    c.is_alphanumeric()
}

/// A character kept in a cache file name; every other becomes `_`.
pub open spec fn safe_char(c: char) -> char {
    if alphanumeric(c) || c == '-' {
        c
    } else {
        '_'
    }
}

/// The directory of cached peer profiles.
pub fn cache_dir(data_dir: &str) -> (r: String)
    ensures
        r@ == path_join(data_dir@, "profile_cache"@),
{
    join(data_dir, "profile_cache")
}

/// The cache file of a peer: its node id made safe for the file system,
/// with `.json`, in the cache directory.
pub fn cache_path(data_dir: &str, node_id: &str) -> (r: String)
    ensures
        r@ == path_join(path_join(data_dir@, "profile_cache"@), node_id@.map_values(|c: char| safe_char(c)) + ".json"@),
{
    let n = node_id.unicode_len();
    let mut safe = String::new();
    let mut i: usize = 0;
    while i < n
        invariant
            i <= n,
            n == node_id@.len(),
            safe@ == node_id@.subrange(0, i as int).map_values(|c: char| safe_char(c)),
        decreases n - i,
    {
        let c = node_id.get_char(i);
        let k = if is_alphanumeric(c) || c == '-' { c } else { '_' };
        push_char(&mut safe, k);
        assert(node_id@.subrange(0, i + 1) =~= node_id@.subrange(0, i as int).push(c));
        assert(safe@ =~= node_id@.subrange(0, i + 1).map_values(|c: char| safe_char(c)));
        i = i + 1;
    }
    assert(node_id@.subrange(0, i as int) =~= node_id@);
    push_str(&mut safe, ".json");
    let dir = cache_dir(data_dir);
    join(dir.as_str(), safe.as_str())
}

/// The cache entry for received metadata, stamped `now`.
pub fn cache_entry(meta: &ProfileMeta, now: u64) -> (r: PeerProfileCache)
    ensures
        r.node_id@ == meta.node_id@,
        r.name@ == meta.name@,
        r.bio@ == meta.bio@,
        r.avatar_hash == meta.avatar_hash,
        r.has_homepage == meta.has_homepage,
        r.updated_at == now,
{
    PeerProfileCache {
        node_id: meta.node_id.clone(),
        name: meta.name.clone(),
        bio: meta.bio.clone(),
        avatar_hash: meta.avatar_hash.clone(),
        has_homepage: meta.has_homepage,
        updated_at: now,
    }
}

/// The lowercase hex digit of a value below 16.
pub open spec fn hex_digit(d: u8) -> char {
    if d < 10 {
        (48 + d) as char
    } else {
        (97 + d - 10) as char
    }
}

/// Bytes as lowercase hex, two digits each.
pub open spec fn lower_hex(bytes: Seq<u8>) -> Seq<char>
    decreases bytes.len(),
{
    if bytes.len() == 0 {
        Seq::empty()
    } else {
        lower_hex(bytes.drop_last()) + seq![hex_digit(bytes.last() / 16), hex_digit(bytes.last() % 16)]
    }
}

fn hex_char(d: u8) -> (c: char)
    requires
        d < 16,
    ensures
        c == hex_digit(d),
{
    if d < 10 {
        ((48u8 + d) as char)
    } else {
        ((97u8 + d - 10) as char)
    }
}

/// Bytes as lowercase hex.
pub fn to_lower_hex(bytes: &[u8]) -> (r: String)
    ensures
        r@ == lower_hex(bytes@),
{
    let mut s = String::new();
    let mut i: usize = 0;
    while i < bytes.len()
        invariant
            i <= bytes.len(),
            s@ == lower_hex(bytes@.take(i as int)),
        decreases bytes.len() - i,
    {
        let b = bytes[i];
        assert(bytes@.take(i + 1).drop_last() =~= bytes@.take(i as int));
        assert(bytes@.take(i + 1).last() == b);
        push_char(&mut s, hex_char(b / 16));
        push_char(&mut s, hex_char(b % 16));
        assert(s@ =~= lower_hex(bytes@.take(i + 1)));
        i = i + 1;
    }
    assert(bytes@.take(i as int) =~= bytes@);
    s
}

/// The profile metadata this node pushes to peers: its node id, the
/// profile's name and bio, the SHA-256 (lowercase hex) of the avatar file
/// when it could be read, and whether a homepage is set.
pub fn our_meta(node_id: &str, profile: &Profile, avatar_bytes: Option<&[u8]>) -> (r: ProfileMeta)
    ensures
        r.node_id@ == node_id@,
        r.name@ == profile.name@,
        r.bio@ == profile.bio@,
        match avatar_bytes {
            Some(b) => r.avatar_hash matches Some(h) && h@ == lower_hex(sha256_digest(b@)),
            None => r.avatar_hash is None,
        },
        r.has_homepage == profile.homepage is Some,
{
    let avatar_hash = match avatar_bytes {
        Some(b) => {
            let digest = sha256(b);
            Some(to_lower_hex(digest.as_slice()))
        },
        None => None,
    };
    ProfileMeta {
        node_id: node_id.to_owned(),
        name: profile.name.clone(),
        bio: profile.bio.clone(),
        avatar_hash,
        has_homepage: profile.homepage.is_some(),
    }
}

/// The URL of `path` at a peer's daemon, over its WG address.
pub open spec fn peer_url(peer: Peer, path: Seq<char>) -> Seq<char> {
    "http://"@ + peer.wg_address@ + ":"@ + decimal(peer.port as nat) + path
}

/// The URL of `path` (such as `/profile/sync`) at a peer's daemon.
pub fn peer_daemon_url(peer: &Peer, path: &str) -> (r: String)
    ensures
        r@ == peer_url(*peer, path@),
{
    let mut s = "http://".to_owned();
    push_str(&mut s, peer.wg_address.as_str());
    push_char(&mut s, ':');
    push_decimal(&mut s, peer.port as u64);
    push_str(&mut s, path);
    proof {
        reveal_strlit(":");
    }
    assert(s@ =~= peer_url(*peer, path@));
    s
}

/// The metadata to cache from a peer's `GET /profile` answer: its name
/// (the known name when the answer has none), its bio (empty when none),
/// no avatar hash, and whether it has a homepage (no when not said).
pub fn meta_from_profile(peer: &Peer, name: Option<&str>, bio: Option<&str>, has_homepage: Option<bool>) -> (r: ProfileMeta)
    ensures
        r.node_id@ == peer.node_id@,
        r.name@ == match name {
            Some(n) => n@,
            None => peer.name@,
        },
        r.bio@ == match bio {
            Some(b) => b@,
            None => Seq::<char>::empty(),
        },
        r.avatar_hash is None,
        r.has_homepage == match has_homepage {
            Some(h) => h,
            None => false,
        },
{
    ProfileMeta {
        node_id: peer.node_id.clone(),
        name: match name {
            Some(n) => n.to_owned(),
            None => peer.name.clone(),
        },
        bio: match bio {
            Some(b) => b.to_owned(),
            None => String::new(),
        },
        avatar_hash: None,
        has_homepage: match has_homepage {
            Some(h) => h,
            None => false,
        },
    }
}

} // verus!
