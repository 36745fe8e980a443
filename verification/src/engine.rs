//! Decisions of the session engine: the peer cache, what to do when a peer
//! becomes visible, glare between two simultaneous sessions, replay
//! detection, and what a re-exchange deactivates.
use vstd::prelude::*;

use crate::intersection::{copy_texts, texts_model};
use crate::manifest::PeerId;
use crate::strings::{bytes_less, bytes_lt, lemma_bytes_lt_trichotomy, text_eq};

verus! {

/// Peer cache TTL: entries older than this are ignored (re-negotiate).
pub const CACHE_TTL_SECS: u64 = 3600;

/// Outcome of a completed negotiation, stored in the peer cache.
#[derive(Debug, Clone, Copy, PartialEq, Eq, Structural)]
pub enum SessionOutcome {
    Active,
    /// The exchange found no capability in common.
    NoMatch,
    Denied,
}

/// Cached negotiation result for a peer, keyed by (peer_id, personal_hash).
/// If the remote peer's manifest hash changes, the cache entry is invalid.
#[derive(Debug)]
pub struct PeerCacheEntry {
    /// The remote peer's personal_hash at time of negotiation.
    pub personal_hash: Vec<u8>,
    pub last_outcome: SessionOutcome,
    pub timestamp: u64,
}

impl Clone for PeerCacheEntry {
    fn clone(&self) -> (r: Self)
        ensures
            r.personal_hash@ == self.personal_hash@,
            r.last_outcome == self.last_outcome,
            r.timestamp == self.timestamp,
    {
        PeerCacheEntry {
            personal_hash: self.personal_hash.clone(),
            last_outcome: self.last_outcome,
            timestamp: self.timestamp,
        }
    }
}

/// An entry written at `timestamp` is expired at `now` when more than the
/// TTL has passed (a clock that went backwards counts as no time passed).
pub open spec fn expired_at(timestamp: u64, now: u64) -> bool {
    (if now >= timestamp { now - timestamp } else { 0 }) > CACHE_TTL_SECS
}

/// The cache entry recording how an exchange with a peer ended at `now`,
/// keyed by the remote manifest's personal hash (empty when no manifest
/// arrived).
pub fn outcome_entry(outcome: SessionOutcome, remote_personal_hash: Option<&Vec<u8>>, now: u64) -> (r: PeerCacheEntry)
    ensures
        r.last_outcome == outcome,
        r.timestamp == now,
        r.personal_hash@ == match remote_personal_hash {
            Some(h) => h@,
            None => Seq::<u8>::empty(),
        },
{
    let personal_hash = match remote_personal_hash {
        Some(h) => h.clone(),
        None => Vec::new(),
    };
    PeerCacheEntry { personal_hash, last_outcome: outcome, timestamp: now }
}

/// An expired cache entry stays expired as time goes on.
pub proof fn lemma_expiry_monotone(timestamp: u64, now: u64, later: u64)
    requires
        expired_at(timestamp, now),
        now <= later,
    ensures
        expired_at(timestamp, later),
{
}

/// The current time in whole seconds since the Unix epoch, read with
/// `SystemTime::now()`; a clock before the epoch reads as 0. Nothing is
/// claimed of the value: it is the time.
#[verifier::external_body]
pub fn unix_now() -> u64 {
    std::time::SystemTime::now().duration_since(std::time::UNIX_EPOCH).unwrap_or(std::time::Duration::ZERO).as_secs()
}

impl PeerCacheEntry {
    /// Whether the entry has expired at time `now` (seconds since the epoch).
    pub fn is_expired_at(&self, now: u64) -> (r: bool)
        ensures
            r == expired_at(self.timestamp, now),
    {
        now.saturating_sub(self.timestamp) > CACHE_TTL_SECS
    }

    /// Whether the entry has expired now.
    pub fn is_expired(&self) -> (r: bool)
        ensures
            exists|now: u64| r == expired_at(self.timestamp, now),
    {
        let now = unix_now();
        self.is_expired_at(now)
    }
}

/// Where a session with a peer stands, as far as the engine's decisions go.
#[derive(Debug, Clone, Copy, PartialEq, Eq, Structural)]
pub enum SessionPhase {
    /// The exchange is under way (handshake or capability exchange).
    InProgress,
    /// The session is active.
    Active,
    /// The session ended (no match, denied or closed).
    Ended,
}

/// What the engine does when a peer becomes visible.
#[derive(Debug, Clone, Copy, PartialEq, Eq, Structural)]
pub enum VisibleAction {
    /// The peer is going through the invite flow: defer.
    Defer,
    /// A session with the peer is already active.
    AlreadyActive,
    /// Both sides started at once and ours has the higher id: yield.
    GlareYield,
    /// Both sides started at once and ours has the lower id: our session continues.
    GlareContinue,
    /// The peer was recently negotiated with no match: skip the connection.
    SkipCached,
    /// Connect to the peer and start an exchange.
    Connect,
}

/// The peer id `a` sorts before `b` (byte order).
pub open spec fn peer_lt(a: PeerId, b: PeerId) -> bool {
    bytes_lt(a@, b@)
}

/// The decision on a visible peer.
pub open spec fn visible_action(
    peering: bool,
    phase: Option<SessionPhase>,
    local: PeerId,
    peer: PeerId,
    cached: Option<(SessionOutcome, u64)>,
    now: u64,
) -> VisibleAction {
    if peering {
        VisibleAction::Defer
    } else if phase == Some(SessionPhase::Active) {
        VisibleAction::AlreadyActive
    } else if phase == Some(SessionPhase::InProgress) {
        if peer_lt(peer, local) {
            VisibleAction::GlareYield
        } else {
            VisibleAction::GlareContinue
        }
    } else {
        match cached {
            Some((outcome, timestamp)) => if !expired_at(timestamp, now) && outcome == SessionOutcome::NoMatch {
                VisibleAction::SkipCached
            } else {
                VisibleAction::Connect
            },
            None => VisibleAction::Connect,
        }
    }
}

/// Only a cached no-match skips a peer: with no invite flow and no session
/// under way or active, a visible peer is connected to unless its cache
/// entry is unexpired and records that the last exchange found no match;
/// without a cache entry it is always connected to.
pub proof fn lemma_only_no_match_skips(
    phase: Option<SessionPhase>,
    local: PeerId,
    peer: PeerId,
    outcome: SessionOutcome,
    timestamp: u64,
    now: u64,
)
    requires
        phase != Some(SessionPhase::Active),
        phase != Some(SessionPhase::InProgress),
    ensures
        visible_action(false, phase, local, peer, Some((outcome, timestamp)), now) == VisibleAction::SkipCached
            <==> (outcome == SessionOutcome::NoMatch && !expired_at(timestamp, now)),
        visible_action(false, phase, local, peer, Some((outcome, timestamp)), now) != VisibleAction::SkipCached
            ==> visible_action(false, phase, local, peer, Some((outcome, timestamp)), now) == VisibleAction::Connect,
        visible_action(false, phase, local, peer, None, now) == VisibleAction::Connect,
{
}

/// What comes before the cache: a peer in the invite flow is deferred; a
/// peer with an active session is left alone; a peer whose exchange is under
/// way meets glare, and yields exactly when its id is the lower.
pub proof fn lemma_visible_precedence(
    phase: Option<SessionPhase>,
    local: PeerId,
    peer: PeerId,
    cached: Option<(SessionOutcome, u64)>,
    now: u64,
)
    ensures
        visible_action(true, phase, local, peer, cached, now) == VisibleAction::Defer,
        visible_action(false, Some(SessionPhase::Active), local, peer, cached, now) == VisibleAction::AlreadyActive,
        visible_action(false, Some(SessionPhase::InProgress), local, peer, cached, now) == VisibleAction::GlareYield
            <==> peer_lt(peer, local),
        visible_action(false, Some(SessionPhase::InProgress), local, peer, cached, now) != VisibleAction::GlareYield
            ==> visible_action(false, Some(SessionPhase::InProgress), local, peer, cached, now)
            == VisibleAction::GlareContinue,
{
}

/// Whether peer id `a` sorts before `b`.
pub fn peer_less(a: &PeerId, b: &PeerId) -> (r: bool)
    ensures
        r == peer_lt(*a, *b),
{
    bytes_less(a.as_slice(), b.as_slice())
}

/// Decide what to do when `peer` becomes visible: whether it is in the invite
/// flow, the phase of an existing session with it, and its peer-cache entry.
pub fn on_peer_visible(
    peering_in_progress: bool,
    phase: Option<SessionPhase>,
    local: &PeerId,
    peer: &PeerId,
    cached: Option<&PeerCacheEntry>,
    now: u64,
) -> (r: VisibleAction)
    ensures
        r == visible_action(
            peering_in_progress,
            phase,
            *local,
            *peer,
            match cached {
                Some(e) => Some((e.last_outcome, e.timestamp)),
                None => None,
            },
            now,
        ),
{
    if peering_in_progress {
        return VisibleAction::Defer;
    }
    match phase {
        Some(SessionPhase::Active) => {
            return VisibleAction::AlreadyActive;
        },
        Some(SessionPhase::InProgress) => {
            if peer_less(peer, local) {
                return VisibleAction::GlareYield;
            }
            return VisibleAction::GlareContinue;
        },
        _ => {},
    }
    match cached {
        Some(entry) => {
            if !entry.is_expired_at(now) && entry.last_outcome == SessionOutcome::NoMatch {
                VisibleAction::SkipCached
            } else {
                VisibleAction::Connect
            }
        },
        None => VisibleAction::Connect,
    }
}

/// Whether an inbound session from `peer` is accepted: it is refused only
/// when our own exchange with it is under way and our id is the lower.
pub fn accept_inbound(phase: Option<SessionPhase>, local: &PeerId, peer: &PeerId) -> (r: bool)
    ensures
        r == !(phase == Some(SessionPhase::InProgress) && peer_lt(*local, *peer)),
{
    match phase {
        Some(SessionPhase::InProgress) => !peer_less(local, peer),
        _ => true,
    }
}

/// A manifest with a sequence number below the last one seen from the peer
/// is a replay (sequence 0 is never one).
pub open spec fn is_replay_spec(remote_seq: u64, last_seen: Option<u64>) -> bool {
    let last = match last_seen {
        Some(v) => v,
        None => 0,
    };
    remote_seq < last && remote_seq > 0
}

/// Replay detection on a completed exchange.
pub fn is_replay(remote_seq: u64, last_seen: Option<u64>) -> (r: bool)
    ensures
        r == is_replay_spec(remote_seq, last_seen),
{
    let last = match last_seen {
        Some(v) => v,
        None => 0,
    };
    remote_seq < last && remote_seq > 0
}

/// The side of the exchange a session is on.
#[derive(Debug, Clone, Copy, PartialEq, Eq, Structural)]
pub enum ExchangeSide {
    Initiator,
    Responder,
}

/// What to do with a completed session once glare is resolved.
#[derive(Debug, Clone, Copy, PartialEq, Eq, Structural)]
pub enum GlareResolution {
    /// Another live transport is the canonical one: keep the session record
    /// but do not wire this one.
    Yield,
    /// This session is canonical: tear down the existing mux and wire this one.
    Replace,
    /// Wire this session.
    Proceed,
}

/// This side's session uses the canonical socket: that of the lower peer
/// id's outbound connection.
pub open spec fn is_canonical(side: ExchangeSide, local: PeerId, peer: PeerId) -> bool {
    match side {
        ExchangeSide::Initiator => peer_lt(local, peer),
        ExchangeSide::Responder => peer_lt(peer, local),
    }
}

/// Glare resolution at the end of an exchange.
pub open spec fn glare_resolution(side: ExchangeSide, local: PeerId, peer: PeerId, sender_alive: bool, has_sender: bool) -> GlareResolution {
    if !is_canonical(side, local, peer) {
        if sender_alive {
            GlareResolution::Yield
        } else {
            GlareResolution::Proceed
        }
    } else if has_sender {
        GlareResolution::Replace
    } else {
        GlareResolution::Proceed
    }
}

/// Resolve glare after an exchange: `sender_alive` tells whether a live
/// transport to the peer exists, `has_sender` whether any transport is wired.
pub fn resolve_glare(side: ExchangeSide, local: &PeerId, peer: &PeerId, sender_alive: bool, has_sender: bool) -> (r: GlareResolution)
    ensures
        r == glare_resolution(side, *local, *peer, sender_alive, has_sender),
{
    let canonical = match side {
        ExchangeSide::Initiator => peer_less(local, peer),
        ExchangeSide::Responder => peer_less(peer, local),
    };
    if !canonical {
        if sender_alive {
            GlareResolution::Yield
        } else {
            GlareResolution::Proceed
        }
    } else if has_sender {
        GlareResolution::Replace
    } else {
        GlareResolution::Proceed
    }
}

/// Two different peers agree on one socket: the initiator session of `a`
/// towards `b` is canonical exactly when the responder session of `b` for `a`
/// is, and exactly one of the two initiator sessions is canonical.
pub proof fn lemma_glare_agreement(a: PeerId, b: PeerId)
    requires
        a@ != b@,
    ensures
        is_canonical(ExchangeSide::Initiator, a, b) == is_canonical(ExchangeSide::Responder, b, a),
        is_canonical(ExchangeSide::Initiator, a, b) != is_canonical(ExchangeSide::Initiator, b, a),
{
    lemma_bytes_lt_trichotomy(a@, b@);
}

/// In glare, exactly one of two different peers yields when the other becomes visible.
pub proof fn lemma_glare_one_yields(a: PeerId, b: PeerId, ca: Option<(SessionOutcome, u64)>, cb: Option<(SessionOutcome, u64)>, now: u64)
    requires
        a@ != b@,
    ensures
        (visible_action(false, Some(SessionPhase::InProgress), a, b, ca, now) == VisibleAction::GlareYield) != (
        visible_action(false, Some(SessionPhase::InProgress), b, a, cb, now) == VisibleAction::GlareYield),
{
    lemma_bytes_lt_trichotomy(a@, b@);
}

/// The names of `old` that are not in `new`, in their order.
pub open spec fn removed_names(old: Seq<Seq<char>>, new: Seq<Seq<char>>) -> Seq<Seq<char>>
    decreases old.len(),
{
    if old.len() == 0 {
        Seq::empty()
    } else {
        let rest = removed_names(old.drop_last(), new);
        if new.contains(old.last()) {
            rest
        } else {
            rest.push(old.last())
        }
    }
}

fn contains_text(items: &Vec<String>, s: &String) -> (r: bool)
    ensures
        r == texts_model(items@).contains(s@),
{
    let mut i: usize = 0;
    while i < items.len()
        invariant
            i <= items.len(),
            forall|k: int| 0 <= k < i ==> items@[k]@ != s@,
        decreases items.len() - i,
    {
        if text_eq(items[i].as_str(), s.as_str()) {
            assert(texts_model(items@)[i as int] == s@);
            return true;
        }
        i = i + 1;
    }
    proof {
        if texts_model(items@).contains(s@) {
            let k = choose|k: int| 0 <= k < texts_model(items@).len() && texts_model(items@)[k] == s@;
            assert(items@[k]@ == s@);
        }
    }
    false
}

/// Capabilities to deactivate after a re-exchange: those of the old active
/// set that the new one lacks.
pub fn removed_capabilities(old_active: &Vec<String>, new_active: &Vec<String>) -> (r: Vec<String>)
    ensures
        texts_model(r@) == removed_names(texts_model(old_active@), texts_model(new_active@)),
{
    let ghost old = texts_model(old_active@);
    let ghost new = texts_model(new_active@);
    let mut out: Vec<String> = Vec::new();
    let mut i: usize = 0;
    assert(old.subrange(0, 0) =~= Seq::<Seq<char>>::empty());
    assert(texts_model(out@) =~= Seq::<Seq<char>>::empty());
    while i < old_active.len()
        invariant
            i <= old_active.len(),
            old == texts_model(old_active@),
            new == texts_model(new_active@),
            texts_model(out@) == removed_names(old.subrange(0, i as int), new),
        decreases old_active.len() - i,
    {
        let ghost pre = old.subrange(0, i + 1);
        assert(pre.drop_last() =~= old.subrange(0, i as int));
        assert(pre.last() == old_active@[i as int]@);
        if !contains_text(new_active, &old_active[i]) {
            let ghost before = out@;
            out.push(old_active[i].clone());
            assert(texts_model(out@) =~= texts_model(before).push(old_active@[i as int]@));
        }
        i = i + 1;
    }
    assert(old.subrange(0, i as int) =~= old);
    out
}

/// A removed capability was in the old active set and is not in the new one.
pub proof fn lemma_removed_names(old: Seq<Seq<char>>, new: Seq<Seq<char>>, name: Seq<char>)
    ensures
        removed_names(old, new).contains(name) <==> (old.contains(name) && !new.contains(name)),
    decreases old.len(),
{
    if old.len() > 0 {
        let init = old.drop_last();
        lemma_removed_names(init, new, name);
        assert(old =~= init.push(old.last()));
        assert(old.contains(name) <==> (init.contains(name) || old.last() == name)) by {
            if old.contains(name) {
                let k = choose|k: int| 0 <= k < old.len() && old[k] == name;
                if k < old.len() - 1 {
                    assert(init[k] == name);
                }
            }
            if init.contains(name) {
                let k = choose|k: int| 0 <= k < init.len() && init[k] == name;
                assert(old[k] == name);
            }
        }
        let rest = removed_names(init, new);
        if !new.contains(old.last()) {
            assert(rest.push(old.last()).contains(name) <==> (rest.contains(name) || old.last() == name)) by {
                let pushed = rest.push(old.last());
                if pushed.contains(name) {
                    let k = choose|k: int| 0 <= k < pushed.len() && pushed[k] == name;
                    if k < rest.len() {
                        assert(rest[k] == name);
                    }
                }
                if rest.contains(name) {
                    let k = choose|k: int| 0 <= k < rest.len() && rest[k] == name;
                    assert(pushed[k] == name);
                }
                if old.last() == name {
                    assert(pushed[rest.len() as int] == name);
                }
            }
        }
    }
}

/// What the engine knows of a session when it lists peers: the remote peer,
/// the session's phase and its active set.
#[derive(Debug)]
pub struct SessionView {
    pub peer_id: PeerId,
    pub phase: SessionPhase,
    pub active_set: Vec<String>,
}

/// The peers of the active sessions whose active set holds `cap_name`.
pub open spec fn peers_with_capability(sessions: Seq<SessionView>, cap_name: Seq<char>) -> Seq<PeerId>
    decreases sessions.len(),
{
    if sessions.len() == 0 {
        Seq::empty()
    } else {
        let rest = peers_with_capability(sessions.drop_last(), cap_name);
        let s = sessions.last();
        if s.phase == SessionPhase::Active && texts_model(s.active_set@).contains(cap_name) {
            rest.push(s.peer_id)
        } else {
            rest
        }
    }
}

/// The peers of active sessions that have `cap_name` in their active set,
/// in the order of `sessions`.
pub fn active_peers_for_capability(sessions: &Vec<SessionView>, cap_name: &String) -> (r: Vec<PeerId>)
    ensures
        r@ == peers_with_capability(sessions@, cap_name@),
{
    let mut out: Vec<PeerId> = Vec::new();
    let mut i: usize = 0;
    assert(sessions@.subrange(0, 0) =~= Seq::<SessionView>::empty());
    while i < sessions.len()
        invariant
            i <= sessions.len(),
            out@ == peers_with_capability(sessions@.subrange(0, i as int), cap_name@),
        decreases sessions.len() - i,
    {
        let ghost pre = sessions@.subrange(0, i + 1);
        assert(pre.drop_last() =~= sessions@.subrange(0, i as int));
        let s = &sessions[i];
        if s.phase == SessionPhase::Active && contains_text(&s.active_set, cap_name) {
            out.push(s.peer_id);
        }
        i = i + 1;
    }
    assert(sessions@.subrange(0, i as int) =~= sessions@);
    out
}

/// A session as the engine lists it.
#[derive(Debug, Clone)]
pub struct SessionSummary {
    pub peer_id: PeerId,
    pub state: SessionPhase,
    pub active_set: Vec<String>,
    pub uptime_s: u64,
    /// Unix time the session was created (became active).
    pub created_at: u64,
    /// Unix time of the last heartbeat pong (or of activation, before one).
    pub last_activity: u64,
}

/// The summary of a session at Unix time `now`: its uptime is the time
/// since it was created, 0 when `now` is earlier.
pub fn session_summary(view: &SessionView, created_at: u64, last_activity: u64, now: u64) -> (r: SessionSummary)
    ensures
        r.peer_id == view.peer_id,
        r.state == view.phase,
        texts_model(r.active_set@) == texts_model(view.active_set@),
        r.uptime_s == (if now >= created_at {
            (now - created_at) as u64
        } else {
            0u64
        }),
        r.created_at == created_at,
        r.last_activity == last_activity,
{
    SessionSummary {
        peer_id: view.peer_id,
        state: view.phase,
        active_set: copy_texts(&view.active_set),
        uptime_s: now.saturating_sub(created_at),
        created_at,
        last_activity,
    }
}

} // verus!
