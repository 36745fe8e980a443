//! Capability handlers and the router that finds the handler of a message
//! type or of a capability name.
use vstd::prelude::*;

use crate::intersection::heartbeat_name;
use crate::manifest::PeerId;
use crate::message_types::{CIRCUIT_CLOSE, CIRCUIT_DATA, CIRCUIT_OPEN, PING, PONG};
use crate::scope::{ScopeParams, ScopeTerm};
use crate::scope_keys::{HEARTBEAT_INTERVAL_MS, HEARTBEAT_TIMEOUT_MS};
use crate::strings::text_eq;

verus! {

/// Context passed to capability handlers when they are activated or receive messages.
#[derive(Debug)]
pub struct CapabilityContext {
    /// Remote peer identity.
    pub peer_id: PeerId,
    /// Negotiated scope params for this capability.
    pub params: ScopeParams,
    /// Capability name.
    pub capability_name: String,
}

/// A capability message handler: the capability it serves and the message
/// types it accepts.
pub trait CapabilityHandler {
    /// The name of the capability served.
    spec fn name_model(&self) -> Seq<char>;

    /// The message types accepted.
    spec fn types_model(&self) -> Seq<u64>;

    /// Capability name this handler serves (e.g. "core.session.heartbeat.1").
    fn capability_name(&self) -> (r: &str)
        ensures
            r@ == self.name_model(),
    ;

    /// Message type integers this handler accepts (e.g. [4, 5] for heartbeat).
    fn handled_message_types(&self) -> (r: &[u64])
        ensures
            r@ == self.types_model(),
    ;
}

/// Heartbeat interval used when the scope does not set one, in milliseconds.
pub const DEFAULT_INTERVAL_MS: u64 = 5000;

/// Heartbeat timeout used when the scope does not set one, in milliseconds.
pub const DEFAULT_TIMEOUT_MS: u64 = 15000;

/// Name of the relay capability.
pub open spec fn relay_name() -> Seq<char> {
    "core.network.relay.1"@
}

/// The unsigned value an extension key holds, or `default` when the key is
/// absent or holds another kind of value.
pub open spec fn ext_uint_or(scope: ScopeParams, key: u64, default: u64) -> u64 {
    if scope.extensions@.contains_key(key) {
        match scope.extensions@[key].model() {
            ScopeTerm::Uint(v) => v,
            _ => default,
        }
    } else {
        default
    }
}

/// Handler for core.session.heartbeat.1 (message types PING and PONG).
#[derive(Debug, Clone, Copy)]
pub struct HeartbeatHandler;

impl HeartbeatHandler {
    pub fn new() -> (r: Self)
        ensures
            r == HeartbeatHandler,
    {
        HeartbeatHandler
    }

    /// Extract heartbeat params from negotiated scope params: (interval, timeout).
    pub fn params_from_scope(scope: &ScopeParams) -> (r: (u64, u64))
        ensures
            r.0 == ext_uint_or(*scope, HEARTBEAT_INTERVAL_MS, DEFAULT_INTERVAL_MS),
            r.1 == ext_uint_or(*scope, HEARTBEAT_TIMEOUT_MS, DEFAULT_TIMEOUT_MS),
    {
        let interval = match scope.get_ext_uint(HEARTBEAT_INTERVAL_MS) {
            Some(v) => v,
            None => DEFAULT_INTERVAL_MS,
        };
        let timeout = match scope.get_ext_uint(HEARTBEAT_TIMEOUT_MS) {
            Some(v) => v,
            None => DEFAULT_TIMEOUT_MS,
        };
        (interval, timeout)
    }
}

impl CapabilityHandler for HeartbeatHandler {
    open spec fn name_model(&self) -> Seq<char> {
        heartbeat_name()
    }

    open spec fn types_model(&self) -> Seq<u64> {
        seq![PING, PONG]
    }

    fn capability_name(&self) -> (r: &str) {
        "core.session.heartbeat.1"
    }

    fn handled_message_types(&self) -> (r: &[u64]) {
        let r: &[u64] = &[PING, PONG];
        assert(r@ =~= seq![PING, PONG]);
        r
    }
}

/// Handler for core.network.relay.1 (circuit message types); it accepts
/// circuit messages and does nothing with them yet.
#[derive(Debug, Clone, Copy)]
pub struct RelayHandler;

impl RelayHandler {
    pub fn new() -> (r: Self)
        ensures
            r == RelayHandler,
    {
        RelayHandler
    }
}

impl CapabilityHandler for RelayHandler {
    open spec fn name_model(&self) -> Seq<char> {
        relay_name()
    }

    open spec fn types_model(&self) -> Seq<u64> {
        seq![CIRCUIT_OPEN, CIRCUIT_DATA, CIRCUIT_CLOSE]
    }

    fn capability_name(&self) -> (r: &str) {
        "core.network.relay.1"
    }

    fn handled_message_types(&self) -> (r: &[u64]) {
        let r: &[u64] = &[CIRCUIT_OPEN, CIRCUIT_DATA, CIRCUIT_CLOSE];
        assert(r@ =~= seq![CIRCUIT_OPEN, CIRCUIT_DATA, CIRCUIT_CLOSE]);
        r
    }
}

/// The handlers this library provides.
#[derive(Debug, Clone, Copy)]
pub enum CoreHandler {
    Heartbeat(HeartbeatHandler),
    Relay(RelayHandler),
}

impl CapabilityHandler for CoreHandler {
    open spec fn name_model(&self) -> Seq<char> {
        match self {
            CoreHandler::Heartbeat(h) => h.name_model(),
            CoreHandler::Relay(h) => h.name_model(),
        }
    }

    open spec fn types_model(&self) -> Seq<u64> {
        match self {
            CoreHandler::Heartbeat(h) => h.types_model(),
            CoreHandler::Relay(h) => h.types_model(),
        }
    }

    fn capability_name(&self) -> (r: &str) {
        match self {
            CoreHandler::Heartbeat(h) => h.capability_name(),
            CoreHandler::Relay(h) => h.capability_name(),
        }
    }

    fn handled_message_types(&self) -> (r: &[u64]) {
        match self {
            CoreHandler::Heartbeat(h) => h.handled_message_types(),
            CoreHandler::Relay(h) => h.handled_message_types(),
        }
    }
}

/// The handler a message type is routed to: the last registered one that
/// accepts it.
pub open spec fn route_by_type(hs: Seq<CoreHandler>, msg_type: u64) -> Option<CoreHandler>
    decreases hs.len(),
{
    if hs.len() == 0 {
        None
    } else if hs.last().types_model().contains(msg_type) {
        Some(hs.last())
    } else {
        route_by_type(hs.drop_last(), msg_type)
    }
}

/// The handler of a capability name: the last registered one serving it.
pub open spec fn route_by_name(hs: Seq<CoreHandler>, name: Seq<char>) -> Option<CoreHandler>
    decreases hs.len(),
{
    if hs.len() == 0 {
        None
    } else if hs.last().name_model() == name {
        Some(hs.last())
    } else {
        route_by_name(hs.drop_last(), name)
    }
}

/// The handler registered last is found by its capability name and by each
/// of its message types.
pub proof fn lemma_route_registered(hs: Seq<CoreHandler>, h: CoreHandler)
    ensures
        route_by_name(hs.push(h), h.name_model()) == Some(h),
        forall|t: u64| #[trigger] h.types_model().contains(t) ==> route_by_type(hs.push(h), t) == Some(h),
{
    assert(hs.push(h).last() == h);
}

/// Routes incoming capability messages to registered handlers, by message
/// type, and finds handlers by capability name for their lifecycle.
pub struct CapabilityRouter {
    handlers: Vec<CoreHandler>,
}

impl CapabilityRouter {
    /// The handlers, in the order they were registered.
    pub closed spec fn registered(&self) -> Seq<CoreHandler> {
        self.handlers@
    }

    pub fn new() -> (r: Self)
        ensures
            r.registered() == Seq::<CoreHandler>::empty(),
    {
        CapabilityRouter { handlers: Vec::new() }
    }

    /// Register a capability handler: from now on it serves its message types
    /// and its capability name, in place of any handler registered before.
    pub fn register(&mut self, handler: CoreHandler)
        ensures
            final(self).registered() == old(self).registered().push(handler),
    {
        self.handlers.push(handler);
    }

    /// Look up the handler for a given message type.
    #[verifier::loop_isolation(false)]
    pub fn handler_for_type(&self, msg_type: u64) -> (r: Option<&CoreHandler>)
        ensures
            match r {
                Some(h) => route_by_type(self.registered(), msg_type) == Some(*h),
                None => route_by_type(self.registered(), msg_type) is None,
            },
    {
        let mut i: usize = self.handlers.len();
        assert(self.handlers@.subrange(0, i as int) =~= self.handlers@);
        while i > 0
            invariant
                i <= self.handlers.len(),
                route_by_type(self.handlers@, msg_type) == route_by_type(self.handlers@.subrange(0, i as int), msg_type),
            decreases i,
        {
            let h = &self.handlers[i - 1];
            let ghost pre = self.handlers@.subrange(0, i as int);
            assert(pre.drop_last() =~= self.handlers@.subrange(0, i - 1));
            assert(pre.last() == *h);
            let types = h.handled_message_types();
            let mut j: usize = 0;
            while j < types.len()
                invariant
                    j <= types.len(),
                    forall|k: int| 0 <= k < j ==> types@[k] != msg_type,
                decreases types.len() - j,
            {
                if types[j] == msg_type {
                    assert(types@.contains(msg_type));
                    return Some(h);
                }
                j = j + 1;
            }
            assert(!types@.contains(msg_type));
            i = i - 1;
        }
        assert(self.handlers@.subrange(0, 0) =~= Seq::<CoreHandler>::empty());
        None
    }

    /// Look up a handler by capability name.
    pub fn handler_by_name(&self, name: &str) -> (r: Option<&CoreHandler>)
        ensures
            match r {
                Some(h) => route_by_name(self.registered(), name@) == Some(*h),
                None => route_by_name(self.registered(), name@) is None,
            },
    {
        let mut i: usize = self.handlers.len();
        assert(self.handlers@.subrange(0, i as int) =~= self.handlers@);
        while i > 0
            invariant
                i <= self.handlers.len(),
                route_by_name(self.handlers@, name@) == route_by_name(self.handlers@.subrange(0, i as int), name@),
            decreases i,
        {
            let h = &self.handlers[i - 1];
            let ghost pre = self.handlers@.subrange(0, i as int);
            assert(pre.drop_last() =~= self.handlers@.subrange(0, i - 1));
            if text_eq(h.capability_name(), name) {
                return Some(h);
            }
            i = i - 1;
        }
        assert(self.handlers@.subrange(0, 0) =~= Seq::<CoreHandler>::empty());
        None
    }

    /// Build the default router with all core capability handlers registered.
    pub fn with_core_handlers() -> (r: Self)
        ensures
            r.registered() == seq![CoreHandler::Heartbeat(HeartbeatHandler)],
    {
        let mut router = Self::new();
        router.register(CoreHandler::Heartbeat(HeartbeatHandler::new()));
        assert(router.registered() =~= seq![CoreHandler::Heartbeat(HeartbeatHandler)]);
        router
    }
}

} // verus!
