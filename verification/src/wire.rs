use vstd::prelude::*;

verus! {

/// Protocol-level message types.
#[derive(Debug, Clone, Copy, PartialEq, Eq, Structural)]
pub enum MessageType {
    Offer,
    Confirm,
    Close,
    Ping,
    Pong,
}

/// The integer code of a protocol message type.
pub open spec fn message_type_code(t: MessageType) -> u64 {
    match t {
        MessageType::Offer => 1,
        MessageType::Confirm => 2,
        MessageType::Close => 3,
        MessageType::Ping => 4,
        MessageType::Pong => 5,
    }
}

/// The protocol message type carried by a code, if any.
pub open spec fn message_type_of_code(v: u64) -> Option<MessageType> {
    if v == 1 {
        Some(MessageType::Offer)
    } else if v == 2 {
        Some(MessageType::Confirm)
    } else if v == 3 {
        Some(MessageType::Close)
    } else if v == 4 {
        Some(MessageType::Ping)
    } else if v == 5 {
        Some(MessageType::Pong)
    } else {
        None
    }
}

impl MessageType {
    pub fn from_u64(v: u64) -> (r: Option<Self>)
        ensures
            r == message_type_of_code(v),
    {
        match v {
            1 => Some(MessageType::Offer),
            2 => Some(MessageType::Confirm),
            3 => Some(MessageType::Close),
            4 => Some(MessageType::Ping),
            5 => Some(MessageType::Pong),
            _ => None,
        }
    }

    /// The integer code of this message type on the wire.
    pub fn to_u64(&self) -> (r: u64)
        ensures
            r == message_type_code(*self),
    {
        match self {
            MessageType::Offer => 1,
            MessageType::Confirm => 2,
            MessageType::Close => 3,
            MessageType::Ping => 4,
            MessageType::Pong => 5,
        }
    }

    /// Returns true if this message type is a protocol-level message (codes 1-5).
    /// Capability messages (6+) are routed to handlers.
    pub fn is_protocol(&self) -> (r: bool)
        ensures
            r == (message_type_code(*self) <= 5),
    {
        self.to_u64() <= 5
    }
}

/// Reasons carried by a CLOSE message.
#[derive(Debug, Clone, Copy, PartialEq, Eq, Structural)]
pub enum CloseReason {
    Normal,
    NoMatch,
    AuthFailure,
    VersionUnsupported,
    Timeout,
    Error,
}

/// The integer code of a close reason.
pub open spec fn close_reason_code(r: CloseReason) -> u64 {
    match r {
        CloseReason::Normal => 0,
        CloseReason::NoMatch => 1,
        CloseReason::AuthFailure => 2,
        CloseReason::VersionUnsupported => 3,
        CloseReason::Timeout => 4,
        CloseReason::Error => 255,
    }
}

/// The close reason carried by a code, if any.
pub open spec fn close_reason_of_code(v: u64) -> Option<CloseReason> {
    if v == 0 {
        Some(CloseReason::Normal)
    } else if v == 1 {
        Some(CloseReason::NoMatch)
    } else if v == 2 {
        Some(CloseReason::AuthFailure)
    } else if v == 3 {
        Some(CloseReason::VersionUnsupported)
    } else if v == 4 {
        Some(CloseReason::Timeout)
    } else if v == 255 {
        Some(CloseReason::Error)
    } else {
        None
    }
}

impl CloseReason {
    pub fn from_u64(v: u64) -> (r: Option<Self>)
        ensures
            r == close_reason_of_code(v),
    {
        match v {
            0 => Some(CloseReason::Normal),
            1 => Some(CloseReason::NoMatch),
            2 => Some(CloseReason::AuthFailure),
            3 => Some(CloseReason::VersionUnsupported),
            4 => Some(CloseReason::Timeout),
            255 => Some(CloseReason::Error),
            _ => None,
        }
    }

    /// The integer code of this reason on the wire.
    pub fn to_u64(&self) -> (r: u64)
        ensures
            r == close_reason_code(*self),
    {
        match self {
            CloseReason::Normal => 0,
            CloseReason::NoMatch => 1,
            CloseReason::AuthFailure => 2,
            CloseReason::VersionUnsupported => 3,
            CloseReason::Timeout => 4,
            CloseReason::Error => 255,
        }
    }
}

/// Capability role declared in a manifest.
#[derive(Debug, Clone, Copy, PartialEq, Eq, Structural)]
pub enum Role {
    Provide,
    Consume,
    Both,
}

/// The integer code of a role.
pub open spec fn role_code(r: Role) -> u64 {
    match r {
        Role::Provide => 1,
        Role::Consume => 2,
        Role::Both => 3,
    }
}

/// The role carried by a code, if any.
pub open spec fn role_of_code(v: u64) -> Option<Role> {
    if v == 1 {
        Some(Role::Provide)
    } else if v == 2 {
        Some(Role::Consume)
    } else if v == 3 {
        Some(Role::Both)
    } else {
        None
    }
}

/// two declared roles match when one side provides what the other
/// consumes; `Both` against `Both` matches only when both sides are mutual.
pub open spec fn roles_match(a: Role, b: Role, a_mutual: bool, b_mutual: bool) -> bool {
    match (a, b) {
        (Role::Provide, Role::Consume) | (Role::Consume, Role::Provide) => true,
        (Role::Both, Role::Provide) | (Role::Provide, Role::Both) => true,
        (Role::Both, Role::Consume) | (Role::Consume, Role::Both) => true,
        (Role::Both, Role::Both) => a_mutual && b_mutual,
        _ => false,
    }
}

impl Role {
    pub fn from_u64(v: u64) -> (r: Option<Self>)
        ensures
            r == role_of_code(v),
    {
        match v {
            1 => Some(Role::Provide),
            2 => Some(Role::Consume),
            3 => Some(Role::Both),
            _ => None,
        }
    }

    /// The integer code of this role on the wire.
    pub fn to_u64(&self) -> (r: u64)
        ensures
            r == role_code(*self),
    {
        match self {
            Role::Provide => 1,
            Role::Consume => 2,
            Role::Both => 3,
        }
    }

    /// Returns true if two roles produce a match.
    /// `self_mutual` and `other_mutual` are only used for Both+Both.
    pub fn matches(&self, other: &Role, self_mutual: bool, other_mutual: bool) -> (r: bool)
        ensures
            r == roles_match(*self, *other, self_mutual, other_mutual),
    {
        match (self, other) {
            (Role::Provide, Role::Consume) | (Role::Consume, Role::Provide) => true,
            (Role::Both, Role::Provide) | (Role::Provide, Role::Both) => true,
            (Role::Both, Role::Consume) | (Role::Consume, Role::Both) => true,
            (Role::Both, Role::Both) => self_mutual && other_mutual,
            (Role::Provide, Role::Provide) | (Role::Consume, Role::Consume) => false,
        }
    }
}

/// Role matching is symmetric: swapping the two sides (with their mutual
/// flags) never changes whether they match.
pub proof fn lemma_roles_match_symmetric(a: Role, b: Role, a_mutual: bool, b_mutual: bool)
    ensures
        roles_match(a, b, a_mutual, b_mutual) == roles_match(b, a, b_mutual, a_mutual),
{
}

/// Each code maps back to the role it was produced from.
pub proof fn lemma_role_code_round_trip(r: Role)
    ensures
        role_of_code(role_code(r)) == Some(r),
{
}

/// Each code maps back to the close reason it was produced from.
pub proof fn lemma_close_reason_code_round_trip(r: CloseReason)
    ensures
        close_reason_of_code(close_reason_code(r)) == Some(r),
{
}

/// Each code maps back to the message type it was produced from.
pub proof fn lemma_message_type_code_round_trip(t: MessageType)
    ensures
        message_type_of_code(message_type_code(t)) == Some(t),
{
}

} // verus!
