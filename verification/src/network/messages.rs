//! Message envelopes on the gossip topics: framing, age and size rules.
//! Decoding a payload into a block or transaction is the transport shell's
//! work; the rules here are the ones the core owns.

use crate::types::{now_millis, ConsensusError};
use vstd::prelude::*;

verus! {

/// What an envelope carries.
#[derive(Debug, Clone, Copy, PartialEq, Eq, Structural)]
pub enum MessageType {
    Block,
    Transaction,
    Ping,
}

/// A framed envelope: a type tag, the payload, and when it was made, in
/// milliseconds since the epoch.
#[derive(Debug, Clone, PartialEq, Eq)]
pub struct NetworkMessage {
    pub msg_type: MessageType,
    pub data: Vec<u8>,
    pub timestamp: u64,
}

/// The size of an envelope on the wire: the payload plus one tag byte and
/// the eight timestamp bytes.
pub open spec fn spec_message_size(m: NetworkMessage) -> int {
    m.data@.len() as int + 9
}

/// Whether an envelope is recent: no more than five minutes old.
pub open spec fn spec_message_recent(m: NetworkMessage, now: u64) -> bool {
    now <= m.timestamp || now - m.timestamp < 300_000
}

/// The envelope rules the core owns, at a given time: it is recent, within
/// ten mebibytes, a block or transaction carries a payload, and a ping
/// carries none. Whether a payload decodes is the transport shell's check.
pub open spec fn spec_message_ok(m: NetworkMessage, now: u64) -> bool {
    &&& spec_message_recent(m, now)
    &&& spec_message_size(m) <= 10 * 1024 * 1024
    &&& (m.msg_type == MessageType::Block ==> m.data@.len() > 0)
    &&& (m.msg_type == MessageType::Transaction ==> m.data@.len() > 0)
    &&& (m.msg_type == MessageType::Ping ==> m.data@.len() == 0)
}

impl NetworkMessage {
    /// An envelope stamped with the current time.
    pub fn new(msg_type: MessageType, data: Vec<u8>) -> (r: Self)
        ensures
            r.msg_type == msg_type,
            r.data == data,
    {
        NetworkMessage { msg_type, data, timestamp: now_millis() }
    }

    /// A ping: an empty payload.
    pub fn ping() -> (r: Self)
        ensures
            r.msg_type == MessageType::Ping,
            r.data@.len() == 0,
    {
        Self::new(MessageType::Ping, Vec::new())
    }

    /// The size of the envelope on the wire, capped at the address space.
    pub fn size(&self) -> (r: usize)
        ensures
            r == vstd::math::min(spec_message_size(*self), usize::MAX as int),
    {
        self.data.len().saturating_add(9)
    }

    /// Whether the envelope is recent against the clock.
    pub fn is_recent(&self) -> (r: bool) {
        let now = now_millis();
        self.is_recent_at(now)
    }

    /// Whether the envelope is recent at a given time, stated exactly.
    pub fn is_recent_at(&self, now: u64) -> (r: bool)
        ensures
            r == spec_message_recent(*self, now),
    {
        now <= self.timestamp || now - self.timestamp < 300_000
    }

    /// The envelope rules against the clock.
    pub fn validate(&self) -> (r: Result<(), ConsensusError>)
        ensures
            r is Ok ==> spec_message_size(*self) <= 10 * 1024 * 1024,
            r is Err ==> r->Err_0 == ConsensusError::StructuralInvalid,
    {
        let now = now_millis();
        self.validate_at(now)
    }

    /// The envelope rules at a given time, stated exactly.
    pub fn validate_at(&self, now: u64) -> (r: Result<(), ConsensusError>)
        ensures
            r is Ok <==> spec_message_ok(*self, now),
            r is Err ==> r->Err_0 == ConsensusError::StructuralInvalid,
    {
        if !self.is_recent_at(now) {
            return Err(ConsensusError::StructuralInvalid);
        }
        if self.size() > 10 * 1024 * 1024 {
            return Err(ConsensusError::StructuralInvalid);
        }
        proof {
            assert(spec_message_size(*self) <= 10 * 1024 * 1024);
        }
        match self.msg_type {
            MessageType::Block => {
                if self.data.is_empty() {
                    return Err(ConsensusError::StructuralInvalid);
                }
            },
            MessageType::Transaction => {
                if self.data.is_empty() {
                    return Err(ConsensusError::StructuralInvalid);
                }
            },
            MessageType::Ping => {
                if !self.data.is_empty() {
                    return Err(ConsensusError::StructuralInvalid);
                }
            },
        }
        Ok(())
    }
}

/// The verdict on a message.
#[derive(Debug, Clone, Copy, PartialEq, Eq, Structural)]
pub enum ValidationResult {
    Valid,
    Invalid,
}

impl From<Result<(), ConsensusError>> for ValidationResult {
    fn from(result: Result<(), ConsensusError>) -> (r: Self) {
        match result {
            Ok(_) => ValidationResult::Valid,
            Err(_) => ValidationResult::Invalid,
        }
    }
}

impl vstd::std_specs::convert::FromSpecImpl<Result<(), ConsensusError>> for ValidationResult {
    open spec fn obeys_from_spec() -> bool {
        true
    }

    open spec fn from_spec(result: Result<(), ConsensusError>) -> Self {
        if result is Ok {
            ValidationResult::Valid
        } else {
            ValidationResult::Invalid
        }
    }
}

} // verus!
