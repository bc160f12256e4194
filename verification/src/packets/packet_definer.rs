//! The two coordinates, besides the packet id, that select a packet schema.

use vstd::prelude::*;

verus! {

/// Names the DESTINATION of a packet: one that travels from the client to the
/// server is `SERVER`.
#[derive(Debug, Clone, Copy, PartialEq, Eq, Hash, Structural)]
pub enum PacketDirection {
    SERVER,
    CLIENT,
    BIDIRECTIONAL,
}

/// The protocol state of a connection. Packet ids are only unique within one
/// state and direction.
#[derive(Debug, Clone, Copy, PartialEq, Eq, Hash, Structural)]
pub enum PacketState {
    STATUS,
    HANDSHAKING,
    LOGIN,
    CONFIGURATION,
    PLAY,
}

impl PacketState {
    /// The state that a handshake's `next_state` byte asks for, if any.
    pub open spec fn spec_from_id(id: u8) -> Option<PacketState> {
        if id == 1 {
            Some(PacketState::STATUS)
        } else if id == 2 {
            Some(PacketState::LOGIN)
        } else {
            None
        }
    }

    /// The byte that asks for this state in a handshake, if there is one.
    pub open spec fn spec_get_id(self) -> Option<u8> {
        match self {
            PacketState::STATUS => Some(1u8),
            PacketState::LOGIN => Some(2u8),
            _ => None,
        }
    }

    /// Only STATUS (1) and LOGIN (2) can be asked for by a single byte; every
    /// other state is reached by the host's own control flow.
    pub fn from_id(id: u8) -> (state: Option<PacketState>)
        ensures
            state == Self::spec_from_id(id),
    {
        match id {
            1 => Some(PacketState::STATUS),
            2 => Some(PacketState::LOGIN),
            _ => None,
        }
    }

    /// The inverse of [`PacketState::from_id`].
    pub fn get_id(&self) -> (id: Option<u8>)
        ensures
            id == self.spec_get_id(),
    {
        match self {
            PacketState::STATUS => Some(1),
            PacketState::LOGIN => Some(2),
            _ => None,
        }
    }

    /// Whether a connection in state `self` may go over to `next`: from
    /// HANDSHAKING to STATUS or LOGIN, from LOGIN to CONFIGURATION, from
    /// CONFIGURATION to PLAY, and nowhere else.
    pub open spec fn spec_leads_to(self, next: PacketState) -> bool {
        match (self, next) {
            (PacketState::HANDSHAKING, PacketState::STATUS) => true,
            (PacketState::HANDSHAKING, PacketState::LOGIN) => true,
            (PacketState::LOGIN, PacketState::CONFIGURATION) => true,
            (PacketState::CONFIGURATION, PacketState::PLAY) => true,
            _ => false,
        }
    }

    /// Whether a connection in this state may go over to `next`. The host
    /// asks this before it changes the state of a connection.
    pub fn leads_to(&self, next: PacketState) -> (allowed: bool)
        ensures
            allowed == self.spec_leads_to(next),
    {
        match (self, next) {
            (PacketState::HANDSHAKING, PacketState::STATUS) => true,
            (PacketState::HANDSHAKING, PacketState::LOGIN) => true,
            (PacketState::LOGIN, PacketState::CONFIGURATION) => true,
            (PacketState::CONFIGURATION, PacketState::PLAY) => true,
            _ => false,
        }
    }

    /// HANDSHAKING is where every connection starts and where none comes
    /// back to; STATUS and PLAY are where connections end; and the states
    /// that a handshake can ask for are the two that follow HANDSHAKING.
    pub proof fn lemma_state_machine(from: PacketState, to: PacketState, id: u8)
        ensures
            !from.spec_leads_to(PacketState::HANDSHAKING),
            !PacketState::STATUS.spec_leads_to(to),
            !PacketState::PLAY.spec_leads_to(to),
            from.spec_leads_to(to) ==> from != to,
            Self::spec_from_id(id) == Some(to) <==> PacketState::HANDSHAKING.spec_leads_to(to)
                && to.spec_get_id() == Some(id),
    {
    }

    /// A state has an id exactly when that id leads back to the state.
    pub proof fn lemma_id_round_trip(state: PacketState, id: u8)
        ensures
            state.spec_get_id() == Some(id) <==> Self::spec_from_id(id) == Some(state),
    {
    }
}

} // verus!
