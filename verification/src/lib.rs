//! A two-player tic-tac-toe service: the rule engine of a match, the
//! registries of clients and matches, matchmaking, and the dispatch of client
//! commands to messages for delivery.
//!
//! The library holds no lock and does no input or output. Every operation
//! that changes a registry takes it by exclusive reference, so whoever
//! serialises access to the registries gets each operation as one atomic
//! step. An operation that needs both registries takes the clients first and
//! the matches second; a caller that guards them with two locks acquires them
//! in that order.

use vstd::prelude::*;

pub mod commands;
pub mod game;
pub mod game_controller;
pub mod game_laws;
pub mod handler;
pub mod identity;
pub mod lobby_laws;
pub mod registry;
pub mod ws;

verus! {

/// What the service keeps of one client. `M` is the handle of the client's
/// outbound mailbox; the library stores it and never looks inside.
pub struct Client<M> {
    /// The match the client is bound to, if any.
    pub game_id: Option<String>,
    /// The mailbox, while a connection is live.
    pub sender: Option<M>,
}

/// The model of a client record.
pub struct ClientState<M> {
    pub game_id: Option<Seq<char>>,
    pub sender: Option<M>,
}

impl<M> View for Client<M> {
    type V = ClientState<M>;

    open spec fn view(&self) -> ClientState<M> {
        ClientState {
            game_id: match self.game_id {
                Some(id) => Some(id@),
                None => None,
            },
            sender: self.sender,
        }
    }
}

/// The clients by identity.
pub type Clients<M> = registry::Registry<Client<M>>;

/// The matches by identity.
pub type Games = registry::Registry<game::Game>;

} // verus!
