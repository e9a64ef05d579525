//! The records of the clients: issuing an identity, removing it, and
//! attaching the mailbox of a live connection.

use crate::identity::{is_identity, new_identity};
use crate::{Client, ClientState, Clients};
use vstd::prelude::*;

verus! {

/// The record of a client that is bound to no match and has no mailbox.
pub open spec fn blank_client<M>() -> ClientState<M> {
    ClientState { game_id: None, sender: None }
}

/// Creates the record of the client `id`, bound to no match and without a
/// mailbox. An identity that has a record already keeps it, and the answer
/// is `false`.
pub fn register_client<M>(clients: &mut Clients<M>, id: String) -> (registered: bool)
    requires
        old(clients).wf(),
    ensures
        final(clients).wf(),
        registered == !old(clients)@.contains_key(id@),
        final(clients)@ == if registered {
            old(clients)@.insert(id@, blank_client())
        } else {
            old(clients)@
        },
{
    if clients.contains_key(id.as_str()) {
        return false;
    }
    let _ = clients.insert(id, Client { game_id: None, sender: None });
    true
}

/// Draws an identity and creates the record of a new client under it. Where
/// the drawn identity has a record already, which can only be while there
/// are records, nothing changes and the answer is `None`.
pub fn register_new_client<M>(clients: &mut Clients<M>) -> (issued: Option<String>)
    requires
        old(clients).wf(),
    ensures
        final(clients).wf(),
        match issued {
            Some(id) => {
                &&& is_identity(id@)
                &&& !old(clients)@.contains_key(id@)
                &&& final(clients)@ == old(clients)@.insert(id@, blank_client())
            },
            None => {
                &&& final(clients)@ == old(clients)@
                &&& exists|id: Seq<char>| old(clients)@.contains_key(id)
            },
        },
{
    let id = new_identity();
    if register_client(clients, id.clone()) {
        Some(id)
    } else {
        None
    }
}

/// Deletes the record of the client `id` and says whether there was one.
pub fn unregister_client<M>(clients: &mut Clients<M>, id: &str) -> (removed: bool)
    requires
        old(clients).wf(),
    ensures
        final(clients).wf(),
        removed == old(clients)@.contains_key(id@),
        final(clients)@ == old(clients)@.remove(id@),
{
    let removed = clients.remove(id).is_some();
    removed
}

/// Attaches `mailbox` to the record of the client `id`, in place of the one
/// it had, and leaves its binding alone. An unknown client is left unknown,
/// and the answer is `false`.
pub fn connect_client<M>(clients: &mut Clients<M>, id: &str, mailbox: M) -> (connected: bool)
    requires
        old(clients).wf(),
    ensures
        final(clients).wf(),
        connected == old(clients)@.contains_key(id@),
        final(clients)@ == if connected {
            old(clients)@.insert(
                id@,
                ClientState { game_id: old(clients)@[id@].game_id, sender: Some(mailbox) },
            )
        } else {
            old(clients)@
        },
{
    match clients.get_mut(id) {
        Some(client) => {
            client.sender = Some(mailbox);
            true
        },
        None => {
            false
        },
    }
}

} // verus!
