//! What matchmaking keeps true of the two registries together, proved over
//! [`Lobby`].

use crate::game::GameState;
use crate::game_controller::{column_of, row_of, JoinOutcome, Lobby, MatchError};
use crate::game_laws::{
    lemma_add_player_keeps_order, lemma_add_player_valid, lemma_make_move_valid,
    lemma_remove_player_restarts,
};
use crate::handler::blank_client;
use crate::ws::{binding, connected, inbox, topic};
use crate::ClientState;
use vstd::prelude::*;

verus! {

impl<M> Lobby<M> {
    /// The registries agree with each other: every match is valid and has at
    /// least one player; whoever is seated in a match
    /// is a known client bound to that match; and whoever is bound to a match
    /// is seated in it.
    pub open spec fn consistent(self) -> bool {
        &&& forall|g: Seq<char>| #[trigger]
            self.games.contains_key(g) ==> {
                &&& self.games[g].valid()
                &&& self.games[g].players.len() >= 1
            }
        &&& forall|g: Seq<char>, p: Seq<char>|
            self.games.contains_key(g) && #[trigger] self.games[g].players.contains_key(p) ==> {
                &&& self.clients.contains_key(p)
                &&& self.clients[p].game_id == Some(g)
            }
        &&& forall|p: Seq<char>| #[trigger]
            self.clients.contains_key(p) ==> (self.clients[p].game_id matches Some(g) ==> {
                &&& self.games.contains_key(g)
                &&& self.games[g].players.contains_key(p)
            })
    }
}

/// In consistent registries nobody is seated in two matches, and no match
/// has more than two players.
pub proof fn lemma_one_seat_each<M>(lobby: Lobby<M>, player: Seq<char>, a: Seq<char>, b: Seq<char>)
    requires
        lobby.consistent(),
        lobby.games.contains_key(a),
        lobby.games.contains_key(b),
        lobby.games[a].players.contains_key(player),
        lobby.games[b].players.contains_key(player),
    ensures
        a == b,
        lobby.games[a].players.len() <= 2,
{
}

impl<M> Lobby<M> {
    /// Every match is valid: it has at most two players, a lone player holds
    /// X, and two players hold X and O.
    pub open spec fn matches_valid(self) -> bool {
        forall|g: Seq<char>| #[trigger] self.games.contains_key(g) ==> self.games[g].valid()
    }
}

/// Seating a client keeps every match valid, whatever else is true of the
/// registries: no match ever has more than two players, and no two players
/// of a match ever hold one symbol.
pub proof fn lemma_join_keeps_matches_valid<M>(
    before: Lobby<M>,
    player: Seq<char>,
    after: Lobby<M>,
    outcome: JoinOutcome,
)
    requires
        before.matches_valid(),
        before.joined(player, after, outcome),
    ensures
        after.matches_valid(),
{
    if let JoinOutcome::PlayerAdded { game_id, .. } = outcome {
        if before.has_waiting() {
            lemma_add_player_valid(before.games[game_id], player);
        } else {
            lemma_add_player_valid(GameState::fresh(), player);
        }
        assert forall|g: Seq<char>| #[trigger] after.games.contains_key(g) implies after.games[g].valid() by {
            if g != game_id {
                assert(before.games.contains_key(g));
            }
        }
    }
}

/// Taking a client out of its match, and a move, keep every match valid.
pub proof fn lemma_leave_and_play_keep_matches_valid<M>(
    before: Lobby<M>,
    player: Seq<char>,
    position: int,
)
    requires
        before.matches_valid(),
        1 <= position <= 9,
    ensures
        before.leave(player).matches_valid(),
        (Lobby { clients: before.clients, games: before.play(player, position) }).matches_valid(),
{
    let left = before.leave(player);
    assert forall|g: Seq<char>| #[trigger] left.games.contains_key(g) implies left.games[g].valid() by {
        assert(before.games.contains_key(g));
        if before.games[g].players.contains_key(player) {
            lemma_remove_player_restarts(before.games[g], player);
        }
    }
    let played = Lobby { clients: before.clients, games: before.play(player, position) };
    assert forall|g: Seq<char>| #[trigger] played.games.contains_key(g) implies played.games[g].valid() by {
        assert(before.games.contains_key(g));
        lemma_make_move_valid(before.games[g], player, row_of(position), column_of(position));
    }
}

/// Seating a client keeps the registries consistent, whichever match it is
/// seated in and whatever identity a new match is given.
pub proof fn lemma_join_keeps_consistent<M>(
    before: Lobby<M>,
    player: Seq<char>,
    after: Lobby<M>,
    outcome: JoinOutcome,
)
    requires
        before.consistent(),
        before.joined(player, after, outcome),
    ensures
        after.consistent(),
        outcome matches JoinOutcome::PlayerAdded { game_id, number_of_players, player_symbol } ==> {
            &&& after.games.contains_key(game_id)
            &&& after.games[game_id].players.contains_key(player)
            &&& after.games[game_id].players[player] == player_symbol
            &&& after.clients[player].game_id == Some(game_id)
            &&& number_of_players == if before.has_waiting() {
                2nat
            } else {
                1nat
            }
            &&& player_symbol == if before.has_waiting() {
                'O'
            } else {
                'X'
            }
        },
{
    match outcome {
        JoinOutcome::Error(_) => {},
        JoinOutcome::PlayerAdded { player_symbol, number_of_players, game_id } => {
            let g = game_id;
            if before.has_waiting() {
                let old_game = before.games[g];
                lemma_add_player_valid(old_game, player);
                lemma_add_player_keeps_order(old_game, player);
            } else {
                lemma_add_player_valid(GameState::fresh(), player);
            }
            assert forall|h: Seq<char>| #[trigger] after.games.contains_key(h) implies {
                &&& after.games[h].valid()
                &&& after.games[h].players.len() >= 1
            } by {}
        },
    }
}

/// Taking a client out of its match keeps the registries consistent, and the
/// client ends up bound to no match.
pub proof fn lemma_leave_keeps_consistent<M>(before: Lobby<M>, player: Seq<char>)
    requires
        before.consistent(),
    ensures
        before.leave(player).consistent(),
        before.clients.contains_key(player) ==> before.leave(player).clients[player].game_id is None,
        before.clients.contains_key(player) ==> before.leave_result(player) is Ok,
{
    let after = before.leave(player);
    if before.clients.contains_key(player) {
        match before.clients[player].game_id {
            None => {},
            Some(g) => {
                let old_game = before.games[g];
                lemma_remove_player_restarts(old_game, player);
                assert forall|h: Seq<char>| #[trigger] after.games.contains_key(h) implies {
                    &&& after.games[h].valid()
                    &&& after.games[h].players.len() >= 1
                } by {}
            },
        }
    }
}

/// A move keeps the registries consistent and touches no client record.
pub proof fn lemma_play_keeps_consistent<M>(before: Lobby<M>, player: Seq<char>, position: int)
    requires
        before.consistent(),
        1 <= position <= 9,
    ensures
        (Lobby { clients: before.clients, games: before.play(player, position) }).consistent(),
{
    let after = Lobby { clients: before.clients, games: before.play(player, position) };
    match before.game_of(player) {
        None => {},
        Some(g) => {
            lemma_make_move_valid(before.games[g], player, row_of(position), column_of(position));
            assert forall|h: Seq<char>| #[trigger] after.games.contains_key(h) implies {
                &&& after.games[h].valid()
                &&& after.games[h].players.len() >= 1
            } by {}
        },
    }
}

/// In consistent registries a message to a match goes to exactly the
/// players seated in it that have a mailbox, and a message to an identity
/// that names no match goes to nobody.
pub proof fn lemma_topic_is_the_seated<M>(lobby: Lobby<M>, game: Seq<char>)
    requires
        lobby.consistent(),
    ensures
        topic(lobby.clients, game) == Set::new(
            |c: Seq<char>|
                lobby.games.contains_key(game) && lobby.games[game].players.contains_key(c)
                    && connected(lobby.clients, c),
        ),
{
    let seated = Set::new(
        |c: Seq<char>|
            lobby.games.contains_key(game) && lobby.games[game].players.contains_key(c)
                && connected(lobby.clients, c),
    );
    assert forall|c: Seq<char>| topic(lobby.clients, game).contains(c) implies seated.contains(
        c,
    ) by {
        assert(lobby.clients.contains_key(c));
    }
    assert(topic(lobby.clients, game) =~= seated);
}

/// Who hears of a seat that was granted, in consistent registries. The
/// client alone is told its symbol. Where it opened a match, it is X and it
/// alone is told that the match waits. Where it joined a waiting match, it is
/// O, and it and the player who waited, nobody else, are told that the match
/// starts.
pub proof fn lemma_join_notices<M>(
    before: Lobby<M>,
    player: Seq<char>,
    after: Lobby<M>,
    outcome: JoinOutcome,
)
    requires
        before.consistent(),
        before.joined(player, after, outcome),
        outcome is PlayerAdded,
    ensures
        after.join_notices(player, outcome).len() == 2,
        after.join_notices(player, outcome)[0].to == inbox(after.clients, player),
        !before.has_waiting() ==> {
            &&& after.join_notices(player, outcome)[0].text == seq!['X']
            &&& after.join_notices(player, outcome)[1].to == inbox(after.clients, player)
            &&& after.join_notices(player, outcome)[1].text == "waiting_players"@
        },
        before.has_waiting() ==> {
            &&& after.join_notices(player, outcome)[0].text == seq!['O']
            &&& after.join_notices(player, outcome)[1].to == Set::new(
                |c: Seq<char>|
                    (c == player || before.games[outcome->game_id].players.contains_key(c))
                        && connected(after.clients, c),
            )
            &&& after.join_notices(player, outcome)[1].text == "start_game"@
        },
{
    let game = outcome->game_id;
    lemma_join_keeps_consistent(before, player, after, outcome);
    lemma_topic_is_the_seated(after, game);
    if before.has_waiting() {
        assert(topic(after.clients, game) =~= Set::new(
            |c: Seq<char>|
                (c == player || before.games[game].players.contains_key(c)) && connected(
                    after.clients,
                    c,
                ),
        ));
    } else {
        assert(topic(after.clients, game) =~= inbox(after.clients, player));
    }
}

/// A new blank record keeps the registries consistent.
pub proof fn lemma_register_keeps_consistent<M>(before: Lobby<M>, client: Seq<char>)
    requires
        before.consistent(),
        !before.clients.contains_key(client),
    ensures
        (Lobby {
            clients: before.clients.insert(client, blank_client()),
            games: before.games,
        }).consistent(),
{
}

/// A new mailbox keeps the registries consistent.
pub proof fn lemma_connect_keeps_consistent<M>(before: Lobby<M>, client: Seq<char>, mailbox: M)
    requires
        before.consistent(),
        before.clients.contains_key(client),
    ensures
        (Lobby {
            clients: before.clients.insert(
                client,
                ClientState { game_id: before.clients[client].game_id, sender: Some(mailbox) },
            ),
            games: before.games,
        }).consistent(),
{
}

/// Deleting the record of a client that is bound to no match keeps the
/// registries consistent.
pub proof fn lemma_unregister_keeps_consistent<M>(before: Lobby<M>, client: Seq<char>)
    requires
        before.consistent(),
        binding(before.clients, client) is None,
    ensures
        (Lobby { clients: before.clients.remove(client), games: before.games }).consistent(),
{
}

/// The end of a session keeps the registries consistent: the client is out
/// of its match before its record goes.
pub proof fn lemma_disconnect_keeps_consistent<M>(before: Lobby<M>, client: Seq<char>)
    requires
        before.consistent(),
    ensures
        before.disconnect(client).consistent(),
        !before.disconnect(client).clients.contains_key(client),
{
    lemma_leave_keeps_consistent(before, client);
    lemma_unregister_keeps_consistent(before.leave(client), client);
}

/// What holds after the first `k` of a run of seat requests, made one after
/// another by different clients against registries without a match.
#[verifier::opaque]
spec fn paired_up<M>(lobby: Lobby<M>, players: Seq<Seq<char>>, k: int) -> bool {
    &&& lobby.consistent()
    &&& lobby.games.dom().finite()
    &&& lobby.games.len() == (k + 1) / 2
    &&& forall|j: int|
        k <= j < players.len() ==> lobby.clients.contains_key(#[trigger] players[j])
            && lobby.clients[players[j]].game_id is None
    &&& forall|j: int|
        0 <= j < k ==> lobby.clients.contains_key(#[trigger] players[j])
            && lobby.clients[players[j]].game_id is Some
    &&& k % 2 == 0 ==> !lobby.has_waiting()
    &&& k % 2 == 1 ==> lobby.has_waiting() && forall|a: Seq<char>, b: Seq<char>|
        lobby.is_waiting(a) && lobby.is_waiting(b) ==> a == b
}

/// The `k`-th request of a run was answered as `join_game` answers, and not
/// with an identity in use.
#[verifier::opaque]
spec fn granted<M>(
    trace: Seq<Lobby<M>>,
    players: Seq<Seq<char>>,
    outcomes: Seq<JoinOutcome>,
    k: int,
) -> bool {
    &&& trace[k].joined(players[k], trace[k + 1], outcomes[k])
    &&& outcomes[k] != JoinOutcome::Error(MatchError::IdentityInUse)
}

/// `paired_up` holds before the first request.
proof fn lemma_paired_up_start<M>(start: Lobby<M>, players: Seq<Seq<char>>)
    requires
        start.consistent(),
        start.games == Map::<Seq<char>, GameState>::empty(),
        forall|j: int| 0 <= j < players.len() ==> start.clients.contains_key(#[trigger] players[j]),
    ensures
        paired_up(start, players, 0),
{
    reveal(paired_up);
}

/// One more seat request keeps `paired_up`.
proof fn lemma_paired_up_step<M>(
    before: Lobby<M>,
    after: Lobby<M>,
    players: Seq<Seq<char>>,
    k: int,
    outcome: JoinOutcome,
)
    requires
        players.no_duplicates(),
        0 <= k < players.len(),
        paired_up(before, players, k),
        before.joined(players[k], after, outcome),
        outcome != JoinOutcome::Error(MatchError::IdentityInUse),
    ensures
        paired_up(after, players, k + 1),
        outcome is PlayerAdded,
{
    reveal(paired_up);
    let player = players[k];
    lemma_join_keeps_consistent(before, player, after, outcome);
    match outcome {
        JoinOutcome::Error(e) => {},
        JoinOutcome::PlayerAdded { player_symbol, number_of_players, game_id } => {
            let g = game_id;
            if before.has_waiting() {
                assert forall|h: Seq<char>| !after.is_waiting(h) by {
                    if after.is_waiting(h) {
                        if h != g {
                            assert(before.is_waiting(h));
                        }
                    }
                }
            } else {
                assert(after.is_waiting(g));
                assert forall|a: Seq<char>, b: Seq<char>|
                    after.is_waiting(a) && after.is_waiting(b) implies a == b by {
                    if a != g {
                        assert(before.is_waiting(a));
                    }
                    if b != g {
                        assert(before.is_waiting(b));
                    }
                }
            }
        },
    }
}

/// Clients pair up. Take registries without a match, and let `players`,
/// different clients that are known and bound to no match, ask for a seat one
/// after another; `trace` holds the registries before, between and after the
/// requests, and `outcomes` the answers. Unless an identity drawn for a new
/// match was in use, every request is granted, half of the clients (rounded
/// up) opened a match, every match has one or two players and at most one
/// has one, and everybody is seated in exactly the match they are bound to.
pub proof fn lemma_joins_pair_up<M>(
    trace: Seq<Lobby<M>>,
    players: Seq<Seq<char>>,
    outcomes: Seq<JoinOutcome>,
)
    requires
        trace.len() == players.len() + 1,
        outcomes.len() == players.len(),
        players.no_duplicates(),
        trace[0].consistent(),
        trace[0].games == Map::<Seq<char>, GameState>::empty(),
        forall|j: int| 0 <= j < players.len() ==> trace[0].clients.contains_key(#[trigger] players[j]),
        forall|k: int|
            0 <= k < players.len() ==> (#[trigger] trace[k]).joined(
                players[k],
                trace[k + 1],
                outcomes[k],
            ),
        forall|k: int|
            0 <= k < players.len() ==> #[trigger] outcomes[k] != JoinOutcome::Error(
                MatchError::IdentityInUse,
            ),
    ensures
        forall|k: int| 0 <= k < players.len() ==> #[trigger] outcomes[k] is PlayerAdded,
        trace.last().consistent(),
        trace.last().games.dom().finite(),
        trace.last().games.len() == (players.len() + 1) / 2,
        forall|g: Seq<char>| #[trigger]
            trace.last().games.contains_key(g) ==> 1 <= trace.last().games[g].players.len() <= 2,
        forall|a: Seq<char>, b: Seq<char>|
            trace.last().is_waiting(a) && trace.last().is_waiting(b) ==> a == b,
        forall|j: int|
            0 <= j < players.len() ==> (trace.last().clients[#[trigger] players[j]].game_id matches Some(
                g,
            ) && trace.last().games.contains_key(g) && trace.last().games[g].players.contains_key(
                players[j],
            )),
{
    assert forall|k: int| 0 <= k < players.len() implies #[trigger] granted(
        trace,
        players,
        outcomes,
        k,
    ) by {
        reveal(granted);
    }
    lemma_paired_up_start(trace[0], players);
    lemma_joins_pair_up_to(trace, players, outcomes, players.len() as int);
    reveal(paired_up);
}

/// `paired_up` holds after each prefix of the run.
proof fn lemma_joins_pair_up_to<M>(
    trace: Seq<Lobby<M>>,
    players: Seq<Seq<char>>,
    outcomes: Seq<JoinOutcome>,
    n: int,
)
    requires
        0 <= n <= players.len(),
        trace.len() == players.len() + 1,
        outcomes.len() == players.len(),
        players.no_duplicates(),
        paired_up(trace[0], players, 0),
        forall|k: int| 0 <= k < players.len() ==> #[trigger] granted(trace, players, outcomes, k),
    ensures
        paired_up(trace[n], players, n),
        forall|k: int| 0 <= k < n ==> #[trigger] outcomes[k] is PlayerAdded,
    decreases n,
{
    if n > 0 {
        lemma_joins_pair_up_to(trace, players, outcomes, n - 1);
        lemma_granted_step(trace, players, outcomes, n - 1);
    }
}

/// A granted request keeps `paired_up`.
proof fn lemma_granted_step<M>(
    trace: Seq<Lobby<M>>,
    players: Seq<Seq<char>>,
    outcomes: Seq<JoinOutcome>,
    k: int,
)
    requires
        0 <= k < players.len(),
        trace.len() == players.len() + 1,
        outcomes.len() == players.len(),
        players.no_duplicates(),
        paired_up(trace[k], players, k),
        granted(trace, players, outcomes, k),
    ensures
        paired_up(trace[k + 1], players, k + 1),
        outcomes[k] is PlayerAdded,
{
    reveal(granted);
    lemma_paired_up_step(trace[k], trace[k + 1], players, k, outcomes[k]);
}

} // verus!
