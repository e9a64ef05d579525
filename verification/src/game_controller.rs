//! Matchmaking: pairing clients into matches, taking them out again, and
//! routing a move to the match a client is bound to.
//!
//! [`Lobby`] is the model of both registries together and carries what each
//! operation does as spec functions. The operations take the clients first and
//! the matches second.

use crate::game::{Game, GameError, GameState, ResultOfTheMove};
use crate::identity::{is_identity, new_identity};
use crate::{ClientState, Clients, Games};
use vstd::prelude::*;

verus! {

/// Why the matchmaker turned a request down.
#[derive(Debug, Clone, Copy, PartialEq, Eq, Structural)]
pub enum MatchError {
    /// The client is bound to a match already.
    AlreadyInGame,
    /// The client is unknown, is bound to no match, or its match is gone.
    NotFound,
    /// The identity drawn for a new match names a match already.
    IdentityInUse,
    /// The rule engine refused.
    Game(GameError),
}

impl MatchError {
    /// The text sent to clients for this error.
    pub open spec fn text(self) -> Seq<char> {
        match self {
            MatchError::AlreadyInGame => "Esse jogador já está em uma partida"@,
            MatchError::NotFound => "Não foi encontrado nenhum jogador com esse ID"@,
            MatchError::IdentityInUse => "Não foi possível criar uma nova partida"@,
            MatchError::Game(e) => e.text(),
        }
    }

    /// Renders the error as the text sent to clients.
    pub fn message(&self) -> (text: &'static str)
        ensures
            text@ == self.text(),
    {
        match self {
            MatchError::AlreadyInGame => "Esse jogador já está em uma partida",
            MatchError::NotFound => "Não foi encontrado nenhum jogador com esse ID",
            MatchError::IdentityInUse => "Não foi possível criar uma nova partida",
            MatchError::Game(e) => e.message(),
        }
    }
}

/// What a request for a seat led to.
#[derive(Debug, PartialEq, Eq)]
pub enum ResultOfAddPlayerToGame {
    /// The client was seated in the match `game_id`, which now has
    /// `number_of_players` players.
    PlayerAdded { player_symbol: char, number_of_players: usize, game_id: String },
    /// Nothing changed.
    Error(MatchError),
}

/// The model of a [`ResultOfAddPlayerToGame`].
pub enum JoinOutcome {
    PlayerAdded { player_symbol: char, number_of_players: nat, game_id: Seq<char> },
    Error(MatchError),
}

impl View for ResultOfAddPlayerToGame {
    type V = JoinOutcome;

    open spec fn view(&self) -> JoinOutcome {
        match self {
            ResultOfAddPlayerToGame::PlayerAdded { player_symbol, number_of_players, game_id } => {
                JoinOutcome::PlayerAdded {
                    player_symbol: *player_symbol,
                    number_of_players: *number_of_players as nat,
                    game_id: game_id@,
                }
            },
            ResultOfAddPlayerToGame::Error(e) => JoinOutcome::Error(*e),
        }
    }
}

/// Both registries as one mathematical value.
pub struct Lobby<M> {
    /// The client records by identity.
    pub clients: ClientMap<M>,
    /// The matches by identity.
    pub games: Map<Seq<char>, GameState>,
}

/// The lobby that the two registries show.
pub open spec fn lobby<M>(clients: Clients<M>, games: Games) -> Lobby<M> {
    Lobby { clients: clients@, games: games@ }
}

/// The registry of matches is well formed, and so is every match in it.
pub open spec fn games_wf(games: Games) -> bool {
    &&& games.wf()
    &&& forall|id: Seq<char>| #[trigger]
        games.items().contains_key(id) ==> games.items()[id].wf()
}

/// The row of the cell numbered `position`, counted from 1 along the rows.
pub open spec fn row_of(position: int) -> int {
    (position - 1) / 3
}

/// The column of the cell numbered `position`.
pub open spec fn column_of(position: int) -> int {
    (position - 1) % 3
}

/// The client records by identity, as a mathematical value.
pub type ClientMap<M> = Map<Seq<char>, ClientState<M>>;

/// Whether `player` may be seated: it must be known and bound to no match.
pub open spec fn admission<M>(clients: ClientMap<M>, player: Seq<char>) -> Result<(), MatchError> {
    if !clients.contains_key(player) {
        Err(MatchError::NotFound)
    } else if clients[player].game_id is Some {
        Err(MatchError::AlreadyInGame)
    } else {
        Ok(())
    }
}

/// The client records with `player` bound to `binding`; the mailbox stays.
pub open spec fn rebind<M>(
    clients: ClientMap<M>,
    player: Seq<char>,
    binding: Option<Seq<char>>,
) -> ClientMap<M> {
    clients.insert(player, ClientState { game_id: binding, sender: clients[player].sender })
}

impl<M> Lobby<M> {
    /// Whether `game` is a match with exactly one player.
    pub open spec fn is_waiting(self, game: Seq<char>) -> bool {
        self.games.contains_key(game) && self.games[game].players.len() == 1
    }

    /// Whether some match has exactly one player.
    pub open spec fn has_waiting(self) -> bool {
        exists|game: Seq<char>| self.is_waiting(game)
    }

    /// The lobby after `player` took a seat in the existing match `game`.
    pub open spec fn seat(self, player: Seq<char>, game: Seq<char>) -> Lobby<M> {
        Lobby {
            clients: rebind(self.clients, player, Some(game)),
            games: self.games.insert(game, self.games[game].add_player(player)),
        }
    }

    /// The lobby after a new match `game` was opened with `player` alone.
    pub open spec fn open_game(self, player: Seq<char>, game: Seq<char>) -> Lobby<M> {
        Lobby {
            clients: rebind(self.clients, player, Some(game)),
            games: self.games.insert(game, GameState::fresh().add_player(player)),
        }
    }

    /// What `create_game_with_one_player` answers for the identity `game`.
    pub open spec fn open_game_result(self, player: Seq<char>, game: Seq<char>) -> Result<
        (),
        MatchError,
    > {
        match admission(self.clients, player) {
            Err(e) => Err(e),
            Ok(()) => if self.games.contains_key(game) {
                Err(MatchError::IdentityInUse)
            } else {
                Ok(())
            },
        }
    }

    /// How `join_game` relates the lobby before to the lobby after and to its
    /// answer.
    ///
    /// A client that may not be seated gets the reason and nothing changes.
    /// Otherwise, where some match has exactly one player, the client is
    /// seated in such a match, as the answer names it, with the symbol that
    /// the match gives it: O beside the player who waits. Where none has, a new
    /// match is opened under a drawn identity with the client as X; only
    /// where the drawn identity names a match already does the request fail,
    /// and then nothing changes.
    pub open spec fn joined(self, player: Seq<char>, after: Lobby<M>, outcome: JoinOutcome) -> bool {
        match outcome {
            JoinOutcome::Error(e) => {
                &&& after == self
                &&& match admission(self.clients, player) {
                    Err(reason) => e == reason,
                    Ok(()) => {
                        &&& e == MatchError::IdentityInUse
                        &&& !self.has_waiting()
                        &&& exists|game: Seq<char>| self.games.contains_key(game)
                    },
                }
            },
            JoinOutcome::PlayerAdded { player_symbol, number_of_players, game_id } => {
                &&& admission(self.clients, player) is Ok
                &&& number_of_players == after.games[game_id].players.len()
                &&& if self.has_waiting() {
                    &&& self.is_waiting(game_id)
                    &&& self.games[game_id].add_player_result(player) == Ok::<char, GameError>(
                        player_symbol,
                    )
                    &&& after == self.seat(player, game_id)
                } else {
                    &&& !self.games.contains_key(game_id)
                    &&& is_identity(game_id)
                    &&& player_symbol == 'X'
                    &&& number_of_players == 1
                    &&& after == self.open_game(player, game_id)
                }
            },
        }
    }

    /// What `remove_player_from_game` answers.
    pub open spec fn leave_result(self, player: Seq<char>) -> Result<(), MatchError> {
        if !self.clients.contains_key(player) {
            Err(MatchError::NotFound)
        } else {
            match self.clients[player].game_id {
                None => Ok(()),
                Some(game) => if !self.games.contains_key(game) {
                    Err(MatchError::NotFound)
                } else {
                    match self.games[game].remove_player_result(player) {
                        Ok(()) => Ok(()),
                        Err(e) => Err(MatchError::Game(e)),
                    }
                },
            }
        }
    }

    /// The lobby after `remove_player_from_game`: an unknown client changes
    /// nothing; a known one ends up bound to no match, its seat in the match
    /// it was bound to is freed, and that match is deleted where nobody is
    /// left in it.
    pub open spec fn leave(self, player: Seq<char>) -> Lobby<M> {
        if !self.clients.contains_key(player) {
            self
        } else {
            match self.clients[player].game_id {
                None => self,
                Some(game) => Lobby {
                    clients: rebind(self.clients, player, None),
                    games: if !self.games.contains_key(game) {
                        self.games
                    } else {
                        let rest = self.games[game].remove_player(player);
                        if rest.players.len() == 0 {
                            self.games.remove(game)
                        } else {
                            self.games.insert(game, rest)
                        }
                    },
                },
            }
        }
    }

    /// The match that a move of `player` goes to, if there is one.
    pub open spec fn game_of(self, player: Seq<char>) -> Option<Seq<char>> {
        if !self.clients.contains_key(player) {
            None
        } else {
            match self.clients[player].game_id {
                None => None,
                Some(game) => if self.games.contains_key(game) {
                    Some(game)
                } else {
                    None
                },
            }
        }
    }

    /// What `make_move` answers for the cell numbered `position`.
    pub open spec fn play_result(self, player: Seq<char>, position: int) -> Result<
        ResultOfTheMove,
        MatchError,
    > {
        match self.game_of(player) {
            None => Err(MatchError::NotFound),
            Some(game) => Ok(
                self.games[game].move_result(player, row_of(position), column_of(position)),
            ),
        }
    }

    /// The matches after `make_move`.
    pub open spec fn play(self, player: Seq<char>, position: int) -> Map<Seq<char>, GameState> {
        match self.game_of(player) {
            None => self.games,
            Some(game) => self.games.insert(
                game,
                self.games[game].make_move(player, row_of(position), column_of(position)),
            ),
        }
    }
}

/// Whether `id` is the first match in the order of the registry that has
/// exactly one player.
pub open spec fn is_first_waiting(games: Games, id: Seq<char>) -> bool {
    exists|k: int|
        {
            &&& 0 <= k < games.keys().len()
            &&& #[trigger] games.keys()[k] == id
            &&& games@.contains_key(id)
            &&& games@[id].players.len() == 1
            &&& forall|j: int| 0 <= j < k ==> games@[#[trigger] games.keys()[j]].players.len() != 1
        }
}

/// Every match of a well-formed registry shows a valid state: it has at
/// most two players, and no two of them hold one symbol.
pub proof fn lemma_games_valid(games: Games)
    requires
        games_wf(games),
    ensures
        forall|id: Seq<char>| #[trigger] games@.contains_key(id) ==> games@[id].valid(),
{
    assert forall|id: Seq<char>| #[trigger] games@.contains_key(id) implies games@[id].valid() by {
        assert(games.items()[id].wf());
    }
}

/// How the order of the matches follows their coming and going: a new match
/// goes to the end, a match that is gone is taken out where it stood, and
/// all others stay in place.
pub open spec fn order_follows(before: Games, after: Games) -> bool {
    &&& (forall|g: Seq<char>| before@.contains_key(g) <==> after@.contains_key(g)) ==> after.keys()
        == before.keys()
    &&& forall|g: Seq<char>|
        after@.contains_key(g) && !before@.contains_key(g) ==> after.keys() == before.keys().push(g)
    &&& forall|g: Seq<char>|
        before@.contains_key(g) && !after@.contains_key(g) ==> after.keys()
            == before.keys().remove(before.slot(g))
}

/// The identity of the first match in the order of the registry that has
/// exactly one player, if there is one.
pub fn waiting_game(games: &Games) -> (found: Option<String>)
    requires
        games_wf(*games),
    ensures
        match found {
            Some(id) => is_first_waiting(*games, id@),
            None => forall|id: Seq<char>|
                games@.contains_key(id) ==> (#[trigger] games@[id]).players.len() != 1,
        },
{
    let n = games.len();
    proof {
        games.lemma_entries();
    }
    for i in 0..n
        invariant
            games_wf(*games),
            n == games.keys().len(),
            forall|k: int|
                0 <= k < i ==> games@[#[trigger] games.keys()[k]].players.len() != 1,
    {
        proof {
            games.lemma_entries();
        }
        if games.value_at(i).number_of_players() == 1 {
            let id = games.key_at(i).clone();
            return Some(id);
        }
    }
    None
}

/// Seats a client in a match: while some match has a free second seat, the
/// client joins the first such match in the order of the registry, as O;
/// otherwise it opens a new match as X. A client that is unknown or bound to
/// a match already is refused.
pub fn join_game<M>(player_id: &str, clients: &mut Clients<M>, games: &mut Games) -> (result:
    ResultOfAddPlayerToGame)
    requires
        old(clients).wf(),
        games_wf(*old(games)),
    ensures
        final(clients).wf(),
        games_wf(*final(games)),
        order_follows(*old(games), *final(games)),
        lobby(*old(clients), *old(games)).joined(
            player_id@,
            lobby(*final(clients), *final(games)),
            result@,
        ),
        lobby(*old(clients), *old(games)).has_waiting() ==> (result@ matches JoinOutcome::PlayerAdded {
            game_id,
            ..
        } ==> is_first_waiting(*old(games), game_id)),
{
    let ghost before = lobby(*clients, *games);
    match waiting_game(games) {
        Some(game_id) => {
            assert(before.is_waiting(game_id@));
            match games.get_mut(game_id.as_str()) {
                Some(game) => {
                    let result = add_player_to_game(player_id, game_id.as_str(), game, clients);
                    proof {
                        assert(games@ =~= old(games)@.insert(game_id@, games.items()[game_id@]@));
                        assert(admission(before.clients, player_id@) is Err ==> games@ =~= old(
                            games,
                        )@);
                    }
                    result
                },
                None => ResultOfAddPlayerToGame::Error(MatchError::NotFound),
            }
        },
        None => {
            let game_id = new_identity();
            let key = game_id.clone();
            match create_game_with_one_player(player_id, clients, games, key) {
                Ok(()) => ResultOfAddPlayerToGame::PlayerAdded {
                    player_symbol: 'X',
                    number_of_players: 1,
                    game_id,
                },
                Err(e) => ResultOfAddPlayerToGame::Error(e),
            }
        },
    }
}

/// Seats `player_id` in `game`, the match known as `game_id`, and binds the
/// client to it. A client that is unknown or bound already is refused, and
/// so is one that the match has no seat for; then nothing changes.
pub fn add_player_to_game<M>(
    player_id: &str,
    game_id: &str,
    game: &mut Game,
    clients: &mut Clients<M>,
) -> (result: ResultOfAddPlayerToGame)
    requires
        old(game).wf(),
        old(clients).wf(),
    ensures
        final(game).wf(),
        final(clients).wf(),
        match admission(old(clients)@, player_id@) {
            Err(e) => {
                &&& result@ == JoinOutcome::Error(e)
                &&& final(game)@ == old(game)@
                &&& final(clients)@ == old(clients)@
            },
            Ok(()) => match old(game)@.add_player_result(player_id@) {
                Err(e) => {
                    &&& result@ == JoinOutcome::Error(MatchError::Game(e))
                    &&& final(game)@ == old(game)@
                    &&& final(clients)@ == old(clients)@
                },
                Ok(symbol) => {
                    &&& result@ == (JoinOutcome::PlayerAdded {
                        player_symbol: symbol,
                        number_of_players: final(game)@.players.len(),
                        game_id: game_id@,
                    })
                    &&& final(game)@ == old(game)@.add_player(player_id@)
                    &&& final(clients)@ == rebind(old(clients)@, player_id@, Some(game_id@))
                },
            },
        },
{
    match clients.get_mut(player_id) {
        Some(client) => {
            if client.game_id.is_none() {
                match game.add_player(player_id.to_owned()) {
                    Ok(symbol) => {
                        client.game_id = Some(game_id.to_owned());
                        ResultOfAddPlayerToGame::PlayerAdded {
                            player_symbol: symbol,
                            number_of_players: game.number_of_players(),
                            game_id: game_id.to_owned(),
                        }
                    },
                    Err(e) => {
                        ResultOfAddPlayerToGame::Error(MatchError::Game(e))
                    },
                }
            } else {
                ResultOfAddPlayerToGame::Error(MatchError::AlreadyInGame)
            }
        },
        None => {
            ResultOfAddPlayerToGame::Error(MatchError::NotFound)
        },
    }
}

/// Opens a new match under the identity `game_id` with `player_id` alone in
/// it, as X, and binds the client to it. A client that is unknown or bound
/// already is refused, and so is an identity that names a match already;
/// then nothing changes.
pub fn create_game_with_one_player<M>(
    player_id: &str,
    clients: &mut Clients<M>,
    games: &mut Games,
    game_id: String,
) -> (result: Result<(), MatchError>)
    requires
        old(clients).wf(),
        games_wf(*old(games)),
    ensures
        final(clients).wf(),
        games_wf(*final(games)),
        order_follows(*old(games), *final(games)),
        result == lobby(*old(clients), *old(games)).open_game_result(player_id@, game_id@),
        lobby(*final(clients), *final(games)) == if result is Ok {
            lobby(*old(clients), *old(games)).open_game(player_id@, game_id@)
        } else {
            lobby(*old(clients), *old(games))
        },
{
    let taken = games.contains_key(game_id.as_str());
    match clients.get_mut(player_id) {
        Some(client) => {
            if client.game_id.is_none() {
                if taken {
                    proof {
                        assert(clients@ =~= old(clients)@);
                    }
                    return Err(MatchError::IdentityInUse);
                }
                let mut game = Game::new();
                let _ = game.add_player(player_id.to_owned());
                client.game_id = Some(game_id.clone());
                let _ = games.insert(game_id, game);
                proof {
                    assert(clients@ =~= rebind(old(clients)@, player_id@, Some(game_id@)));
                    assert(games@ =~= old(games)@.insert(
                        game_id@,
                        GameState::fresh().add_player(player_id@),
                    ));
                }
                Ok(())
            } else {
                proof {
                    assert(clients@ =~= old(clients)@);
                }
                Err(MatchError::AlreadyInGame)
            }
        },
        None => {
            Err(MatchError::NotFound)
        },
    }
}

/// Takes a client out of the match it is bound to. The seat is freed, a
/// match that nobody is left in is deleted, and the client ends up bound to
/// no match whatever the answer. A client bound to no match is left as it
/// is; an unknown client is refused.
pub fn remove_player_from_game<M>(player_id: &str, clients: &mut Clients<M>, games: &mut Games) -> (result:
    Result<(), MatchError>)
    requires
        old(clients).wf(),
        games_wf(*old(games)),
    ensures
        final(clients).wf(),
        games_wf(*final(games)),
        order_follows(*old(games), *final(games)),
        result == lobby(*old(clients), *old(games)).leave_result(player_id@),
        lobby(*final(clients), *final(games)) == lobby(*old(clients), *old(games)).leave(
            player_id@,
        ),
{
    let ghost before = lobby(*clients, *games);
    match clients.get_mut(player_id) {
        Some(client) => {
            let bound = client.game_id.take();
            proof {
                assert(clients@ =~= rebind(before.clients, player_id@, None));
            }
            match bound {
                Some(game_id) => {
                    match games.get_mut(game_id.as_str()) {
                        Some(game) => {
                            let removed = game.remove_player(player_id);
                            let deserted = game.number_of_players() == 0;
                            proof {
                                assert(games@ =~= old(games)@.insert(
                                    game_id@,
                                    old(games)@[game_id@].remove_player(player_id@),
                                ));
                            }
                            if deserted {
                                let _ = games.remove(game_id.as_str());
                                proof {
                                    assert(games@ =~= old(games)@.remove(game_id@));
                                }
                            }
                            match removed {
                                Ok(()) => Ok(()),
                                Err(e) => Err(MatchError::Game(e)),
                            }
                        },
                        None => {
                            Err(MatchError::NotFound)
                        },
                    }
                },
                None => {
                    proof {
                        assert(clients@ =~= old(clients)@);
                    }
                    Ok(())
                },
            }
        },
        None => {
            Err(MatchError::NotFound)
        },
    }
}

/// Makes the move of `player_id` at the cell numbered `position`, counted
/// from 1 along the rows, in the match the client is bound to. A client that
/// is unknown or bound to no match, or whose match is gone, is refused and
/// nothing changes.
pub fn make_move<M>(player_id: &str, clients: &Clients<M>, games: &mut Games, position: usize) -> (result:
    Result<ResultOfTheMove, MatchError>)
    requires
        clients.wf(),
        games_wf(*old(games)),
        1 <= position <= 9,
    ensures
        games_wf(*final(games)),
        order_follows(*old(games), *final(games)),
        result == lobby(*clients, *old(games)).play_result(player_id@, position as int),
        final(games)@ == lobby(*clients, *old(games)).play(player_id@, position as int),
{
    let game_id = match clients.get(player_id) {
        Some(client) => match &client.game_id {
            Some(id) => id.clone(),
            None => {
                return Err(MatchError::NotFound);
            },
        },
        None => {
            return Err(MatchError::NotFound);
        },
    };
    match games.get_mut(game_id.as_str()) {
        Some(game) => {
            let row = (position - 1) / 3;
            let col = (position - 1) % 3;
            let outcome = game.make_move(player_id, row, col);
            Ok(outcome)
        },
        None => {
            Err(MatchError::NotFound)
        },
    }
}

} // verus!
