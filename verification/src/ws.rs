//! The session of one connection: what a line from a client does to the
//! registries, and which messages go to whom because of it.
//!
//! Nothing is sent here. Each operation hands back the messages as
//! [`Outgoing`] values, the recipients already looked up; the caller puts
//! each text into the mailboxes of its recipients and ignores a mailbox that
//! no longer takes it.

use crate::commands::{parse, Command, ParseCommandError};
use crate::game::{is_symbol, ResultOfTheMove};
use crate::game_controller::{
    games_wf, join_game, lemma_games_valid, lobby, make_move, order_follows,
    remove_player_from_game, ClientMap,
    JoinOutcome, Lobby, MatchError, ResultOfAddPlayerToGame,
};
use crate::{Clients, Games};
use vstd::prelude::*;

verus! {

/// A message on its way out: the text, and the identities of the clients
/// whose mailboxes it goes to.
#[derive(Debug, PartialEq, Eq)]
pub struct Outgoing {
    pub recipients: Vec<String>,
    pub text: String,
}

/// The model of an [`Outgoing`]: recipients as a set, for no order of
/// delivery is promised.
pub struct Notice {
    pub to: Set<Seq<char>>,
    pub text: Seq<char>,
}

impl Outgoing {
    /// The identities of the recipients, in the order held.
    pub open spec fn addressees(self) -> Seq<Seq<char>> {
        Seq::new(self.recipients.len() as nat, |i: int| self.recipients[i]@)
    }

    /// The message has the text of `notice` and goes to each of its
    /// recipients, once.
    pub open spec fn carries(self, notice: Notice) -> bool {
        &&& self.text@ == notice.text
        &&& self.addressees().no_duplicates()
        &&& self.addressees().to_set() == notice.to
    }
}

/// The messages carry the notices, one for one and in order.
pub open spec fn carry(out: Seq<Outgoing>, notices: Seq<Notice>) -> bool {
    &&& out.len() == notices.len()
    &&& forall|i: int| 0 <= i < out.len() ==> (#[trigger] out[i]).carries(notices[i])
}

/// The digit that writes `n`, for `n` from 0 to 9.
pub open spec fn digit_char(n: int) -> char {
    ('0' as int + n) as char
}

/// The text that tells a match that `symbol` went into cell `position`.
pub open spec fn marked_text(symbol: char, position: int) -> Seq<char> {
    "marked "@ + seq![symbol] + " "@ + seq![digit_char(position)]
}

/// The text that tells a match that `symbol` won.
pub open spec fn winner_text(symbol: char) -> Seq<char> {
    "winner "@ + seq![symbol]
}

/// The text that tells a client that `line` names no command.
pub open spec fn invalid_command_text(line: Seq<char>) -> Seq<char> {
    "Comando "@ + line + " inválido"@
}

/// The text that tells a client that `line` has no usable cell number.
pub open spec fn invalid_parameters_text(line: Seq<char>) -> Seq<char> {
    "Parâmetros para o comando '"@ + line + "' são inválidos"@
}

/// The text that tells a match what a move led to.
pub open spec fn move_text(result: Result<ResultOfTheMove, MatchError>, position: int) -> Seq<char> {
    match result {
        Ok(ResultOfTheMove::Draw) => "draw"@,
        Ok(ResultOfTheMove::MarkedCell(symbol)) => marked_text(symbol, position),
        Ok(ResultOfTheMove::Win(symbol)) => winner_text(symbol),
        Ok(ResultOfTheMove::Error(e)) => e.text(),
        Err(e) => e.text(),
    }
}

/// A line that keeps the connection alive and is no command.
pub open spec fn is_ping(line: Seq<char>) -> bool {
    line == "ping"@ || line == "ping\n"@
}

/// Whether `client` is known and has a mailbox.
pub open spec fn connected<M>(clients: ClientMap<M>, client: Seq<char>) -> bool {
    clients.contains_key(client) && clients[client].sender is Some
}

/// The clients that a message to the match `game` goes to: those bound to it
/// that have a mailbox.
pub open spec fn topic<M>(clients: ClientMap<M>, game: Seq<char>) -> Set<Seq<char>> {
    Set::new(|c: Seq<char>| connected(clients, c) && clients[c].game_id == Some(game))
}

/// The clients that a message to `client` alone goes to: the client, if it
/// has a mailbox.
pub open spec fn inbox<M>(clients: ClientMap<M>, client: Seq<char>) -> Set<Seq<char>> {
    Set::new(|c: Seq<char>| c == client && connected(clients, c))
}

/// The match that `client` is bound to, if it is known and bound.
pub open spec fn binding<M>(clients: ClientMap<M>, client: Seq<char>) -> Option<Seq<char>> {
    if clients.contains_key(client) {
        clients[client].game_id
    } else {
        None
    }
}

/// Where the answer to a command of `client` about its match goes: to the
/// match it is bound to, and to the client alone where it is bound to none.
pub open spec fn match_or_self<M>(clients: ClientMap<M>, client: Seq<char>) -> Set<Seq<char>> {
    match binding(clients, client) {
        Some(game) => topic(clients, game),
        None => inbox(clients, client),
    }
}

impl<M> Lobby<M> {
    /// The messages after a request for a seat: the symbol (or the refusal)
    /// for the client alone, and for the match the news whether it waits for
    /// a second player or starts.
    pub open spec fn join_notices(self, client: Seq<char>, outcome: JoinOutcome) -> Seq<Notice> {
        match outcome {
            JoinOutcome::PlayerAdded { player_symbol, number_of_players, game_id } => seq![
                Notice { to: inbox(self.clients, client), text: seq![player_symbol] },
                Notice {
                    to: topic(self.clients, game_id),
                    text: if number_of_players == 1 {
                        "waiting_players"@
                    } else {
                        "start_game"@
                    },
                },
            ],
            JoinOutcome::Error(e) => seq![Notice { to: inbox(self.clients, client), text: e.text() }],
        }
    }

    /// How `client_msg` relates the registries before to the registries after
    /// and to the messages it hands back.
    pub open spec fn reacted(
        self,
        client: Seq<char>,
        line: Seq<char>,
        after: Lobby<M>,
        out: Seq<Outgoing>,
    ) -> bool {
        if is_ping(line) {
            after == self && out.len() == 0
        } else {
            match parse(line) {
                Err(ParseCommandError::InvalidCommand) => {
                    &&& after == self
                    &&& carry(
                        out,
                        seq![
                            Notice {
                                to: inbox(self.clients, client),
                                text: invalid_command_text(line),
                            },
                        ],
                    )
                },
                Err(ParseCommandError::InvalidParameters) => {
                    &&& after == self
                    &&& carry(
                        out,
                        seq![
                            Notice {
                                to: inbox(self.clients, client),
                                text: invalid_parameters_text(line),
                            },
                        ],
                    )
                },
                Ok(Command::JoinGame) => exists|outcome: JoinOutcome|
                    {
                        &&& self.joined(client, after, outcome)
                        &&& carry(out, after.join_notices(client, outcome))
                    },
                Ok(Command::MakeMove { position }) => {
                    &&& after.clients == self.clients
                    &&& after.games == self.play(client, position as int)
                    &&& carry(
                        out,
                        seq![
                            Notice {
                                to: match_or_self(self.clients, client),
                                text: move_text(
                                    self.play_result(client, position as int),
                                    position as int,
                                ),
                            },
                        ],
                    )
                },
            }
        }
    }

    /// The registries after `disconnect_client`: the client has left its
    /// match and its record is gone.
    pub open spec fn disconnect(self, client: Seq<char>) -> Lobby<M> {
        Lobby { clients: self.leave(client).clients.remove(client), games: self.leave(client).games }
    }

    /// The messages after `disconnect_client`: the match that the client was
    /// bound to learns that it waits for a player.
    pub open spec fn disconnect_notices(self, client: Seq<char>) -> Seq<Notice> {
        match binding(self.clients, client) {
            Some(game) => seq![
                Notice { to: topic(self.disconnect(client).clients, game), text: "waiting_players"@ },
            ],
            None => Seq::empty(),
        }
    }
}

/// Whether two texts are the same.
fn text_is(a: &str, b: &str) -> (same: bool)
    ensures
        same == (a@ == b@),
{
    a.to_owned() == b.to_owned()
}

/// The symbol as a text.
fn symbol_str(symbol: char) -> (text: &'static str)
    requires
        is_symbol(symbol),
    ensures
        text@ == seq![symbol],
{
    proof {
        reveal_strlit("X");
        reveal_strlit("O");
    }
    if symbol == 'X' {
        "X"
    } else {
        "O"
    }
}

/// The cell number as a text.
fn digit_str(n: usize) -> (text: &'static str)
    requires
        1 <= n <= 9,
    ensures
        text@ == seq![digit_char(n as int)],
{
    proof {
        reveal_strlit("1");
        reveal_strlit("2");
        reveal_strlit("3");
        reveal_strlit("4");
        reveal_strlit("5");
        reveal_strlit("6");
        reveal_strlit("7");
        reveal_strlit("8");
        reveal_strlit("9");
    }
    let text = if n == 1 {
        "1"
    } else if n == 2 {
        "2"
    } else if n == 3 {
        "3"
    } else if n == 4 {
        "4"
    } else if n == 5 {
        "5"
    } else if n == 6 {
        "6"
    } else if n == 7 {
        "7"
    } else if n == 8 {
        "8"
    } else {
        "9"
    };
    text
}

/// The text for the outcome of a move at the cell numbered `position`.
fn move_message(result: &Result<ResultOfTheMove, MatchError>, position: usize) -> (text: String)
    requires
        1 <= position <= 9,
        *result matches Ok(ResultOfTheMove::MarkedCell(s)) ==> is_symbol(s),
        *result matches Ok(ResultOfTheMove::Win(s)) ==> is_symbol(s),
    ensures
        text@ == move_text(*result, position as int),
{
    match result {
        Ok(ResultOfTheMove::Draw) => "draw".to_owned(),
        Ok(ResultOfTheMove::MarkedCell(symbol)) => {
            let mut text = "marked ".to_owned();
            text.append(symbol_str(*symbol));
            text.append(" ");
            text.append(digit_str(position));
            text
        },
        Ok(ResultOfTheMove::Win(symbol)) => {
            let mut text = "winner ".to_owned();
            text.append(symbol_str(*symbol));
            text
        },
        Ok(ResultOfTheMove::Error(e)) => e.message().to_owned(),
        Err(e) => e.message().to_owned(),
    }
}

/// The match that a client is bound to, if it is known and bound.
pub fn get_game_id_by_client_id<M>(client_id: &str, clients: &Clients<M>) -> (game_id: Option<String>)
    requires
        clients.wf(),
    ensures
        match game_id {
            Some(id) => binding(clients@, client_id@) == Some(id@),
            None => binding(clients@, client_id@) is None,
        },
{
    match clients.get(client_id) {
        Some(client) => match &client.game_id {
            Some(id) => Some(id.clone()),
            None => None,
        },
        None => None,
    }
}

/// Addresses `msg` to every client that is bound to the match `game_id` and
/// has a mailbox.
pub fn publish_msg_by_game_id<M>(game_id: &str, msg: &str, clients: &Clients<M>) -> (out: Outgoing)
    requires
        clients.wf(),
    ensures
        out.carries(Notice { to: topic(clients@, game_id@), text: msg@ }),
{
    let ghost all = topic(clients@, game_id@);
    let wanted = game_id.to_owned();
    let mut recipients: Vec<String> = Vec::new();
    let ghost mut from: Seq<int> = Seq::empty();
    let n = clients.len();
    proof {
        clients.lemma_entries();
    }
    for i in 0..n
        invariant
            clients.wf(),
            n == clients.keys().len(),
            wanted@ == game_id@,
            all == topic(clients@, game_id@),
            from.len() == recipients.len(),
            forall|j: int|
                0 <= j < from.len() ==> 0 <= #[trigger] from[j] < i && recipients[j]@
                    == clients.keys()[from[j]] && all.contains(recipients[j]@),
            forall|a: int, b: int| 0 <= a < b < from.len() ==> from[a] < from[b],
            forall|k: int|
                0 <= k < i && all.contains(#[trigger] clients.keys()[k]) ==> exists|
                    j: int,
                |
                    0 <= j < from.len() && from[j] == k,
    {
        proof {
            clients.lemma_entries();
        }
        let client = clients.value_at(i);
        let bound_here = match &client.game_id {
            Some(id) => *id == wanted,
            None => false,
        };
        if bound_here && client.sender.is_some() {
            recipients.push(clients.key_at(i).clone());
            proof {
                let ghost before = from;
                from = from.push(i as int);
                assert forall|k: int|
                    0 <= k < i + 1 && all.contains(
                        #[trigger] clients.keys()[k],
                    ) implies exists|j: int| 0 <= j < from.len() && from[j] == k by {
                    if k < i {
                        let j = choose|j: int| 0 <= j < before.len() && before[j] == k;
                        assert(from[j] == k);
                    } else {
                        assert(from[from.len() - 1] == k);
                    }
                }
            }
        }
    }
    let out = Outgoing { recipients, text: msg.to_owned() };
    proof {
        clients.lemma_entries();
        let ids = out.addressees();
        assert forall|a: int, b: int| 0 <= a < ids.len() && 0 <= b < ids.len() && a != b implies ids[a]
            != ids[b] by {
            if a < b {
                assert(from[a] < from[b]);
            }
        }
        assert forall|c: Seq<char>| all.contains(c) implies ids.contains(c) by {
            let k = choose|k: int| 0 <= k < clients.keys().len() && clients.keys()[k] == c;
            let j = choose|j: int| 0 <= j < from.len() && from[j] == k;
            assert(ids[j] == c);
        }
        assert forall|c: Seq<char>| ids.contains(c) implies all.contains(c) by {
            let j = choose|j: int| 0 <= j < ids.len() && ids[j] == c;
            assert(0 <= from[j]);
        }
        assert(ids.to_set() =~= all);
    }
    out
}

/// Addresses `msg` to one client, if it is known and has a mailbox.
pub fn publish_msg_to_client<M>(client_id: &str, msg: &str, clients: &Clients<M>) -> (out: Outgoing)
    requires
        clients.wf(),
    ensures
        out.carries(Notice { to: inbox(clients@, client_id@), text: msg@ }),
{
    let mut recipients: Vec<String> = Vec::new();
    match clients.get(client_id) {
        Some(client) => {
            if client.sender.is_some() {
                recipients.push(client_id.to_owned());
            }
        },
        None => {},
    }
    let out = Outgoing { recipients, text: msg.to_owned() };
    proof {
        let ids = out.addressees();
        if connected(clients@, client_id@) {
            assert(ids[0] == client_id@);
        }
        assert(ids.to_set() =~= inbox(clients@, client_id@));
    }
    out
}

/// Acts on a line that `id` sent and hands back the messages to deliver.
///
/// `join_game` seats the client: it gets its symbol, or the refusal, and the
/// match learns whether it waits for a second player or starts. `make_play`
/// with a cell number from 1 to 9 makes the move in the client's match: the
/// outcome goes to everybody in that match, and to the client alone where it
/// is bound to none. Any other line changes nothing and is answered to the
/// client alone; a lone `ping` changes nothing and is not answered.
pub fn client_msg<M>(id: &str, message: &str, clients: &mut Clients<M>, games: &mut Games) -> (out:
    Vec<Outgoing>)
    requires
        old(clients).wf(),
        games_wf(*old(games)),
    ensures
        final(clients).wf(),
        games_wf(*final(games)),
        order_follows(*old(games), *final(games)),
        lobby(*old(clients), *old(games)).reacted(
            id@,
            message@,
            lobby(*final(clients), *final(games)),
            out@,
        ),
{
    if text_is(message, "ping") || text_is(message, "ping\n") {
        return Vec::new();
    }
    match Command::from_str(message) {
        Ok(Command::MakeMove { position }) => {
            proof {
                lemma_games_valid(*games);
            }
            let result = make_move(id, clients, games, position);
            let text = move_message(&result, position);
            let notice = match get_game_id_by_client_id(id, clients) {
                Some(game_id) => publish_msg_by_game_id(game_id.as_str(), text.as_str(), clients),
                None => publish_msg_to_client(id, text.as_str(), clients),
            };
            vec![notice]
        },
        Ok(Command::JoinGame) => {
            proof {
                lemma_games_valid(*games);
            }
            let result = join_game(id, clients, games);
            let out = match result {
                ResultOfAddPlayerToGame::PlayerAdded { player_symbol, number_of_players, game_id } => {
                    let first = publish_msg_to_client(id, symbol_str(player_symbol), clients);
                    let news = if number_of_players == 1 {
                        "waiting_players"
                    } else {
                        "start_game"
                    };
                    let second = publish_msg_by_game_id(game_id.as_str(), news, clients);
                    vec![first, second]
                },
                ResultOfAddPlayerToGame::Error(e) => {
                    let only = publish_msg_to_client(id, e.message(), clients);
                    vec![only]
                },
            };
            out
        },
        Err(ParseCommandError::InvalidCommand) => {
            let mut text = "Comando ".to_owned();
            text.append(message);
            text.append(" inválido");
            let only = publish_msg_to_client(id, text.as_str(), clients);
            vec![only]
        },
        Err(ParseCommandError::InvalidParameters) => {
            let mut text = "Parâmetros para o comando '".to_owned();
            text.append(message);
            text.append("' são inválidos");
            let only = publish_msg_to_client(id, text.as_str(), clients);
            vec![only]
        },
    }
}

/// Ends the session of a client: takes it out of its match, tells that match
/// that it waits for a player, and deletes the client's record. An unknown
/// client changes nothing.
pub fn disconnect_client<M>(client_id: &str, clients: &mut Clients<M>, games: &mut Games) -> (out:
    Vec<Outgoing>)
    requires
        old(clients).wf(),
        games_wf(*old(games)),
    ensures
        final(clients).wf(),
        games_wf(*final(games)),
        order_follows(*old(games), *final(games)),
        lobby(*final(clients), *final(games)) == lobby(*old(clients), *old(games)).disconnect(
            client_id@,
        ),
        carry(out@, lobby(*old(clients), *old(games)).disconnect_notices(client_id@)),
{
    let ghost before = lobby(*clients, *games);
    let game_id = get_game_id_by_client_id(client_id, clients);
    let _ = remove_player_from_game(client_id, clients, games);
    let _ = clients.remove(client_id);
    proof {
        assert(clients@ =~= before.leave(client_id@).clients.remove(client_id@));
    }
    match game_id {
        Some(id) => {
            let notice = publish_msg_by_game_id(id.as_str(), "waiting_players", clients);
            vec![notice]
        },
        None => Vec::new(),
    }
}

} // verus!
