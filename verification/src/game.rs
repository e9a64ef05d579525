//! The rule engine of one match: a 3×3 board, up to two seated players and the
//! symbol whose turn it is.
//!
//! [`GameState`] is the mathematical model of a match and carries the rules as
//! spec functions. [`Game`] is the executable engine; every operation on it is
//! proved to follow the model step for step.

use vstd::prelude::*;

verus! {

/// Whether `c` is one of the two player symbols.
pub open spec fn is_symbol(c: char) -> bool {
    c == 'X' || c == 'O'
}

/// Whether `c` may stand in a cell: a blank for an empty cell, or a symbol.
pub open spec fn is_mark(c: char) -> bool {
    c == ' ' || is_symbol(c)
}

/// The symbol that moves after `c`.
pub open spec fn opponent(c: char) -> char {
    if c == 'X' {
        'O'
    } else {
        'X'
    }
}

/// A board as three rows of three cells.
pub type Board = Seq<Seq<char>>;

/// The board with every cell blank.
pub open spec fn empty_board() -> Board {
    Seq::new(3, |r: int| Seq::new(3, |c: int| ' '))
}

/// A board has three rows of three cells each.
pub open spec fn board_shaped(b: Board) -> bool {
    &&& b.len() == 3
    &&& b[0].len() == 3
    &&& b[1].len() == 3
    &&& b[2].len() == 3
}

/// `b` with `s` written at (`row`, `col`).
pub open spec fn place(b: Board, row: int, col: int, s: char) -> Board {
    b.update(row, b[row].update(col, s))
}

/// All three cells of row `r` hold `s`.
pub open spec fn row_filled(b: Board, r: int, s: char) -> bool {
    b[r][0] == s && b[r][1] == s && b[r][2] == s
}

/// All three cells of column `c` hold `s`.
pub open spec fn column_filled(b: Board, c: int, s: char) -> bool {
    b[0][c] == s && b[1][c] == s && b[2][c] == s
}

/// The diagonal from the top left to the bottom right holds `s` throughout.
pub open spec fn principal_diagonal_filled(b: Board, s: char) -> bool {
    b[0][0] == s && b[1][1] == s && b[2][2] == s
}

/// The diagonal from the top right to the bottom left holds `s` throughout.
pub open spec fn secondary_diagonal_filled(b: Board, s: char) -> bool {
    b[0][2] == s && b[1][1] == s && b[2][0] == s
}

/// The eight lines of the board, numbered: rows 0..3 from the top, columns
/// 3..6 from the left, then the principal (6) and the secondary (7) diagonal.
pub open spec fn line_filled(b: Board, line: int, s: char) -> bool {
    if 0 <= line < 3 {
        row_filled(b, line, s)
    } else if 3 <= line < 6 {
        column_filled(b, line - 3, s)
    } else if line == 6 {
        principal_diagonal_filled(b, s)
    } else if line == 7 {
        secondary_diagonal_filled(b, s)
    } else {
        false
    }
}

/// Some row holds `s` throughout.
pub open spec fn wins_by_row(b: Board, s: char) -> bool {
    row_filled(b, 0, s) || row_filled(b, 1, s) || row_filled(b, 2, s)
}

/// Some column holds `s` throughout.
pub open spec fn wins_by_column(b: Board, s: char) -> bool {
    column_filled(b, 0, s) || column_filled(b, 1, s) || column_filled(b, 2, s)
}

/// One of the eight lines holds `s` throughout.
pub open spec fn has_line(b: Board, s: char) -> bool {
    wins_by_row(b, s) || wins_by_column(b, s) || principal_diagonal_filled(b, s)
        || secondary_diagonal_filled(b, s)
}

/// No cell of the board is blank.
pub open spec fn is_full(b: Board) -> bool {
    forall|r: int, c: int| 0 <= r < 3 && 0 <= c < 3 ==> (#[trigger] b[r][c]) != ' '
}

/// Why the engine turned a request down.
#[derive(Debug, Clone, Copy, PartialEq, Eq, Structural)]
pub enum GameError {
    /// The target cell already holds a symbol.
    CellOccupied,
    /// The player's symbol is not the one to move.
    NotYourTurn,
    /// The identity has no seat in this match.
    PlayerNotFound,
    /// Both seats are taken.
    GameFull,
}

impl GameError {
    /// The text sent to clients for this error.
    pub open spec fn text(self) -> Seq<char> {
        match self {
            GameError::CellOccupied => "Esta célula já foi preenchida"@,
            GameError::NotYourTurn => "Não é sua vez de jogar"@,
            GameError::PlayerNotFound => "Não existe nenhum player com esse ID no jogo"@,
            GameError::GameFull => "O jogo está completo"@,
        }
    }

    /// Renders the error as the text sent to clients.
    pub fn message(&self) -> (text: &'static str)
        ensures
            text@ == self.text(),
    {
        match self {
            GameError::CellOccupied => "Esta célula já foi preenchida",
            GameError::NotYourTurn => "Não é sua vez de jogar",
            GameError::PlayerNotFound => "Não existe nenhum player com esse ID no jogo",
            GameError::GameFull => "O jogo está completo",
        }
    }
}

/// What a move led to.
#[derive(Debug, Clone, Copy, PartialEq, Eq, Structural)]
pub enum ResultOfTheMove {
    /// The symbol was placed and the match goes on.
    MarkedCell(char),
    /// The symbol was placed and completed a line; the board was cleared.
    Win(char),
    /// The symbol was placed, filled the board without a line, and the board
    /// was cleared.
    Draw,
    /// Nothing was placed.
    Error(GameError),
}

/// The state of a match as a mathematical value.
pub struct GameState {
    /// Three rows of three cells; a blank is an empty cell.
    pub board: Board,
    /// The symbol that moves next.
    pub current_turn: char,
    /// The seated players with their symbols.
    pub players: Map<Seq<char>, char>,
}

impl GameState {
    /// A match nobody has joined: blank board, X to move.
    pub open spec fn fresh() -> GameState {
        GameState { board: empty_board(), current_turn: 'X', players: Map::empty() }
    }

    /// The shape every reachable state has: a 3×3 board of marks, a symbol to
    /// move, and at most two seats, each with a symbol of its own, filled in
    /// order.
    pub open spec fn valid(self) -> bool {
        &&& board_shaped(self.board)
        &&& forall|r: int, c: int|
            0 <= r < 3 && 0 <= c < 3 ==> is_mark(#[trigger] self.board[r][c])
        &&& is_symbol(self.current_turn)
        &&& self.players.dom().finite()
        &&& self.players.len() <= 2
        &&& forall|id: Seq<char>| #[trigger]
            self.players.contains_key(id) ==> is_symbol(self.players[id])
        &&& self.seated_in_order()
    }

    /// The seats are filled in order and no symbol is held twice: a lone
    /// player holds X, and two players hold X and O.
    pub open spec fn seated_in_order(self) -> bool {
        &&& self.players.len() == 1 ==> forall|id: Seq<char>| #[trigger]
            self.players.contains_key(id) ==> self.players[id] == 'X'
        &&& forall|a: Seq<char>, b: Seq<char>|
            self.players.contains_key(a) && self.players.contains_key(b) && a != b
                ==> self.players[a] != self.players[b]
    }

    /// The state with the board cleared and X to move; the seats stay.
    pub open spec fn reset(self) -> GameState {
        GameState { board: empty_board(), current_turn: 'X', players: self.players }
    }

    /// What `add_player(id)` answers: a refusal beside two players; else the
    /// symbol that `id` holds already, if it is seated; else X on an empty
    /// match and O beside one player.
    pub open spec fn add_player_result(self, id: Seq<char>) -> Result<char, GameError> {
        if self.players.len() >= 2 {
            Err(GameError::GameFull)
        } else if self.players.contains_key(id) {
            Ok(self.players[id])
        } else if self.players.len() == 0 {
            Ok('X')
        } else {
            Ok('O')
        }
    }

    /// The state after `add_player(id)`: a new player takes the free seat
    /// with the symbol it was given; a refusal, and a request of somebody who
    /// is seated already, change nothing.
    pub open spec fn add_player(self, id: Seq<char>) -> GameState {
        if self.players.contains_key(id) {
            self
        } else {
            match self.add_player_result(id) {
                Ok(symbol) => GameState { players: self.players.insert(id, symbol), ..self },
                Err(_) => self,
            }
        }
    }

    /// What `remove_player(id)` answers.
    pub open spec fn remove_player_result(self, id: Seq<char>) -> Result<(), GameError> {
        if self.players.contains_key(id) {
            Ok(())
        } else {
            Err(GameError::PlayerNotFound)
        }
    }

    /// The state after `remove_player(id)`: the seat is freed, and where
    /// exactly one player stays behind, that player holds X on a cleared board.
    pub open spec fn remove_player(self, id: Seq<char>) -> GameState {
        if !self.players.contains_key(id) {
            self
        } else {
            let rest = self.players.remove(id);
            if rest.len() == 1 {
                GameState {
                    board: empty_board(),
                    current_turn: 'X',
                    players: Map::new(|k: Seq<char>| rest.contains_key(k), |k: Seq<char>| 'X'),
                }
            } else {
                GameState { players: rest, ..self }
            }
        }
    }

    /// What `make_move(id, row, col)` answers.
    pub open spec fn move_result(self, id: Seq<char>, row: int, col: int) -> ResultOfTheMove {
        if self.board[row][col] != ' ' {
            ResultOfTheMove::Error(GameError::CellOccupied)
        } else if !self.players.contains_key(id) {
            ResultOfTheMove::Error(GameError::PlayerNotFound)
        } else if self.players[id] != self.current_turn {
            ResultOfTheMove::Error(GameError::NotYourTurn)
        } else {
            let symbol = self.players[id];
            let marked = place(self.board, row, col, symbol);
            if has_line(marked, symbol) {
                ResultOfTheMove::Win(symbol)
            } else if is_full(marked) {
                ResultOfTheMove::Draw
            } else {
                ResultOfTheMove::MarkedCell(symbol)
            }
        }
    }

    /// The state after `make_move(id, row, col)`: unchanged on an error, the
    /// symbol placed and the turn passed on otherwise, and the board cleared
    /// with X to move where the move ended the round.
    pub open spec fn make_move(self, id: Seq<char>, row: int, col: int) -> GameState {
        match self.move_result(id, row, col) {
            ResultOfTheMove::Error(_) => self,
            ResultOfTheMove::MarkedCell(symbol) => GameState {
                board: place(self.board, row, col, symbol),
                current_turn: opponent(self.current_turn),
                players: self.players,
            },
            ResultOfTheMove::Win(_) | ResultOfTheMove::Draw => self.reset(),
        }
    }
}

/// One seat of a match.
struct Seat {
    id: String,
    symbol: char,
}

/// The engine of one match.
pub struct Game {
    board: [[char; 3]; 3],
    current_turn: char,
    players: Vec<Seat>,
}

impl View for Game {
    type V = GameState;

    closed spec fn view(&self) -> GameState {
        GameState {
            board: Seq::new(3, |r: int| self.board[r]@),
            current_turn: self.current_turn,
            players: seats_as_map(self.players@),
        }
    }
}

/// The cell of row `k` on the diagonal from the top right.
spec fn secondary_cell(b: Board, k: int) -> char {
    b[k][2 - k]
}

/// The seats as a map from identity to symbol. A later seat of the same
/// identity would win; `Game::wf` rules that out.
spec fn seats_as_map(seats: Seq<Seat>) -> Map<Seq<char>, char> {
    if seats.len() == 0 {
        Map::empty()
    } else if seats.len() == 1 {
        Map::empty().insert(seats[0].id@, seats[0].symbol)
    } else {
        Map::empty().insert(seats[0].id@, seats[0].symbol).insert(seats[1].id@, seats[1].symbol)
    }
}

impl Game {
    /// The invariant of the engine: the representation is in order, and the
    /// state it shows is valid. Every operation keeps it.
    pub open spec fn wf(&self) -> bool {
        self.well_kept() && self@.valid()
    }

    /// The invariant of the representation: at most two seats, of different
    /// identities and with different symbols, a lone player with X, and only
    /// marks and symbols where the model expects them.
    pub closed spec fn well_kept(&self) -> bool {
        &&& self.players.len() <= 2
        &&& self.players.len() == 1 ==> self.players[0].symbol == 'X'
        &&& self.players.len() == 2 ==> self.players[0].id@ != self.players[1].id@
        &&& self.players.len() == 2 ==> self.players[0].symbol != self.players[1].symbol
        &&& forall|i: int| 0 <= i < self.players.len() ==> is_symbol(#[trigger] self.players[i].symbol)
        &&& is_symbol(self.current_turn)
        &&& forall|r: int, c: int|
            0 <= r < 3 && 0 <= c < 3 ==> is_mark(#[trigger] self.board[r][c])
    }

    /// An engine for a match nobody has joined.
    pub fn new() -> (game: Game)
        ensures
            game.wf(),
            game@ == GameState::fresh(),
    {
        let game = Game { board: [[' ';3];3], current_turn: 'X', players: Vec::new() };
        proof {
            assert(game@.board =~~= empty_board());
        }
        game
    }

    /// The number of seated players.
    pub fn number_of_players(&self) -> (n: usize)
        requires
            self.wf(),
        ensures
            n == self@.players.len(),
            n <= 2,
    {
        proof {
            self.lemma_seat_count();
        }
        self.players.len()
    }

    /// The mark in the cell at (`row`, `col`): a blank, or a symbol.
    pub fn cell(&self, row: usize, col: usize) -> (mark: char)
        requires
            row < 3,
            col < 3,
        ensures
            mark == self@.board[row as int][col as int],
    {
        self.board[row][col]
    }

    /// The symbol that moves next.
    pub fn current_turn(&self) -> (symbol: char)
        ensures
            symbol == self@.current_turn,
    {
        self.current_turn
    }

    /// The symbol of `player_id`, if it has a seat.
    pub fn symbol_of(&self, player_id: &str) -> (symbol: Option<char>)
        requires
            self.wf(),
        ensures
            symbol == if self@.players.contains_key(player_id@) {
                Some(self@.players[player_id@])
            } else {
                None
            },
    {
        let key = player_id.to_owned();
        match self.seat_of(&key) {
            Some(i) => Some(self.players[i].symbol),
            None => None,
        }
    }

    /// Seats `player_id`. On an empty match the player gets X, beside one
    /// player O; beside two the match is full. Somebody who is seated already
    /// keeps seat and symbol and is told the symbol again, unless the match is
    /// full. Only a new player changes the match.
    pub fn add_player(&mut self, player_id: String) -> (result: Result<char, GameError>)
        requires
            old(self).wf(),
        ensures
            final(self).wf(),
            result == old(self)@.add_player_result(player_id@),
            final(self)@ == old(self)@.add_player(player_id@),
    {
        proof {
            self.lemma_seat_count();
        }
        if self.players.len() >= 2 {
            return Err(GameError::GameFull);
        }
        match self.seat_of(&player_id) {
            Some(i) => Ok(self.players[i].symbol),
            None => {
                let symbol = if self.players.len() == 0 {
                    'X'
                } else {
                    'O'
                };
                self.players.push(Seat { id: player_id, symbol });
                proof {
                    assert(self@.players =~= old(self)@.players.insert(player_id@, symbol));
                }
                Ok(symbol)
            },
        }
    }

    /// Frees the seat of `player_id`. Where exactly one player stays behind,
    /// that player gets X and the board is cleared. An identity without a seat
    /// is refused and nothing changes.
    pub fn remove_player(&mut self, player_id: &str) -> (result: Result<(), GameError>)
        requires
            old(self).wf(),
        ensures
            final(self).wf(),
            result == old(self)@.remove_player_result(player_id@),
            final(self)@ == old(self)@.remove_player(player_id@),
    {
        let key = player_id.to_owned();
        match self.seat_of(&key) {
            Some(i) => {
                let _ = self.players.remove(i);
                proof {
                    self.lemma_seat_count();
                    assert(seats_as_map(self.players@) =~= old(self)@.players.remove(player_id@));
                }
                if self.players.len() == 1 {
                    self.players[0].symbol = 'X';
                    self.reset_game();
                    proof {
                        let rest = old(self)@.players.remove(player_id@);
                        assert(self@.players =~= Map::new(
                            |k: Seq<char>| rest.contains_key(k),
                            |k: Seq<char>| 'X',
                        ));
                    }
                }
                Ok(())
            },
            None => Err(GameError::PlayerNotFound),
        }
    }

    /// Clears the board and gives the move to X.
    fn reset_game(&mut self)
        requires
            old(self).wf(),
        ensures
            final(self).wf(),
            final(self)@ == old(self)@.reset(),
            final(self).players == old(self).players,
    {
        self.board = [[' ';3];3];
        self.current_turn = 'X';
        proof {
            assert(self@.board =~~= empty_board());
        }
    }

    /// Places the symbol of `player_id` at (`row`, `col`). A taken cell, an
    /// unseated identity and a move out of turn are refused, in that order,
    /// and change nothing. An accepted move passes the turn on; one that
    /// completes a line wins, one that fills the board draws, and after either
    /// the board is clear again with X to move.
    pub fn make_move(&mut self, player_id: &str, row: usize, col: usize) -> (outcome:
        ResultOfTheMove)
        requires
            old(self).wf(),
            row < 3,
            col < 3,
        ensures
            final(self).wf(),
            outcome == old(self)@.move_result(player_id@, row as int, col as int),
            final(self)@ == old(self)@.make_move(player_id@, row as int, col as int),
    {
        if self.board[row][col] != ' ' {
            return ResultOfTheMove::Error(GameError::CellOccupied);
        }
        let key = player_id.to_owned();
        match self.seat_of(&key) {
            Some(i) => {
                let symbol = self.players[i].symbol;
                if symbol != self.current_turn {
                    return ResultOfTheMove::Error(GameError::NotYourTurn);
                }
                self.board[row][col] = symbol;
                self.current_turn = if self.current_turn == 'X' {
                    'O'
                } else {
                    'X'
                };
                proof {
                    assert(self@.board =~~= place(
                        old(self)@.board,
                        row as int,
                        col as int,
                        symbol,
                    ));
                }
                if self.is_winner(player_id) {
                    self.reset_game();
                    return ResultOfTheMove::Win(symbol);
                }
                if self.board_is_filled() {
                    self.reset_game();
                    return ResultOfTheMove::Draw;
                }
                ResultOfTheMove::MarkedCell(symbol)
            },
            None => ResultOfTheMove::Error(GameError::PlayerNotFound),
        }
    }

    /// Whether no cell is blank.
    pub fn board_is_filled(&self) -> (filled: bool)
        ensures
            filled == is_full(self@.board),
    {
        for l in 0..3usize
            invariant
                forall|r: int, c: int| 0 <= r < l && 0 <= c < 3 ==> (#[trigger] self@.board[r][c]) != ' ',
        {
            for c in 0..3usize
                invariant
                    l < 3,
                    forall|r: int, k: int|
                        0 <= r < l && 0 <= k < 3 ==> (#[trigger] self@.board[r][k]) != ' ',
                    forall|k: int| 0 <= k < c ==> (#[trigger] self@.board[l as int][k]) != ' ',
            {
                if self.board[l][c] == ' ' {
                    assert(self@.board[l as int][c as int] == ' ');
                    return false;
                }
            }
        }
        true
    }

    /// Whether `player_id` is seated and one of the eight lines holds that
    /// player's symbol throughout.
    pub fn is_winner(&self, player_id: &str) -> (won: bool)
        requires
            self.wf(),
        ensures
            won == (self@.players.contains_key(player_id@) && has_line(
                self@.board,
                self@.players[player_id@],
            )),
    {
        let key = player_id.to_owned();
        match self.seat_of(&key) {
            Some(i) => {
                let player_symbol = self.players[i].symbol;
                self.win_by_horizontal(player_symbol) || self.win_by_vertical(player_symbol)
                    || self.win_by_principal_diagonal(player_symbol)
                    || self.win_by_secondary_diagonal(player_symbol)
            },
            None => false,
        }
    }

    /// Whether some row holds `player_symbol` throughout.
    pub fn win_by_horizontal(&self, player_symbol: char) -> (won: bool)
        ensures
            won == wins_by_row(self@.board, player_symbol),
    {
        for l in 0..3usize
            invariant
                forall|r: int| 0 <= r < l ==> !row_filled(self@.board, r, player_symbol),
        {
            let mut win = true;
            for c in 0..3usize
                invariant
                    l < 3,
                    win == (forall|k: int|
                        0 <= k < c ==> (#[trigger] self@.board[l as int][k]) == player_symbol),
            {
                if self.board[l][c] != player_symbol {
                    assert(self@.board[l as int][c as int] != player_symbol);
                    win = false;
                }
            }
            if win {
                return true;
            }
        }
        false
    }

    /// Whether some column holds `player_symbol` throughout.
    pub fn win_by_vertical(&self, player_symbol: char) -> (won: bool)
        ensures
            won == wins_by_column(self@.board, player_symbol),
    {
        for c in 0..3usize
            invariant
                forall|k: int| 0 <= k < c ==> !column_filled(self@.board, k, player_symbol),
        {
            let mut win = true;
            for l in 0..3usize
                invariant
                    c < 3,
                    win == (forall|r: int|
                        0 <= r < l ==> (#[trigger] self@.board[r][c as int]) == player_symbol),
            {
                if self.board[l][c] != player_symbol {
                    assert(self@.board[l as int][c as int] != player_symbol);
                    win = false;
                }
            }
            if win {
                return true;
            }
        }
        false
    }

    /// Whether the diagonal from the top left holds `player_symbol` throughout.
    pub fn win_by_principal_diagonal(&self, player_symbol: char) -> (won: bool)
        ensures
            won == principal_diagonal_filled(self@.board, player_symbol),
    {
        for i in 0..3usize
            invariant
                forall|k: int| 0 <= k < i ==> (#[trigger] self@.board[k][k]) == player_symbol,
        {
            if self.board[i][i] != player_symbol {
                return false;
            }
        }
        true
    }

    /// Whether the diagonal from the top right holds `player_symbol` throughout.
    pub fn win_by_secondary_diagonal(&self, player_symbol: char) -> (won: bool)
        ensures
            won == secondary_diagonal_filled(self@.board, player_symbol),
    {
        for l in 0..3usize
            invariant
                forall|k: int|
                    0 <= k < l ==> (#[trigger] secondary_cell(self@.board, k)) == player_symbol,
        {
            let c: usize = 2 - l;
            if self.board[l][c] != player_symbol {
                return false;
            }
        }
        assert(secondary_cell(self@.board, 0) == player_symbol);
        assert(secondary_cell(self@.board, 1) == player_symbol);
        assert(secondary_cell(self@.board, 2) == player_symbol);
        true
    }

    /// The seat of `id`, if it has one.
    fn seat_of(&self, id: &String) -> (seat: Option<usize>)
        requires
            self.wf(),
        ensures
            seat matches Some(i) ==> i < self.players.len() && self.players[i as int].id@ == id@
                && self@.players.contains_key(id@) && self@.players[id@]
                == self.players[i as int].symbol,
            seat is None ==> !self@.players.contains_key(id@),
    {
        for i in 0..self.players.len()
            invariant
                self.wf(),
                forall|k: int| 0 <= k < i ==> (#[trigger] self.players[k]).id@ != id@,
        {
            if self.players[i].id == *id {
                return Some(i);
            }
        }
        None
    }

    /// With different identities in the seats, the model has as many
    /// players as there are seats.
    proof fn lemma_seat_count(&self)
        requires
            self.players.len() <= 2,
            self.players.len() == 2 ==> self.players[0].id@ != self.players[1].id@,
        ensures
            self@.players.dom().finite(),
            self@.players.len() == self.players.len(),
    {
    }
}

} // verus!
