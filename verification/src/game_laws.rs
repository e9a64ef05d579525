//! What follows from the rules of a match, proved over [`GameState`].

use crate::game::{
    column_filled, empty_board, has_line, is_full, line_filled, opponent, place,
    principal_diagonal_filled, row_filled, GameError, GameState, ResultOfTheMove,
};
use vstd::prelude::*;

verus! {

/// The state of a new match after the identities `ids` asked for a seat, one
/// after another.
pub open spec fn after_joins(ids: Seq<Seq<char>>) -> GameState
    decreases ids.len(),
{
    if ids.len() == 0 {
        GameState::fresh()
    } else {
        after_joins(ids.drop_last()).add_player(ids.last())
    }
}

/// The answer that grants a seat with `symbol`.
pub open spec fn granted(symbol: char) -> Result<char, GameError> {
    Ok(symbol)
}

/// After any run of seat requests the seated players are exactly the
/// identities seen so far while these are at most two; with more, both seats
/// are taken. Whoever asked first holds X, and whoever else is seated holds O.
pub proof fn lemma_seats_after_joins(ids: Seq<Seq<char>>)
    ensures
        after_joins(ids).valid(),
        ids.to_set().finite(),
        ids.to_set().len() <= 2 ==> after_joins(ids).players.dom() == ids.to_set(),
        ids.to_set().len() > 2 ==> after_joins(ids).players.len() == 2,
        ids.len() > 0 ==> after_joins(ids).players.contains_key(ids[0]) && after_joins(
            ids,
        ).players[ids[0]] == 'X',
        forall|id: Seq<char>|
            ids.len() > 0 && #[trigger] after_joins(ids).players.contains_key(id) && id != ids[0]
                ==> after_joins(ids).players[id] == 'O',
    decreases ids.len(),
{
    vstd::seq_lib::seq_to_set_is_finite(ids);
    if ids.len() > 0 {
        let before = ids.drop_last();
        let id = ids.last();
        let st = after_joins(before);
        lemma_seats_after_joins(before);
        assert(ids.to_set() =~= before.to_set().insert(id)) by {
            assert forall|x: Seq<char>| ids.to_set().contains(x) implies before.to_set().insert(
                id,
            ).contains(x) by {
                let i = choose|i: int| 0 <= i < ids.len() && ids[i] == x;
                if i < before.len() {
                    assert(before[i] == x);
                }
            }
        }
        lemma_add_player_valid(st, id);
        if before.len() > 0 {
            assert(before[0] == ids[0]);
        } else {
            assert(st.players.dom() =~= Set::<Seq<char>>::empty());
        }
    }
}

/// Seats are handed out in order of arrival, for any run of requests to a new
/// match. Whoever asks first gets X and keeps it however often anybody asks.
/// While nobody else has asked, the first is told X again and any other
/// identity gets O. Once two identities have asked, every request is refused.
pub proof fn lemma_seats_in_order_of_arrival(ids: Seq<Seq<char>>, next: Seq<char>)
    ensures
        ids.to_set().finite(),
        ids.len() == 0 ==> after_joins(ids).add_player_result(next) == granted('X'),
        ids.to_set().len() == 1 && next == ids[0] ==> after_joins(ids).add_player_result(next)
            == granted('X'),
        ids.to_set().len() == 1 && next != ids[0] ==> after_joins(ids).add_player_result(next)
            == granted('O'),
        ids.to_set().len() >= 2 ==> after_joins(ids).add_player_result(next) == Err::<
            char,
            GameError,
        >(GameError::GameFull),
        ids.len() > 0 ==> after_joins(ids.push(next)).players[ids[0]] == 'X',
        forall|id: Seq<char>|
            ids.len() > 0 && #[trigger] after_joins(ids.push(next)).players.contains_key(id) && id
                != ids[0] ==> after_joins(ids.push(next)).players[id] == 'O',
{
    lemma_seats_after_joins(ids);
    lemma_seats_after_joins(ids.push(next));
    if ids.len() > 0 {
        assert(ids.push(next)[0] == ids[0]);
        assert(ids.to_set().contains(ids[0]));
    }
    if ids.to_set().len() == 1 && next != ids[0] {
        // Were `next` seated, the one identity seen so far would be two.
        if ids.to_set().contains(next) {
            assert(ids.to_set().remove(ids[0]).contains(next));
        }
    }
}

/// Seating keeps a state valid, and whoever is granted a seat holds the
/// symbol that the answer names.
pub proof fn lemma_add_player_valid(st: GameState, id: Seq<char>)
    requires
        st.valid(),
    ensures
        st.add_player(id).valid(),
        st.add_player_result(id) matches Ok(symbol) ==> st.add_player(id).players.contains_key(id)
            && st.add_player(id).players[id] == symbol,
{
    if !st.players.contains_key(id) && st.players.len() == 1 {
        let after = st.add_player(id);
        assert forall|a: Seq<char>, b: Seq<char>|
            after.players.contains_key(a) && after.players.contains_key(b) && a != b implies after.players[a]
            != after.players[b] by {
            if a != id && b != id {
                // Both sat here before: more than one player did.
                assert(st.players.dom().remove(a).contains(b));
            }
        }
    }
}

/// Nobody loses a symbol to a newcomer, and no symbol is ever held twice:
/// seating leaves every seated player with the symbol it had, adds one
/// player where a new identity is granted a seat, and none otherwise.
pub proof fn lemma_add_player_keeps_order(st: GameState, id: Seq<char>)
    requires
        st.valid(),
    ensures
        st.add_player(id).seated_in_order(),
        forall|k: Seq<char>| #[trigger]
            st.players.contains_key(k) ==> st.add_player(id).players.contains_key(k)
                && st.add_player(id).players[k] == st.players[k],
        st.add_player(id).players.len() == if st.add_player_result(id) is Ok
            && !st.players.contains_key(id) {
            st.players.len() + 1
        } else {
            st.players.len()
        },
{
    lemma_add_player_valid(st, id);
}

/// Freeing a seat keeps a state valid and the seats in order. Where exactly
/// one player stays behind, that player holds X, the board is clear and X is
/// to move; the other seats are untouched.
pub proof fn lemma_remove_player_restarts(st: GameState, id: Seq<char>)
    requires
        st.valid(),
        st.players.contains_key(id),
    ensures
        st.remove_player(id).valid(),
        st.remove_player(id).players.dom() == st.players.dom().remove(id),
        st.remove_player(id).players.len() == st.players.len() - 1,
        st.remove_player(id).players.len() == 1 ==> {
            &&& st.remove_player(id).board == empty_board()
            &&& st.remove_player(id).current_turn == 'X'
            &&& forall|k: Seq<char>| #[trigger]
                st.remove_player(id).players.contains_key(k) ==> st.remove_player(id).players[k]
                    == 'X'
        },
        st.remove_player(id).seated_in_order(),
{
    let rest = st.players.remove(id);
    let after = st.remove_player(id);
    assert(after.players.dom() =~= rest.dom());
    assert forall|a: Seq<char>, b: Seq<char>|
        after.players.contains_key(a) && after.players.contains_key(b) && a != b implies after.players[a]
        != after.players[b] by {
        // With `a` taken out, `b` is left: more than one player stayed.
        assert(rest.dom().remove(a).contains(b));
    }
}

/// An accepted move keeps a state valid, leaves the seats alone, and either
/// writes the mover's symbol into the one blank target cell and passes the
/// turn on, or ends the round.
pub proof fn lemma_make_move_valid(st: GameState, id: Seq<char>, row: int, col: int)
    requires
        st.valid(),
        0 <= row < 3,
        0 <= col < 3,
    ensures
        st.make_move(id, row, col).valid(),
        st.make_move(id, row, col).players == st.players,
        st.move_result(id, row, col) matches ResultOfTheMove::MarkedCell(s) ==> {
            &&& s == st.players[id]
            &&& st.board[row][col] == ' '
            &&& st.make_move(id, row, col).board[row][col] == s
            &&& st.make_move(id, row, col).current_turn == opponent(st.current_turn)
            &&& forall|r: int, c: int|
                0 <= r < 3 && 0 <= c < 3 && (r != row || c != col) ==> #[trigger] st.make_move(
                    id,
                    row,
                    col,
                ).board[r][c] == st.board[r][c]
        },
{
}

/// A move that completes any of the eight lines with the mover's symbol wins
/// for that symbol, and for no other. The board it leaves holds no line for
/// either symbol, so the same marks are never counted twice.
pub proof fn lemma_completing_a_line_wins(
    st: GameState,
    id: Seq<char>,
    row: int,
    col: int,
    line: int,
)
    requires
        st.valid(),
        0 <= row < 3,
        0 <= col < 3,
        0 <= line < 8,
        st.board[row][col] == ' ',
        st.players.contains_key(id),
        st.players[id] == st.current_turn,
        line_filled(place(st.board, row, col, st.players[id]), line, st.players[id]),
    ensures
        st.move_result(id, row, col) == ResultOfTheMove::Win(st.players[id]),
        st.make_move(id, row, col) == st.reset(),
        !has_line(st.make_move(id, row, col).board, 'X'),
        !has_line(st.make_move(id, row, col).board, 'O'),
{
}

/// A move wins only by a line: where the answer is a win, it names the
/// mover's symbol, and one of the eight lines holds that symbol throughout
/// once it is placed.
pub proof fn lemma_win_needs_a_line(st: GameState, id: Seq<char>, row: int, col: int)
    requires
        st.move_result(id, row, col) is Win,
    ensures
        st.move_result(id, row, col) == ResultOfTheMove::Win(st.players[id]),
        exists|line: int|
            0 <= line < 8 && #[trigger] line_filled(
                place(st.board, row, col, st.players[id]),
                line,
                st.players[id],
            ),
{
    let s = st.players[id];
    let marked = place(st.board, row, col, s);
    if row_filled(marked, 0, s) {
        assert(line_filled(marked, 0, s));
    } else if row_filled(marked, 1, s) {
        assert(line_filled(marked, 1, s));
    } else if row_filled(marked, 2, s) {
        assert(line_filled(marked, 2, s));
    } else if column_filled(marked, 0, s) {
        assert(line_filled(marked, 3, s));
    } else if column_filled(marked, 1, s) {
        assert(line_filled(marked, 4, s));
    } else if column_filled(marked, 2, s) {
        assert(line_filled(marked, 5, s));
    } else if principal_diagonal_filled(marked, s) {
        assert(line_filled(marked, 6, s));
    } else {
        assert(line_filled(marked, 7, s));
    }
}

/// A legal move that fills the last blank cell without completing a line of
/// the mover's symbol is a draw.
pub proof fn lemma_filling_the_board_draws(st: GameState, id: Seq<char>, row: int, col: int)
    requires
        st.valid(),
        0 <= row < 3,
        0 <= col < 3,
        st.board[row][col] == ' ',
        st.players.contains_key(id),
        st.players[id] == st.current_turn,
        is_full(place(st.board, row, col, st.players[id])),
        !has_line(place(st.board, row, col, st.players[id]), st.players[id]),
    ensures
        st.move_result(id, row, col) == ResultOfTheMove::Draw,
        st.make_move(id, row, col) == st.reset(),
{
}

/// After a win or a draw the board is clear and X is to move; the seats stay.
pub proof fn lemma_round_end_resets(st: GameState, id: Seq<char>, row: int, col: int)
    requires
        st.move_result(id, row, col) is Win || st.move_result(id, row, col) is Draw,
    ensures
        st.make_move(id, row, col).board == empty_board(),
        st.make_move(id, row, col).current_turn == 'X',
        st.make_move(id, row, col).players == st.players,
{
}

/// On a clear board a move can only mark a cell or be refused: a round is
/// never over after its first move.
pub proof fn lemma_first_move_only_marks(st: GameState, id: Seq<char>, row: int, col: int)
    requires
        st.valid(),
        st.board == empty_board(),
        0 <= row < 3,
        0 <= col < 3,
    ensures
        st.move_result(id, row, col) is MarkedCell || st.move_result(id, row, col) is Error,
{
}

} // verus!
