use tictactoe::game::{Game, GameError, ResultOfTheMove};

fn two_players() -> Game {
    let mut game = Game::new();
    assert_eq!(game.add_player(String::from("a")), Ok('X'));
    assert_eq!(game.add_player(String::from("b")), Ok('O'));
    game
}

/// Plays the cells (numbered 1 to 9) in order, X and O in turn, and hands
/// back what each move led to.
fn play(game: &mut Game, cells: &[usize]) -> Vec<ResultOfTheMove> {
    let mut outcomes = Vec::new();
    for (i, cell) in cells.iter().enumerate() {
        let player = if i % 2 == 0 { "a" } else { "b" };
        outcomes.push(game.make_move(player, (cell - 1) / 3, (cell - 1) % 3));
    }
    outcomes
}

fn assert_board_is_blank(game: &Game) {
    for row in 0..3 {
        for col in 0..3 {
            assert_eq!(game.cell(row, col), ' ');
        }
    }
}

/// X takes the three cells of the line, O two cells off it; the fifth move
/// must win, and only that one.
fn assert_line_wins_for_x(line: [usize; 3], others: [usize; 2]) {
    let mut game = two_players();
    let outcomes = play(&mut game, &[line[0], others[0], line[1], others[1], line[2]]);
    assert_eq!(
        outcomes,
        vec![
            ResultOfTheMove::MarkedCell('X'),
            ResultOfTheMove::MarkedCell('O'),
            ResultOfTheMove::MarkedCell('X'),
            ResultOfTheMove::MarkedCell('O'),
            ResultOfTheMove::Win('X'),
        ]
    );
    assert_board_is_blank(&game);
    assert_eq!(game.current_turn(), 'X');
    assert_eq!(game.number_of_players(), 2);
}

#[test]
fn new_game_is_empty() {
    let game = Game::new();
    assert_eq!(game.number_of_players(), 0);
    assert_eq!(game.current_turn(), 'X');
    assert_board_is_blank(&game);
    assert_eq!(game.symbol_of("a"), None);
}

#[test]
fn first_player_gets_x_second_o_third_is_refused() {
    let mut game = Game::new();
    assert_eq!(game.add_player(String::from("a")), Ok('X'));
    assert_eq!(game.number_of_players(), 1);
    assert_eq!(game.add_player(String::from("b")), Ok('O'));
    assert_eq!(game.number_of_players(), 2);
    assert_eq!(game.add_player(String::from("c")), Err(GameError::GameFull));
    assert_eq!(game.number_of_players(), 2);
    assert_eq!(game.symbol_of("a"), Some('X'));
    assert_eq!(game.symbol_of("b"), Some('O'));
    assert_eq!(game.symbol_of("c"), None);
}

#[test]
fn a_seated_player_is_refused_too_once_the_match_is_full() {
    let mut game = two_players();
    assert_eq!(game.add_player(String::from("a")), Err(GameError::GameFull));
    assert_eq!(game.symbol_of("a"), Some('X'));
}

#[test]
fn a_player_who_asks_twice_keeps_seat_and_symbol() {
    let mut game = Game::new();
    assert_eq!(game.add_player(String::from("a")), Ok('X'));
    assert_eq!(game.add_player(String::from("a")), Ok('X'));
    assert_eq!(game.number_of_players(), 1);
    assert_eq!(game.symbol_of("a"), Some('X'));
    assert_eq!(game.add_player(String::from("b")), Ok('O'));
    assert_eq!(game.add_player(String::from("b")), Err(GameError::GameFull));
    assert_eq!(game.number_of_players(), 2);
    assert_eq!(game.symbol_of("a"), Some('X'));
    assert_eq!(game.symbol_of("b"), Some('O'));
}

#[test]
fn the_player_left_behind_is_told_x_when_it_asks_again() {
    let mut game = two_players();
    assert_eq!(game.remove_player("a"), Ok(()));
    assert_eq!(game.add_player(String::from("b")), Ok('X'));
    assert_eq!(game.number_of_players(), 1);
    assert_eq!(game.add_player(String::from("c")), Ok('O'));
    assert_eq!(game.symbol_of("b"), Some('X'));
    assert_eq!(game.symbol_of("c"), Some('O'));
}

#[test]
fn the_line_checks_answer_for_the_board_as_it_stands() {
    let mut game = two_players();
    play(&mut game, &[1, 4, 2, 5]);
    assert!(!game.is_winner("a"));
    assert!(!game.is_winner("b"));
    assert!(!game.is_winner("nobody"));
    assert!(!game.board_is_filled());
    assert!(!game.win_by_horizontal('X'));
    assert!(!game.win_by_vertical('X'));
    assert!(!game.win_by_principal_diagonal('X'));
    assert!(!game.win_by_secondary_diagonal('X'));
    // X X .
    // O O .
    // . . .   the bottom row and the right column hold blanks throughout.
    assert!(game.win_by_horizontal(' '));
    assert!(game.win_by_vertical(' '));
    assert!(!game.win_by_principal_diagonal(' '));
    assert!(!game.win_by_secondary_diagonal(' '));
}

#[test]
fn removing_an_unknown_player_is_refused() {
    let mut game = two_players();
    assert_eq!(game.remove_player("nobody"), Err(GameError::PlayerNotFound));
    assert_eq!(game.number_of_players(), 2);
}

#[test]
fn the_player_left_behind_gets_x_on_a_clear_board() {
    let mut game = two_players();
    play(&mut game, &[1, 2, 3]);
    assert_eq!(game.current_turn(), 'O');
    assert_eq!(game.remove_player("a"), Ok(()));
    assert_eq!(game.number_of_players(), 1);
    assert_eq!(game.symbol_of("b"), Some('X'));
    assert_eq!(game.symbol_of("a"), None);
    assert_eq!(game.current_turn(), 'X');
    assert_board_is_blank(&game);
    assert_eq!(game.make_move("b", 0, 0), ResultOfTheMove::MarkedCell('X'));
}

#[test]
fn removing_the_last_player_leaves_the_board_alone() {
    let mut game = Game::new();
    assert_eq!(game.add_player(String::from("a")), Ok('X'));
    assert_eq!(game.make_move("a", 1, 1), ResultOfTheMove::MarkedCell('X'));
    assert_eq!(game.remove_player("a"), Ok(()));
    assert_eq!(game.number_of_players(), 0);
    assert_eq!(game.cell(1, 1), 'X');
    assert_eq!(game.current_turn(), 'O');
}

#[test]
fn a_vacated_seat_is_filled_with_o() {
    let mut game = two_players();
    assert_eq!(game.remove_player("a"), Ok(()));
    assert_eq!(game.add_player(String::from("c")), Ok('O'));
    assert_eq!(game.symbol_of("b"), Some('X'));
    assert_eq!(game.symbol_of("c"), Some('O'));
}

#[test]
fn a_move_marks_the_cell_and_passes_the_turn() {
    let mut game = two_players();
    assert_eq!(game.make_move("a", 1, 2), ResultOfTheMove::MarkedCell('X'));
    assert_eq!(game.cell(1, 2), 'X');
    assert_eq!(game.current_turn(), 'O');
    assert_eq!(game.make_move("b", 0, 0), ResultOfTheMove::MarkedCell('O'));
    assert_eq!(game.cell(0, 0), 'O');
    assert_eq!(game.current_turn(), 'X');
}

#[test]
fn a_taken_cell_is_refused() {
    let mut game = two_players();
    assert_eq!(game.make_move("a", 0, 0), ResultOfTheMove::MarkedCell('X'));
    assert_eq!(
        game.make_move("b", 0, 0),
        ResultOfTheMove::Error(GameError::CellOccupied)
    );
    assert_eq!(game.cell(0, 0), 'X');
    assert_eq!(game.current_turn(), 'O');
}

#[test]
fn a_taken_cell_is_reported_before_an_unknown_player() {
    let mut game = two_players();
    assert_eq!(game.make_move("a", 0, 0), ResultOfTheMove::MarkedCell('X'));
    assert_eq!(
        game.make_move("nobody", 0, 0),
        ResultOfTheMove::Error(GameError::CellOccupied)
    );
    assert_eq!(
        game.make_move("nobody", 0, 1),
        ResultOfTheMove::Error(GameError::PlayerNotFound)
    );
}

#[test]
fn a_move_out_of_turn_is_refused() {
    let mut game = two_players();
    assert_eq!(
        game.make_move("b", 0, 0),
        ResultOfTheMove::Error(GameError::NotYourTurn)
    );
    assert_eq!(game.cell(0, 0), ' ');
    assert_eq!(game.make_move("a", 0, 0), ResultOfTheMove::MarkedCell('X'));
    assert_eq!(
        game.make_move("a", 0, 1),
        ResultOfTheMove::Error(GameError::NotYourTurn)
    );
}

#[test]
fn top_row_wins() {
    assert_line_wins_for_x([1, 2, 3], [4, 5]);
}

#[test]
fn middle_row_wins() {
    assert_line_wins_for_x([4, 5, 6], [1, 2]);
}

#[test]
fn bottom_row_wins() {
    assert_line_wins_for_x([7, 8, 9], [1, 2]);
}

#[test]
fn left_column_wins() {
    assert_line_wins_for_x([1, 4, 7], [2, 3]);
}

#[test]
fn middle_column_wins() {
    assert_line_wins_for_x([2, 5, 8], [1, 3]);
}

#[test]
fn right_column_wins() {
    assert_line_wins_for_x([3, 6, 9], [1, 2]);
}

#[test]
fn principal_diagonal_wins() {
    assert_line_wins_for_x([1, 5, 9], [2, 3]);
}

#[test]
fn secondary_diagonal_wins() {
    assert_line_wins_for_x([3, 5, 7], [1, 2]);
}

#[test]
fn o_can_win_too() {
    let mut game = two_players();
    let outcomes = play(&mut game, &[1, 4, 2, 5, 9, 6]);
    assert_eq!(outcomes[5], ResultOfTheMove::Win('O'));
    assert_board_is_blank(&game);
    assert_eq!(game.current_turn(), 'X');
}

#[test]
fn a_move_that_completes_two_lines_wins_once() {
    let mut game = two_players();
    // X X X
    // X O O
    // X O O   with the corner 1 taken last: the top row and the left column
    // are complete at once.
    let outcomes = play(&mut game, &[2, 5, 3, 6, 4, 8, 7, 9, 1]);
    for outcome in &outcomes[..8] {
        assert!(matches!(outcome, ResultOfTheMove::MarkedCell(_)));
    }
    assert_eq!(outcomes[8], ResultOfTheMove::Win('X'));
    assert_board_is_blank(&game);
}

#[test]
fn a_full_board_without_a_line_is_a_draw() {
    let mut game = two_players();
    // X O X
    // X O O
    // O X X
    let outcomes = play(&mut game, &[1, 2, 3, 5, 4, 6, 8, 7, 9]);
    for outcome in &outcomes[..8] {
        assert!(matches!(outcome, ResultOfTheMove::MarkedCell(_)));
    }
    assert_eq!(outcomes[8], ResultOfTheMove::Draw);
    assert_board_is_blank(&game);
    assert_eq!(game.current_turn(), 'X');
    assert_eq!(game.number_of_players(), 2);
}

#[test]
fn the_last_cell_can_win_instead_of_drawing() {
    let mut game = two_players();
    // X O X
    // O O X
    // O X X   with the corner 9 taken last: the board is full, and the right
    // column is complete.
    let outcomes = play(&mut game, &[1, 2, 3, 4, 6, 5, 8, 7, 9]);
    for outcome in &outcomes[..8] {
        assert!(matches!(outcome, ResultOfTheMove::MarkedCell(_)));
    }
    assert_eq!(outcomes[8], ResultOfTheMove::Win('X'));
    assert_board_is_blank(&game);
}

#[test]
fn after_a_win_the_next_round_starts_on_a_clear_board() {
    let mut game = two_players();
    let outcomes = play(&mut game, &[1, 4, 2, 5, 3]);
    assert_eq!(outcomes[4], ResultOfTheMove::Win('X'));
    assert_eq!(game.make_move("a", 0, 0), ResultOfTheMove::MarkedCell('X'));
    assert_eq!(game.make_move("b", 1, 0), ResultOfTheMove::MarkedCell('O'));
}

#[test]
fn a_lone_player_can_open_the_round() {
    let mut game = Game::new();
    assert_eq!(game.add_player(String::from("a")), Ok('X'));
    assert_eq!(game.make_move("a", 0, 0), ResultOfTheMove::MarkedCell('X'));
    assert_eq!(
        game.make_move("a", 0, 1),
        ResultOfTheMove::Error(GameError::NotYourTurn)
    );
}

#[test]
fn engine_errors_have_their_texts() {
    assert_eq!(GameError::CellOccupied.message(), "Esta célula já foi preenchida");
    assert_eq!(GameError::NotYourTurn.message(), "Não é sua vez de jogar");
    assert_eq!(
        GameError::PlayerNotFound.message(),
        "Não existe nenhum player com esse ID no jogo"
    );
    assert_eq!(GameError::GameFull.message(), "O jogo está completo");
}
