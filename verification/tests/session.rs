use four_in_a_row::session::{Game, GameError};

fn name(text: &str) -> String {
    text.to_string()
}

fn new_game() -> Game {
    Game::new(1, vec![name("alice"), name("bob")]).unwrap()
}

#[test]
fn a_new_game_has_the_first_seat_to_move() {
    let game = Game::new(17, vec![name("alice"), name("bob")]).unwrap();
    assert_eq!(game.identifier(), 17);
    assert_eq!(game.players(), &vec![name("alice"), name("bob")]);
    assert_eq!(game.next_player(), 1);
    assert_eq!(game.winner(), None);
    assert_eq!(game.board(), [[0; 6]; 7]);
}

#[test]
fn a_game_needs_as_many_participants_as_seats() {
    assert!(Game::new(1, vec![]).is_none());
    assert!(Game::new(1, vec![name("alice")]).is_none());
    assert!(Game::new(1, vec![name("alice"), name("bob"), name("charlie")]).is_none());
    assert!(Game::new(1, vec![name("alice"), name("alice")]).is_some());
}

#[test]
fn the_turn_goes_round_the_seats() {
    let mut game = new_game();
    let movers = [name("alice"), name("bob")];
    for turn in 0..12u8 {
        assert_eq!(game.next_player(), turn % 2 + 1);
        let mover = &movers[(turn % 2) as usize];
        assert_eq!(game.play_turn(mover, turn % 6), Ok(None));
    }
    assert_eq!(game.next_player(), 1);
}

#[test]
fn increment_turn_wraps_after_the_last_seat() {
    let mut game = new_game();
    assert_eq!(game.next_player(), 1);
    game.increment_turn();
    assert_eq!(game.next_player(), 2);
    game.increment_turn();
    assert_eq!(game.next_player(), 1);
}

#[test]
fn a_stranger_cannot_move() {
    let mut game = new_game();
    assert_eq!(game.play_turn(&name("charlie"), 0), Err(GameError::PlayerNotInGame));
    assert_eq!(game.next_player(), 1);
    assert_eq!(game.board(), [[0; 6]; 7]);
    assert_eq!(game.find_player(&name("charlie")), None);
    assert_eq!(game.find_player(&name("alice")), Some(0));
    assert_eq!(game.find_player(&name("bob")), Some(1));
}

#[test]
fn nobody_moves_out_of_turn() {
    let mut game = new_game();
    assert_eq!(game.play_turn(&name("bob"), 0), Err(GameError::NotPlayersTurn));
    assert_eq!(game.play_turn(&name("alice"), 0), Ok(None));
    let board = game.board();
    assert_eq!(game.play_turn(&name("alice"), 0), Err(GameError::NotPlayersTurn));
    assert_eq!(game.next_player(), 2);
    assert_eq!(game.board(), board);
}

#[test]
fn a_move_outside_the_board_is_refused() {
    let mut game = new_game();
    assert_eq!(game.play_turn(&name("alice"), 7), Err(GameError::InvalidColumn));
    assert_eq!(game.next_player(), 1);
    assert_eq!(game.board(), [[0; 6]; 7]);
    // the turn is looked at before the column
    assert_eq!(game.play_turn(&name("bob"), 7), Err(GameError::NotPlayersTurn));
}

#[test]
fn a_move_into_a_full_column_is_refused() {
    let mut game = new_game();
    let movers = [name("alice"), name("bob")];
    for turn in 0..6 {
        assert_eq!(game.play_turn(&movers[turn % 2], 5), Ok(None));
    }
    let board = game.board();
    assert_eq!(game.play_turn(&name("alice"), 5), Err(GameError::InvalidMove));
    assert_eq!(game.next_player(), 1);
    assert_eq!(game.winner(), None);
    assert_eq!(game.board(), board);
    assert_eq!(game.play_turn(&name("alice"), 4), Ok(None));
}

#[test]
fn the_fourth_marker_in_a_column_wins_and_ends_the_game() {
    let mut game = new_game();
    for column in 1..4 {
        assert_eq!(game.play_turn(&name("alice"), 0), Ok(None));
        assert_eq!(game.play_turn(&name("bob"), column), Ok(None));
    }
    assert_eq!(game.winner(), None);
    assert_eq!(game.play_turn(&name("alice"), 0), Ok(Some(name("alice"))));
    assert_eq!(game.winner(), Some(name("alice")));
    assert_eq!(game.next_player(), 2);
    let board = game.board();
    assert_eq!(board[0], [0, 0, 1, 1, 1, 1]);

    assert_eq!(game.play_turn(&name("bob"), 1), Err(GameError::GameAlreadyCompleted));
    assert_eq!(game.play_turn(&name("alice"), 1), Err(GameError::GameAlreadyCompleted));
    assert_eq!(game.play_turn(&name("charlie"), 9), Err(GameError::GameAlreadyCompleted));
    assert_eq!(game.check_winner(), Some(name("alice")));
    assert_eq!(game.check_winner(), Some(name("alice")));
    assert_eq!(game.winner(), Some(name("alice")));
    assert_eq!(game.next_player(), 2);
    assert_eq!(game.board(), board);
}

#[test]
fn the_second_seat_can_win() {
    let mut game = new_game();
    assert_eq!(game.play_turn(&name("alice"), 6), Ok(None));
    for column in 0..3 {
        assert_eq!(game.play_turn(&name("bob"), column), Ok(None));
        assert_eq!(game.play_turn(&name("alice"), column), Ok(None));
    }
    assert_eq!(game.play_turn(&name("bob"), 3), Ok(Some(name("bob"))));
    assert_eq!(game.winner(), Some(name("bob")));
}

#[test]
fn check_winner_leaves_an_open_game_open() {
    let mut game = new_game();
    assert_eq!(game.check_winner(), None);
    assert_eq!(game.play_turn(&name("alice"), 3), Ok(None));
    assert_eq!(game.check_winner(), None);
    assert_eq!(game.winner(), None);
    assert_eq!(game.next_player(), 2);
}

#[test]
fn check_winner_records_what_the_board_shows() {
    let mut board = [[0; 6]; 7];
    for column in 2..6 {
        board[column][5] = 2;
    }
    let mut game =
        Game::from_parts(3, vec![name("alice"), name("bob")], 1, None, board).unwrap();
    assert_eq!(game.winner(), None);
    assert_eq!(game.check_winner(), Some(name("bob")));
    assert_eq!(game.winner(), Some(name("bob")));
    assert_eq!(game.play_turn(&name("alice"), 0), Err(GameError::GameAlreadyCompleted));
}

#[test]
fn the_winner_is_set_once() {
    let mut game = new_game();
    game.set_winner(name("bob"));
    assert_eq!(game.winner(), Some(name("bob")));
    game.set_winner(name("alice"));
    assert_eq!(game.winner(), Some(name("bob")));
    assert_eq!(game.play_turn(&name("alice"), 0), Err(GameError::GameAlreadyCompleted));
    assert_eq!(game.check_winner(), Some(name("bob")));
}

#[test]
fn one_who_holds_both_seats_moves_for_the_first_only() {
    let mut game = Game::new(1, vec![name("alice"), name("alice")]).unwrap();
    assert_eq!(game.find_player(&name("alice")), Some(0));
    assert_eq!(game.play_turn(&name("alice"), 0), Ok(None));
    assert_eq!(game.play_turn(&name("alice"), 0), Err(GameError::NotPlayersTurn));
}

#[test]
fn a_game_is_restored_from_its_parts() {
    let mut board = [[0; 6]; 7];
    board[2][5] = 1;
    let players = vec![name("alice"), name("bob")];
    let game = Game::from_parts(9, players.clone(), 2, None, board).unwrap();
    assert_eq!(game.identifier(), 9);
    assert_eq!(game.players(), &players);
    assert_eq!(game.next_player(), 2);
    assert_eq!(game.winner(), None);
    assert_eq!(game.board(), board);
    let won = Game::from_parts(9, players.clone(), 1, Some(name("bob")), board).unwrap();
    assert_eq!(won.winner(), Some(name("bob")));

    assert!(Game::from_parts(9, vec![name("alice")], 2, None, board).is_none());
    assert!(Game::from_parts(9, players.clone(), 0, None, board).is_none());
    assert!(Game::from_parts(9, players.clone(), 3, None, board).is_none());
    board[2][5] = 0;
    board[2][4] = 1;
    assert!(Game::from_parts(9, players, 2, None, board).is_none());
}

#[test]
fn a_copy_is_a_game_of_its_own() {
    let mut game = new_game();
    assert_eq!(game.play_turn(&name("alice"), 2), Ok(None));
    let copy = game.clone();
    assert_eq!(game.play_turn(&name("bob"), 2), Ok(None));
    assert_eq!(copy.identifier(), 1);
    assert_eq!(copy.players(), game.players());
    assert_eq!(copy.next_player(), 2);
    assert_eq!(copy.board()[2], [0, 0, 0, 0, 0, 1]);
    assert_eq!(game.board()[2], [0, 0, 0, 0, 2, 1]);
}

#[test]
fn each_error_says_what_went_wrong() {
    assert_eq!(GameError::GameNotFound.message(), "game does not exist");
    assert_eq!(GameError::GameAlreadyCompleted.message(), "the game has completed");
    assert_eq!(GameError::PlayerNotInGame.message(), "player to be in game");
    assert_eq!(GameError::NotPlayersTurn.message(), "not player's turn");
    assert_eq!(GameError::InvalidMove.message(), "invalid turn played");
    assert_eq!(GameError::InvalidColumn.message(), "column is not on the board");
    assert_eq!(GameError::IdentifiersExhausted.message(), "no game identifier is left");
}
