use four_in_a_row::contract::join_queue;
use four_in_a_row::Contract;
use four_in_a_row::session::GameError;
use std::collections::VecDeque;

fn name(text: &str) -> String {
    text.to_string()
}

fn waiting(contract: &Contract) -> Vec<String> {
    contract.player_queue().iter().cloned().collect()
}

fn lobby_with_game() -> (Contract, u32) {
    let mut contract = Contract::new();
    assert!(contract.queue(name("bob")).unwrap().is_none(), "no game yet");
    let game = contract.queue(name("charlie")).unwrap().expect("game created");
    (contract, game.identifier())
}

#[test]
fn should_queue_and_create_game() {
    let mut contract = Contract::new();
    assert!(
        contract.queue(name("bob")).unwrap().is_none(),
        "as we are the first we should have no game to play"
    );
    let game = contract.queue(name("charlie")).unwrap();
    assert!(game.is_some(), "we would now have a game as we have two players");
    assert_eq!(
        game.unwrap().players(),
        &vec![name("bob"), name("charlie")],
        "we are expecting the players in the new game"
    );
    assert!(
        contract.queue(name("charlie")).unwrap().is_none(),
        "as the queue was cleared we are the first again and we should have no game to play"
    );
}

#[test]
fn should_not_be_able_to_play_turn_twice() {
    let (mut contract, identifier) = lobby_with_game();
    // Player 1
    assert_eq!(contract.play(identifier, &name("bob"), 1), Ok(None));
    // Player 2
    assert_eq!(contract.play(identifier, &name("charlie"), 1), Ok(None));
    // Player 1
    assert_eq!(contract.play(identifier, &name("bob"), 1), Ok(None));
    // Try to play again
    let refused = contract.play(identifier, &name("bob"), 1);
    assert_eq!(refused, Err(GameError::NotPlayersTurn));
    assert_eq!(refused.unwrap_err().message(), "not player's turn");
}

#[test]
fn should_prevent_invalid_plays() {
    let (mut contract, identifier) = lobby_with_game();
    for _ in 0..3 {
        // Player 1
        assert_eq!(contract.play(identifier, &name("bob"), 1), Ok(None));
        // Player 2
        assert_eq!(contract.play(identifier, &name("charlie"), 1), Ok(None));
    }
    // Player 1
    // This would be a filled column 1
    let refused = contract.play(identifier, &name("bob"), 1);
    assert_eq!(refused, Err(GameError::InvalidMove));
    assert_eq!(refused.unwrap_err().message(), "invalid turn played");
    let game = contract.get_game(identifier).unwrap();
    assert_eq!(game.board()[1], [2, 1, 2, 1, 2, 1]);
    assert_eq!(game.next_player(), 1);
}

#[test]
fn should_win_game_and_prevent_further_plays() {
    let (mut contract, identifier) = lobby_with_game();
    // Player 1: one..
    assert_eq!(contract.play(identifier, &name("bob"), 1), Ok(None));
    assert_eq!(contract.play(identifier, &name("charlie"), 2), Ok(None));
    // Two..
    assert_eq!(contract.play(identifier, &name("bob"), 1), Ok(None));
    assert_eq!(contract.play(identifier, &name("charlie"), 3), Ok(None));
    // Three..
    assert_eq!(contract.play(identifier, &name("bob"), 1), Ok(None));
    assert_eq!(contract.play(identifier, &name("charlie"), 4), Ok(None));
    // Four..win!
    assert_eq!(
        contract.play(identifier, &name("bob"), 1),
        Ok(Some(name("bob"))),
        "player one should have won"
    );
    // Player 2 sends their turn
    let refused = contract.play(identifier, &name("charlie"), 1);
    assert_eq!(refused, Err(GameError::GameAlreadyCompleted));
    assert_eq!(refused.unwrap_err().message(), "the game has completed");
}

#[test]
fn two_players_are_paired_and_take_turns() {
    let a = name("a.near");
    let b = name("b.near");
    let mut contract = Contract::new();
    assert!(contract.queue(a.clone()).unwrap().is_none());
    assert_eq!(waiting(&contract), vec![a.clone()]);

    let game = contract.queue(b.clone()).unwrap().expect("a game for two");
    assert_eq!(game.players(), &vec![a.clone(), b.clone()]);
    assert_eq!(game.next_player(), 1);
    assert_eq!(game.identifier(), 1);
    assert!(waiting(&contract).is_empty());

    assert_eq!(contract.play(1, &a, 0), Ok(None));
    let game = contract.get_game(1).unwrap();
    assert_eq!(game.board()[0][5], 1);
    assert_eq!(game.next_player(), 2);

    assert_eq!(contract.play(1, &b, 0), Ok(None));
    let game = contract.get_game(1).unwrap();
    assert_eq!(game.board()[0], [0, 0, 0, 0, 2, 1]);
    assert_eq!(game.next_player(), 1);
    assert_eq!(game.winner(), None);

    assert_eq!(contract.play(1, &a, 0), Ok(None));
    assert_eq!(contract.play(1, &a, 0), Err(GameError::NotPlayersTurn));
    assert_eq!(contract.play(1, &a, 0), Err(GameError::NotPlayersTurn));
    assert_eq!(contract.get_game(1).unwrap().board()[0], [0, 0, 0, 1, 2, 1]);
}

#[test]
fn four_drops_into_the_first_column_win_the_game() {
    let a = name("a.near");
    let b = name("b.near");
    let mut contract = Contract::new();
    contract.queue(a.clone()).unwrap();
    contract.queue(b.clone()).unwrap();
    for column in 1..4 {
        assert_eq!(contract.play(1, &a, 0), Ok(None));
        assert_eq!(contract.play(1, &b, column), Ok(None));
        assert_eq!(contract.is_finished(1), Ok(None));
    }
    assert_eq!(contract.play(1, &a, 0), Ok(Some(a.clone())));
    assert_eq!(contract.is_finished(1), Ok(Some(a.clone())));
    assert_eq!(contract.get_game(1).unwrap().winner(), Some(a.clone()));
    assert_eq!(contract.play(1, &b, 1), Err(GameError::GameAlreadyCompleted));
    assert_eq!(contract.play(1, &a, 1), Err(GameError::GameAlreadyCompleted));
    assert_eq!(contract.is_finished(1), Ok(Some(a)));
}

#[test]
fn a_new_lobby_is_empty() {
    let contract = Contract::new();
    assert_eq!(contract.game_counter(), 0);
    assert!(contract.player_queue().is_empty());
    assert!(contract.get_game(0).is_none());
    assert!(contract.get_game(1).is_none());
}

#[test]
fn nobody_waits_twice() {
    let mut contract = Contract::new();
    assert!(contract.queue(name("bob")).unwrap().is_none());
    assert_eq!(waiting(&contract), vec![name("bob")]);
    // with two seats the one who waits fills the game by asking again
    let game = contract.queue(name("bob")).unwrap().unwrap();
    assert_eq!(game.players(), &vec![name("bob"), name("bob")]);
    assert!(waiting(&contract).is_empty());
    assert!(contract.queue(name("bob")).unwrap().is_none());
    assert_eq!(waiting(&contract), vec![name("bob")]);
    assert_eq!(contract.game_counter(), 1);
}

#[test]
fn pairing_takes_the_front_of_a_longer_queue() {
    let mut queue = VecDeque::from(vec![name("alice"), name("bob")]);
    let mut counter = 0;
    // a queue this long does not come about in a lobby; the pairing takes its front
    let game = join_queue(&mut queue, &mut counter, name("charlie")).unwrap().unwrap();
    assert_eq!(game.players(), &vec![name("alice"), name("charlie")]);
    assert_eq!(queue, VecDeque::from(vec![name("bob")]));
    assert_eq!(counter, 1);

    let mut queue: VecDeque<String> = VecDeque::new();
    assert!(join_queue(&mut queue, &mut counter, name("dan")).unwrap().is_none());
    assert!(join_queue(&mut queue, &mut counter, name("dan")).unwrap().is_some());
    assert_eq!(counter, 2);
    assert!(queue.is_empty());
}

#[test]
fn pairing_seats_those_who_waited_first() {
    let mut contract = Contract::new();
    let arrivals = ["alice", "bob", "charlie", "danny", "eugene", "fargo"];
    for (i, who) in arrivals.iter().enumerate() {
        let game = contract.queue(name(who)).unwrap();
        if i % 2 == 0 {
            assert!(game.is_none());
            assert_eq!(waiting(&contract), vec![name(who)]);
        } else {
            let game = game.unwrap();
            assert_eq!(game.players(), &vec![name(arrivals[i - 1]), name(who)]);
            assert_eq!(game.identifier(), (i as u32 + 1) / 2);
            assert_eq!(game.next_player(), 1);
            assert_eq!(game.winner(), None);
            assert_eq!(game.board(), [[0; 6]; 7]);
            assert!(waiting(&contract).is_empty());
        }
    }
    assert_eq!(contract.game_counter(), 3);
    for identifier in 1..=3 {
        let game = contract.get_game(identifier).unwrap();
        assert_eq!(game.identifier(), identifier);
        assert_eq!(game.players()[0], arrivals[2 * (identifier as usize - 1)]);
    }
    assert!(contract.get_game(4).is_none());
}

#[test]
fn the_counter_does_not_wrap_round() {
    let mut queue = VecDeque::from(vec![name("alice")]);
    let mut counter = u32::MAX;
    let refused = join_queue(&mut queue, &mut counter, name("bob"));
    assert_eq!(refused.err(), Some(GameError::IdentifiersExhausted));
    assert_eq!(queue, VecDeque::from(vec![name("alice")]));
    assert_eq!(counter, u32::MAX);

    let mut counter = u32::MAX - 1;
    let game = join_queue(&mut queue, &mut counter, name("bob")).unwrap().unwrap();
    assert_eq!(game.identifier(), u32::MAX);
    assert_eq!(counter, u32::MAX);
    assert!(queue.is_empty());
}

#[test]
fn a_game_that_is_not_there_is_reported() {
    let (mut contract, identifier) = lobby_with_game();
    assert_eq!(identifier, 1);
    assert_eq!(contract.play(0, &name("bob"), 0), Err(GameError::GameNotFound));
    assert_eq!(contract.play(2, &name("bob"), 0), Err(GameError::GameNotFound));
    assert_eq!(contract.is_finished(0), Err(GameError::GameNotFound));
    assert_eq!(contract.is_finished(2), Err(GameError::GameNotFound));
    assert_eq!(contract.is_finished(u32::MAX), Err(GameError::GameNotFound));
    assert!(contract.get_game(2).is_none());
    assert_eq!(contract.is_finished(1), Ok(None));
    assert_eq!(contract.get_game(1).unwrap().next_player(), 1);
}

#[test]
fn the_games_of_a_lobby_do_not_touch_each_other() {
    let mut contract = Contract::new();
    for who in ["alice", "bob", "charlie", "danny"] {
        contract.queue(name(who)).unwrap();
    }
    assert_eq!(contract.play(2, &name("charlie"), 3), Ok(None));
    assert_eq!(contract.play(2, &name("alice"), 3), Err(GameError::PlayerNotInGame));
    assert_eq!(contract.play(1, &name("danny"), 3), Err(GameError::PlayerNotInGame));
    assert_eq!(contract.play(1, &name("alice"), 7), Err(GameError::InvalidColumn));
    assert_eq!(contract.get_game(1).unwrap().board(), [[0; 6]; 7]);
    assert_eq!(contract.get_game(1).unwrap().next_player(), 1);
    assert_eq!(contract.get_game(2).unwrap().board()[3][5], 1);
    assert_eq!(contract.get_game(2).unwrap().next_player(), 2);
}

#[test]
fn one_who_asks_while_waiting_alone_is_paired_with_nobody_else() {
    // two seats and one waiting: whoever asks next fills the game, also the one who waits
    let mut queue = VecDeque::from(vec![name("alice")]);
    let mut counter = 4;
    let game = join_queue(&mut queue, &mut counter, name("alice")).unwrap().unwrap();
    assert_eq!(game.players(), &vec![name("alice"), name("alice")]);
    assert_eq!(game.identifier(), 5);
}
