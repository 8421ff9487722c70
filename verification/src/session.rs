//! One game in play: the participants in seat order, the marker whose turn
//! is next, the winner once there is one, and the board.
//!
//! A session is `Open` while no winner is recorded and `Won` from then on.
//! The rules of play are the functions `played` and `settled_game` on the
//! session's view; the methods of `Game` carry them out.

use vstd::prelude::*;
use crate::connect_four;
use crate::connect_four::{
    drop_piece,
    grid_of,
    settled,
    well_shaped,
    winner_of,
    Board,
    Column,
    MoveError,
    NUMBER_OF_PLAYERS,
};

verus! {

/// The number that tells one game from every other.
pub type Identifier = u32;

/// Why a request was turned down. Whatever the reason, the session and the
/// lobby stay as they were.
#[derive(Clone, Copy, Debug, PartialEq, Eq, Structural)]
pub enum GameError {
    /// No game is registered under the identifier.
    GameNotFound,
    /// A winner is recorded: the game takes no further move.
    GameAlreadyCompleted,
    /// The one who wants to move takes no part in the game.
    PlayerNotInGame,
    /// It is another participant's turn.
    NotPlayersTurn,
    /// The column is full.
    InvalidMove,
    /// The column lies outside the board.
    InvalidColumn,
    /// Every identifier has been handed out: no further game can be made.
    IdentifiersExhausted,
}

/// What an error says in words.
pub open spec fn message_of(error: GameError) -> Seq<char> {
    match error {
        GameError::GameNotFound => "game does not exist"@,
        GameError::GameAlreadyCompleted => "the game has completed"@,
        GameError::PlayerNotInGame => "player to be in game"@,
        GameError::NotPlayersTurn => "not player's turn"@,
        GameError::InvalidMove => "invalid turn played"@,
        GameError::InvalidColumn => "column is not on the board"@,
        GameError::IdentifiersExhausted => "no game identifier is left"@,
    }
}

impl GameError {
    /// The error in words.
    pub fn message(&self) -> (text: String)
        ensures
            text@ == message_of(*self),
    {
        match self {
            GameError::GameNotFound => "game does not exist".to_owned(),
            GameError::GameAlreadyCompleted => "the game has completed".to_owned(),
            GameError::PlayerNotInGame => "player to be in game".to_owned(),
            GameError::NotPlayersTurn => "not player's turn".to_owned(),
            GameError::InvalidMove => "invalid turn played".to_owned(),
            GameError::InvalidColumn => "column is not on the board".to_owned(),
            GameError::IdentifiersExhausted => "no game identifier is left".to_owned(),
        }
    }
}

/// What a session is, as plain values.
pub struct GameView {
    /// The identifier of the game.
    pub identifier: Identifier,
    /// The participants by seat: the first holds marker `1`.
    pub players: Seq<Seq<char>>,
    /// The marker whose turn is next.
    pub next_player: u8,
    /// The winner's identity, once the game is won.
    pub winner: Option<Seq<char>>,
    /// The board, by column and row.
    pub board: Seq<Seq<u8>>,
}

impl GameView {
    /// The standing invariant of a session: every seat is taken, the turn
    /// is some seat's, and the board is a board that obeys gravity.
    pub open spec fn wf(self) -> bool {
        &&& self.players.len() == NUMBER_OF_PLAYERS
        &&& 1 <= self.next_player <= NUMBER_OF_PLAYERS
        &&& well_shaped(self.board)
        &&& settled(self.board)
    }
}

/// The identities that a list of names stands for.
pub open spec fn names(ids: Seq<String>) -> Seq<Seq<char>> {
    ids.map_values(|id: String| id@)
}

/// The identity that an optional name stands for.
pub open spec fn name_of(id: Option<String>) -> Option<Seq<char>> {
    match id {
        Some(name) => Some(name@),
        None => None,
    }
}

/// The game that `players` start under `identifier`: the board is empty,
/// nobody has won, and the first seat is to move.
pub open spec fn new_game(identifier: Identifier, players: Seq<Seq<char>>) -> GameView {
    GameView {
        identifier,
        players,
        next_player: 1,
        winner: None,
        board: connect_four::empty_grid(),
    }
}

/// The first seat from `from` on that `who` holds, counted from `0`.
pub open spec fn seat_from(players: Seq<Seq<char>>, who: Seq<char>, from: int) -> Option<int>
    decreases players.len() - from,
{
    if from < 0 || from >= players.len() {
        None
    } else if players[from] == who {
        Some(from)
    } else {
        seat_from(players, who, from + 1)
    }
}

/// The first seat that `who` holds, counted from `0`.
pub open spec fn seat_of(players: Seq<Seq<char>>, who: Seq<char>) -> Option<int> {
    seat_from(players, who, 0)
}

/// The marker that moves after `marker`: the next one, and `1` after the
/// last.
pub open spec fn next_turn(marker: u8) -> u8 {
    if marker >= NUMBER_OF_PLAYERS {
        1
    } else {
        (marker + 1) as u8
    }
}

/// The session after a look at its board. A session that is won stays as it
/// is. An open one whose board shows a winner records the identity in the
/// winner's seat; otherwise it stays open.
pub open spec fn settled_game(game: GameView) -> GameView {
    if game.winner is Some {
        game
    } else {
        match winner_of(game.board) {
            Some(marker) => GameView { winner: Some(game.players[marker - 1]), ..game },
            None => game,
        }
    }
}

/// The session after `mover` has played `column`, or the reason why the
/// move is refused. The checks come in this order: the game is open, the
/// mover takes part in it, it is the mover's turn, the board takes the
/// marker. An accepted move passes the turn on and records the winner if
/// the board now shows one.
pub open spec fn played(game: GameView, mover: Seq<char>, column: Column) -> Result<
    GameView,
    GameError,
> {
    if game.winner is Some {
        Err(GameError::GameAlreadyCompleted)
    } else {
        match seat_of(game.players, mover) {
            None => Err(GameError::PlayerNotInGame),
            Some(seat) => if seat + 1 != game.next_player {
                Err(GameError::NotPlayersTurn)
            } else {
                match drop_piece(game.board, column as int, game.next_player) {
                    Err(MoveError::InvalidColumn) => Err(GameError::InvalidColumn),
                    Err(MoveError::ColumnFull) => Err(GameError::InvalidMove),
                    Ok(board) => Ok(
                        settled_game(
                            GameView { board, next_player: next_turn(game.next_player), ..game },
                        ),
                    ),
                }
            },
        }
    }
}

/// A session in orderly play: it is sound, and it is won exactly when its
/// board shows a winner. A new game is in orderly play, and moves and looks
/// at the board keep a session so.
pub open spec fn in_play(game: GameView) -> bool {
    &&& game.wf()
    &&& game.winner is Some <==> winner_of(game.board) is Some
}

/// The session after the moves of `moves`, each given as mover and column,
/// asked for one after the other. A move that is refused leaves the session
/// as it is.
pub open spec fn play_all(game: GameView, moves: Seq<(Seq<char>, Column)>) -> GameView
    decreases moves.len(),
{
    if moves.len() == 0 {
        game
    } else {
        let before = play_all(game, moves.drop_last());
        match played(before, moves.last().0, moves.last().1) {
            Ok(after) => after,
            Err(_) => before,
        }
    }
}

/// How many of the moves of `moves`, asked for one after the other, are
/// accepted.
pub open spec fn accepted(game: GameView, moves: Seq<(Seq<char>, Column)>) -> nat
    decreases moves.len(),
{
    if moves.len() == 0 {
        0
    } else {
        let before = play_all(game, moves.drop_last());
        accepted(game, moves.drop_last()) + if played(before, moves.last().0, moves.last().1)
            is Ok {
            1nat
        } else {
            0nat
        }
    }
}

/// The marker that is to move once the turn has been passed on `moves`
/// times from `start`.
pub open spec fn turn_after(start: u8, moves: nat) -> u8
    decreases moves,
{
    if moves == 0 {
        start
    } else {
        next_turn(turn_after(start, (moves - 1) as nat))
    }
}

/// A game of four in a row between the participants of one pairing.
pub struct Game {
    /// An identifier for this game
    identifier: Identifier,
    /// Players in the game
    players: Vec<String>,
    /// Next player
    next_player: u8,
    /// The winner of the game
    winner: Option<String>,
    /// The game logic
    engine: connect_four::Game,
}

impl View for Game {
    type V = GameView;

    closed spec fn view(&self) -> GameView {
        GameView {
            identifier: self.identifier,
            players: names(self.players@),
            next_player: self.next_player,
            winner: name_of(self.winner),
            board: self.engine@,
        }
    }
}

impl Game {
    /// A new game between `players`, in seat order, on an empty board, with
    /// the first seat to move. A list that does not fill the seats exactly
    /// makes no game.
    pub fn new(identifier: Identifier, players: Vec<String>) -> (game: Option<Self>)
        ensures
            game is Some <==> players.len() == NUMBER_OF_PLAYERS,
            game matches Some(g) ==> g@ == new_game(identifier, names(players@)) && in_play(g@),
    {
        if players.len() != NUMBER_OF_PLAYERS as usize {
            return None;
        }
        proof {
            lemma_new_game(identifier, names(players@));
        }
        Some(
            Game {
                identifier,
                players,
                next_player: 1,
                winner: None,
                engine: connect_four::Game::new(),
            },
        )
    }

    /// The game that the parts describe, if they describe one: a game has
    /// as many participants as seats, the turn is with one of the seats,
    /// and the board obeys gravity.
    pub fn from_parts(
        identifier: Identifier,
        players: Vec<String>,
        next_player: u8,
        winner: Option<String>,
        board: Board,
    ) -> (game: Option<Self>)
        ensures
            game is Some <==> (GameView {
                identifier,
                players: names(players@),
                next_player,
                winner: name_of(winner),
                board: grid_of(board),
            }).wf(),
            game matches Some(g) ==> g@ == (GameView {
                identifier,
                players: names(players@),
                next_player,
                winner: name_of(winner),
                board: grid_of(board),
            }),
    {
        if players.len() != NUMBER_OF_PLAYERS as usize || next_player < 1 || next_player
            > NUMBER_OF_PLAYERS {
            return None;
        }
        match connect_four::Game::from_board(board) {
            Some(engine) => Some(Game { identifier, players, next_player, winner, engine }),
            None => None,
        }
    }

    /// The identifier of the game.
    pub fn identifier(&self) -> (identifier: Identifier)
        ensures
            identifier == self@.identifier,
    {
        self.identifier
    }

    /// The participants by seat.
    pub fn players(&self) -> (players: &Vec<String>)
        ensures
            names(players@) == self@.players,
    {
        &self.players
    }

    /// The marker whose turn is next.
    pub fn next_player(&self) -> (marker: u8)
        ensures
            marker == self@.next_player,
    {
        self.next_player
    }

    /// The cells of the board as they stand.
    pub fn board(&self) -> (board: Board)
        ensures
            grid_of(board) == self@.board,
    {
        self.engine.board()
    }

    /// The seat that `account_id` holds in the game, counted from `0`; the
    /// first one where it holds several.
    pub fn find_player(&self, account_id: &String) -> (seat: Option<usize>)
        ensures
            seat matches Some(s) ==> s < self@.players.len() && seat_of(
                self@.players,
                account_id@,
            ) == Some(s as int),
            seat is None ==> seat_of(self@.players, account_id@) is None,
    {
        let mut i: usize = 0;
        while i < self.players.len()
            invariant
                i <= self.players.len(),
                seat_from(self@.players, account_id@, i as int) == seat_of(
                    self@.players,
                    account_id@,
                ),
            decreases self.players.len() - i,
        {
            if self.players[i] == *account_id {
                return Some(i);
            }
            i = i + 1;
        }
        None
    }

    /// Passes the turn to the next seat, and from the last seat to the
    /// first.
    pub fn increment_turn(&mut self)
        requires
            old(self)@.wf(),
        ensures
            final(self)@ == (GameView {
                next_player: next_turn(old(self)@.next_player),
                ..old(self)@
            }),
            final(self)@.wf(),
    {
        if self.next_player == connect_four::Game::number_of_players() {
            self.next_player = 1;
        } else {
            self.next_player += 1;
        }
    }

    /// Records `winner` as the winner of a game that has none yet. A game
    /// that is won keeps the winner it has.
    pub fn set_winner(&mut self, winner: String)
        ensures
            final(self)@ == (GameView {
                winner: if old(self)@.winner is None {
                    Some(winner@)
                } else {
                    old(self)@.winner
                },
                ..old(self)@
            }),
            old(self)@.wf() ==> final(self)@.wf(),
    {
        if self.winner.is_none() {
            self.winner = Some(winner);
        }
    }

    /// The winner, once the game is won.
    pub fn winner(&self) -> (winner: Option<String>)
        ensures
            name_of(winner) == self@.winner,
    {
        match &self.winner {
            Some(name) => Some(name.clone()),
            None => None,
        }
    }

    /// Looks whether the game is won. A game that is won hands back the
    /// winner on record without a look at the board. An open game scans its
    /// board; where that shows a winner, the game records the identity in
    /// the winner's seat and is won from then on.
    pub fn check_winner(&mut self) -> (winner: Option<String>)
        requires
            old(self)@.wf(),
        ensures
            final(self)@ == settled_game(old(self)@),
            name_of(winner) == final(self)@.winner,
            final(self)@.wf(),
            in_play(old(self)@) ==> final(self)@ == old(self)@,
    {
        if self.winner.is_some() {
            return self.winner();
        }
        match self.engine.is_finished() {
            Some(player) => {
                proof {
                    connect_four::lemma_winner_of(self.engine@);
                }
                let name = self.players[(player - 1) as usize].clone();
                self.winner = Some(name);
                self.winner()
            },
            None => None,
        }
    }

    /// Plays `column` for `mover`. The move is refused, and the game stays
    /// as it was, when the game is won, when `mover` takes no part in it,
    /// when it is not `mover`'s turn, or when the board does not take the
    /// marker, in this order. An accepted move puts the mover's marker on
    /// the board and passes the turn on; the result is the winner if the
    /// game is now won, and `None` while it stays open. In orderly play the
    /// winner is the mover.
    pub fn play_turn(&mut self, mover: &String, column: Column) -> (result: Result<
        Option<String>,
        GameError,
    >)
        requires
            old(self)@.wf(),
        ensures
            match result {
                Ok(winner) => played(old(self)@, mover@, column) == Ok::<GameView, GameError>(
                    final(self)@,
                ) && name_of(winner) == final(self)@.winner,
                Err(e) => played(old(self)@, mover@, column) == Err::<GameView, GameError>(e)
                    && final(self)@ == old(self)@,
            },
            final(self)@.wf(),
            in_play(old(self)@) ==> in_play(final(self)@),
            in_play(old(self)@) ==> (result matches Ok(Some(winner)) ==> winner@ == mover@),
    {
        proof {
            if in_play(old(self)@) && played(old(self)@, mover@, column) is Ok {
                lemma_last_mover_wins(old(self)@, mover@, column);
            }
        }
        if self.winner.is_some() {
            return Err(GameError::GameAlreadyCompleted);
        }
        let seat = match self.find_player(mover) {
            Some(seat) => seat,
            None => {
                return Err(GameError::PlayerNotInGame);
            },
        };
        if seat + 1 != self.next_player as usize {
            return Err(GameError::NotPlayersTurn);
        }
        let marker = self.next_player;
        match self.engine.play_turn(column, marker) {
            Ok(_) => {},
            Err(MoveError::InvalidColumn) => {
                return Err(GameError::InvalidColumn);
            },
            Err(MoveError::ColumnFull) => {
                return Err(GameError::InvalidMove);
            },
        }
        self.increment_turn();
        Ok(self.check_winner())
    }
}

impl Clone for Game {
    /// A copy of the game as it stands.
    fn clone(&self) -> (copy: Self)
        ensures
            copy@ == self@,
    {
        let mut players: Vec<String> = Vec::new();
        let mut i: usize = 0;
        while i < self.players.len()
            invariant
                i <= self.players.len(),
                players.len() == i,
                forall|k: int| 0 <= k < i ==> players[k]@ == self.players[k]@,
            decreases self.players.len() - i,
        {
            players.push(self.players[i].clone());
            i = i + 1;
        }
        let copy = Game {
            identifier: self.identifier,
            players,
            next_player: self.next_player,
            winner: self.winner(),
            engine: self.engine.clone(),
        };
        assert(copy@.players =~= self@.players);
        copy
    }
}

/// A game that fills the seats is sound when it starts, and in orderly
/// play.
pub proof fn lemma_new_game(identifier: Identifier, players: Seq<Seq<char>>)
    requires
        players.len() == NUMBER_OF_PLAYERS,
    ensures
        new_game(identifier, players).wf(),
        in_play(new_game(identifier, players)),
{
    connect_four::lemma_empty_grid();
}

/// From the first seat the turn goes round the seats in order: after
/// `moves` accepted moves it is with marker `moves % NUMBER_OF_PLAYERS + 1`,
/// that is `1, 2, ..., NUMBER_OF_PLAYERS, 1, ...`.
pub proof fn lemma_turns_cycle(moves: nat)
    ensures
        turn_after(1, moves) == moves % (NUMBER_OF_PLAYERS as nat) + 1,
    decreases moves,
{
    if moves > 0 {
        lemma_turns_cycle((moves - 1) as nat);
    }
}

/// A move is accepted only from the holder of the seat whose turn it is. It
/// passes the turn to the next seat and leaves the identifier and the
/// participants as they are, and the session sound.
pub proof fn lemma_move_passes_turn(game: GameView, mover: Seq<char>, column: Column)
    requires
        game.wf(),
        played(game, mover, column) is Ok,
    ensures
        game.winner is None,
        seat_of(game.players, mover) == Some(game.next_player - 1),
        played(game, mover, column)->Ok_0.next_player == next_turn(game.next_player),
        played(game, mover, column)->Ok_0.identifier == game.identifier,
        played(game, mover, column)->Ok_0.players == game.players,
        played(game, mover, column)->Ok_0.wf(),
{
    connect_four::lemma_drop_piece(game.board, column as int, game.next_player);
}

/// Whoever asks for whichever moves, the turn is passed on once for each
/// move that is accepted and stays where it is otherwise; in a new game it
/// therefore goes round the seats in order, beginning with the first.
pub proof fn lemma_turn_order(game: GameView, moves: Seq<(Seq<char>, Column)>)
    requires
        game.wf(),
    ensures
        play_all(game, moves).wf(),
        play_all(game, moves).identifier == game.identifier,
        play_all(game, moves).players == game.players,
        play_all(game, moves).next_player == turn_after(game.next_player, accepted(game, moves)),
        game.next_player == 1 ==> play_all(game, moves).next_player == accepted(game, moves) % (
        NUMBER_OF_PLAYERS as nat) + 1,
    decreases moves.len(),
{
    if moves.len() > 0 {
        let before = play_all(game, moves.drop_last());
        lemma_turn_order(game, moves.drop_last());
        if played(before, moves.last().0, moves.last().1) is Ok {
            lemma_move_passes_turn(before, moves.last().0, moves.last().1);
        }
    }
    lemma_turns_cycle(accepted(game, moves));
}

/// The seat that `seat_from` finds is a seat of `who`, and `who` holds none
/// between `from` and it.
proof fn lemma_seat_from(players: Seq<Seq<char>>, who: Seq<char>, from: int)
    requires
        0 <= from,
    ensures
        match seat_from(players, who, from) {
            Some(seat) => {
                &&& from <= seat < players.len()
                &&& players[seat] == who
                &&& forall|i: int| from <= i < seat ==> players[i] != who
            },
            None => forall|i: int| from <= i < players.len() ==> players[i] != who,
        },
    decreases players.len() - from,
{
    if from < players.len() && players[from] != who {
        lemma_seat_from(players, who, from + 1);
    }
}

/// The seat of a participant is the first seat that holds the
/// participant's identity; one who holds no seat has none.
pub proof fn lemma_seat_of(players: Seq<Seq<char>>, who: Seq<char>)
    ensures
        match seat_of(players, who) {
            Some(seat) => {
                &&& 0 <= seat < players.len()
                &&& players[seat] == who
                &&& forall|i: int| 0 <= i < seat ==> players[i] != who
            },
            None => !players.contains(who),
        },
{
    lemma_seat_from(players, who, 0);
}

/// In orderly play a game is won by the one who moved last: where a move
/// ends the game, the winner on record is the mover. The session stays in
/// orderly play.
pub proof fn lemma_last_mover_wins(game: GameView, mover: Seq<char>, column: Column)
    requires
        in_play(game),
        played(game, mover, column) is Ok,
    ensures
        in_play(played(game, mover, column)->Ok_0),
        played(game, mover, column)->Ok_0.winner is Some ==> played(
            game,
            mover,
            column,
        )->Ok_0.winner == Some(mover),
{
    let after = played(game, mover, column)->Ok_0;
    lemma_move_passes_turn(game, mover, column);
    lemma_seat_of(game.players, mover);
    connect_four::lemma_winner_of(game.board);
    connect_four::lemma_winner_of(after.board);
    match winner_of(after.board) {
        Some(winning) => {
            if winning != game.next_player {
                connect_four::lemma_drop_favours_mover(
                    game.board,
                    column as int,
                    game.next_player,
                    winning,
                );
            }
        },
        None => {},
    }
}

/// A new game is in orderly play, and whatever moves are asked for, it
/// stays so: the winner on record is always the one whom the board shows.
pub proof fn lemma_orderly_play(game: GameView, moves: Seq<(Seq<char>, Column)>)
    requires
        in_play(game),
    ensures
        in_play(play_all(game, moves)),
        in_play(settled_game(play_all(game, moves))),
    decreases moves.len(),
{
    if moves.len() > 0 {
        let before = play_all(game, moves.drop_last());
        lemma_orderly_play(game, moves.drop_last());
        if played(before, moves.last().0, moves.last().1) is Ok {
            lemma_last_mover_wins(before, moves.last().0, moves.last().1);
        }
    }
}

/// A game that is won stays as it is: every further move is refused with
/// `GameAlreadyCompleted`, and neither a move nor a look at the board
/// changes the winner or anything else.
pub proof fn lemma_won_is_final(game: GameView, moves: Seq<(Seq<char>, Column)>)
    requires
        game.winner is Some,
    ensures
        forall|mover: Seq<char>, column: Column| #[trigger]
            played(game, mover, column) == Err::<GameView, GameError>(
                GameError::GameAlreadyCompleted,
            ),
        settled_game(game) == game,
        play_all(game, moves) == game,
        accepted(game, moves) == 0,
    decreases moves.len(),
{
    if moves.len() > 0 {
        lemma_won_is_final(game, moves.drop_last());
    }
}

/// Once a winner is on record in the course of play, no later move and no
/// later look at the board changes it.
pub proof fn lemma_winner_never_changes(
    game: GameView,
    moves: Seq<(Seq<char>, Column)>,
    more: Seq<(Seq<char>, Column)>,
)
    requires
        play_all(game, moves).winner is Some,
    ensures
        play_all(game, moves + more) == play_all(game, moves),
        settled_game(play_all(game, moves + more)) == play_all(game, moves),
    decreases more.len(),
{
    if more.len() == 0 {
        assert(moves + more =~= moves);
    } else {
        assert((moves + more).drop_last() =~= moves + more.drop_last());
        lemma_winner_never_changes(game, moves, more.drop_last());
    }
}

} // verus!
