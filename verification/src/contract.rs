//! The lobby: the queue of participants who wait for a game, the counter
//! that numbers the games, and the register of the games that were made.

use std::collections::VecDeque;
use vstd::prelude::*;
use crate::connect_four::{Column, NUMBER_OF_PLAYERS};
use crate::session::{
    in_play,
    lemma_new_game,
    name_of,
    names,
    new_game,
    played,
    settled_game,
    Game,
    GameError,
    GameView,
    Identifier,
};

verus! {

/// What the lobby holds, as plain values.
pub struct ContractView {
    /// The number of games made so far, and the identifier of the last one.
    pub game_counter: Identifier,
    /// The games in the order in which they were made.
    pub games: Seq<GameView>,
    /// Those who wait for a game, the one who came first in front.
    pub player_queue: Seq<Seq<char>>,
}

impl ContractView {
    /// The standing invariant of the lobby. The games are numbered `1`,
    /// `2`, ... in the order in which they were made, and each is a session
    /// in orderly play. Fewer wait than a game has seats, and nobody waits
    /// twice.
    pub open spec fn wf(self) -> bool {
        &&& self.games.len() == self.game_counter
        &&& forall|i: int|
            0 <= i < self.games.len() ==> (#[trigger] self.games[i]).identifier == i + 1
                && in_play(self.games[i])
        &&& self.player_queue.len() <= NUMBER_OF_PLAYERS - 1
        &&& self.player_queue.no_duplicates()
    }

    /// The game registered under `identifier`, if there is one.
    pub open spec fn game(self, identifier: Identifier) -> Option<GameView> {
        if 1 <= identifier <= self.games.len() {
            Some(self.games[identifier - 1])
        } else {
            None
        }
    }

    /// The lobby with `game` put in the place of the game that has its
    /// identifier.
    pub open spec fn with_game(self, game: GameView) -> ContractView {
        ContractView { games: self.games.update(game.identifier - 1, game), ..self }
    }
}

/// What a queue and a counter are after `signer` has asked for a game: the
/// new queue and counter, and the participants of the game that was made,
/// if one was.
///
/// Where enough participants wait to fill a game together with `signer`,
/// they leave the queue from the front, in the order in which they came,
/// `signer` takes the last seat and the counter goes up by one; this fails
/// when the counter has no higher value. Otherwise `signer` is put at the
/// end of the queue, unless `signer` waits there already.
pub open spec fn joined(queue: Seq<Seq<char>>, counter: Identifier, signer: Seq<char>) -> Result<
    (Seq<Seq<char>>, Identifier, Option<Seq<Seq<char>>>),
    GameError,
> {
    let needed = NUMBER_OF_PLAYERS - 1;
    if queue.len() >= needed {
        if counter == Identifier::MAX {
            Err(GameError::IdentifiersExhausted)
        } else {
            Ok(
                (
                    queue.skip(needed),
                    (counter + 1) as Identifier,
                    Some(queue.take(needed).push(signer)),
                ),
            )
        }
    } else if queue.contains(signer) {
        Ok((queue, counter, None))
    } else {
        Ok((queue.push(signer), counter, None))
    }
}

/// The lobby after `signer` has asked for a game, or the reason why the
/// request is refused. A game that is made is registered behind the games
/// made before.
pub open spec fn queued(contract: ContractView, signer: Seq<char>) -> Result<
    ContractView,
    GameError,
> {
    match joined(contract.player_queue, contract.game_counter, signer) {
        Err(e) => Err(e),
        Ok((player_queue, game_counter, players)) => Ok(
            ContractView {
                game_counter,
                games: match players {
                    Some(players) => contract.games.push(new_game(game_counter, players)),
                    None => contract.games,
                },
                player_queue,
            },
        ),
    }
}

/// What a list of games is, as plain values.
pub open spec fn views(games: Seq<Game>) -> Seq<GameView> {
    games.map_values(|game: Game| game@)
}

/// What an optional game is, as plain values.
pub open spec fn game_view(game: Option<Game>) -> Option<GameView> {
    match game {
        Some(g) => Some(g@),
        None => None,
    }
}

/// Whether `signer` waits in `player_queue`.
fn is_queued(player_queue: &VecDeque<String>, signer: &String) -> (found: bool)
    ensures
        found == names(player_queue@).contains(signer@),
{
    let mut i: usize = 0;
    while i < player_queue.len()
        invariant
            i <= player_queue.len(),
            forall|k: int| 0 <= k < i ==> names(player_queue@)[k] != signer@,
        decreases player_queue.len() - i,
    {
        if player_queue[i] == *signer {
            assert(names(player_queue@)[i as int] == signer@);
            return true;
        }
        i = i + 1;
    }
    false
}

/// Queues `signer` for the next game, or starts that game. Where enough
/// participants wait in `player_queue` to fill a game together with
/// `signer`, they are taken from its front, `game_counter` goes up by one
/// and the new game is handed back, numbered by the counter, with those who
/// waited in the seats in the order in which they came and `signer` in the
/// last. Otherwise `signer` joins the end of the queue, unless `signer`
/// waits there already, and no game is handed back. Once the counter has
/// reached its highest value no game is made and nothing changes.
pub fn join_queue(
    player_queue: &mut VecDeque<String>,
    game_counter: &mut Identifier,
    signer: String,
) -> (result: Result<Option<Game>, GameError>)
    ensures
        match result {
            Ok(game) => {
                &&& joined(names(old(player_queue)@), *old(game_counter), signer@) matches Ok(next)
                &&& names(final(player_queue)@) == next.0
                &&& *final(game_counter) == next.1
                &&& match game {
                    Some(g) => next.2 matches Some(players) && g@ == new_game(next.1, players),
                    None => next.2 is None,
                }
            },
            Err(e) => {
                &&& joined(names(old(player_queue)@), *old(game_counter), signer@) == Err::<
                    (Seq<Seq<char>>, Identifier, Option<Seq<Seq<char>>>),
                    GameError,
                >(e)
                &&& final(player_queue)@ == old(player_queue)@
                &&& *final(game_counter) == *old(game_counter)
            },
        },
{
    let needed: usize = NUMBER_OF_PLAYERS.saturating_sub(1) as usize;
    if player_queue.len() >= needed {
        let identifier = match game_counter.checked_add(1) {
            Some(identifier) => identifier,
            None => {
                return Err(GameError::IdentifiersExhausted);
            },
        };
        let mut players: Vec<String> = Vec::new();
        while players.len() < needed
            invariant
                needed == NUMBER_OF_PLAYERS - 1,
                players.len() <= needed <= old(player_queue)@.len(),
                names(players@) == names(old(player_queue)@).take(players.len() as int),
                names(player_queue@) == names(old(player_queue)@).skip(players.len() as int),
            decreases needed - players.len(),
        {
            let ghost taken = players@;
            let ghost left = player_queue@;
            match player_queue.pop_front() {
                Some(player) => {
                    players.push(player);
                    proof {
                        let all = names(old(player_queue)@);
                        assert(names(left) == all.skip(taken.len() as int));
                        assert(names(players@) =~= names(taken).push(names(left)[0]));
                        assert forall|i: int| 0 <= i < player_queue@.len() implies names(
                            player_queue@,
                        )[i] == all[players.len() + i] by {
                            assert(names(left)[i + 1] == all[taken.len() + i + 1]);
                        }
                        assert(names(player_queue@) =~= all.skip(players.len() as int));
                    }
                },
                None => {
                    // as many wait as are needed: the queue is not empty
                    assert(names(left).len() > 0);
                },
            }
        }
        let ghost waiting = names(players@);
        players.push(signer);
        assert(names(players@) =~= waiting.push(signer@));
        *game_counter = identifier;
        Ok(Game::new(identifier, players))
    } else {
        if !is_queued(player_queue, &signer) {
            let ghost before = names(player_queue@);
            player_queue.push_back(signer);
            assert(names(player_queue@) =~= before.push(signer@));
        }
        Ok(None)
    }
}

/// The lobby of the game: who waits, and which games were made.
pub struct Contract {
    /// A counter for the game identifier
    game_counter: Identifier,
    /// The games by identifier: the game numbered `n` stands at `n - 1`
    games: Vec<Game>,
    /// Queue of players
    player_queue: VecDeque<String>,
}

impl View for Contract {
    type V = ContractView;

    closed spec fn view(&self) -> ContractView {
        ContractView {
            game_counter: self.game_counter,
            games: views(self.games@),
            player_queue: names(self.player_queue@),
        }
    }
}

impl Contract {
    /// A lobby in which nobody waits and no game was made.
    pub fn new() -> (contract: Self)
        ensures
            contract@ == (ContractView {
                game_counter: 0,
                games: Seq::empty(),
                player_queue: Seq::empty(),
            }),
            contract@.wf(),
    {
        let contract = Contract {
            game_counter: 0,
            games: Vec::new(),
            player_queue: VecDeque::new(),
        };
        assert(contract@.games =~= Seq::empty());
        assert(contract@.player_queue =~= Seq::empty());
        contract
    }

    /// The number of games made so far.
    pub fn game_counter(&self) -> (counter: Identifier)
        ensures
            counter == self@.game_counter,
    {
        self.game_counter
    }

    /// Those who wait for a game, the one who came first in front.
    pub fn player_queue(&self) -> (waiting: &VecDeque<String>)
        ensures
            names(waiting@) == self@.player_queue,
    {
        &self.player_queue
    }

    /// The place in the register of the game numbered `identifier`, if
    /// there is such a game.
    fn find_game(&self, identifier: Identifier) -> (place: Option<usize>)
        ensures
            match place {
                Some(at) => 1 <= identifier <= self.games.len() && at == identifier - 1,
                None => self@.game(identifier) is None,
            },
    {
        if identifier == 0 || identifier as usize > self.games.len() {
            None
        } else {
            Some((identifier - 1) as usize)
        }
    }

    /// Queue the signer for the next game. If enough players wait in the
    /// queue, they leave it, a game is started with them and the signer and
    /// is registered, and a copy of it is handed back; else the signer is
    /// queued, once, and no game is handed back.
    pub fn queue(&mut self, signer: String) -> (result: Result<Option<Game>, GameError>)
        requires
            old(self)@.wf(),
        ensures
            final(self)@.wf(),
            match result {
                Ok(game) => {
                    &&& queued(old(self)@, signer@) == Ok::<ContractView, GameError>(final(self)@)
                    &&& game is Some <==> final(self)@.game_counter != old(self)@.game_counter
                    &&& game matches Some(g) ==> final(self)@.game(final(self)@.game_counter)
                        == Some(g@)
                },
                Err(e) => {
                    &&& queued(old(self)@, signer@) == Err::<ContractView, GameError>(e)
                    &&& final(self)@ == old(self)@
                },
            },
    {
        let created = match join_queue(&mut self.player_queue, &mut self.game_counter, signer) {
            Ok(created) => created,
            Err(e) => {
                return Err(e);
            },
        };
        match &created {
            Some(game) => {
                let ghost before = views(self.games@);
                self.games.push(game.clone());
                proof {
                    assert(views(self.games@) =~= before.push(game@));
                    lemma_new_game(game@.identifier, game@.players);
                }
            },
            None => {},
        }
        Ok(created)
    }

    /// Play a turn in the game numbered `identifier`, for `signer`. Columns
    /// are indexed from 0. The turn is refused, and nothing changes, when
    /// there is no such game or when the game refuses the move. Else the
    /// game is registered as the move left it, and the winner is handed
    /// back if the game is now won.
    pub fn play(&mut self, identifier: Identifier, signer: &String, column: Column) -> (result:
        Result<Option<String>, GameError>)
        requires
            old(self)@.wf(),
        ensures
            final(self)@.wf(),
            match result {
                Ok(winner) => {
                    &&& old(self)@.game(identifier) matches Some(game)
                    &&& played(game, signer@, column) matches Ok(next)
                    &&& final(self)@ == old(self)@.with_game(next)
                    &&& name_of(winner) == next.winner
                    &&& winner matches Some(name) ==> name@ == signer@
                },
                Err(e) => {
                    &&& final(self)@ == old(self)@
                    &&& match old(self)@.game(identifier) {
                        Some(game) => played(game, signer@, column) == Err::<
                            GameView,
                            GameError,
                        >(e),
                        None => e == GameError::GameNotFound,
                    }
                },
            },
    {
        let at = match self.find_game(identifier) {
            Some(at) => at,
            None => {
                return Err(GameError::GameNotFound);
            },
        };
        let mut game = self.games[at].clone();
        let winner = match game.play_turn(signer, column) {
            Ok(winner) => winner,
            Err(e) => {
                return Err(e);
            },
        };
        let ghost before = views(self.games@);
        self.games[at] = game;
        assert(views(self.games@) =~= before.update(at as int, game@));
        Ok(winner)
    }

    /// Is the game numbered `identifier` finished? If so the winner is
    /// handed back. The games of a lobby are in orderly play, where every
    /// winner is on record from the move that won: the look at the game
    /// finds nothing new, and the lobby stays as it is.
    pub fn is_finished(&mut self, identifier: Identifier) -> (result: Result<
        Option<String>,
        GameError,
    >)
        requires
            old(self)@.wf(),
        ensures
            final(self)@.wf(),
            match result {
                Ok(winner) => {
                    &&& old(self)@.game(identifier) matches Some(game)
                    &&& final(self)@ == old(self)@
                    &&& name_of(winner) == game.winner
                },
                Err(e) => {
                    &&& e == GameError::GameNotFound
                    &&& old(self)@.game(identifier) is None
                    &&& final(self)@ == old(self)@
                },
            },
    {
        let at = match self.find_game(identifier) {
            Some(at) => at,
            None => {
                return Err(GameError::GameNotFound);
            },
        };
        let mut game = self.games[at].clone();
        let winner = game.check_winner();
        let ghost before = views(self.games@);
        self.games[at] = game;
        assert(views(self.games@) =~= before);
        Ok(winner)
    }

    /// Get a game by its identifier: a copy of the game as it stands.
    pub fn get_game(&self, identifier: Identifier) -> (game: Option<Game>)
        ensures
            game_view(game) == self@.game(identifier),
    {
        match self.find_game(identifier) {
            Some(at) => Some(self.games[at].clone()),
            None => None,
        }
    }
}

/// A pairing takes those who wait from the front of the queue, in the order
/// in which they came, and seats the one who asks behind them; whoever
/// waits behind those taken keeps waiting, in the same order.
pub proof fn lemma_pairing(queue: Seq<Seq<char>>, counter: Identifier, signer: Seq<char>)
    requires
        queue.len() >= NUMBER_OF_PLAYERS - 1,
        counter < Identifier::MAX,
    ensures
        joined(queue, counter, signer) matches Ok(next) && next.2 matches Some(players) && {
            &&& players == queue.take(NUMBER_OF_PLAYERS - 1).push(signer)
            &&& players.len() == NUMBER_OF_PLAYERS
            &&& next.0 == queue.skip(NUMBER_OF_PLAYERS - 1)
            &&& queue == queue.take(NUMBER_OF_PLAYERS - 1) + next.0
            &&& next.1 == counter + 1
        },
{
    let needed = NUMBER_OF_PLAYERS - 1;
    assert(queue =~= queue.take(needed) + queue.skip(needed));
}

/// Where exactly one participant fewer than a game has seats waits, all of
/// them distinct, and one who does not wait asks for a game, a game is made
/// and registered: its participants are those who waited, in their order,
/// and then the new arrival; it is numbered one higher than the last game;
/// and nobody is left waiting.
pub proof fn lemma_pairing_in_lobby(contract: ContractView, signer: Seq<char>)
    requires
        contract.wf(),
        contract.player_queue.len() == NUMBER_OF_PLAYERS - 1,
        !contract.player_queue.contains(signer),
        contract.game_counter < Identifier::MAX,
    ensures
        queued(contract, signer) matches Ok(next) && {
            &&& next.wf()
            &&& next.game_counter == contract.game_counter + 1
            &&& next.games == contract.games.push(
                new_game(next.game_counter, contract.player_queue.push(signer)),
            )
            &&& next.game(next.game_counter) == Some(
                new_game(next.game_counter, contract.player_queue.push(signer)),
            )
            &&& next.player_queue == Seq::<Seq<char>>::empty()
        },
{
    let needed = NUMBER_OF_PLAYERS - 1;
    lemma_pairing(contract.player_queue, contract.game_counter, signer);
    assert(contract.player_queue.take(needed) =~= contract.player_queue);
    assert(contract.player_queue.skip(needed) =~= Seq::<Seq<char>>::empty());
    lemma_queued(contract, signer);
}

/// A request for a game keeps the lobby sound: the games stay numbered in
/// order, no more wait than one fewer than a game has seats, and nobody
/// waits twice. The games made before stay as they are.
pub proof fn lemma_queued(contract: ContractView, signer: Seq<char>)
    requires
        contract.wf(),
        queued(contract, signer) is Ok,
    ensures
        queued(contract, signer)->Ok_0.wf(),
        forall|identifier: Identifier|
            contract.game(identifier) is Some ==> queued(contract, signer)->Ok_0.game(identifier)
                == contract.game(identifier),
{
    if contract.player_queue.len() >= NUMBER_OF_PLAYERS - 1 {
        lemma_new_game(
            queued(contract, signer)->Ok_0.game_counter,
            contract.player_queue.take(NUMBER_OF_PLAYERS - 1).push(signer),
        );
    }
}

} // verus!
