//! The games of a server, each reachable by its id and always dealt.
use crate::game::{Action, CreateGameError, DoActionError, Game};
use crate::lobby::LobbyPlayer;
use crate::state::{get_game_state, CurrentPlayerGameState};
use vstd::prelude::*;

verus! {

#[derive(Clone, Copy, Debug, PartialEq, Eq, Structural)]
pub enum StoreError {
    /// The id is negative or already used by another game.
    IdTaken,
    GameNotFound,
    PlayerNotInGame,
    Create(CreateGameError),
    Action(DoActionError),
}

/// Index of the game with the given id, or -1.
pub open spec fn game_index(games: Seq<Game>, id: i64) -> int
    decreases games.len(),
{
    if games.len() == 0 {
        -1
    } else if games.last().ident() == id {
        games.len() - 1
    } else {
        game_index(games.drop_last(), id)
    }
}

pub struct GameStore {
    games: Vec<Game>,
}

impl GameStore {
    pub closed spec fn view_games(&self) -> Seq<Game> {
        self.games@
    }

    /// Every stored game is well formed and dealt, and no two share an id.
    pub open spec fn wf(&self) -> bool {
        &&& forall|i: int|
            0 <= i < self.view_games().len() ==> (#[trigger] self.view_games()[i]).wf()
                && self.view_games()[i].started()
        &&& forall|i: int, j: int|
            0 <= i < j < self.view_games().len() ==> (#[trigger] self.view_games()[i]).ident()
                != (#[trigger] self.view_games()[j]).ident()
    }

    pub fn new() -> (s: GameStore)
        ensures
            s.wf(),
            s.view_games().len() == 0,
    {
        GameStore { games: Vec::new() }
    }

    /// Position of the game with the given id.
    fn find(&self, id: i64) -> (r: Option<usize>)
        ensures
            r matches Some(i) ==> i < self.view_games().len() && i == game_index(
                self.view_games(),
                id,
            ) && self.view_games()[i as int].ident() == id,
            r is None ==> game_index(self.view_games(), id) == -1 && forall|i: int|
                0 <= i < self.view_games().len() ==> #[trigger] self.view_games()[i].ident()
                    != id,
    {
        let mut i: usize = self.games.len();
        assert(self.games@.subrange(0, i as int) =~= self.games@);
        while i > 0
            invariant
                i <= self.games@.len(),
                game_index(self.games@, id) == game_index(self.games@.subrange(0, i as int), id),
                forall|j: int| i <= j < self.games@.len() ==> #[trigger] self.games@[j].ident() != id,
            decreases i,
        {
            assert(self.games@.subrange(0, i as int).drop_last() =~= self.games@.subrange(
                0,
                i - 1,
            ));
            if self.games[i - 1].id() == id {
                return Some(i - 1);
            }
            i = i - 1;
        }
        assert(self.games@.subrange(0, 0) =~= Seq::<Game>::empty());
        None
    }

    pub fn contains(&self, id: i64) -> (r: bool)
        ensures
            r == (game_index(self.view_games(), id) >= 0),
    {
        self.find(id).is_some()
    }

    /// The game with the given id.
    pub fn game(&self, id: i64) -> (r: Option<&Game>)
        ensures
            game_index(self.view_games(), id) < 0 ==> r is None,
            game_index(self.view_games(), id) >= 0 ==> r == Some(
                &self.view_games()[game_index(self.view_games(), id)],
            ),
    {
        match self.find(id) {
            Some(i) => Some(&self.games[i]),
            None => None,
        }
    }

    /// Creates a game with the id `id` for the given lobby members, deals five
    /// cards to each of them and turns up the first card.
    pub fn create_game(&mut self, players: Vec<LobbyPlayer>, lobby_id: i64, id: i64) -> (r: Result<
        (),
        StoreError,
    >)
        requires
            old(self).wf(),
        ensures
            final(self).wf(),
            (id < 0 || game_index(old(self).view_games(), id) >= 0) ==> r == Err::<(), StoreError>(
                StoreError::IdTaken,
            ) && final(self).view_games() == old(self).view_games(),
            id >= 0 && game_index(old(self).view_games(), id) < 0 && players@.len() < 2 ==> r
                == Err::<(), StoreError>(StoreError::Create(CreateGameError::NotEnoughPlayers))
                && final(self).view_games() == old(self).view_games(),
            id >= 0 && game_index(old(self).view_games(), id) < 0 && players@.len() > 6 ==> r
                == Err::<(), StoreError>(StoreError::Create(CreateGameError::TooManyPlayers))
                && final(self).view_games() == old(self).view_games(),
            id >= 0 && game_index(old(self).view_games(), id) < 0 && 2 <= players@.len() <= 6
                ==> r is Ok && final(self).view_games().drop_last() == old(self).view_games() && ({
                let g = final(self).view_games().last();
                &&& g.ident() == id
                &&& g.lobby() == lobby_id
                &&& g.roster().len() == players@.len()
                &&& g.pile().len() == 1
                &&& g.deck_seq().len() == 32 - 5 * players@.len() - 1
                &&& forall|i: int|
                    0 <= i < players@.len() ==> (#[trigger] g.roster()[i]).lobby_player
                        == players@[i] && g.roster()[i].hand@.len() == 5
            }),
    {
        if id < 0 {
            return Err(StoreError::IdTaken);
        }
        if self.find(id).is_some() {
            return Err(StoreError::IdTaken);
        }
        let ghost n = players@.len();
        let ghost members = players@;
        let mut game = match Game::new(players, lobby_id, id) {
            Ok(g) => g,
            Err(e) => return Err(StoreError::Create(e)),
        };
        game.give_cards();
        game.turn_top_card();
        let ghost before = self.games@;
        self.games.push(game);
        assert(self.games@.drop_last() =~= before);
        proof {
            assert forall|i: int, j: int|
                0 <= i < j < self.games@.len() implies (#[trigger] self.games@[i]).ident()
                != (#[trigger] self.games@[j]).ident() by {
                if j == before.len() {
                    assert(before[i].ident() != id);
                } else {
                    assert(before[i] == self.games@[i] && before[j] == self.games@[j]);
                }
            }
        }
        Ok(())
    }

    /// Carries out `action` for `player_id` in the game `game_id`.
    pub fn do_action(&mut self, game_id: i64, action: Action, player_id: i64) -> (r: Result<
        (),
        StoreError,
    >)
        requires
            old(self).wf(),
        ensures
            final(self).wf(),
            final(self).view_games().len() == old(self).view_games().len(),
            game_index(old(self).view_games(), game_id) < 0 ==> r == Err::<(), StoreError>(
                StoreError::GameNotFound,
            ) && final(self).view_games() == old(self).view_games(),
            game_index(old(self).view_games(), game_id) >= 0 ==> ({
                let k = game_index(old(self).view_games(), game_id);
                let g = old(self).view_games()[k];
                &&& r is Err <==> g.refusal(action, player_id) is Some
                &&& r is Err ==> r == Err::<(), StoreError>(
                    StoreError::Action(g.refusal(action, player_id).unwrap()),
                ) && final(self).view_games() == old(self).view_games()
                &&& forall|j: int|
                    0 <= j < old(self).view_games().len() && j != k ==> #[trigger] final(self).view_games()[j]
                        == old(self).view_games()[j]
                &&& r is Ok ==> final(self).view_games()[k].log() == g.log().push(
                    crate::game::PlayerAction { action, player_id },
                )
            }),
    {
        let i = match self.find(game_id) {
            Some(i) => i,
            None => return Err(StoreError::GameNotFound),
        };
        assert(self.games@[i as int].wf() && self.games@[i as int].started());
        let ghost before = self.games@;
        let r = self.games[i].do_action(action, player_id);
        proof {
            assert forall|j: int| 0 <= j < self.games@.len() && j != i implies #[trigger] self.games@[j]
                == before[j] by {}
            assert forall|a: int, b: int|
                0 <= a < b < self.games@.len() implies (#[trigger] self.games@[a]).ident()
                != (#[trigger] self.games@[b]).ident() by {
                assert(before[a].ident() != before[b].ident());
            }
        }
        match r {
            Ok(()) => Ok(()),
            Err(e) => {
                assert(self.games@ =~= before);
                Err(StoreError::Action(e))
            },
        }
    }

    /// The game `game_id` as the player `user_id` sees it.
    pub fn game_state(&self, game_id: i64, user_id: i64) -> (r: Result<
        CurrentPlayerGameState,
        StoreError,
    >)
        requires
            self.wf(),
        ensures
            game_index(self.view_games(), game_id) < 0 ==> r == Err::<
                CurrentPlayerGameState,
                StoreError,
            >(StoreError::GameNotFound),
            game_index(self.view_games(), game_id) >= 0 && crate::game::player_index(
                self.view_games()[game_index(self.view_games(), game_id)].roster(),
                user_id,
            ) < 0 ==> r == Err::<CurrentPlayerGameState, StoreError>(StoreError::PlayerNotInGame),
            game_index(self.view_games(), game_id) >= 0 && crate::game::player_index(
                self.view_games()[game_index(self.view_games(), game_id)].roster(),
                user_id,
            ) >= 0 ==> r is Ok,
    {
        let i = match self.find(game_id) {
            Some(i) => i,
            None => return Err(StoreError::GameNotFound),
        };
        assert(self.games@[i as int].wf() && self.games@[i as int].started());
        match get_game_state(&self.games[i], user_id) {
            Some(s) => Ok(s),
            None => Err(StoreError::PlayerNotInGame),
        }
    }
}

} // verus!
