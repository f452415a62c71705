//! A participant of a game and the cards in their hand.
use crate::card::Card;
use crate::lobby::LobbyPlayer;
use vstd::prelude::*;

verus! {

pub struct Player {
    pub lobby_player: LobbyPlayer,
    pub hand: Vec<Card>,
}

/// What other participants may see of a player.
#[derive(Debug)]
pub struct PlayerDTO {
    pub username: String,
    pub user_id: i64,
    pub hand_size: usize,
}

#[derive(Clone, Copy, Debug, PartialEq, Eq, Structural)]
pub enum PlayerError {
    CardNotInHand,
}

impl Player {
    /// A player with an empty hand.
    pub fn new(player: LobbyPlayer) -> (p: Player)
        ensures
            p.lobby_player == player,
            p.hand@ == Seq::<Card>::empty(),
    {
        Player { lobby_player: player, hand: Vec::new() }
    }

    pub open spec fn id(&self) -> i64 {
        self.lobby_player.user_id
    }

    pub fn to_dto(&self) -> (d: PlayerDTO)
        ensures
            d.user_id == self.lobby_player.user_id,
            d.username@ == self.lobby_player.username@,
            d.hand_size == self.hand@.len(),
    {
        PlayerDTO {
            user_id: self.lobby_player.user_id,
            username: self.lobby_player.username.clone(),
            hand_size: self.hand.len(),
        }
    }

    /// Removes the first copy of `card` from the hand.
    pub fn remove_card(&mut self, card: &Card) -> (r: Result<(), PlayerError>)
        ensures
            r is Ok <==> old(self).hand@.contains(*card),
            final(self).lobby_player == old(self).lobby_player,
            r is Err ==> r == Err::<(), PlayerError>(PlayerError::CardNotInHand)
                && final(self).hand@ == old(self).hand@,
            r is Ok ==> exists|i: int|
                0 <= i < old(self).hand@.len() && old(self).hand@[i] == *card && (forall|j: int|
                    0 <= j < i ==> old(self).hand@[j] != *card) && final(self).hand@
                    == old(self).hand@.remove(i),
    {
        let mut i: usize = 0;
        while i < self.hand.len()
            invariant
                i <= self.hand@.len(),
                *self == *old(self),
                forall|j: int| 0 <= j < i ==> self.hand@[j] != *card,
            decreases self.hand@.len() - i,
        {
            if self.hand[i] == *card {
                let ghost before = self.hand@;
                self.hand.remove(i);
                assert(before[i as int] == *card);
                return Ok(());
            }
            i = i + 1;
        }
        Err(PlayerError::CardNotInHand)
    }
}

} // verus!
