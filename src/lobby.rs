//! Lobbies, where players gather before a game starts.
use vstd::prelude::*;

verus! {

/// A member of a lobby, as the game knows them.
#[derive(Debug)]
pub struct LobbyPlayer {
    pub user_id: i64,
    pub username: String,
}

impl Clone for LobbyPlayer {
    fn clone(&self) -> (r: LobbyPlayer)
        ensures
            r == *self,
    {
        LobbyPlayer { user_id: self.user_id, username: self.username.clone() }
    }
}

#[derive(Debug)]
pub struct Lobby {
    pub id: i64,
    pub name: String,
    pub players: Vec<LobbyPlayer>,
}

} // verus!
