//! What one participant gets to see of a game.
use crate::card::{rank_text, suit_text, Card, CardDTO};
use crate::game::{calculate_viable_actions, find_player, player_index, Action, Game};
use crate::player::{Player, PlayerDTO};
use vstd::prelude::*;

verus! {

/// A game as seen by one of its players.
#[derive(Debug)]
pub struct CurrentPlayerGameState {
    pub game_id: i64,
    pub hand: Vec<CardDTO>,
    pub current_player: i64,
    pub played_cards: Vec<CardDTO>,
    pub opponents: Vec<PlayerDTO>,
    pub winner: Option<i64>,
    pub deck_size: usize,
    pub viable_actions: Vec<Action>,
}

pub open spec fn is_dto_of(d: CardDTO, c: Card) -> bool {
    &&& d.id == c.id
    &&& d.suit@ == suit_text(c.suit)
    &&& d.rank@ == rank_text(c.rank)
}

pub open spec fn are_dtos_of(ds: Seq<CardDTO>, cs: Seq<Card>) -> bool {
    &&& ds.len() == cs.len()
    &&& forall|i: int| 0 <= i < cs.len() ==> #[trigger] is_dto_of(ds[i], cs[i])
}

pub open spec fn is_summary_of(d: PlayerDTO, p: Player) -> bool {
    &&& d.user_id == p.lobby_player.user_id
    &&& d.username@ == p.lobby_player.username@
    &&& d.hand_size == p.hand@.len()
}

/// The players whose id differs from `user_id`, in turn order.
pub open spec fn opponents(ps: Seq<Player>, user_id: i64) -> Seq<Player>
    decreases ps.len(),
{
    if ps.len() == 0 {
        Seq::empty()
    } else if ps.last().lobby_player.user_id != user_id {
        opponents(ps.drop_last(), user_id).push(ps.last())
    } else {
        opponents(ps.drop_last(), user_id)
    }
}

fn cards_to_dtos(cards: &Vec<Card>) -> (r: Vec<CardDTO>)
    ensures
        are_dtos_of(r@, cards@),
{
    let mut r: Vec<CardDTO> = Vec::new();
    let mut i: usize = 0;
    while i < cards.len()
        invariant
            i <= cards@.len(),
            r@.len() == i,
            forall|j: int| 0 <= j < i ==> #[trigger] is_dto_of(r@[j], cards@[j]),
        decreases cards@.len() - i,
    {
        r.push(cards[i].to_dto());
        i = i + 1;
    }
    r
}

fn summaries(players: &Vec<Player>, user_id: i64) -> (r: Vec<PlayerDTO>)
    ensures
        r@.len() == opponents(players@, user_id).len(),
        forall|j: int|
            0 <= j < r@.len() ==> #[trigger] is_summary_of(r@[j], opponents(players@, user_id)[j]),
{
    let mut r: Vec<PlayerDTO> = Vec::new();
    let mut i: usize = 0;
    while i < players.len()
        invariant
            i <= players@.len(),
            r@.len() == opponents(players@.subrange(0, i as int), user_id).len(),
            forall|j: int|
                0 <= j < r@.len() ==> #[trigger] is_summary_of(
                    r@[j],
                    opponents(players@.subrange(0, i as int), user_id)[j],
                ),
        decreases players@.len() - i,
    {
        assert(players@.subrange(0, i + 1).drop_last() =~= players@.subrange(0, i as int));
        if players[i].lobby_player.user_id != user_id {
            r.push(players[i].to_dto());
        }
        i = i + 1;
    }
    assert(players@.subrange(0, players@.len() as int) =~= players@);
    r
}

/// The game as the player `user_id` sees it: their own hand, the discard
/// pile, the other players' hand sizes and, on their turn, their viable
/// actions. `None` when no player with that id takes part.
pub fn get_game_state(game: &Game, user_id: i64) -> (r: Option<CurrentPlayerGameState>)
    requires
        game.wf(),
        game.started(),
    ensures
        player_index(game.roster(), user_id) < 0 ==> r is None,
        player_index(game.roster(), user_id) >= 0 ==> (r matches Some(st) && st.game_id
            == game.ident() && are_dtos_of(
            st.hand@,
            game.roster()[player_index(game.roster(), user_id)].hand@,
        ) && st.current_player == game.current().lobby_player.user_id && are_dtos_of(
            st.played_cards@,
            game.pile(),
        ) && st.opponents@.len() == opponents(game.roster(), user_id).len() && (forall|j: int|
            0 <= j < st.opponents@.len() ==> #[trigger] is_summary_of(
                st.opponents@[j],
                opponents(game.roster(), user_id)[j],
            )) && st.winner == game.winner_spec() && st.deck_size == game.deck_seq().len()
            && st.viable_actions@ == if game.current().lobby_player.user_id == user_id {
            game.viable_for(game.current().hand@, user_id)
        } else {
            Seq::<Action>::empty()
        }),
{
    let players = game.players();
    let i = match find_player(players, user_id) {
        Some(i) => i,
        None => return None,
    };
    let current_player = game.current_turn_player();
    let viable_actions = if current_player == user_id {
        let t = game.current_index();
        calculate_viable_actions(&players[t], game)
    } else {
        Vec::new()
    };
    Some(
        CurrentPlayerGameState {
            game_id: game.id(),
            hand: cards_to_dtos(&players[i].hand),
            current_player,
            played_cards: cards_to_dtos(game.discard_pile()),
            opponents: summaries(players, user_id),
            winner: game.winner(),
            deck_size: game.deck_size(),
            viable_actions,
        },
    )
}

} // verus!
