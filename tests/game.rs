use maumau::card::{Card, Rank, Suit};
use maumau::game::{Action, CreateGameError, DoActionError, Game, PlayerAction, DEALER_ID};
use maumau::lobby::LobbyPlayer;

fn lobby(n: i64) -> Vec<LobbyPlayer> {
    (1..=n).map(|i| LobbyPlayer { user_id: i * 10, username: format!("p{}", i) }).collect()
}

fn c(s: Suit, r: Rank) -> Card {
    Card::new(s, r)
}

/// A full deck whose cards are drawn in `draw_order` first; the others follow
/// in id order from the bottom.
fn arranged(draw_order: &[Card]) -> Vec<Card> {
    let mut deck: Vec<Card> = (0..32u8)
        .map(|id| Card::from_id(id).unwrap())
        .filter(|card| !draw_order.contains(card))
        .collect();
    deck.extend(draw_order.iter().rev().cloned());
    deck
}

/// A dealt game: hands in player order, then the first discard card.
fn dealt(n: i64, hands: &[Vec<Card>], top: Card) -> Game {
    let mut order: Vec<Card> = vec![];
    for h in hands {
        order.extend(h.iter().cloned());
    }
    order.push(top);
    let mut g = Game::with_deck(lobby(n), 7, 99, arranged(&order), 0).unwrap();
    g.give_cards();
    g.turn_top_card();
    g
}

fn hand_ids(g: &Game, i: usize) -> Vec<u8> {
    g.players()[i].hand.iter().map(|c| c.id).collect()
}

fn card_count(g: &Game) -> usize {
    g.deck_size() + g.discard_pile().len() + g.players().iter().map(|p| p.hand.len()).sum::<usize>()
}

fn visible_ids_distinct(g: &Game) -> bool {
    let mut ids: Vec<u8> = g.discard_pile().iter().map(|c| c.id).collect();
    for p in g.players() {
        ids.extend(p.hand.iter().map(|c| c.id));
    }
    let n = ids.len();
    ids.sort();
    ids.dedup();
    ids.len() == n
}

#[test]
fn too_few_or_too_many_players_are_refused() {
    assert!(matches!(Game::new(lobby(1), 1, 2), Err(CreateGameError::NotEnoughPlayers)));
    assert!(matches!(Game::new(lobby(0), 1, 2), Err(CreateGameError::NotEnoughPlayers)));
    assert!(matches!(Game::new(lobby(7), 1, 2), Err(CreateGameError::TooManyPlayers)));
    assert!(Game::new(lobby(6), 1, 2).is_ok());
}

#[test]
fn injected_deck_must_be_complete_and_starter_in_range() {
    let full: Vec<Card> = (0..32u8).map(|id| Card::from_id(id).unwrap()).collect();
    assert!(matches!(
        Game::with_deck(lobby(2), 1, 2, full.clone(), 2),
        Err(CreateGameError::InvalidStarter)
    ));
    let mut doubled = full.clone();
    doubled[5] = doubled[6];
    assert!(matches!(
        Game::with_deck(lobby(2), 1, 2, doubled, 0),
        Err(CreateGameError::InvalidDeck)
    ));
    let short: Vec<Card> = full[1..].to_vec();
    assert!(matches!(Game::with_deck(lobby(2), 1, 2, short, 0), Err(CreateGameError::InvalidDeck)));
    let mut forged = full.clone();
    forged[3] = Card { id: 3, suit: Suit::Hearts, rank: Rank::Ace };
    assert!(matches!(Game::with_deck(lobby(2), 1, 2, forged, 0), Err(CreateGameError::InvalidDeck)));
    let g = Game::with_deck(lobby(3), 1, 2, full, 1).unwrap();
    assert_eq!(g.current_turn_player(), 20);
    assert_eq!(g.id(), 2);
    assert_eq!(g.lobby_id(), 1);
}

#[test]
fn fresh_two_player_deal() {
    let mut g = Game::new(lobby(2), 5, 6).unwrap();
    assert_eq!(g.deck_size(), 32);
    g.give_cards();
    g.turn_top_card();
    assert_eq!(g.players()[0].hand.len(), 5);
    assert_eq!(g.players()[1].hand.len(), 5);
    assert_eq!(g.discard_pile().len(), 1);
    assert_eq!(g.deck_size(), 21);
    assert_eq!(card_count(&g), 32);
    assert!(visible_ids_distinct(&g));
    let starter = g.current_turn_player();
    assert!(starter == 10 || starter == 20);
    let top = g.discard_pile()[0];
    assert_eq!(g.actions(), &vec![PlayerAction { action: Action::PlayCard(top.id), player_id: DEALER_ID }]);
    assert_eq!(g.winner(), None);
}

#[test]
fn deal_follows_the_deck_order() {
    let a = vec![
        c(Suit::Clubs, Rank::King),
        c(Suit::Hearts, Rank::Nine),
        c(Suit::Hearts, Rank::Ten),
        c(Suit::Spades, Rank::Queen),
        c(Suit::Diamonds, Rank::Ace),
    ];
    let b = vec![
        c(Suit::Spades, Rank::Nine),
        c(Suit::Spades, Rank::Ten),
        c(Suit::Hearts, Rank::Queen),
        c(Suit::Diamonds, Rank::King),
        c(Suit::Hearts, Rank::Ace),
    ];
    let g = dealt(2, &[a.clone(), b.clone()], c(Suit::Clubs, Rank::Nine));
    assert_eq!(hand_ids(&g, 0), a.iter().map(|c| c.id).collect::<Vec<_>>());
    assert_eq!(hand_ids(&g, 1), b.iter().map(|c| c.id).collect::<Vec<_>>());
    assert_eq!(g.discard_pile()[0], c(Suit::Clubs, Rank::Nine));
}

fn plain_hand_a() -> Vec<Card> {
    vec![
        c(Suit::Clubs, Rank::King),
        c(Suit::Hearts, Rank::Nine),
        c(Suit::Hearts, Rank::Ten),
        c(Suit::Spades, Rank::Queen),
        c(Suit::Diamonds, Rank::Ace),
    ]
}

fn plain_hand_b() -> Vec<Card> {
    vec![
        c(Suit::Spades, Rank::Nine),
        c(Suit::Spades, Rank::Ten),
        c(Suit::Hearts, Rank::Queen),
        c(Suit::Diamonds, Rank::King),
        c(Suit::Hearts, Rank::Ace),
    ]
}

#[test]
fn ordinary_turn_offers_matching_cards() {
    let g = dealt(2, &[plain_hand_a(), plain_hand_b()], c(Suit::Clubs, Rank::Nine));
    let ids: Vec<Action> = vec![
        Action::PlayCard(c(Suit::Clubs, Rank::King).id),
        Action::PlayCard(c(Suit::Hearts, Rank::Nine).id),
    ];
    assert_eq!(g.viable_actions(10), ids);
    assert_eq!(g.viable_actions(20), vec![Action::PlayCard(c(Suit::Spades, Rank::Nine).id)]);
    assert_eq!(g.viable_actions(30), vec![]);
}

#[test]
fn viable_actions_are_the_same_when_asked_twice() {
    let g = dealt(2, &[plain_hand_a(), plain_hand_b()], c(Suit::Clubs, Rank::Nine));
    let first = g.viable_actions(10);
    let second = g.viable_actions(10);
    assert_eq!(first, second);
    assert_eq!(g.viable_actions(20), g.viable_actions(20));
}

#[test]
fn seven_on_top_without_a_seven_in_hand_means_draw_two() {
    let g = dealt(2, &[plain_hand_a(), plain_hand_b()], c(Suit::Clubs, Rank::Seven));
    assert_eq!(g.viable_actions(10), vec![Action::DrawCards(2)]);
}

#[test]
fn seven_on_top_must_be_answered_with_a_seven() {
    let mut a = plain_hand_a();
    a[4] = c(Suit::Hearts, Rank::Seven);
    let g = dealt(2, &[a, plain_hand_b()], c(Suit::Clubs, Rank::Seven));
    assert_eq!(g.viable_actions(10), vec![Action::PlayCard(c(Suit::Hearts, Rank::Seven).id)]);
}

#[test]
fn two_sevens_in_a_row_mean_draw_four() {
    let mut a = plain_hand_a();
    a[4] = c(Suit::Clubs, Rank::Seven);
    let mut b = plain_hand_b();
    b[4] = c(Suit::Diamonds, Rank::Seven);
    let third = vec![
        c(Suit::Spades, Rank::King),
        c(Suit::Spades, Rank::Ace),
        c(Suit::Diamonds, Rank::Queen),
        c(Suit::Diamonds, Rank::Ten),
        c(Suit::Hearts, Rank::King),
    ];
    let mut g = dealt(3, &[a, b, third], c(Suit::Clubs, Rank::Nine));
    let seven_clubs = c(Suit::Clubs, Rank::Seven).id;
    let seven_diamonds = c(Suit::Diamonds, Rank::Seven).id;
    assert!(g.do_action(Action::PlayCard(seven_clubs), 10).is_ok());
    assert_eq!(g.current_turn_player(), 20);
    assert_eq!(g.viable_actions(20), vec![Action::PlayCard(seven_diamonds)]);
    assert!(g.do_action(Action::PlayCard(seven_diamonds), 20).is_ok());
    assert_eq!(g.current_turn_player(), 30);
    assert_eq!(g.viable_actions(30), vec![Action::DrawCards(4)]);
    assert_eq!(g.do_action(Action::DrawCards(2), 30), Err(DoActionError::InvalidAction));
    assert!(g.do_action(Action::DrawCards(4), 30).is_ok());
    assert_eq!(g.players()[2].hand.len(), 9);
    assert_eq!(g.current_turn_player(), 10);
    assert_eq!(card_count(&g), 32);
    assert!(visible_ids_distinct(&g));
    // the chain is settled: the next player is matched against the seven of
    // diamonds as usual, and holds nothing that fits
    assert_eq!(g.viable_actions(10), vec![Action::DrawCards(1)]);
}

#[test]
fn eight_skips_the_next_player() {
    let mut a = plain_hand_a();
    a[0] = c(Suit::Clubs, Rank::Eight);
    let third = vec![
        c(Suit::Spades, Rank::King),
        c(Suit::Spades, Rank::Ace),
        c(Suit::Diamonds, Rank::Queen),
        c(Suit::Diamonds, Rank::Ten),
        c(Suit::Hearts, Rank::King),
    ];
    let mut g = dealt(3, &[a, plain_hand_b(), third], c(Suit::Clubs, Rank::Nine));
    assert!(g.do_action(Action::PlayCard(c(Suit::Clubs, Rank::Eight).id), 10).is_ok());
    assert_eq!(g.current_turn_player(), 30);
    assert_eq!(g.discard_pile().last().unwrap().id, c(Suit::Clubs, Rank::Eight).id);
    assert_eq!(g.players()[0].hand.len(), 4);
}

#[test]
fn playing_the_last_card_wins_and_closes_the_game() {
    let a = vec![
        c(Suit::Clubs, Rank::Eight),
        c(Suit::Diamonds, Rank::Eight),
        c(Suit::Hearts, Rank::Eight),
        c(Suit::Spades, Rank::Eight),
        c(Suit::Spades, Rank::Nine),
    ];
    let b = vec![
        c(Suit::Hearts, Rank::Nine),
        c(Suit::Spades, Rank::Ten),
        c(Suit::Hearts, Rank::Queen),
        c(Suit::Diamonds, Rank::King),
        c(Suit::Hearts, Rank::Ace),
    ];
    let mut g = dealt(2, &[a.clone(), b], c(Suit::Clubs, Rank::Nine));
    for card in &a {
        assert_eq!(g.winner(), None);
        assert_eq!(g.current_turn_player(), 10);
        assert!(g.do_action(Action::PlayCard(card.id), 10).is_ok());
    }
    assert_eq!(g.winner(), Some(10));
    assert!(g.players()[0].hand.is_empty());
    assert_eq!(g.current_turn_player(), 10);
    assert_eq!(g.do_action(Action::DrawCards(1), 10), Err(DoActionError::GameFinished));
    assert_eq!(g.do_action(Action::CannotPlay, 10), Err(DoActionError::GameFinished));
    assert_eq!(g.do_action(Action::DrawCards(1), 20), Err(DoActionError::NotYourTurn));
    assert_eq!(g.winner(), Some(10));
    assert_eq!(card_count(&g), 32);
}

#[test]
fn refused_actions_change_nothing() {
    let mut g = dealt(2, &[plain_hand_a(), plain_hand_b()], c(Suit::Clubs, Rank::Nine));
    let before = g.actions().len();
    assert_eq!(g.do_action(Action::DrawCards(1), 20), Err(DoActionError::NotYourTurn));
    let not_playable = c(Suit::Spades, Rank::Queen).id;
    assert_eq!(g.do_action(Action::PlayCard(not_playable), 10), Err(DoActionError::InvalidAction));
    assert_eq!(g.do_action(Action::CannotPlay, 10), Err(DoActionError::InvalidAction));
    let not_in_hand = c(Suit::Clubs, Rank::Ten).id;
    assert_eq!(g.do_action(Action::PlayCard(not_in_hand), 10), Err(DoActionError::InvalidAction));
    assert_eq!(g.actions().len(), before);
    assert_eq!(hand_ids(&g, 0).len(), 5);
    assert_eq!(g.current_turn_player(), 10);
}

#[test]
fn a_round_of_matching_plays() {
    let mut g = dealt(2, &[plain_hand_a(), plain_hand_b()], c(Suit::Clubs, Rank::Nine));
    assert!(g.do_action(Action::PlayCard(c(Suit::Clubs, Rank::King).id), 10).is_ok());
    assert_eq!(g.current_turn_player(), 20);
    // the king of diamonds matches the king of clubs
    assert_eq!(g.viable_actions(20), vec![Action::PlayCard(c(Suit::Diamonds, Rank::King).id)]);
    assert!(g.do_action(Action::PlayCard(c(Suit::Diamonds, Rank::King).id), 20).is_ok());
    assert_eq!(g.viable_actions(10), vec![Action::PlayCard(c(Suit::Diamonds, Rank::Ace).id)]);
    let deck_before = g.deck_size();
    assert!(g.do_action(Action::PlayCard(c(Suit::Diamonds, Rank::Ace).id), 10).is_ok());
    assert_eq!(g.viable_actions(20), vec![Action::PlayCard(c(Suit::Hearts, Rank::Ace).id)]);
    assert!(g.do_action(Action::PlayCard(c(Suit::Hearts, Rank::Ace).id), 20).is_ok());
    let playable = g.viable_actions(10);
    assert_eq!(
        playable,
        vec![
            Action::PlayCard(c(Suit::Hearts, Rank::Nine).id),
            Action::PlayCard(c(Suit::Hearts, Rank::Ten).id),
        ]
    );
    assert!(g.do_action(Action::PlayCard(c(Suit::Hearts, Rank::Ten).id), 10).is_ok());
    // B: hearts queen matches hearts
    assert!(g.do_action(Action::PlayCard(c(Suit::Hearts, Rank::Queen).id), 20).is_ok());
    assert!(g.do_action(Action::PlayCard(c(Suit::Hearts, Rank::Nine).id), 10).is_ok());
    // B holds the nine and ten of spades: the nine matches by rank
    assert!(g.do_action(Action::PlayCard(c(Suit::Spades, Rank::Nine).id), 20).is_ok());
    assert!(g.do_action(Action::PlayCard(c(Suit::Spades, Rank::Queen).id), 10).is_ok());
    assert_eq!(g.winner(), Some(10));
    assert_eq!(g.deck_size(), deck_before);
}

#[test]
fn draw_when_nothing_fits_and_the_turn_passes() {
    let a = vec![
        c(Suit::Hearts, Rank::Ten),
        c(Suit::Hearts, Rank::King),
        c(Suit::Diamonds, Rank::Queen),
        c(Suit::Spades, Rank::Ace),
        c(Suit::Spades, Rank::Eight),
    ];
    let mut g = dealt(2, &[a, plain_hand_b()], c(Suit::Clubs, Rank::Nine));
    assert_eq!(g.viable_actions(10), vec![Action::DrawCards(1)]);
    assert_eq!(g.do_action(Action::DrawCards(2), 10), Err(DoActionError::InvalidAction));
    let deck_before = g.deck_size();
    assert!(g.do_action(Action::DrawCards(1), 10).is_ok());
    assert_eq!(g.deck_size(), deck_before - 1);
    assert_eq!(g.players()[0].hand.len(), 6);
    assert_eq!(g.current_turn_player(), 20);
    assert_eq!(g.viable_actions(20), vec![Action::PlayCard(c(Suit::Spades, Rank::Nine).id)]);
    assert_eq!(card_count(&g), 32);
    assert!(visible_ids_distinct(&g));
    let last = *g.actions().last().unwrap();
    assert_eq!(last, PlayerAction { action: Action::DrawCards(1), player_id: 10 });
}

#[test]
fn jack_lets_its_player_name_a_suit() {
    let mut a = plain_hand_a();
    a[0] = c(Suit::Clubs, Rank::Jack);
    let mut g = dealt(2, &[a, plain_hand_b()], c(Suit::Clubs, Rank::Nine));
    assert!(g.do_action(Action::PlayCard(c(Suit::Clubs, Rank::Jack).id), 10).is_ok());
    assert_eq!(g.current_turn_player(), 10);
    assert_eq!(
        g.viable_actions(10),
        vec![
            Action::DecideSuit(Suit::Hearts),
            Action::DecideSuit(Suit::Diamonds),
            Action::DecideSuit(Suit::Clubs),
            Action::DecideSuit(Suit::Spades),
        ]
    );
    assert!(g.do_action(Action::DecideSuit(Suit::Diamonds), 10).is_ok());
    assert_eq!(g.current_turn_player(), 20);
    assert_eq!(g.viable_actions(20), vec![Action::PlayCard(c(Suit::Diamonds, Rank::King).id)]);
    assert!(g.do_action(Action::PlayCard(c(Suit::Diamonds, Rank::King).id), 20).is_ok());
    // the named suit is used up by that play
    assert_eq!(g.viable_actions(10), vec![Action::PlayCard(c(Suit::Diamonds, Rank::Ace).id)]);
}

#[test]
fn named_suit_stays_in_force_over_a_draw() {
    let mut a = plain_hand_a();
    a[0] = c(Suit::Clubs, Rank::Jack);
    let mut b = plain_hand_b();
    b[3] = c(Suit::Clubs, Rank::Ten);
    let mut g = dealt(2, &[a, b], c(Suit::Clubs, Rank::Nine));
    assert!(g.do_action(Action::PlayCard(c(Suit::Clubs, Rank::Jack).id), 10).is_ok());
    assert!(g.do_action(Action::DecideSuit(Suit::Diamonds), 10).is_ok());
    assert_eq!(g.viable_actions(20), vec![Action::DrawCards(1)]);
    assert!(g.do_action(Action::DrawCards(1), 20).is_ok());
    assert_eq!(g.players()[1].hand.len(), 6);
    assert_eq!(g.current_turn_player(), 10);
    assert_eq!(g.viable_actions(10), vec![Action::PlayCard(c(Suit::Diamonds, Rank::Ace).id)]);
}
