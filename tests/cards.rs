use maumau::card::{Card, CardDTO, CardError, Rank, Suit};

const SUITS: [Suit; 4] = [Suit::Clubs, Suit::Diamonds, Suit::Hearts, Suit::Spades];
const RANKS: [Rank; 8] = [
    Rank::Seven,
    Rank::Eight,
    Rank::Nine,
    Rank::Ten,
    Rank::Jack,
    Rank::Queen,
    Rank::King,
    Rank::Ace,
];

#[test]
fn card_ids_follow_suit_then_rank() {
    assert_eq!(Card::new(Suit::Clubs, Rank::Seven).id, 0);
    assert_eq!(Card::new(Suit::Clubs, Rank::Ace).id, 7);
    assert_eq!(Card::new(Suit::Diamonds, Rank::Eight).id, 9);
    assert_eq!(Card::new(Suit::Hearts, Rank::Jack).id, 20);
    assert_eq!(Card::new(Suit::Spades, Rank::Ace).id, 31);
}

#[test]
fn from_id_gives_the_card_and_rejects_large_ids() {
    let c = Card::from_id(12).unwrap();
    assert_eq!(c, Card { id: 12, suit: Suit::Diamonds, rank: Rank::Jack });
    assert!(Card::from_id(32).is_none());
    for id in 0..32u8 {
        let c = Card::from_id(id).unwrap();
        assert_eq!(Card::new(c.suit, c.rank), c);
    }
}

#[test]
fn playable_on_same_suit_or_same_rank() {
    let nine_clubs = Card::new(Suit::Clubs, Rank::Nine);
    assert!(Card::new(Suit::Clubs, Rank::King).is_playable_on(&nine_clubs));
    assert!(Card::new(Suit::Hearts, Rank::Nine).is_playable_on(&nine_clubs));
    assert!(!Card::new(Suit::Hearts, Rank::King).is_playable_on(&nine_clubs));
}

#[test]
fn wire_round_trip_of_every_card() {
    let mut seen = 0;
    for s in SUITS {
        for r in RANKS {
            let card = Card::new(s, r);
            let dto = card.to_dto();
            let back = dto.to_card().unwrap();
            assert_eq!(back.id, card.id);
            assert_eq!(back.suit, card.suit);
            assert_eq!(back.rank, card.rank);
            seen += 1;
        }
    }
    assert_eq!(seen, 32);
}

#[test]
fn wire_names() {
    let dto = CardDTO::new(Card::new(Suit::Hearts, Rank::Ten));
    assert_eq!(dto.id, 19);
    assert_eq!(dto.suit, "Hearts");
    assert_eq!(dto.rank, "10");
    let dto = Card::new(Suit::Spades, Rank::Ace).to_dto();
    assert_eq!(dto.suit, "Spades");
    assert_eq!(dto.rank, "Ace");
    assert_eq!(Card::new(Suit::Clubs, Rank::Seven).to_dto().rank, "7");
}

#[test]
fn unknown_suit_or_rank_is_rejected() {
    let bad_suit = CardDTO { id: 0, suit: "Stars".to_string(), rank: "7".to_string() };
    assert_eq!(bad_suit.to_card(), Err(CardError::InvalidSuit));
    let bad_rank = CardDTO { id: 0, suit: "Clubs".to_string(), rank: "Seven".to_string() };
    assert_eq!(bad_rank.to_card(), Err(CardError::InvalidRank));
}

#[test]
fn wire_id_is_not_consulted() {
    let dto = CardDTO { id: 3, suit: "Spades".to_string(), rank: "King".to_string() };
    assert_eq!(dto.to_card().unwrap(), Card::new(Suit::Spades, Rank::King));
}

#[test]
fn suit_names_parse() {
    assert_eq!(Suit::from_name(&"Diamonds".to_string()), Ok(Suit::Diamonds));
    assert_eq!(Suit::from_name(&"diamonds".to_string()), Err(CardError::InvalidSuit));
    assert_eq!(Rank::from_name(&"Queen".to_string()), Ok(Rank::Queen));
    assert_eq!(Suit::Clubs.name(), "Clubs");
}
