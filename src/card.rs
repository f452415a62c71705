//! Cards of the 32-card deck, their wire form and the suit/rank matching rule.
use vstd::prelude::*;

verus! {

#[derive(Clone, Copy, Debug, PartialEq, Eq, Structural)]
pub enum Suit {
    Clubs,
    Diamonds,
    Hearts,
    Spades,
}

#[derive(Clone, Copy, Debug, PartialEq, Eq, Structural)]
pub enum Rank {
    Ace,
    Seven,
    Eight,
    Nine,
    Ten,
    Jack,
    Queen,
    King,
}

/// A card of the deck. In a well-formed card the id determines suit and rank:
/// ids 0..8 are the clubs from Seven up to Ace, then diamonds, hearts, spades.
#[derive(Clone, Copy, Debug, PartialEq, Eq, Structural)]
pub struct Card {
    pub id: u8,
    pub suit: Suit,
    pub rank: Rank,
}

#[derive(Clone, Copy, Debug, PartialEq, Eq, Structural)]
pub enum CardError {
    InvalidSuit,
    InvalidRank,
}

/// Number of cards in the deck.
pub const DECK_SIZE: usize = 32;

pub open spec fn suit_index(s: Suit) -> nat {
    match s {
        Suit::Clubs => 0,
        Suit::Diamonds => 1,
        Suit::Hearts => 2,
        Suit::Spades => 3,
    }
}

/// Position of a rank within its suit, Seven lowest and Ace highest.
pub open spec fn rank_index(r: Rank) -> nat {
    match r {
        Rank::Seven => 0,
        Rank::Eight => 1,
        Rank::Nine => 2,
        Rank::Ten => 3,
        Rank::Jack => 4,
        Rank::Queen => 5,
        Rank::King => 6,
        Rank::Ace => 7,
    }
}

pub open spec fn suit_of_id(id: nat) -> Suit {
    if id < 8 {
        Suit::Clubs
    } else if id < 16 {
        Suit::Diamonds
    } else if id < 24 {
        Suit::Hearts
    } else {
        Suit::Spades
    }
}

pub open spec fn rank_of_id(id: nat) -> Rank {
    let r = id % 8;
    if r == 0 {
        Rank::Seven
    } else if r == 1 {
        Rank::Eight
    } else if r == 2 {
        Rank::Nine
    } else if r == 3 {
        Rank::Ten
    } else if r == 4 {
        Rank::Jack
    } else if r == 5 {
        Rank::Queen
    } else if r == 6 {
        Rank::King
    } else {
        Rank::Ace
    }
}

pub open spec fn id_of(s: Suit, r: Rank) -> nat {
    suit_index(s) * 8 + rank_index(r)
}

/// The card with the given id.
pub open spec fn card_of(id: nat) -> Card {
    Card { id: id as u8, suit: suit_of_id(id), rank: rank_of_id(id) }
}

/// The whole deck in id order.
pub open spec fn full_deck() -> Seq<Card> {
    Seq::new(32, |i: int| card_of(i as nat))
}

pub open spec fn is_seven_id(id: u8) -> bool {
    id < 32 && id % 8 == 0
}

pub open spec fn is_jack_id(id: u8) -> bool {
    id < 32 && id % 8 == 4
}

pub open spec fn suit_text(s: Suit) -> Seq<char> {
    match s {
        Suit::Clubs => "Clubs"@,
        Suit::Diamonds => "Diamonds"@,
        Suit::Hearts => "Hearts"@,
        Suit::Spades => "Spades"@,
    }
}

pub open spec fn rank_text(r: Rank) -> Seq<char> {
    match r {
        Rank::Ace => "Ace"@,
        Rank::Seven => "7"@,
        Rank::Eight => "8"@,
        Rank::Nine => "9"@,
        Rank::Ten => "10"@,
        Rank::Jack => "Jack"@,
        Rank::Queen => "Queen"@,
        Rank::King => "King"@,
    }
}

pub open spec fn suit_from_text(t: Seq<char>) -> Option<Suit> {
    if t == "Clubs"@ {
        Some(Suit::Clubs)
    } else if t == "Diamonds"@ {
        Some(Suit::Diamonds)
    } else if t == "Hearts"@ {
        Some(Suit::Hearts)
    } else if t == "Spades"@ {
        Some(Suit::Spades)
    } else {
        None
    }
}

pub open spec fn rank_from_text(t: Seq<char>) -> Option<Rank> {
    if t == "Ace"@ {
        Some(Rank::Ace)
    } else if t == "7"@ {
        Some(Rank::Seven)
    } else if t == "8"@ {
        Some(Rank::Eight)
    } else if t == "9"@ {
        Some(Rank::Nine)
    } else if t == "10"@ {
        Some(Rank::Ten)
    } else if t == "Jack"@ {
        Some(Rank::Jack)
    } else if t == "Queen"@ {
        Some(Rank::Queen)
    } else if t == "King"@ {
        Some(Rank::King)
    } else {
        None
    }
}

/// The card that a wire form stands for; its id field is not consulted.
pub open spec fn card_from_texts(suit: Seq<char>, rank: Seq<char>) -> Result<Card, CardError> {
    match suit_from_text(suit) {
        None => Err(CardError::InvalidSuit),
        Some(s) => match rank_from_text(rank) {
            None => Err(CardError::InvalidRank),
            Some(r) => Ok(card_of(id_of(s, r))),
        },
    }
}

pub proof fn lemma_card_of_parts(s: Suit, r: Rank)
    ensures
        id_of(s, r) < 32,
        card_of(id_of(s, r)).suit == s,
        card_of(id_of(s, r)).rank == r,
        card_of(id_of(s, r)).id == id_of(s, r),
{
}

/// Every card of the deck survives the trip to its wire form and back with
/// the same id, suit and rank.
pub proof fn lemma_wire_round_trip(c: Card)
    requires
        c.wf(),
    ensures
        card_from_texts(suit_text(c.suit), rank_text(c.rank)) == Ok::<Card, CardError>(c),
{
    reveal_strlit("Clubs");
    reveal_strlit("Diamonds");
    reveal_strlit("Hearts");
    reveal_strlit("Spades");
    reveal_strlit("Ace");
    reveal_strlit("7");
    reveal_strlit("8");
    reveal_strlit("9");
    reveal_strlit("10");
    reveal_strlit("Jack");
    reveal_strlit("Queen");
    reveal_strlit("King");
    assert("Clubs"@.len() == 5 && "Diamonds"@.len() == 8);
    assert("Hearts"@[0] == 'H' && "Spades"@[0] == 'S');
    assert("Hearts"@ != "Spades"@);
    assert("Ace"@.len() == 3 && "10"@.len() == 2 && "Queen"@.len() == 5);
    assert("7"@[0] == '7' && "8"@[0] == '8' && "9"@[0] == '9');
    assert("7"@ != "8"@ && "7"@ != "9"@ && "8"@ != "9"@);
    assert("Jack"@[0] == 'J' && "King"@[0] == 'K');
    assert("Jack"@ != "King"@);
    assert(suit_from_text(suit_text(c.suit)) == Some(c.suit));
    assert(rank_from_text(rank_text(c.rank)) == Some(c.rank));
    lemma_card_of_parts(c.suit, c.rank);
    assert(id_of(c.suit, c.rank) == c.id);
}

impl Card {
    /// The card is one of the deck: its suit and rank are those of its id.
    pub open spec fn wf(self) -> bool {
        self.id < 32 && self == card_of(self.id as nat)
    }

    /// The card of the given suit and rank.
    pub fn new(suit: Suit, rank: Rank) -> (c: Card)
        ensures
            c == card_of(id_of(suit, rank)),
            c.suit == suit,
            c.rank == rank,
            c.wf(),
    {
        proof {
            lemma_card_of_parts(suit, rank);
        }
        let id = suit.index() * 8 + rank.index();
        Card { id, suit, rank }
    }

    /// The card with the given id, if there is one.
    pub fn from_id(id: u8) -> (r: Option<Card>)
        ensures
            id < 32 ==> r == Some(card_of(id as nat)),
            id >= 32 ==> r is None,
    {
        if id >= 32 {
            return None;
        }
        let suit = if id < 8 {
            Suit::Clubs
        } else if id < 16 {
            Suit::Diamonds
        } else if id < 24 {
            Suit::Hearts
        } else {
            Suit::Spades
        };
        let r = id % 8;
        let rank = if r == 0 {
            Rank::Seven
        } else if r == 1 {
            Rank::Eight
        } else if r == 2 {
            Rank::Nine
        } else if r == 3 {
            Rank::Ten
        } else if r == 4 {
            Rank::Jack
        } else if r == 5 {
            Rank::Queen
        } else if r == 6 {
            Rank::King
        } else {
            Rank::Ace
        };
        Some(Card { id, suit, rank })
    }

    pub fn to_dto(&self) -> (d: CardDTO)
        ensures
            d.id == self.id,
            d.suit@ == suit_text(self.suit),
            d.rank@ == rank_text(self.rank),
    {
        CardDTO::new(*self)
    }

    /// Whether this card may be played on `other`: same suit or same rank.
    pub fn is_playable_on(&self, other: &Card) -> (r: bool)
        ensures
            r == (self.suit == other.suit || self.rank == other.rank),
    {
        self.suit == other.suit || self.rank == other.rank
    }
}

impl Suit {
    pub fn index(&self) -> (r: u8)
        ensures
            r == suit_index(*self),
    {
        match self {
            Suit::Clubs => 0,
            Suit::Diamonds => 1,
            Suit::Hearts => 2,
            Suit::Spades => 3,
        }
    }

    /// The suit's name as it appears on the wire.
    pub fn name(&self) -> (r: String)
        ensures
            r@ == suit_text(*self),
    {
        match self {
            Suit::Clubs => "Clubs".to_owned(),
            Suit::Diamonds => "Diamonds".to_owned(),
            Suit::Hearts => "Hearts".to_owned(),
            Suit::Spades => "Spades".to_owned(),
        }
    }

    /// The suit with the given name.
    pub fn from_name(t: &String) -> (r: Result<Suit, CardError>)
        ensures
            r == (match suit_from_text(t@) {
                Some(s) => Ok(s),
                None => Err(CardError::InvalidSuit),
            }),
    {
        if text_is(t, "Clubs") {
            Ok(Suit::Clubs)
        } else if text_is(t, "Diamonds") {
            Ok(Suit::Diamonds)
        } else if text_is(t, "Hearts") {
            Ok(Suit::Hearts)
        } else if text_is(t, "Spades") {
            Ok(Suit::Spades)
        } else {
            Err(CardError::InvalidSuit)
        }
    }
}

impl Rank {
    pub fn index(&self) -> (r: u8)
        ensures
            r == rank_index(*self),
    {
        match self {
            Rank::Seven => 0,
            Rank::Eight => 1,
            Rank::Nine => 2,
            Rank::Ten => 3,
            Rank::Jack => 4,
            Rank::Queen => 5,
            Rank::King => 6,
            Rank::Ace => 7,
        }
    }

    /// The rank's name as it appears on the wire.
    pub fn name(&self) -> (r: String)
        ensures
            r@ == rank_text(*self),
    {
        match self {
            Rank::Ace => "Ace".to_owned(),
            Rank::Seven => "7".to_owned(),
            Rank::Eight => "8".to_owned(),
            Rank::Nine => "9".to_owned(),
            Rank::Ten => "10".to_owned(),
            Rank::Jack => "Jack".to_owned(),
            Rank::Queen => "Queen".to_owned(),
            Rank::King => "King".to_owned(),
        }
    }

    /// The rank with the given name.
    pub fn from_name(t: &String) -> (r: Result<Rank, CardError>)
        ensures
            r == (match rank_from_text(t@) {
                Some(k) => Ok(k),
                None => Err(CardError::InvalidRank),
            }),
    {
        if text_is(t, "Ace") {
            Ok(Rank::Ace)
        } else if text_is(t, "7") {
            Ok(Rank::Seven)
        } else if text_is(t, "8") {
            Ok(Rank::Eight)
        } else if text_is(t, "9") {
            Ok(Rank::Nine)
        } else if text_is(t, "10") {
            Ok(Rank::Ten)
        } else if text_is(t, "Jack") {
            Ok(Rank::Jack)
        } else if text_is(t, "Queen") {
            Ok(Rank::Queen)
        } else if text_is(t, "King") {
            Ok(Rank::King)
        } else {
            Err(CardError::InvalidRank)
        }
    }
}

fn text_is(t: &String, lit: &str) -> (r: bool)
    ensures
        r == (t@ == lit@),
{
    let other = lit.to_owned();
    *t == other
}

/// A card as exchanged with callers: id, suit name and rank name.
#[derive(Debug, Clone)]
pub struct CardDTO {
    pub id: u8,
    pub suit: String,
    pub rank: String,
}

impl CardDTO {
    pub fn new(card: Card) -> (d: CardDTO)
        ensures
            d.id == card.id,
            d.suit@ == suit_text(card.suit),
            d.rank@ == rank_text(card.rank),
    {
        CardDTO { id: card.id, suit: card.suit.name(), rank: card.rank.name() }
    }

    /// The card named by the suit and rank texts.
    pub fn to_card(&self) -> (r: Result<Card, CardError>)
        ensures
            r == card_from_texts(self.suit@, self.rank@),
    {
        let suit = match Suit::from_name(&self.suit) {
            Ok(s) => s,
            Err(e) => return Err(e),
        };
        let rank = match Rank::from_name(&self.rank) {
            Ok(k) => k,
            Err(e) => return Err(e),
        };
        Ok(Card::new(suit, rank))
    }
}

} // verus!
