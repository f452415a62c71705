//! The game engine: deck, discard pile, players, turn order and action log,
//! changed only through `do_action` once the cards are dealt.
use crate::card::{card_of, full_deck, is_jack_id, is_seven_id, Card, Rank, Suit, DECK_SIZE};
use crate::deck::{lemma_draw_keeps_cards, top_down, Deck, DrawCardError};
use crate::lobby::LobbyPlayer;
use crate::player::Player;
use rand::Rng;
use vstd::prelude::*;
use vstd::multiset::Multiset;

verus! {

broadcast use vstd::seq_lib::group_to_multiset_ensures, vstd::multiset::group_multiset_axioms;

/// Relies on rand's `Rng::gen_range` with the thread-local generator: on the
/// non-empty range `0..n` it returns a value of that range.
#[verifier::external_body]
fn random_below(n: usize) -> (r: usize)
    requires
        n > 0,
    ensures
        r < n,
{
    rand::thread_rng().gen_range(0..n)
}

/// Player id under which the first card of the discard pile is logged.
pub const DEALER_ID: i64 = -1;

/// Cards dealt to each player.
pub const HAND_SIZE: usize = 5;

/// Most players a deck can be dealt to.
pub const MAX_PLAYERS: usize = 6;

/// A move of the player on turn.
#[derive(Clone, Copy, Debug, PartialEq, Eq, Structural)]
pub enum Action {
    /// Play the card with this id from the hand.
    PlayCard(u8),
    /// Draw this many cards.
    DrawCards(u8),
    /// Name the suit to follow after a Jack.
    DecideSuit(Suit),
    /// Pass.
    CannotPlay,
}

/// An entry of the action log.
#[derive(Clone, Copy, Debug, PartialEq, Eq, Structural)]
pub struct PlayerAction {
    pub action: Action,
    pub player_id: i64,
}

#[derive(Clone, Copy, Debug, PartialEq, Eq, Structural)]
pub enum CreateGameError {
    NotEnoughPlayers,
    TooManyPlayers,
    InvalidDeck,
    InvalidStarter,
}

#[derive(Clone, Copy, Debug, PartialEq, Eq, Structural)]
pub enum DoActionError {
    NotYourTurn,
    GameFinished,
    InvalidAction,
    DrawCardError(DrawCardError),
}

/// The cards of all hands together.
pub open spec fn hands_ms(players: Seq<Player>) -> Multiset<Card>
    decreases players.len(),
{
    if players.len() == 0 {
        Multiset::empty()
    } else {
        hands_ms(players.drop_last()).add(players.last().hand@.to_multiset())
    }
}

/// The number of cards in all hands together.
pub open spec fn hand_total(players: Seq<Player>) -> nat
    decreases players.len(),
{
    if players.len() == 0 {
        0
    } else {
        hand_total(players.drop_last()) + players.last().hand@.len()
    }
}

/// Seq of cards that holds each card of the deck exactly once.
pub open spec fn is_full_deck(cards: Seq<Card>) -> bool {
    &&& forall|i: int| 0 <= i < cards.len() ==> (#[trigger] cards[i]).wf()
    &&& cards.no_duplicates()
    &&& forall|id: nat| id < 32 ==> cards.contains(#[trigger] card_of(id))
}

proof fn lemma_full_deck_facts()
    ensures
        full_deck().no_duplicates(),
        full_deck().len() == 32,
        forall|c: Card| full_deck().contains(c) <==> c.wf(),
{
    assert forall|c: Card| full_deck().contains(c) <==> c.wf() by {
        if c.wf() {
            assert(full_deck()[c.id as int] == c);
        }
    }
}

/// Sequences without duplicates that hold the same cards hold them equally often.
proof fn lemma_same_members(a: Seq<Card>, b: Seq<Card>)
    requires
        a.no_duplicates(),
        b.no_duplicates(),
        forall|x: Card| a.contains(x) <==> b.contains(x),
    ensures
        a.to_multiset() == b.to_multiset(),
{
    a.lemma_multiset_has_no_duplicates();
    b.lemma_multiset_has_no_duplicates();
    assert forall|x: Card| a.to_multiset().count(x) == b.to_multiset().count(x) by {
        assert(a.contains(x) <==> a.to_multiset().count(x) > 0);
        assert(b.contains(x) <==> b.to_multiset().count(x) > 0);
    }
    assert(a.to_multiset() =~= b.to_multiset());
}

proof fn lemma_full_deck_permutation(cards: Seq<Card>)
    requires
        is_full_deck(cards),
    ensures
        cards.to_multiset() == full_deck().to_multiset(),
        cards.len() == 32,
{
    lemma_full_deck_facts();
    assert forall|x: Card| cards.contains(x) <==> full_deck().contains(x) by {
        if cards.contains(x) {
            let i = choose|i: int| 0 <= i < cards.len() && cards[i] == x;
            assert(cards[i].wf());
        }
        if full_deck().contains(x) {
            assert(x == card_of(x.id as nat));
        }
    }
    lemma_same_members(cards, full_deck());
    assert(cards.to_multiset().len() == full_deck().to_multiset().len());
}

proof fn lemma_hands_update(ps: Seq<Player>, i: int, p: Player)
    requires
        0 <= i < ps.len(),
    ensures
        hands_ms(ps.update(i, p)).add(ps[i].hand@.to_multiset()) == hands_ms(ps).add(
            p.hand@.to_multiset(),
        ),
        hand_total(ps.update(i, p)) + ps[i].hand@.len() == hand_total(ps) + p.hand@.len(),
    decreases ps.len(),
{
    let qs = ps.update(i, p);
    let old_h = ps[i].hand@.to_multiset();
    let new_h = p.hand@.to_multiset();
    let last_h = ps.last().hand@.to_multiset();
    assert(qs.len() == ps.len());
    if i == ps.len() - 1 {
        assert(qs.drop_last() =~= ps.drop_last());
        assert(qs.last() == p);
        let rest = hands_ms(ps.drop_last());
        assert(hands_ms(qs) == rest.add(new_h));
        assert(hands_ms(ps) == rest.add(old_h));
        assert(rest.add(new_h).add(old_h) =~= rest.add(old_h).add(new_h));
    } else {
        lemma_hands_update(ps.drop_last(), i, p);
        assert(qs.drop_last() =~= ps.drop_last().update(i, p));
        assert(qs.last() == ps.last());
        assert(ps.drop_last()[i] == ps[i]);
        let rest_q = hands_ms(qs.drop_last());
        let rest_p = hands_ms(ps.drop_last());
        assert(rest_q.add(old_h) == rest_p.add(new_h));
        assert(hands_ms(qs) == rest_q.add(last_h));
        assert(hands_ms(ps) == rest_p.add(last_h));
        assert forall|x: Card| #[trigger]
            rest_q.add(last_h).add(old_h).count(x) == rest_p.add(last_h).add(new_h).count(x) by {
            assert(rest_q.add(old_h).count(x) == rest_p.add(new_h).count(x));
        }
        assert(rest_q.add(last_h).add(old_h) =~= rest_p.add(last_h).add(new_h));
    }
}

proof fn lemma_hands_len(ps: Seq<Player>)
    ensures
        hands_ms(ps).len() == hand_total(ps),
    decreases ps.len(),
{
    if ps.len() > 0 {
        lemma_hands_len(ps.drop_last());
    }
}

proof fn lemma_hand_in_hands(ps: Seq<Player>, i: int, c: Card)
    requires
        0 <= i < ps.len(),
        ps[i].hand@.contains(c),
    ensures
        hands_ms(ps).count(c) > 0,
    decreases ps.len(),
{
    if i < ps.len() - 1 {
        lemma_hand_in_hands(ps.drop_last(), i, c);
    }
    assert(ps[i].hand@.to_multiset().count(c) > 0);
}

/// Number of Seven plays that end the log, counted back to the first entry
/// that is not one.
pub open spec fn tail_sevens(log: Seq<PlayerAction>) -> nat
    decreases log.len(),
{
    if log.len() == 0 {
        0
    } else if log.last().action matches Action::PlayCard(id) && is_seven_id(id) {
        tail_sevens(log.drop_last()) + 1
    } else {
        0
    }
}

/// The suit named by the last `DecideSuit`, as long as no card has been played
/// after it.
pub open spec fn declared_suit(log: Seq<PlayerAction>) -> Option<Suit>
    decreases log.len(),
{
    if log.len() == 0 {
        None
    } else {
        match log.last().action {
            Action::DecideSuit(s) => Some(s),
            Action::PlayCard(_) => None,
            _ => declared_suit(log.drop_last()),
        }
    }
}

/// What a card must have to be played.
#[derive(Clone, Copy, Debug, PartialEq, Eq, Structural)]
pub enum Fit {
    Rank(Rank),
    Suit(Suit),
    On(Card),
}

pub open spec fn fits(c: Card, f: Fit) -> bool {
    match f {
        Fit::Rank(r) => c.rank == r,
        Fit::Suit(s) => c.suit == s,
        Fit::On(top) => c.suit == top.suit || c.rank == top.rank,
    }
}

/// A `PlayCard` for each card of the hand that fits, in hand order.
pub open spec fn plays(hand: Seq<Card>, f: Fit) -> Seq<Action>
    decreases hand.len(),
{
    if hand.len() == 0 {
        Seq::empty()
    } else if fits(hand.last(), f) {
        plays(hand.drop_last(), f).push(Action::PlayCard(hand.last().id))
    } else {
        plays(hand.drop_last(), f)
    }
}

pub open spec fn suit_choices() -> Seq<Action> {
    seq![
        Action::DecideSuit(Suit::Hearts),
        Action::DecideSuit(Suit::Diamonds),
        Action::DecideSuit(Suit::Clubs),
        Action::DecideSuit(Suit::Spades),
    ]
}

/// The legal actions of the player `player_id` holding `hand`, given the
/// action log and the top card of the discard pile.
pub open spec fn viable(log: Seq<PlayerAction>, top: Card, hand: Seq<Card>, player_id: i64) -> Seq<
    Action,
> {
    let last = log.last();
    if last.action matches Action::PlayCard(id) && is_seven_id(id) {
        let sevens = plays(hand, Fit::Rank(Rank::Seven));
        if sevens.len() > 0 {
            sevens
        } else {
            seq![Action::DrawCards((2 * tail_sevens(log)) as u8)]
        }
    } else if last.action matches Action::PlayCard(id) && is_jack_id(id) {
        suit_choices()
    } else {
        match declared_suit(log) {
            Some(s) => {
                let p = plays(hand, Fit::Suit(s));
                if p.len() > 0 {
                    p
                } else {
                    seq![Action::DrawCards(1)]
                }
            },
            None => {
                let p = plays(hand, Fit::On(top));
                if p.len() > 0 {
                    p
                } else if last.action is DrawCards && last.player_id == player_id {
                    seq![Action::CannotPlay]
                } else {
                    seq![Action::DrawCards(1)]
                }
            },
        }
    }
}

pub struct Game {
    id: i64,
    lobby_id: i64,
    deck: Deck,
    discard_pile: Vec<Card>,
    players: Vec<Player>,
    /// Index into `players` of the player whose turn it is.
    turn: usize,
    winner: Option<i64>,
    actions: Vec<PlayerAction>,
    /// Length of the run of Seven plays that ends the log.
    sevens: u8,
    /// Suit declared after a Jack and still in force.
    wild_suit: Option<Suit>,
}

impl Game {
    pub closed spec fn ident(&self) -> i64 {
        self.id
    }

    pub closed spec fn lobby(&self) -> i64 {
        self.lobby_id
    }

    pub closed spec fn deck_seq(&self) -> Seq<Card> {
        self.deck.cards@
    }

    pub closed spec fn pile(&self) -> Seq<Card> {
        self.discard_pile@
    }

    pub closed spec fn roster(&self) -> Seq<Player> {
        self.players@
    }

    pub closed spec fn turn_index(&self) -> nat {
        self.turn as nat
    }

    pub closed spec fn winner_spec(&self) -> Option<i64> {
        self.winner
    }

    pub closed spec fn log(&self) -> Seq<PlayerAction> {
        self.actions@
    }

    /// The cached chain length and declared suit agree with the log.
    pub closed spec fn cache_ok(&self) -> bool {
        &&& self.sevens == tail_sevens(self.actions@)
        &&& self.wild_suit == declared_suit(self.actions@)
    }

    /// The player whose turn it is.
    pub open spec fn current(&self) -> Player {
        self.roster()[self.turn_index() as int]
    }

    pub open spec fn top(&self) -> Card {
        self.pile().last()
    }

    /// Every card of the game, wherever it is.
    pub open spec fn cards_ms(&self) -> Multiset<Card> {
        self.deck_seq().to_multiset().add(self.pile().to_multiset()).add(hands_ms(self.roster()))
    }

    pub open spec fn wf(&self) -> bool {
        &&& 2 <= self.roster().len() <= 6
        &&& self.turn_index() < self.roster().len()
        &&& self.cards_ms() == full_deck().to_multiset()
        &&& tail_sevens(self.log()) <= self.pile().len()
        &&& self.cache_ok()
    }

    /// The first card is on the discard pile.
    pub open spec fn started(&self) -> bool {
        self.pile().len() > 0 && self.log().len() > 0
    }

    /// Nothing dealt yet.
    pub open spec fn fresh(&self) -> bool {
        &&& self.deck_seq().len() == 32
        &&& self.pile().len() == 0
        &&& self.log().len() == 0
        &&& self.winner_spec() is None
        &&& forall|i: int| 0 <= i < self.roster().len() ==> (#[trigger] self.roster()[i]).hand@.len() == 0
    }

    pub open spec fn viable_for(&self, hand: Seq<Card>, player_id: i64) -> Seq<Action> {
        viable(self.log(), self.top(), hand, player_id)
    }

    /// Sizes in a well-formed game: the 32 cards are split among draw pile,
    /// discard pile and hands.
    pub proof fn lemma_sizes(&self)
        requires
            self.wf(),
        ensures
            self.deck_seq().len() + self.pile().len() + hand_total(self.roster()) == 32,
            self.pile().len() <= 32,
    {
        lemma_hands_len(self.roster());
        lemma_full_deck_facts();
        assert(full_deck().to_multiset().len() == 32);
    }
}


/// Every well-formed game holds each of the 32 cards exactly once, spread over
/// the draw pile, the discard pile and the hands, and no other card.
pub proof fn lemma_closed_world(g: &Game)
    requires
        g.wf(),
    ensures
        g.deck_seq().len() + g.pile().len() + hand_total(g.roster()) == 32,
        forall|id: nat| id < 32 ==> #[trigger] g.cards_ms().count(card_of(id)) == 1,
        forall|c: Card| #[trigger] g.cards_ms().count(c) > 0 ==> c.wf(),
{
    g.lemma_sizes();
    lemma_full_deck_facts();
    full_deck().lemma_multiset_has_no_duplicates();
    assert forall|id: nat| id < 32 implies #[trigger] g.cards_ms().count(card_of(id)) == 1 by {
        assert(full_deck()[id as int] == card_of(id));
        assert(full_deck().contains(card_of(id)));
    }
    assert forall|c: Card| #[trigger] g.cards_ms().count(c) > 0 implies c.wf() by {
        assert(full_deck().to_multiset().count(c) > 0);
        assert(full_deck().contains(c));
    }
}

/// Whether `cards` holds each card of the deck exactly once.
fn check_full_deck(cards: &Vec<Card>) -> (r: bool)
    ensures
        r == is_full_deck(cards@),
{
    let mut seen: Vec<bool> = vec![false; DECK_SIZE];
    let mut i: usize = 0;
    while i < cards.len()
        invariant
            i <= cards@.len(),
            seen@.len() == 32,
            forall|j: int| 0 <= j < i ==> (#[trigger] cards@[j]).wf(),
            forall|j: int, k: int| 0 <= j < k < i ==> cards@[j] != cards@[k],
            forall|id: int|
                0 <= id < 32 ==> (#[trigger] seen@[id] <==> exists|j: int|
                    0 <= j < i && cards@[j].id == id),
        decreases cards@.len() - i,
    {
        let c = cards[i];
        if c.id >= 32 {
            assert(!cards@[i as int].wf());
            return false;
        }
        let d = Card::from_id(c.id).unwrap();
        if d != c {
            assert(!cards@[i as int].wf());
            return false;
        }
        if seen[c.id as usize] {
            proof {
                let j = choose|j: int| 0 <= j < i && cards@[j].id == c.id;
                assert(cards@[j].wf());
                assert(cards@[j] == cards@[i as int]);
                assert(!cards@.no_duplicates());
            }
            return false;
        }
        let ghost old_seen = seen@;
        seen.set(c.id as usize, true);
        i = i + 1;
        assert forall|id: int| 0 <= id < 32 implies (#[trigger] seen@[id] <==> exists|j: int|
            0 <= j < i && cards@[j].id == id) by {
            if id == c.id {
                assert(cards@[i - 1].id == id);
            } else {
                assert(seen@[id] == old_seen[id]);
                if exists|j: int| 0 <= j < i && cards@[j].id == id {
                    let j = choose|j: int| 0 <= j < i && cards@[j].id == id;
                    assert(j < i - 1);
                }
            }
        }
    }
    let mut id: usize = 0;
    while id < DECK_SIZE
        invariant
            id <= 32,
            seen@.len() == 32,
            forall|k: int| 0 <= k < id ==> #[trigger] seen@[k],
            forall|j: int| 0 <= j < cards@.len() ==> (#[trigger] cards@[j]).wf(),
            cards@.no_duplicates(),
            forall|k: int|
                0 <= k < 32 ==> (#[trigger] seen@[k] <==> exists|j: int|
                    0 <= j < cards@.len() && cards@[j].id == k),
        decreases 32 - id,
    {
        if !seen[id] {
            proof {
                if cards@.contains(card_of(id as nat)) {
                    let k = choose|k: int| 0 <= k < cards@.len() && cards@[k] == card_of(id as nat);
                    assert(cards@[k].id == id);
                }
            }
            return false;
        }
        id = id + 1;
    }
    proof {
        assert forall|id: nat| id < 32 implies cards@.contains(#[trigger] card_of(id)) by {
            assert(seen@[id as int]);
            let j = choose|j: int| 0 <= j < cards@.len() && cards@[j].id == id;
            assert(cards@[j].wf());
        }
    }
    true
}

impl Game {
    /// A game in which nothing has been dealt yet.
    fn assemble(
        lobby_players: Vec<LobbyPlayer>,
        lobby_id: i64,
        id: i64,
        deck: Deck,
        starter: usize,
    ) -> (g: Game)
        requires
            2 <= lobby_players@.len() <= 6,
            starter < lobby_players@.len(),
            deck.cards@.to_multiset() == full_deck().to_multiset(),
        ensures
            g.wf(),
            g.ident() == id,
            g.lobby() == lobby_id,
            g.deck_seq() == deck.cards@,
            g.pile().len() == 0,
            g.log().len() == 0,
            g.winner_spec() is None,
            g.turn_index() == starter,
            g.roster().len() == lobby_players@.len(),
            forall|i: int|
                0 <= i < lobby_players@.len() ==> (#[trigger] g.roster()[i]).lobby_player
                    == lobby_players@[i] && g.roster()[i].hand@.len() == 0,
    {
        let mut players: Vec<Player> = Vec::new();
        let mut i: usize = 0;
        while i < lobby_players.len()
            invariant
                i <= lobby_players@.len(),
                players@.len() == i,
                hands_ms(players@) == Multiset::<Card>::empty(),
                forall|j: int|
                    0 <= j < i ==> (#[trigger] players@[j]).lobby_player == lobby_players@[j]
                        && players@[j].hand@.len() == 0,
            decreases lobby_players@.len() - i,
        {
            let ghost before = players@;
            let p = Player::new(lobby_players[i].clone());
            players.push(p);
            assert(players@.drop_last() =~= before);
            assert(p.hand@.to_multiset() =~= Multiset::<Card>::empty());
            assert(hands_ms(players@) =~= Multiset::<Card>::empty());
            i = i + 1;
        }
        let g = Game {
            id,
            lobby_id,
            deck,
            discard_pile: Vec::new(),
            players,
            turn: starter,
            winner: None,
            actions: Vec::new(),
            sevens: 0,
            wild_suit: None,
        };
        assert(g.pile().to_multiset() =~= Multiset::<Card>::empty());
        assert(g.cards_ms() =~= full_deck().to_multiset());
        g
    }

    /// A game for the given lobby members: the deck is shuffled and the first
    /// player is picked at random. Cards are dealt by `give_cards`.
    pub fn new(players: Vec<LobbyPlayer>, lobby_id: i64, id: i64) -> (r: Result<
        Game,
        CreateGameError,
    >)
        ensures
            players@.len() < 2 ==> r == Err::<Game, CreateGameError>(
                CreateGameError::NotEnoughPlayers,
            ),
            players@.len() > 6 ==> r == Err::<Game, CreateGameError>(
                CreateGameError::TooManyPlayers,
            ),
            2 <= players@.len() <= 6 ==> (r matches Ok(g) && g.wf() && g.fresh() && g.ident() == id
                && g.lobby() == lobby_id && g.roster().len() == players@.len() && (forall|i: int|
                0 <= i < players@.len() ==> (#[trigger] g.roster()[i]).lobby_player
                == players@[i])),
    {
        if players.len() < 2 {
            return Err(CreateGameError::NotEnoughPlayers);
        }
        if players.len() > MAX_PLAYERS {
            return Err(CreateGameError::TooManyPlayers);
        }
        let deck = Deck::new();
        let starter = random_below(players.len());
        Ok(Game::assemble(players, lobby_id, id, deck, starter))
    }

    /// A game whose draw pile is `deck` (its last card on top) and whose first
    /// player is `players[starter]`.
    pub fn with_deck(
        players: Vec<LobbyPlayer>,
        lobby_id: i64,
        id: i64,
        deck: Vec<Card>,
        starter: usize,
    ) -> (r: Result<Game, CreateGameError>)
        ensures
            players@.len() < 2 ==> r == Err::<Game, CreateGameError>(
                CreateGameError::NotEnoughPlayers,
            ),
            players@.len() > 6 ==> r == Err::<Game, CreateGameError>(
                CreateGameError::TooManyPlayers,
            ),
            2 <= players@.len() <= 6 && starter >= players@.len() ==> r == Err::<
                Game,
                CreateGameError,
            >(CreateGameError::InvalidStarter),
            2 <= players@.len() <= 6 && starter < players@.len() && !is_full_deck(deck@) ==> r
                == Err::<Game, CreateGameError>(CreateGameError::InvalidDeck),
            2 <= players@.len() <= 6 && starter < players@.len() && is_full_deck(deck@) ==> (r matches Ok(
                g,
            ) && g.wf() && g.fresh() && g.ident() == id && g.lobby() == lobby_id && g.deck_seq()
                == deck@ && g.turn_index() == starter && g.roster().len() == players@.len() && (
            forall|i: int|
                0 <= i < players@.len() ==> (#[trigger] g.roster()[i]).lobby_player
                    == players@[i])),
    {
        if players.len() < 2 {
            return Err(CreateGameError::NotEnoughPlayers);
        }
        if players.len() > MAX_PLAYERS {
            return Err(CreateGameError::TooManyPlayers);
        }
        if starter >= players.len() {
            return Err(CreateGameError::InvalidStarter);
        }
        if !check_full_deck(&deck) {
            return Err(CreateGameError::InvalidDeck);
        }
        proof {
            lemma_full_deck_permutation(deck@);
        }
        Ok(Game::assemble(players, lobby_id, id, Deck { cards: deck }, starter))
    }
}

impl Game {
    /// Appends `entry` to the log and brings the cached chain length and
    /// declared suit up to date.
    fn record(&mut self, entry: PlayerAction)
        requires
            old(self).cache_ok(),
            tail_sevens(old(self).log()) < 255,
        ensures
            final(self).cache_ok(),
            final(self).actions@ == old(self).actions@.push(entry),
            tail_sevens(final(self).actions@) <= tail_sevens(old(self).actions@) + 1,
            final(self).deck == old(self).deck,
            final(self).discard_pile == old(self).discard_pile,
            final(self).players == old(self).players,
            final(self).turn == old(self).turn,
            final(self).winner == old(self).winner,
            final(self).id == old(self).id,
            final(self).lobby_id == old(self).lobby_id,
    {
        let sevens: u8 = match entry.action {
            Action::PlayCard(id) => if id < 32 && id % 8 == 0 {
                self.sevens + 1
            } else {
                0
            },
            _ => 0,
        };
        let wild = match entry.action {
            Action::DecideSuit(s) => Some(s),
            Action::PlayCard(_) => None,
            _ => self.wild_suit,
        };
        self.actions.push(entry);
        self.sevens = sevens;
        self.wild_suit = wild;
        assert(self.actions@.drop_last() =~= old(self).actions@);
    }

    /// Deals five cards from the top of the draw pile to each player, in the
    /// order of the player list.
    pub fn give_cards(&mut self)
        requires
            old(self).wf(),
            old(self).deck_seq().len() >= 5 * old(self).roster().len(),
        ensures
            final(self).wf(),
            final(self).deck_seq() == old(self).deck_seq().subrange(
                0,
                old(self).deck_seq().len() - 5 * old(self).roster().len(),
            ),
            final(self).roster().len() == old(self).roster().len(),
            forall|i: int|
                0 <= i < old(self).roster().len() ==> (#[trigger] final(self).roster()[i]).lobby_player
                    == old(self).roster()[i].lobby_player && final(self).roster()[i].hand@ == old(
                    self,
                ).roster()[i].hand@ + top_down(
                    old(self).deck_seq().subrange(0, old(self).deck_seq().len() - 5 * i),
                    5,
                ),
            final(self).pile() == old(self).pile(),
            final(self).log() == old(self).log(),
            final(self).turn_index() == old(self).turn_index(),
            final(self).winner_spec() == old(self).winner_spec(),
            final(self).ident() == old(self).ident(),
            final(self).lobby() == old(self).lobby(),
    {
        let ghost deck0 = self.deck.cards@;
        let ghost roster0 = self.players@;
        let mut i: usize = 0;
        while i < self.players.len()
            invariant
                self.wf(),
                i <= self.players@.len(),
                self.players@.len() == roster0.len(),
                deck0.len() >= 5 * roster0.len(),
                self.deck.cards@ == deck0.subrange(0, deck0.len() - 5 * i),
                forall|j: int|
                    0 <= j < i ==> (#[trigger] self.players@[j]).lobby_player == roster0[j].lobby_player
                        && self.players@[j].hand@ == roster0[j].hand@ + top_down(
                        deck0.subrange(0, deck0.len() - 5 * j),
                        5,
                    ),
                forall|j: int| i <= j < roster0.len() ==> #[trigger] self.players@[j] == roster0[j],
                self.discard_pile == old(self).discard_pile,
                self.actions == old(self).actions,
                self.turn == old(self).turn,
                self.winner == old(self).winner,
                self.id == old(self).id,
                self.lobby_id == old(self).lobby_id,
            decreases roster0.len() - i,
        {
            let ghost g0 = *self;
            let ghost deck_before = self.deck.cards@;
            let mut cards = self.deck.draw_many(HAND_SIZE).unwrap();
            let ghost drawn = cards@;
            let ghost hand_before = self.players@[i as int].hand@;
            self.players[i].hand.append(&mut cards);
            proof {
                assert(deck0.subrange(0, deck0.len() - 5 * i) == deck_before);
                assert(self.deck.cards@ =~= deck0.subrange(0, deck0.len() - 5 * (i + 1)));
                assert(self.players@[i as int].hand@ == hand_before + drawn);
                lemma_draw_keeps_cards(deck_before, 5);
                vstd::seq_lib::lemma_multiset_commutative(hand_before, drawn);
                lemma_hands_update(g0.players@, i as int, self.players@[i as int]);
                assert(self.players@ == g0.players@.update(i as int, self.players@[i as int]));
                let dm = drawn.to_multiset();
                assert(deck_before.to_multiset() == self.deck.cards@.to_multiset().add(dm));
                assert(hands_ms(self.players@).add(hand_before.to_multiset()) == hands_ms(
                    g0.players@,
                ).add(hand_before.to_multiset().add(dm)));
                assert forall|x: Card| #[trigger]
                    self.cards_ms().count(x) == g0.cards_ms().count(x) by {
                    assert(hands_ms(self.players@).add(hand_before.to_multiset()).count(x)
                        == hands_ms(g0.players@).add(hand_before.to_multiset().add(dm)).count(
                        x,
                    ));
                }
                assert(self.cards_ms() =~= g0.cards_ms());
            }
            i = i + 1;
        }
    }

    /// Turns the top card of the draw pile onto the discard pile. It is logged
    /// as a card played by the dealer.
    pub fn turn_top_card(&mut self)
        requires
            old(self).wf(),
            old(self).deck_seq().len() > 0,
        ensures
            final(self).wf(),
            final(self).started(),
            final(self).pile() == old(self).pile().push(old(self).deck_seq().last()),
            final(self).deck_seq() == old(self).deck_seq().drop_last(),
            final(self).log() == old(self).log().push(
                PlayerAction {
                    action: Action::PlayCard(old(self).deck_seq().last().id),
                    player_id: DEALER_ID,
                },
            ),
            final(self).roster() == old(self).roster(),
            final(self).turn_index() == old(self).turn_index(),
            final(self).winner_spec() == old(self).winner_spec(),
            final(self).ident() == old(self).ident(),
            final(self).lobby() == old(self).lobby(),
    {
        proof {
            self.lemma_sizes();
        }
        let ghost g0 = *self;
        let card = self.deck.draw().unwrap();
        self.discard_pile.push(card);
        self.record(PlayerAction { action: Action::PlayCard(card.id), player_id: DEALER_ID });
        proof {
            assert(g0.deck.cards@ =~= self.deck.cards@.push(card));
            assert(self.cards_ms() =~= g0.cards_ms());
        }
    }
}

/// Index of the first player with the given id, or -1 when there is none.
pub open spec fn player_index(ps: Seq<Player>, player_id: i64) -> int
    decreases ps.len(),
{
    if ps.len() == 0 {
        -1
    } else {
        let k = player_index(ps.drop_last(), player_id);
        if k >= 0 {
            k
        } else if ps.last().lobby_player.user_id == player_id {
            ps.len() - 1
        } else {
            -1
        }
    }
}

/// Position of the first player with the given id.
pub fn find_player(players: &Vec<Player>, player_id: i64) -> (r: Option<usize>)
    ensures
        r matches Some(i) ==> i == player_index(players@, player_id) && i < players@.len()
            && players@[i as int].lobby_player.user_id == player_id,
        r is None ==> player_index(players@, player_id) < 0,
{
    let mut i: usize = 0;
    while i < players.len()
        invariant
            i <= players@.len(),
            player_index(players@.subrange(0, i as int), player_id) == -1,
        decreases players@.len() - i,
    {
        assert(players@.subrange(0, i + 1).drop_last() =~= players@.subrange(0, i as int));
        if players[i].lobby_player.user_id == player_id {
            proof {
                lemma_player_index_prefix(players@, i as int + 1, player_id);
            }
            return Some(i);
        }
        i = i + 1;
    }
    assert(players@.subrange(0, i as int) =~= players@);
    None
}

fn fits_card(c: &Card, f: &Fit) -> (r: bool)
    ensures
        r == fits(*c, *f),
{
    match f {
        Fit::Rank(r) => c.rank == *r,
        Fit::Suit(s) => c.suit == *s,
        Fit::On(top) => c.is_playable_on(top),
    }
}

/// A `PlayCard` for each card of `hand` that fits, in hand order.
fn plays_for(hand: &Vec<Card>, f: Fit) -> (r: Vec<Action>)
    ensures
        r@ == plays(hand@, f),
{
    let mut r: Vec<Action> = Vec::new();
    let mut i: usize = 0;
    while i < hand.len()
        invariant
            i <= hand@.len(),
            r@ == plays(hand@.subrange(0, i as int), f),
        decreases hand@.len() - i,
    {
        let c = hand[i];
        if fits_card(&c, &f) {
            r.push(Action::PlayCard(c.id));
        }
        assert(hand@.subrange(0, i + 1).drop_last() =~= hand@.subrange(0, i as int));
        i = i + 1;
    }
    assert(hand@.subrange(0, hand@.len() as int) =~= hand@);
    r
}

/// The legal actions of `player` in `game`; never empty. Drawing is the
/// fallback whenever no card may be played, passing is offered only right
/// after the player's own draw.
pub fn calculate_viable_actions(player: &Player, game: &Game) -> (r: Vec<Action>)
    requires
        game.wf(),
        game.started(),
    ensures
        r@ == game.viable_for(player.hand@, player.lobby_player.user_id),
        r@.len() > 0,
{
    let last = game.actions[game.actions.len() - 1];
    let hand = &player.hand;
    match last.action {
        Action::PlayCard(id) => {
            if id < 32 && id % 8 == 0 {
                let sevens = plays_for(hand, Fit::Rank(Rank::Seven));
                if sevens.len() > 0 {
                    return sevens;
                }
                proof {
                    game.lemma_sizes();
                }
                return vec![Action::DrawCards(2 * game.sevens)];
            }
            if id < 32 && id % 8 == 4 {
                return vec![
                    Action::DecideSuit(Suit::Hearts),
                    Action::DecideSuit(Suit::Diamonds),
                    Action::DecideSuit(Suit::Clubs),
                    Action::DecideSuit(Suit::Spades),
                ];
            }
        },
        _ => {},
    }
    match game.wild_suit {
        Some(s) => {
            let p = plays_for(hand, Fit::Suit(s));
            if p.len() > 0 {
                p
            } else {
                vec![Action::DrawCards(1)]
            }
        },
        None => {
            let top = game.discard_pile[game.discard_pile.len() - 1];
            let p = plays_for(hand, Fit::On(top));
            if p.len() > 0 {
                p
            } else if matches!(last.action, Action::DrawCards(_)) && last.player_id
                == player.lobby_player.user_id {
                vec![Action::CannotPlay]
            } else {
                vec![Action::DrawCards(1)]
            }
        },
    }
}

impl Game {
    /// The legal actions of the player with the given id, recomputed from the
    /// game as it stands; empty when no such player takes part. Reading them
    /// changes nothing, so asking twice gives the same list.
    pub fn viable_actions(&self, player_id: i64) -> (r: Vec<Action>)
        requires
            self.wf(),
            self.started(),
        ensures
            player_index(self.roster(), player_id) >= 0 ==> r@ == self.viable_for(
                self.roster()[player_index(self.roster(), player_id)].hand@,
                player_id,
            ),
            player_index(self.roster(), player_id) < 0 ==> r@.len() == 0,
    {
        match find_player(&self.players, player_id) {
            Some(i) => calculate_viable_actions(&self.players[i], self),
            None => Vec::new(),
        }
    }

    /// Whether `card` may be played on the top of the discard pile.
    pub fn can_play_card(&self, card: &Card) -> (r: bool)
        requires
            self.started(),
        ensures
            r == (card.suit == self.top().suit || card.rank == self.top().rank),
    {
        let top = &self.discard_pile[self.discard_pile.len() - 1];
        card.is_playable_on(top)
    }
}

/// The first player with an id among a prefix is the first one overall.
pub proof fn lemma_player_index_prefix(ps: Seq<Player>, k: int, player_id: i64)
    requires
        0 < k <= ps.len(),
        player_index(ps.subrange(0, k), player_id) >= 0,
    ensures
        player_index(ps, player_id) == player_index(ps.subrange(0, k), player_id),
    decreases ps.len(),
{
    if k < ps.len() {
        assert(ps.drop_last().subrange(0, k) =~= ps.subrange(0, k));
        lemma_player_index_prefix(ps.drop_last(), k, player_id);
    } else {
        assert(ps.subrange(0, k) =~= ps);
    }
}

proof fn lemma_two_steps(t: int, n: int)
    requires
        0 <= t < n,
        n >= 2,
    ensures
        ((t + 1) % n + 1) % n == (t + 2) % n,
{
    vstd::arithmetic::div_mod::lemma_small_mod(1, n as nat);
    if t + 1 < n {
        vstd::arithmetic::div_mod::lemma_small_mod((t + 1) as nat, n as nat);
        if t + 2 < n {
            vstd::arithmetic::div_mod::lemma_small_mod((t + 2) as nat, n as nat);
        } else {
            vstd::arithmetic::div_mod::lemma_mod_self_0(n);
        }
    } else {
        vstd::arithmetic::div_mod::lemma_mod_self_0(n);
        vstd::arithmetic::div_mod::lemma_mod_add_multiples_vanish(1, n);
    }
}

proof fn lemma_plays_from_hand(hand: Seq<Card>, f: Fit, a: Action)
    requires
        plays(hand, f).contains(a),
    ensures
        a matches Action::PlayCard(id) && exists|j: int| 0 <= j < hand.len() && hand[j].id == id,
    decreases hand.len(),
{
    let rest = plays(hand.drop_last(), f);
    if fits(hand.last(), f) && a == Action::PlayCard(hand.last().id) {
        assert(hand[hand.len() - 1].id == hand.last().id);
    } else {
        if fits(hand.last(), f) {
            assert(plays(hand, f) == rest.push(Action::PlayCard(hand.last().id)));
            let k = choose|k: int| 0 <= k < plays(hand, f).len() && plays(hand, f)[k] == a;
            assert(rest[k] == a);
        }
        assert(rest.contains(a));
        lemma_plays_from_hand(hand.drop_last(), f, a);
        if let Action::PlayCard(id) = a {
            let j = choose|j: int| 0 <= j < hand.drop_last().len() && hand.drop_last()[j].id == id;
            assert(hand[j] == hand.drop_last()[j]);
        }
    }
}

fn contains_action(options: &Vec<Action>, a: Action) -> (r: bool)
    ensures
        r == options@.contains(a),
{
    let mut i: usize = 0;
    while i < options.len()
        invariant
            i <= options@.len(),
            forall|j: int| 0 <= j < i ==> options@[j] != a,
        decreases options@.len() - i,
    {
        if options[i] == a {
            return true;
        }
        i = i + 1;
    }
    false
}

impl Game {
    /// Why the game refuses `action` from `player_id`, if it does.
    pub open spec fn refusal(&self, action: Action, player_id: i64) -> Option<DoActionError> {
        if player_id != self.current().lobby_player.user_id {
            Some(DoActionError::NotYourTurn)
        } else if self.winner_spec() is Some {
            Some(DoActionError::GameFinished)
        } else if !self.viable_for(self.current().hand@, player_id).contains(action) {
            Some(DoActionError::InvalidAction)
        } else if action matches Action::DrawCards(k) && self.deck_seq().len() + self.pile().len()
            - 1 < k {
            Some(DoActionError::DrawCardError(DrawCardError::NoCardsLeft))
        } else {
            None
        }
    }

    /// The players other than the one on turn are as they were; the one on
    /// turn is the same person.
    pub open spec fn others_kept(&self, next: &Game) -> bool {
        let t = self.turn_index() as int;
        &&& next.roster().len() == self.roster().len()
        &&& forall|j: int|
            0 <= j < self.roster().len() && j != t ==> #[trigger] next.roster()[j]
                == self.roster()[j]
        &&& next.roster()[t].lobby_player == self.current().lobby_player
    }

    /// `next` is this game after the player on turn played the card `id`:
    /// the card moves from the hand onto the discard pile; an Eight skips the
    /// next player, a Jack keeps the turn for naming a suit, and emptying the
    /// hand wins the game without passing the turn.
    pub open spec fn after_play(&self, next: &Game, id: u8) -> bool {
        let t = self.turn_index() as int;
        let n = self.roster().len() as int;
        let c = card_of(id as nat);
        let hand = self.current().hand@;
        let new_hand = next.roster()[t].hand@;
        &&& self.others_kept(next)
        &&& exists|i: int| 0 <= i < hand.len() && hand[i] == c && new_hand == hand.remove(i)
        &&& next.pile() == self.pile().push(c)
        &&& next.deck_seq() == self.deck_seq()
        &&& next.winner_spec() == if new_hand.len() == 0 {
            Some(self.current().lobby_player.user_id)
        } else {
            None
        }
        &&& next.turn_index() == if new_hand.len() == 0 || c.rank == Rank::Jack {
            t
        } else if c.rank == Rank::Eight {
            (t + 2) % n
        } else {
            (t + 1) % n
        }
    }

    /// `next` is this game after the player on turn drew `k` cards, recycling
    /// the discard pile below its top card when the draw pile ran short; the
    /// turn passes on.
    pub open spec fn after_draw(&self, next: &Game, k: nat) -> bool {
        let t = self.turn_index() as int;
        let n = self.roster().len() as int;
        let hand = self.current().hand@;
        let new_hand = next.roster()[t].hand@;
        let d = self.deck_seq();
        &&& self.others_kept(next)
        &&& next.winner_spec() == self.winner_spec()
        &&& next.turn_index() == (t + 1) % n
        &&& k <= d.len() ==> new_hand == hand + top_down(d, k) && next.deck_seq() == d.subrange(
            0,
            d.len() - k,
        ) && next.pile() == self.pile()
        &&& k > d.len() ==> new_hand.len() == hand.len() + k && new_hand.subrange(
            0,
            hand.len() as int,
        ) == hand && next.pile() == seq![self.top()] && next.deck_seq().len() == d.len()
            + self.pile().len() - 1 - k
    }

    /// `next` is this game with the turn passed on and nothing else changed
    /// but the log.
    pub open spec fn after_pass(&self, next: &Game) -> bool {
        &&& next.roster() == self.roster()
        &&& next.deck_seq() == self.deck_seq()
        &&& next.pile() == self.pile()
        &&& next.winner_spec() == self.winner_spec()
        &&& next.turn_index() == (self.turn_index() + 1) % self.roster().len()
    }

    /// Once a game has a winner it takes no further action: every request is
    /// refused, the one of the player on turn with `GameFinished`.
    pub proof fn lemma_finished_game_refuses(&self, action: Action, player_id: i64)
        requires
            self.winner_spec() is Some,
        ensures
            self.refusal(action, player_id) is Some,
            player_id == self.current().lobby_player.user_id ==> self.refusal(action, player_id)
                == Some(DoActionError::GameFinished),
    {
    }

    /// Passes the turn to the next player in list order.
    fn next_player(&mut self)
        requires
            old(self).wf(),
        ensures
            final(self).wf(),
            final(self).turn == (old(self).turn + 1) % (old(self).players@.len() as int),
            final(self).deck == old(self).deck,
            final(self).discard_pile == old(self).discard_pile,
            final(self).players == old(self).players,
            final(self).actions == old(self).actions,
            final(self).winner == old(self).winner,
            final(self).id == old(self).id,
            final(self).lobby_id == old(self).lobby_id,
    {
        self.turn = (self.turn + 1) % self.players.len();
    }

    /// The player on turn plays the card `id` from their hand.
    fn play_card(&mut self, id: u8, player_id: i64)
        requires
            old(self).wf(),
            old(self).started(),
            old(self).winner_spec() is None,
            player_id == old(self).current().lobby_player.user_id,
            old(self).viable_for(old(self).current().hand@, player_id).contains(
                Action::PlayCard(id),
            ),
        ensures
            final(self).wf(),
            final(self).started(),
            old(self).after_play(final(self), id),
            final(self).log() == old(self).log().push(
                PlayerAction { action: Action::PlayCard(id), player_id },
            ),
            final(self).ident() == old(self).ident(),
            final(self).lobby() == old(self).lobby(),
    {
        let ghost g0 = *self;
        let t = self.turn;
        proof {
            let hand = g0.current().hand@;
            let a = Action::PlayCard(id);
            let options = g0.viable_for(hand, player_id);
            let last = g0.log().last();
            if last.action matches Action::PlayCard(x) && is_seven_id(x) {
                if plays(hand, Fit::Rank(Rank::Seven)).len() > 0 {
                    lemma_plays_from_hand(hand, Fit::Rank(Rank::Seven), a);
                }
            } else if !(last.action matches Action::PlayCard(x) && is_jack_id(x)) {
                match declared_suit(g0.log()) {
                    Some(s) => {
                        if plays(hand, Fit::Suit(s)).len() > 0 {
                            lemma_plays_from_hand(hand, Fit::Suit(s), a);
                        }
                    },
                    None => {
                        if plays(hand, Fit::On(g0.top())).len() > 0 {
                            lemma_plays_from_hand(hand, Fit::On(g0.top()), a);
                        }
                    },
                }
            }
            let j = choose|j: int| 0 <= j < hand.len() && hand[j].id == id;
            assert(hand.contains(hand[j]));
            lemma_hand_in_hands(g0.roster(), t as int, hand[j]);
            lemma_closed_world(&g0);
            assert(g0.cards_ms().count(hand[j]) > 0);
            assert(hand[j].wf());
            g0.lemma_sizes();
        }
        let card = Card::from_id(id).unwrap();
        let removed = self.players[t].remove_card(&card);
        assert(removed is Ok);
        let ghost hand_after = self.players@[t as int].hand@;
        self.discard_pile.push(card);
        self.record(PlayerAction { action: Action::PlayCard(id), player_id });
        proof {
            let hand = g0.current().hand@;
            let i = choose|i: int|
                0 <= i < hand.len() && hand[i] == card && (forall|j: int|
                    0 <= j < i ==> hand[j] != card) && hand_after == hand.remove(i);
            assert(hand.remove(i).to_multiset() == hand.to_multiset().remove(card));
            lemma_hands_update(g0.players@, t as int, self.players@[t as int]);
            assert(self.players@ == g0.players@.update(t as int, self.players@[t as int]));
            assert(self.discard_pile@ == g0.discard_pile@.push(card));
            assert forall|x: Card| #[trigger] self.cards_ms().count(x) == g0.cards_ms().count(x) by {
                assert(hands_ms(self.players@).add(hand.to_multiset()).count(x) == hands_ms(
                    g0.players@,
                ).add(hand_after.to_multiset()).count(x));
            }
            assert(self.cards_ms() =~= g0.cards_ms());
        }
        if self.players[t].hand.len() == 0 {
            self.winner = Some(player_id);
        } else if card.rank == Rank::Eight {
            self.next_player();
            self.next_player();
            proof {
                lemma_two_steps(t as int, self.players@.len() as int);
            }
        } else if card.rank != Rank::Jack {
            self.next_player();
        }
    }

    /// Carries out `action` for the player `player_id`.
    ///
    /// The action is refused when it is not the player's turn, when the game
    /// already has a winner, when the action is not among the player's viable
    /// actions, and when a draw finds too few cards even after recycling the
    /// discard pile; a refused action changes nothing. Otherwise it is logged
    /// and takes effect: see `after_play`, `after_draw` and `after_pass`.
    pub fn do_action(&mut self, action: Action, player_id: i64) -> (r: Result<(), DoActionError>)
        requires
            old(self).wf(),
            old(self).started(),
        ensures
            final(self).wf(),
            final(self).started(),
            r is Err <==> old(self).refusal(action, player_id) is Some,
            r is Err ==> r == Err::<(), DoActionError>(old(self).refusal(action, player_id).unwrap())
                && *final(self) == *old(self),
            r is Ok ==> final(self).log() == old(self).log().push(PlayerAction { action, player_id })
                && final(self).ident() == old(self).ident() && final(self).lobby()
                == old(self).lobby(),
            r is Ok ==> match action {
                Action::PlayCard(id) => old(self).after_play(final(self), id),
                Action::DrawCards(k) => old(self).after_draw(final(self), k as nat),
                _ => old(self).after_pass(final(self)),
            },
    {
        let t = self.turn;
        if player_id != self.players[t].lobby_player.user_id {
            return Err(DoActionError::NotYourTurn);
        }
        if self.winner.is_some() {
            return Err(DoActionError::GameFinished);
        }
        let options = calculate_viable_actions(&self.players[t], self);
        if !contains_action(&options, action) {
            return Err(DoActionError::InvalidAction);
        }
        proof {
            self.lemma_sizes();
        }
        let ghost g0 = *self;
        match action {
            Action::PlayCard(id) => {
                self.play_card(id, player_id);
            },
            Action::DrawCards(k) => {
                let drawn = self.deck.draw_with_recycle(&mut self.discard_pile, k as usize);
                let mut cards = match drawn {
                    Ok(c) => c,
                    Err(e) => {
                        return Err(DoActionError::DrawCardError(e));
                    },
                };
                let ghost got = cards@;
                let ghost hand = self.players@[t as int].hand@;
                self.players[t].hand.append(&mut cards);
                proof {
                    let d = g0.deck.cards@;
                    let pl = g0.discard_pile@;
                    let dm = self.deck.cards@.to_multiset();
                    let gm = got.to_multiset();
                    let pm = self.discard_pile@.to_multiset();
                    vstd::seq_lib::lemma_multiset_commutative(hand, got);
                    lemma_hands_update(g0.players@, t as int, self.players@[t as int]);
                    assert(self.players@ == g0.players@.update(t as int, self.players@[t as int]));
                    if k as nat <= d.len() {
                        lemma_draw_keeps_cards(d, k as nat);
                        assert(dm.add(gm) == d.to_multiset());
                        assert(pm == pl.to_multiset());
                    } else {
                        assert(pl =~= pl.drop_last().push(pl.last()));
                        assert(pl.to_multiset() == pl.drop_last().to_multiset().insert(pl.last()));
                        assert(seq![pl.last()] =~= Seq::<Card>::empty().push(pl.last()));
                        assert(pm == Seq::<Card>::empty().to_multiset().insert(pl.last()));
                        assert(Seq::<Card>::empty().to_multiset() =~= Multiset::<Card>::empty());
                        assert(dm.add(gm) == d.to_multiset().add(pl.drop_last().to_multiset()));
                    }
                    assert forall|x: Card| #[trigger]
                        self.cards_ms().count(x) == g0.cards_ms().count(x) by {
                        assert(hands_ms(self.players@).add(hand.to_multiset()).count(x)
                            == hands_ms(g0.players@).add(hand.to_multiset().add(gm)).count(x));
                        assert(dm.add(gm).count(x) == dm.count(x) + gm.count(x));
                    }
                    assert(self.cards_ms() =~= g0.cards_ms());
                    assert(self.players@[t as int].hand@.subrange(0, hand.len() as int) =~= hand);
                }
                self.record(PlayerAction { action, player_id });
                self.next_player();
            },
            Action::DecideSuit(_) => {
                self.record(PlayerAction { action, player_id });
                self.next_player();
            },
            Action::CannotPlay => {
                self.record(PlayerAction { action, player_id });
                self.next_player();
            },
        }
        Ok(())
    }
}

impl Game {
    pub fn id(&self) -> (r: i64)
        ensures
            r == self.ident(),
    {
        self.id
    }

    pub fn lobby_id(&self) -> (r: i64)
        ensures
            r == self.lobby(),
    {
        self.lobby_id
    }

    /// Number of cards left in the draw pile.
    pub fn deck_size(&self) -> (r: usize)
        ensures
            r == self.deck_seq().len(),
    {
        self.deck.len()
    }

    /// The discard pile, its last card on top.
    pub fn discard_pile(&self) -> (r: &Vec<Card>)
        ensures
            r@ == self.pile(),
    {
        &self.discard_pile
    }

    /// The players in turn order.
    pub fn players(&self) -> (r: &Vec<Player>)
        ensures
            r@ == self.roster(),
    {
        &self.players
    }

    /// The action log, oldest first.
    pub fn actions(&self) -> (r: &Vec<PlayerAction>)
        ensures
            r@ == self.log(),
    {
        &self.actions
    }

    pub fn winner(&self) -> (r: Option<i64>)
        ensures
            r == self.winner_spec(),
    {
        self.winner
    }

    /// Position in the player list of the player whose turn it is.
    pub fn current_index(&self) -> (r: usize)
        requires
            self.wf(),
        ensures
            r == self.turn_index(),
            r < self.roster().len(),
    {
        self.turn
    }

    /// Id of the player whose turn it is.
    pub fn current_turn_player(&self) -> (r: i64)
        requires
            self.wf(),
        ensures
            r == self.current().lobby_player.user_id,
    {
        self.players[self.turn].lobby_player.user_id
    }
}

} // verus!
