//! Actions as a form submits them and as a page offers them.
use crate::card::{suit_from_text, Suit};
use crate::game::Action;
use vstd::prelude::*;

verus! {

/// The fields of an action form; the first one that is set decides.
#[derive(Debug)]
pub struct HandleActionParams {
    pub play_card: Option<u8>,
    pub draw_cards: Option<u8>,
    pub decide_suit: Option<String>,
    pub end_turn: bool,
}

#[derive(Clone, Copy, Debug, PartialEq, Eq, Structural)]
pub enum ParseActionError {
    InvalidAction,
    InvalidSuit,
}

/// The action that a form stands for.
pub open spec fn action_of_params(p: HandleActionParams) -> Result<Action, ParseActionError> {
    if p.play_card is Some {
        Ok(Action::PlayCard(p.play_card.unwrap()))
    } else if p.draw_cards is Some {
        Ok(Action::DrawCards(p.draw_cards.unwrap()))
    } else if p.decide_suit is Some {
        match suit_from_text(p.decide_suit.unwrap()@) {
            Some(s) => Ok(Action::DecideSuit(s)),
            None => Err(ParseActionError::InvalidSuit),
        }
    } else if p.end_turn {
        Ok(Action::CannotPlay)
    } else {
        Err(ParseActionError::InvalidAction)
    }
}

impl Action {
    /// Reads an action from the fields of a form.
    pub fn from_params(params: HandleActionParams) -> (r: Result<Action, ParseActionError>)
        ensures
            r == action_of_params(params),
    {
        if let Some(card_id) = params.play_card {
            Ok(Action::PlayCard(card_id))
        } else if let Some(n) = params.draw_cards {
            Ok(Action::DrawCards(n))
        } else if let Some(suit) = &params.decide_suit {
            match Suit::from_name(suit) {
                Ok(s) => Ok(Action::DecideSuit(s)),
                Err(_) => Err(ParseActionError::InvalidSuit),
            }
        } else if params.end_turn {
            Ok(Action::CannotPlay)
        } else {
            Err(ParseActionError::InvalidAction)
        }
    }
}

/// A list of actions grouped the way a page shows them.
#[derive(Debug)]
pub struct ActionsToDisplay {
    pub playable_cards: Vec<u8>,
    pub draw_cards: Option<u8>,
    pub decide_suit: bool,
    pub end_turn: bool,
}

/// The card ids of the `PlayCard` actions, in order.
pub open spec fn played_ids(actions: Seq<Action>) -> Seq<u8>
    decreases actions.len(),
{
    if actions.len() == 0 {
        Seq::empty()
    } else {
        match actions.last() {
            Action::PlayCard(id) => played_ids(actions.drop_last()).push(id),
            _ => played_ids(actions.drop_last()),
        }
    }
}

/// The amount of the last `DrawCards` action, if any.
pub open spec fn last_draw(actions: Seq<Action>) -> Option<u8>
    decreases actions.len(),
{
    if actions.len() == 0 {
        None
    } else {
        match actions.last() {
            Action::DrawCards(n) => Some(n),
            _ => last_draw(actions.drop_last()),
        }
    }
}

impl ActionsToDisplay {
    pub fn from_actions(actions: &Vec<Action>) -> (r: ActionsToDisplay)
        ensures
            r.playable_cards@ == played_ids(actions@),
            r.draw_cards == last_draw(actions@),
            r.decide_suit == exists|i: int|
                0 <= i < actions@.len() && #[trigger] actions@[i] is DecideSuit,
            r.end_turn == actions@.contains(Action::CannotPlay),
    {
        let mut playable_cards: Vec<u8> = Vec::new();
        let mut draw_cards: Option<u8> = None;
        let mut decide_suit = false;
        let mut end_turn = false;
        let mut i: usize = 0;
        while i < actions.len()
            invariant
                i <= actions@.len(),
                playable_cards@ == played_ids(actions@.subrange(0, i as int)),
                draw_cards == last_draw(actions@.subrange(0, i as int)),
                decide_suit == exists|j: int| 0 <= j < i && #[trigger] actions@[j] is DecideSuit,
                end_turn == exists|j: int| 0 <= j < i && actions@[j] == Action::CannotPlay,
            decreases actions@.len() - i,
        {
            assert(actions@.subrange(0, i + 1).drop_last() =~= actions@.subrange(0, i as int));
            match actions[i] {
                Action::PlayCard(card_id) => playable_cards.push(card_id),
                Action::DrawCards(n) => draw_cards = Some(n),
                Action::DecideSuit(_) => decide_suit = true,
                Action::CannotPlay => end_turn = true,
            }
            i = i + 1;
        }
        assert(actions@.subrange(0, i as int) =~= actions@);
        ActionsToDisplay { playable_cards, draw_cards, decide_suit, end_turn }
    }
}

} // verus!
