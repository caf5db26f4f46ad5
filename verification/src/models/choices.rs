//! The choices that the player can make, and their mathematical view.

use vstd::prelude::*;

use crate::models::common::{Class, DeckOperation};
use crate::spireai::references::{CardReference, MonsterReference};
use crate::state::game::DeckCard;

verus! {

/// A choice that the player can make on some screen of the game.
#[derive(PartialEq, Eq, Clone, Debug, Hash)]
pub enum Choice {
    Start { player_class: Class, ascension: Option<u8> },
    DrinkPotion { slot: usize, target: Option<MonsterReference> },
    DiscardPotion { slot: usize },
    PlayCard { card: CardReference, target: Option<MonsterReference> },
    Event(String),
    NavigateToNode(u8),
    TakeReward(usize),
    AddCardToDeck(String),
    SelectCards(Vec<CardReference>),
    Scry(Vec<CardReference>),
    BuyCard(usize),
    BuyRelic(usize),
    BuyPotion(usize),
    BuyRemoveCard(DeckCard),
    DeckSelect(Vec<DeckCard>, DeckOperation),
    OpenChest,
    Rest,
    Smith,
    Lift,
    Dig,
    Recall,
    Toke,
    EnterShop,
    End,
    Proceed,
    Skip,
    SingingBowl,
    State,
    WishPlated,
    WishStrength,
    WishGold,
    StanceCalm,
    StanceWrath,
}

/// A choice as a mathematical value: lists as sequences, names as sequences of
/// characters.
pub enum ChoiceView {
    Start { player_class: Class, ascension: Option<u8> },
    DrinkPotion { slot: usize, target: Option<MonsterReference> },
    DiscardPotion { slot: usize },
    PlayCard { card: CardReference, target: Option<MonsterReference> },
    Event(Seq<char>),
    NavigateToNode(u8),
    TakeReward(usize),
    AddCardToDeck(Seq<char>),
    SelectCards(Seq<CardReference>),
    Scry(Seq<CardReference>),
    BuyCard(usize),
    BuyRelic(usize),
    BuyPotion(usize),
    BuyRemoveCard(DeckCard),
    DeckSelect(Seq<DeckCard>, DeckOperation),
    OpenChest,
    Rest,
    Smith,
    Lift,
    Dig,
    Recall,
    Toke,
    EnterShop,
    End,
    Proceed,
    Skip,
    SingingBowl,
    State,
    WishPlated,
    WishStrength,
    WishGold,
    StanceCalm,
    StanceWrath,
}

impl View for Choice {
    type V = ChoiceView;

    open spec fn view(&self) -> ChoiceView {
        match self {
            Choice::Start { player_class, ascension } => ChoiceView::Start {
                player_class: *player_class,
                ascension: *ascension,
            },
            Choice::DrinkPotion { slot, target } => ChoiceView::DrinkPotion { slot: *slot, target: *target },
            Choice::DiscardPotion { slot } => ChoiceView::DiscardPotion { slot: *slot },
            Choice::PlayCard { card, target } => ChoiceView::PlayCard { card: *card, target: *target },
            Choice::Event(name) => ChoiceView::Event(name@),
            Choice::NavigateToNode(x) => ChoiceView::NavigateToNode(*x),
            Choice::TakeReward(i) => ChoiceView::TakeReward(*i),
            Choice::AddCardToDeck(name) => ChoiceView::AddCardToDeck(name@),
            Choice::SelectCards(cards) => ChoiceView::SelectCards(cards@),
            Choice::Scry(cards) => ChoiceView::Scry(cards@),
            Choice::BuyCard(i) => ChoiceView::BuyCard(*i),
            Choice::BuyRelic(i) => ChoiceView::BuyRelic(*i),
            Choice::BuyPotion(i) => ChoiceView::BuyPotion(*i),
            Choice::BuyRemoveCard(card) => ChoiceView::BuyRemoveCard(*card),
            Choice::DeckSelect(cards, op) => ChoiceView::DeckSelect(cards@, *op),
            Choice::OpenChest => ChoiceView::OpenChest,
            Choice::Rest => ChoiceView::Rest,
            Choice::Smith => ChoiceView::Smith,
            Choice::Lift => ChoiceView::Lift,
            Choice::Dig => ChoiceView::Dig,
            Choice::Recall => ChoiceView::Recall,
            Choice::Toke => ChoiceView::Toke,
            Choice::EnterShop => ChoiceView::EnterShop,
            Choice::End => ChoiceView::End,
            Choice::Proceed => ChoiceView::Proceed,
            Choice::Skip => ChoiceView::Skip,
            Choice::SingingBowl => ChoiceView::SingingBowl,
            Choice::State => ChoiceView::State,
            Choice::WishPlated => ChoiceView::WishPlated,
            Choice::WishStrength => ChoiceView::WishStrength,
            Choice::WishGold => ChoiceView::WishGold,
            Choice::StanceCalm => ChoiceView::StanceCalm,
            Choice::StanceWrath => ChoiceView::StanceWrath,
        }
    }
}

/// The views of a list of choices.
pub open spec fn views(choices: Seq<Choice>) -> Seq<ChoiceView> {
    choices.map_values(|c: Choice| c@)
}

} // verus!
