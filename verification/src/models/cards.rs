use vstd::prelude::*;

use super::common::{str_eq, Amount, CardType, Class, Condition, Effect, Rarity};

verus! {

/// The definition of a card.
#[derive(PartialEq, Eq, Hash, Debug)]
pub struct BaseCard {
    pub name: String,
    pub _type: CardType,
    pub _class: Class,
    pub cost: Amount,
    pub rarity: Rarity,
    pub playable_if: Condition,
    pub on_start: Vec<Effect>,
    pub on_play: Vec<Effect>,
    pub on_discard: Vec<Effect>,
    pub on_draw: Vec<Effect>,
    pub on_exhaust: Vec<Effect>,
    pub on_retain: Vec<Effect>,
    pub on_turn_end: Vec<Effect>,
    pub innate: Condition,
    pub retain: Condition,
    pub targeted: Condition,
}

/// Whether a catalog holds a card of the given name.
pub open spec fn has_card_named(cards: Seq<&'static BaseCard>, name: Seq<char>) -> bool {
    exists|i: int| 0 <= i < cards.len() && (#[trigger] cards[i]).name@ == name
}

/// The card of the given name in a catalog of cards: the first one of that name.
pub fn by_name(cards: &[&'static BaseCard], name: &str) -> (res: &'static BaseCard)
    requires
        has_card_named(cards@, name@),
    ensures
        res.name@ == name@,
        exists|i: int|
            0 <= i < cards@.len() && cards@[i] == res && forall|j: int|
                0 <= j < i ==> (#[trigger] cards@[j]).name@ != name@,
{
    let mut i: usize = 0;
    while i < cards.len()
        invariant
            0 <= i <= cards@.len(),
            has_card_named(cards@, name@),
            forall|j: int| 0 <= j < i ==> (#[trigger] cards@[j]).name@ != name@,
        decreases cards@.len() - i,
    {
        if str_eq(cards[i].name.as_str(), name) {
            return cards[i];
        }
        i = i + 1;
    }
    proof {
        let k = choose|k: int| 0 <= k < cards@.len() && (#[trigger] cards@[k]).name@ == name@;
        assert(cards@[k].name@ != name@);
    }
    cards[0]
}

/// Whether a card is among those that a class can be offered (by transformation or in
/// a shop): `All` takes every card that is no curse, starter or special card; `Curse`
/// the curses that are not special; `Ironclad` its own cards but the starters; the
/// other classes their own cards; `Colorless` the colorless cards that are neither
/// special nor curses.
pub open spec fn available_for_class(card: BaseCard, class: Class) -> bool {
    match class {
        Class::All => card._class != Class::Curse && card.rarity != Rarity::Starter && card.rarity
            != Rarity::Special,
        Class::Curse => card._type == CardType::Curse && card.rarity != Rarity::Special,
        Class::Defect => card._class == Class::Defect,
        Class::Ironclad => card._class == Class::Ironclad && card.rarity != Rarity::Starter,
        Class::Colorless => card._class == Class::Colorless && card.rarity != Rarity::Special
            && card._type != CardType::Curse,
        Class::Silent => card._class == Class::Silent,
        Class::Watcher => card._class == Class::Watcher,
    }
}

/// The cards of a catalog that are offered to a class.
pub open spec fn class_pool(cards: Seq<&'static BaseCard>, class: Class) -> Seq<&'static BaseCard> {
    cards.filter(|c: &'static BaseCard| available_for_class(*c, class))
}

/// Decides `available_for_class` for one card.
fn is_available_for_class(card: &BaseCard, class: Class) -> (res: bool)
    ensures
        res == available_for_class(*card, class),
{
    match class {
        Class::All => card._class != Class::Curse && card.rarity != Rarity::Starter && card.rarity
            != Rarity::Special,
        Class::Curse => card._type == CardType::Curse && card.rarity != Rarity::Special,
        Class::Defect => card._class == Class::Defect,
        Class::Ironclad => card._class == Class::Ironclad && card.rarity != Rarity::Starter,
        Class::Colorless => card._class == Class::Colorless && card.rarity != Rarity::Special
            && card._type != CardType::Curse,
        Class::Silent => card._class == Class::Silent,
        Class::Watcher => card._class == Class::Watcher,
    }
}

/// The cards of a catalog that a class can be offered, in catalog order.
pub fn available_cards_by_class(cards: &[&'static BaseCard], class: Class) -> (res: Vec<
    &'static BaseCard,
>)
    ensures
        res@ == class_pool(cards@, class),
{
    let ghost pred = |c: &'static BaseCard| available_for_class(*c, class);
    let mut res: Vec<&'static BaseCard> = Vec::new();
    let mut i: usize = 0;
    while i < cards.len()
        invariant
            0 <= i <= cards@.len(),
            res@ == cards@.take(i as int).filter(pred),
            pred == (|c: &'static BaseCard| available_for_class(*c, class)),
        decreases cards@.len() - i,
    {
        let ghost before = res@;
        let keep = is_available_for_class(cards[i], class);
        if keep {
            res.push(cards[i]);
        }
        assert(res@ == cards@.take(i + 1).filter(pred)) by {
            reveal_with_fuel(Seq::<_>::filter, 1);
            let s = cards@.take(i + 1);
            assert(s.drop_last() =~= cards@.take(i as int));
            assert(s.last() == cards@[i as int]);
            assert(pred(s.last()) == keep);
        }
        i = i + 1;
    }
    assert(cards@.take(cards@.len() as int) =~= cards@);
    res
}

} // verus!
