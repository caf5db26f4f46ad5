//! The choices that the player has in a state of the game.

use itertools::Itertools;
use vstd::prelude::*;

use crate::models::choices::{views, Choice, ChoiceView};
use crate::models::common::{CardLocation, CardType, Condition, DeckOperation};
use crate::models::monsters::BaseMonster;
use crate::spireai::references::{CardReference, MonsterReference, PotionReference};
use crate::state::battle::{lists_pile, targets_of, BattleState};
use crate::state::collections::{
    battle_monsters, card_refs, card_refs_items, deck_cards, lists_monsters, monster_listing,
    offer_items, offers_items, reward_at, reward_items, rewards_len, slot_items, slots_items,
    store_cards, store_cards_items, store_potions, store_potions_items, store_relics,
    store_relics_items, uuid_set,
};
use crate::state::common::{is_unremovable_curse, Card, CardOffer, Reward, RewardState};
use crate::state::event::{EventScreenState, EventState};
use crate::state::floor::{game_of, has_game, FloorState, RestScreenState, RestState};
use crate::state::game::{belt_potions, deck_item_ok, lists_deck_cards, DeckCard, GameState};
use crate::state::map::{MapNode, MapState};
use crate::state::shop::{ShopScreenState, ShopState};

verus! {

// ---- combinations ----
/// The combinations of `k` items of a list, each keeping the items' order, in the
/// lexicographic order of their positions: those with the first item, then those
/// without it.
pub open spec fn combos<T>(items: Seq<T>, k: nat) -> Seq<Seq<T>>
    decreases items.len(),
{
    if k == 0 {
        seq![Seq::empty()]
    } else if items.len() == 0 {
        Seq::empty()
    } else {
        combos(items.drop_first(), (k - 1) as nat).map_values(|c: Seq<T>| seq![items[0]] + c)
            + combos(items.drop_first(), k)
    }
}

/// `Itertools::combinations`, collected: every choice of `k` items of the list, each
/// keeping the items' order, in the lexicographic order of their positions; one empty
/// choice for `k` zero, none for `k` above the length. The items are copied.
#[verifier::external_body]
fn combinations_of<T: Copy>(items: &Vec<T>, k: usize) -> (res: Vec<Vec<T>>)
    ensures
        res@.map_values(|v: Vec<T>| v@) == combos(items@, k as nat),
{
    items.iter().copied().combinations(k).collect()
}

// ---- what each screen offers ----
/// Discarding the potion of each filled slot, in slot order.
pub open spec fn discard_choices(slots: Seq<Option<&'static crate::models::potions::BasePotion>>) -> Seq<ChoiceView>
    decreases slots.len(),
{
    if slots.len() == 0 {
        Seq::empty()
    } else {
        let rest = discard_choices(slots.drop_last());
        if slots.last() is Some {
            rest.push(ChoiceView::DiscardPotion { slot: (slots.len() - 1) as usize })
        } else {
            rest
        }
    }
}

/// The choices of a card offer: skipping it, taking each card, the Singing Bowl where
/// the run has it, and going on.
pub open spec fn offer_choices(offers: Seq<CardOffer>, bowl: bool) -> Seq<ChoiceView> {
    seq![ChoiceView::Skip] + offers.map_values(|o: CardOffer| ChoiceView::AddCardToDeck(o.base.name@))
        + (if bowl {
        seq![ChoiceView::SingingBowl]
    } else {
        Seq::empty()
    }) + seq![ChoiceView::Proceed]
}

/// Whether the reward being looked at, if any, is a card choice of the list.
pub open spec fn rewards_viewable(r: RewardState) -> bool {
    r.viewing_reward matches Some(i) ==> i < reward_items(r.rewards).len()
        && reward_items(r.rewards)[i as int] is CardChoice
}

/// The choices of a screen of rewards: those of the card choice being looked at, or
/// going on and taking each reward.
pub open spec fn reward_choices(r: RewardState, bowl: bool) -> Seq<ChoiceView> {
    match r.viewing_reward {
        Some(i) => match reward_items(r.rewards)[i as int] {
            Reward::CardChoice(offers, _, _) => offer_choices(offer_items(offers), bowl),
            _ => Seq::empty(),
        },
        None => seq![ChoiceView::Proceed] + Seq::new(
            reward_items(r.rewards).len(),
            |i: int| ChoiceView::TakeReward(i as usize),
        ),
    }
}

/// Whether a card must be played at a target: always, or, under the condition `Not`,
/// once upgraded.
pub open spec fn card_targeted(c: Card) -> bool {
    match c.base.targeted {
        Condition::Always => true,
        Condition::Not(_) => c.upgrades > 0,
        _ => false,
    }
}

/// Whether a card's condition for a target is one that can be told.
pub open spec fn targeted_known(c: Card) -> bool {
    c.base.targeted is Never || c.base.targeted is Always || (c.base.targeted matches Condition::Not(b)
        && *b is Upgraded)
}

/// Playing each playable card of a listing of the hand: at each target where it takes
/// one.
pub open spec fn play_choices(b: BattleState, hand: Seq<CardReference>, targets: Seq<MonsterReference>) -> Seq<ChoiceView>
    decreases hand.len(),
{
    if hand.len() == 0 {
        Seq::empty()
    } else {
        let c = hand.last();
        let card = deck_cards(b.cards)[c.uuid];
        play_choices(b, hand.drop_last(), targets) + if b.playable_spec(card) {
            if card_targeted(card) {
                targets.map_values(|m: MonsterReference| ChoiceView::PlayCard { card: c, target: Some(m) })
            } else {
                seq![ChoiceView::PlayCard { card: c, target: None }]
            }
        } else {
            Seq::empty()
        }
    }
}

/// Drinking each potion: at each target where it takes one.
pub open spec fn drink_choices(potions: Seq<PotionReference>, targets: Seq<MonsterReference>) -> Seq<ChoiceView>
    decreases potions.len(),
{
    if potions.len() == 0 {
        Seq::empty()
    } else {
        let p = potions.last();
        drink_choices(potions.drop_last(), targets) + if p.base.targeted {
            targets.map_values(|m: MonsterReference| ChoiceView::DrinkPotion { slot: p.index, target: Some(m) })
        } else {
            seq![ChoiceView::DrinkPotion { slot: p.index, target: None }]
        }
    }
}

/// A selection of cards, as a scry or not.
pub open spec fn select_view(c: Seq<CardReference>, scry: bool) -> ChoiceView {
    if scry {
        ChoiceView::Scry(c)
    } else {
        ChoiceView::SelectCards(c)
    }
}

/// Each selection of a list, as a scry or not.
pub open spec fn select_views(cs: Seq<Seq<CardReference>>, scry: bool) -> Seq<ChoiceView> {
    cs.map_values(|c: Seq<CardReference>| select_view(c, scry))
}

/// Selecting the cards of a choice, for each count from `start` up to `end`: every
/// combination of that many, as a scry or a selection.
pub open spec fn select_choices(items: Seq<CardReference>, start: int, end: int, scry: bool) -> Seq<ChoiceView>
    decreases end - start,
{
    if start >= end || start < 0 {
        Seq::empty()
    } else {
        select_views(combos(items, start as nat), scry) + select_choices(items, start + 1, end, scry)
    }
}

/// The choices in a battle: those of the choice of cards it waits on, or ending the
/// turn, playing a card and drinking a potion.
pub open spec fn battle_choices(b: BattleState, hand: Seq<CardReference>, targets: Seq<MonsterReference>) -> Seq<ChoiceView> {
    match b.card_choose {
        Some(cc) => select_choices(card_refs(cc.choices), cc.count_range.start as int, cc.count_range.end as int, cc.scry),
        None => seq![ChoiceView::End] + play_choices(b, hand, targets) + drink_choices(
            belt_potions(slot_items(b.game_state.potions)),
            targets,
        ),
    }
}

/// Selecting each card of a listing alone, for an operation on the deck.
pub open spec fn single_selects(cards: Seq<DeckCard>, op: DeckOperation) -> Seq<ChoiceView> {
    cards.map_values(|c: DeckCard| ChoiceView::DeckSelect(seq![c], op))
}

/// Selecting each group of cards, for an operation on the deck.
pub open spec fn group_selects(groups: Seq<Seq<DeckCard>>, op: DeckOperation) -> Seq<ChoiceView> {
    groups.map_values(|c: Seq<DeckCard>| ChoiceView::DeckSelect(c, op))
}

/// Removing each card of a listing at the shop.
pub open spec fn remove_buys(cards: Seq<DeckCard>) -> Seq<ChoiceView> {
    cards.map_values(|c: DeckCard| ChoiceView::BuyRemoveCard(c))
}

/// Taking each of an event's own choices.
pub open spec fn event_options(names: Seq<String>) -> Seq<ChoiceView> {
    names.map_values(|s: String| ChoiceView::Event(s@))
}

/// The choices of an event: those of its rewards, selecting the cards for an operation
/// on the deck (all of the listing, where it holds as many as asked), or its own
/// choices.
pub open spec fn event_choices(e: EventState, cards: Seq<DeckCard>, bowl: bool) -> Seq<ChoiceView> {
    match e.screen_state {
        Some(EventScreenState::Rewards(r)) => reward_choices(r, bowl),
        Some(EventScreenState::DeckChoose(op, count)) => {
            let size = if cards.len() > count {
                cards.len()
            } else {
                count as nat
            };
            group_selects(combos(cards, size), op)
        },
        None => event_options(e.available_choices@),
    }
}

/// Going to each node of a row of the map, in column order.
pub open spec fn row_choices(nodes: Seq<Option<MapNode>>) -> Seq<ChoiceView>
    decreases nodes.len(),
{
    if nodes.len() == 0 {
        Seq::empty()
    } else {
        let rest = row_choices(nodes.drop_last());
        match nodes.last() {
            Some(n) => rest.push(ChoiceView::NavigateToNode(n.x)),
            None => rest,
        }
    }
}

/// Going on from a node: to the left, straight up, to the right, where it leads.
pub open spec fn next_choices(n: MapNode) -> Seq<ChoiceView> {
    (if n.left {
        seq![ChoiceView::NavigateToNode((n.x - 1) as u8)]
    } else {
        Seq::empty()
    }) + (if n.up {
        seq![ChoiceView::NavigateToNode(n.x)]
    } else {
        Seq::empty()
    }) + (if n.right {
        seq![ChoiceView::NavigateToNode((n.x + 1) as u8)]
    } else {
        Seq::empty()
    })
}

/// Whether the player's place on the map is one the choices can go on from: before the
/// first floor, or on a node of the map whose edges stay on it.
pub open spec fn map_ready(m: MapState) -> bool {
    m.floor != -1 ==> match m.index {
        Some(i) => i < 105 && match m.nodes@[i as int] {
            Some(n) => (n.left ==> n.x >= 1) && (n.right ==> n.x < u8::MAX),
            None => false,
        },
        None => false,
    }
}

/// The choices on the map: the nodes of the first row before the first floor, else the
/// nodes that the player's node leads to.
pub open spec fn map_choices(m: MapState) -> Seq<ChoiceView> {
    if m.floor == -1 {
        row_choices(m.nodes@.take(7))
    } else {
        next_choices(m.nodes@[m.index.unwrap() as int].unwrap())
    }
}

/// Whether the deck holds a card that passes a test.
pub open spec fn deck_has(g: GameState, keep: spec_fn(Card) -> bool) -> bool {
    exists|k: u128| #[trigger] deck_cards(g.deck).contains_key(k) && keep(deck_cards(g.deck)[k])
}

/// The test of being removable.
pub open spec fn removable_test() -> spec_fn(Card) -> bool {
    |c: Card| c.removable_spec()
}

/// The test of being upgradable.
pub open spec fn upgradable_test() -> spec_fn(Card) -> bool {
    |c: Card| c.upgradable_spec()
}

/// The test that every card passes.
pub open spec fn any_test() -> spec_fn(Card) -> bool {
    |c: Card| true
}

/// The test of a kind of listing: removable cards (1), upgradable ones (2), or any card.
pub open spec fn kind_test(kind: int) -> spec_fn(Card) -> bool {
    if kind == 1 {
        removable_test()
    } else if kind == 2 {
        upgradable_test()
    } else {
        any_test()
    }
}

/// The kind of listing for each operation on the deck: removable cards for removing and
/// transforming, upgradable ones for upgrading, and any card otherwise.
pub open spec fn op_kind(op: DeckOperation) -> int {
    match op {
        DeckOperation::Remove | DeckOperation::Transform | DeckOperation::TransformUpgrade => 1,
        DeckOperation::Upgrade => 2,
        _ => 0,
    }
}

/// Whether a state's screen picks cards of the deck to upgrade: an event's, a rest site's
/// or a shop's selection for upgrading, or smithing.
pub open spec fn upgrade_screen(state: FloorState) -> bool {
    match state {
        FloorState::Event(e) => e.screen_state matches Some(EventScreenState::DeckChoose(DeckOperation::Upgrade, _)),
        FloorState::Rest(r) => r.screen_state == RestScreenState::Smith || r.screen_state == RestScreenState::DeckSelect(DeckOperation::Upgrade),
        FloorState::Shop(s) => s.screen_state == ShopScreenState::DeckChoose(DeckOperation::Upgrade),
        _ => false,
    }
}

/// Whether a state's screen picks cards of the deck to take away: an event's, a rest
/// site's or a shop's selection for removing or transforming.
pub open spec fn removal_screen(state: FloorState) -> bool {
    let removal = |op: DeckOperation| op == DeckOperation::Remove || op == DeckOperation::Transform
        || op == DeckOperation::TransformUpgrade;
    match state {
        FloorState::Event(e) => e.screen_state matches Some(EventScreenState::DeckChoose(op, _)) && removal(op),
        FloorState::Rest(r) => r.screen_state matches RestScreenState::DeckSelect(op) && removal(op),
        FloorState::Shop(s) => s.screen_state matches ShopScreenState::DeckChoose(op) && removal(op),
        _ => false,
    }
}

/// The cards that the choices of a screen that upgrades cards are made of (the listing of
/// the deck that `all_choices` works from) are exactly the deck's attacks, skills and
/// powers with no upgrade yet, Searing Blow aside; on a screen that takes cards away,
/// exactly the deck's cards that are neither bottled nor a curse that cannot be removed.
pub proof fn law_listing_by_operation(
    state: FloorState,
    cards: Seq<DeckCard>,
    hand: Seq<CardReference>,
    monsters: Seq<(u128, u128, &'static BaseMonster, bool)>,
)
    requires
        listings_of(state, cards, hand, monsters),
    ensures
        ({
            let deck = deck_cards(game_of(state).deck);
            &&& upgrade_screen(state) ==> {
                &&& forall|i: int| 0 <= i < cards.len() ==> {
                    let c = deck[(#[trigger] cards[i]).uuid];
                    &&& deck.contains_key(cards[i].uuid)
                    &&& c.base._type == CardType::Attack || c.base._type == CardType::Skill || c.base._type == CardType::Power
                    &&& c.upgrades == 0
                    &&& c.base.name@ != "Searing Blow"@
                }
                &&& forall|k: u128| #[trigger] deck.contains_key(k)
                    && (deck[k].base._type == CardType::Attack || deck[k].base._type == CardType::Skill || deck[k].base._type == CardType::Power)
                    && deck[k].upgrades == 0 && deck[k].base.name@ != "Searing Blow"@
                    ==> exists|i: int| 0 <= i < cards.len() && (#[trigger] cards[i]).uuid == k
            }
            &&& removal_screen(state) ==> {
                &&& forall|i: int| 0 <= i < cards.len() ==> {
                    let c = deck[(#[trigger] cards[i]).uuid];
                    &&& deck.contains_key(cards[i].uuid)
                    &&& !c.bottled
                    &&& !is_unremovable_curse(c.base.name@)
                }
                &&& forall|k: u128| #[trigger] deck.contains_key(k) && !deck[k].bottled && !is_unremovable_curse(deck[k].base.name@)
                    ==> exists|i: int| 0 <= i < cards.len() && (#[trigger] cards[i]).uuid == k
            }
        }),
{
    let deck = deck_cards(game_of(state).deck);
    if upgrade_screen(state) {
        assert(listing_kind(state) == 2);
        assert forall|i: int| 0 <= i < cards.len() implies deck.contains_key((#[trigger] cards[i]).uuid)
            && deck[cards[i].uuid].upgradable_spec() by {
            assert(deck_item_ok(deck, listing_test(state), cards[i]));
        }
        assert forall|k: u128| #[trigger] deck.contains_key(k)
            && (deck[k].base._type == CardType::Attack || deck[k].base._type == CardType::Skill || deck[k].base._type == CardType::Power)
            && deck[k].upgrades == 0 && deck[k].base.name@ != "Searing Blow"@
            implies exists|i: int| 0 <= i < cards.len() && (#[trigger] cards[i]).uuid == k by {
            assert(deck[k].upgradable_spec());
            assert((listing_test(state))(deck[k]));
        }
    }
    if removal_screen(state) {
        assert(listing_kind(state) == 1);
        assert forall|i: int| 0 <= i < cards.len() implies deck.contains_key((#[trigger] cards[i]).uuid)
            && deck[cards[i].uuid].removable_spec() by {
            assert(deck_item_ok(deck, listing_test(state), cards[i]));
        }
        assert forall|k: u128| #[trigger] deck.contains_key(k) && !deck[k].bottled && !is_unremovable_curse(deck[k].base.name@)
            implies exists|i: int| 0 <= i < cards.len() && (#[trigger] cards[i]).uuid == k by {
            assert(deck[k].removable_spec());
            assert((listing_test(state))(deck[k]));
        }
    }
}

/// Every item of every choice of `k` items of a list is an item of the list.
proof fn lemma_combos_from<T>(items: Seq<T>, k: nat)
    ensures
        forall|i: int, j: int| 0 <= i < combos(items, k).len() && 0 <= j < combos(items, k)[i].len()
            ==> items.contains(#[trigger] combos(items, k)[i][j]),
    decreases items.len(),
{
    if k != 0 && items.len() != 0 {
        let rest = items.drop_first();
        lemma_combos_from(rest, (k - 1) as nat);
        lemma_combos_from(rest, k);
        let a = combos(rest, (k - 1) as nat).map_values(|c: Seq<T>| seq![items[0]] + c);
        let b = combos(rest, k);
        assert(combos(items, k) == a + b);
        assert forall|i: int, j: int| 0 <= i < combos(items, k).len() && 0 <= j < combos(items, k)[i].len()
            implies items.contains(#[trigger] combos(items, k)[i][j]) by {
            if i < a.len() {
                let c = combos(rest, (k - 1) as nat)[i];
                assert(combos(items, k)[i] == seq![items[0]] + c);
                if j == 0 {
                    assert(items[0] == combos(items, k)[i][j]);
                } else {
                    assert(combos(items, k)[i][j] == c[j - 1]);
                    assert(rest.contains(c[j - 1]));
                    let m = choose|m: int| 0 <= m < rest.len() && rest[m] == c[j - 1];
                    assert(items[m + 1] == c[j - 1]);
                }
            } else {
                let c = b[i - a.len()];
                assert(combos(items, k)[i] == c);
                assert(rest.contains(c[j]));
                let m = choose|m: int| 0 <= m < rest.len() && rest[m] == c[j];
                assert(items[m + 1] == c[j]);
            }
        }
    }
}

/// No choice of discarding a potion selects cards of the deck.
proof fn lemma_discards_only(slots: Seq<Option<&'static crate::models::potions::BasePotion>>)
    ensures
        forall|i: int| 0 <= i < discard_choices(slots).len() ==> #[trigger] discard_choices(slots)[i] is DiscardPotion,
    decreases slots.len(),
{
    if slots.len() != 0 {
        lemma_discards_only(slots.drop_last());
    }
}

/// Whether a choice, where it selects cards of the deck, is for upgrading and selects
/// only the deck's attacks, skills and powers with no upgrade yet, Searing Blow aside.
pub open spec fn selects_upgradable(deck: Map<u128, Card>, choice: ChoiceView) -> bool {
    match choice {
        ChoiceView::DeckSelect(sel, op) => {
            &&& op == DeckOperation::Upgrade
            &&& forall|j: int| 0 <= j < sel.len() ==> {
                let c = deck[(#[trigger] sel[j]).uuid];
                &&& deck.contains_key(sel[j].uuid)
                &&& c.base._type == CardType::Attack || c.base._type == CardType::Skill || c.base._type == CardType::Power
                &&& c.upgrades == 0
                &&& c.base.name@ != "Searing Blow"@
            }
        },
        _ => true,
    }
}

/// In an event that upgrades cards, every selection of cards that `all_choices` offers
/// (from the listing of the deck that it works from) is for upgrading and is made only of
/// the deck's attacks, skills and powers with no upgrade yet, Searing Blow aside.
pub proof fn law_event_upgrade_selects(
    state: FloorState,
    cards: Seq<DeckCard>,
    hand: Seq<CardReference>,
    monsters: Seq<(u128, u128, &'static BaseMonster, bool)>,
)
    requires
        listings_of(state, cards, hand, monsters),
        state matches FloorState::Event(e) && e.screen_state matches Some(EventScreenState::DeckChoose(DeckOperation::Upgrade, _)),
    ensures
        forall|i: int| 0 <= i < choices_spec(state, cards, hand, targets_of(monsters)).len() ==> selects_upgradable(
            deck_cards(game_of(state).deck),
            #[trigger] choices_spec(state, cards, hand, targets_of(monsters))[i],
        ),
{
    let g = game_of(state);
    let deck = deck_cards(g.deck);
    let choices = choices_spec(state, cards, hand, targets_of(monsters));
    let d = discard_choices(slot_items(g.potions));
    lemma_discards_only(slot_items(g.potions));
    law_listing_by_operation(state, cards, hand, monsters);
    assert(upgrade_screen(state));
    match state {
        FloorState::Event(e) => match e.screen_state {
            Some(EventScreenState::DeckChoose(op0, count)) => {
                let size = if cards.len() > count { cards.len() } else { count as nat };
                let groups = combos(cards, size);
                lemma_combos_from(cards, size);
                assert(choices == d + group_selects(groups, op0));
                assert forall|i: int| 0 <= i < choices.len() implies selects_upgradable(deck, #[trigger] choices[i]) by {
                    if i < d.len() {
                        assert(d[i] is DiscardPotion);
                    } else {
                        let sel = groups[i - d.len()];
                        assert(choices[i] == ChoiceView::DeckSelect(sel, op0));
                        assert forall|j: int| 0 <= j < sel.len() implies {
                            let c = deck[(#[trigger] sel[j]).uuid];
                            &&& deck.contains_key(sel[j].uuid)
                            &&& c.base._type == CardType::Attack || c.base._type == CardType::Skill || c.base._type == CardType::Power
                            &&& c.upgrades == 0
                            &&& c.base.name@ != "Searing Blow"@
                        } by {
                            assert(cards.contains(groups[i - d.len()][j]));
                            let m = choose|m: int| 0 <= m < cards.len() && cards[m] == sel[j];
                            assert(cards[m] == sel[j]);
                        }
                    }
                }
            },
            _ => {},
        },
        _ => {},
    }
}

/// The choices at a rest site's first screen: resting without the Coffee Dripper,
/// smithing without the Fusion Hammer where a card can be upgraded, lifting with a
/// Girya lifted fewer than three times, digging with the Shovel, toking with the Peace
/// Pipe where a card can be removed, and recalling while the ruby key is missing.
pub open spec fn rest_menu(g: GameState) -> Seq<ChoiceView> {
    (if !g.relics.has("Coffee Dripper"@) {
        seq![ChoiceView::Rest]
    } else {
        Seq::empty()
    }) + (if !g.relics.has("Fusion Hammer"@) && deck_has(g, upgradable_test()) {
        seq![ChoiceView::Smith]
    } else {
        Seq::empty()
    }) + (if g.relics.find_spec("Girya"@) matches Some(r) && r.vars.x < 3 {
        seq![ChoiceView::Lift]
    } else {
        Seq::empty()
    }) + (if g.relics.has("Shovel"@) {
        seq![ChoiceView::Dig]
    } else {
        Seq::empty()
    }) + (if g.relics.has("Peace Pipe"@) && deck_has(g, removable_test()) {
        seq![ChoiceView::Toke]
    } else {
        Seq::empty()
    }) + (if g.keys matches Some(k) && !k.ruby {
        seq![ChoiceView::Recall]
    } else {
        Seq::empty()
    })
}

/// The choices at a rest site, on each of its screens.
pub open spec fn rest_choices(r: RestState, cards: Seq<DeckCard>, bowl: bool) -> Seq<ChoiceView> {
    match r.screen_state {
        RestScreenState::IShouldRest => rest_menu(r.game_state),
        RestScreenState::DreamCatch(offers) => offer_choices(offer_items(offers), bowl),
        RestScreenState::Smith => single_selects(cards, DeckOperation::Upgrade),
        RestScreenState::Toke => single_selects(cards, DeckOperation::Remove),
        RestScreenState::DeckSelect(op) => single_selects(cards, op),
        RestScreenState::Dig(rewards) => reward_choices(rewards, bowl),
        RestScreenState::Proceed => seq![ChoiceView::Proceed],
    }
}

/// Buying each item whose price the player can pay, by its position.
pub open spec fn buy_choices(prices: Seq<u16>, gold: u16, kind: int) -> Seq<ChoiceView>
    decreases prices.len(),
{
    if prices.len() == 0 {
        Seq::empty()
    } else {
        let rest = buy_choices(prices.drop_last(), gold, kind);
        let i = (prices.len() - 1) as usize;
        if prices.last() <= gold {
            rest.push(
                if kind == 0 {
                    ChoiceView::BuyCard(i)
                } else if kind == 1 {
                    ChoiceView::BuyRelic(i)
                } else {
                    ChoiceView::BuyPotion(i)
                },
            )
        } else {
            rest
        }
    }
}

/// The prices of a list of priced items.
pub open spec fn prices_of<T>(items: Seq<(T, u16)>) -> Seq<u16> {
    items.map_values(|t: (T, u16)| t.1)
}

/// Whether a shop's purge cost can be reckoned without overflow.
pub open spec fn purge_ready(s: ShopState) -> bool {
    s.purge_priceable()
}

/// The choices in a shop: selecting cards for an operation, entering or leaving, those
/// of its rewards, or buying each card, relic and potion (potions with an empty slot)
/// that the player can pay for, and removing each removable card where the purge is
/// available and paid for.
pub open spec fn shop_choices(s: ShopState, cards: Seq<DeckCard>, bowl: bool) -> Seq<ChoiceView> {
    match s.screen_state {
        ShopScreenState::DeckChoose(op) => single_selects(cards, op),
        ShopScreenState::Entrance => seq![ChoiceView::EnterShop, ChoiceView::Proceed],
        ShopScreenState::Reward(r) => reward_choices(r, bowl),
        ShopScreenState::InShop => {
            let gold = s.game_state.gold;
            buy_choices(prices_of(store_cards(s.cards)), gold, 0) + buy_choices(prices_of(store_relics(s.relics)), gold, 1)
                + (if exists|i: int| 0 <= i < slot_items(s.game_state.potions).len() && (#[trigger] slot_items(
                s.game_state.potions,
            )[i]) is None {
                buy_choices(prices_of(store_potions(s.potions)), gold, 2)
            } else {
                Seq::empty()
            }) + (if s.can_purge && s.purge_cost_spec() <= gold {
                remove_buys(cards)
            } else {
                Seq::empty()
            })
        },
    }
}

/// The kind of listing of the deck that the screen of a state needs: that of the
/// operation being chosen for, upgradable cards for smithing, removable ones for toking
/// and for the shop's purge, and any card elsewhere.
pub open spec fn listing_kind(state: FloorState) -> int {
    match state {
        FloorState::Event(e) => match e.screen_state {
            Some(EventScreenState::DeckChoose(op, _)) => op_kind(op),
            _ => 0,
        },
        FloorState::Rest(r) => match r.screen_state {
            RestScreenState::Smith => 2,
            RestScreenState::Toke => 1,
            RestScreenState::DeckSelect(op) => op_kind(op),
            _ => 0,
        },
        FloorState::Shop(s) => match s.screen_state {
            ShopScreenState::DeckChoose(op) => op_kind(op),
            ShopScreenState::InShop => 1,
            _ => 0,
        },
        _ => 0,
    }
}

/// The test that the listing of the deck passes, for the screen of a state.
pub open spec fn listing_test(state: FloorState) -> spec_fn(Card) -> bool {
    kind_test(listing_kind(state))
}

/// The choices in a state, given a listing of the deck for its screen, a listing of the
/// hand and the targets of a battle: discarding each potion, then those of the screen.
pub open spec fn choices_spec(
    state: FloorState,
    cards: Seq<DeckCard>,
    hand: Seq<CardReference>,
    targets: Seq<MonsterReference>,
) -> Seq<ChoiceView> {
    let g = game_of(state);
    let bowl = g.relics.has("Singing Bowl"@);
    discard_choices(slot_items(g.potions)) + match state {
        FloorState::Battle(b) => battle_choices(b, hand, targets),
        FloorState::BattleOver(s) => reward_choices(s.rewards, bowl),
        FloorState::Chest(c) => match c.rewards {
            Some(r) => reward_choices(r, bowl),
            None => seq![ChoiceView::OpenChest, ChoiceView::Proceed],
        },
        FloorState::Event(e) => event_choices(e, cards, bowl),
        FloorState::OnMap(g) => map_choices(g.map),
        FloorState::Rest(r) => rest_choices(r, cards, bowl),
        FloorState::Shop(s) => shop_choices(s, cards, bowl),
        _ => Seq::empty(),
    }
}

/// Whether every card of a battle's hand is one that the battle holds, whose conditions
/// for being played, where it can be paid for, and for a target, where it can be
/// played, can be told.
pub open spec fn hand_ready(b: BattleState) -> bool {
    &&& b.hand_known()
    &&& forall|k: u128| #[trigger] uuid_set(b.hand).contains(k) ==> {
        let c = deck_cards(b.cards)[k];
        &&& b.affordable(c) ==> crate::state::battle::playable_condition_known(c)
        &&& b.playable_spec(c) ==> targeted_known(c)
    }
}

/// Whether the choices of a state can be told: it holds a run, each reward being
/// looked at is a card choice, the player's node of the map is known, a battle's hand
/// is ready, the shop's purge cost can be reckoned, and the deck's cards have their
/// kinds where upgradable ones are listed.
pub open spec fn choices_ready(state: FloorState) -> bool {
    &&& has_game(state)
    &&& game_of(state).deck_typed()
    &&& match state {
        FloorState::Battle(b) => b.card_choose is None ==> hand_ready(b),
        FloorState::BattleOver(s) => rewards_viewable(s.rewards),
        FloorState::Chest(c) => c.rewards matches Some(r) ==> rewards_viewable(r),
        FloorState::Event(e) => e.screen_state matches Some(EventScreenState::Rewards(r)) ==> rewards_viewable(r),
        FloorState::OnMap(g) => map_ready(g.map),
        FloorState::Rest(r) => match r.screen_state {
            RestScreenState::Dig(rewards) => rewards_viewable(rewards),
            _ => true,
        },
        FloorState::Shop(s) => match s.screen_state {
            ShopScreenState::Reward(r) => rewards_viewable(r),
            ShopScreenState::InShop => s.can_purge ==> purge_ready(s),
            _ => true,
        },
        _ => true,
    }
}

/// Whether the listings given to `choices_spec` are listings of the state: the deck's
/// cards that pass the screen's test, and, in a battle, the hand and the targets of a
/// listing of the monsters.
pub open spec fn listings_of(
    state: FloorState,
    cards: Seq<DeckCard>,
    hand: Seq<CardReference>,
    monsters: Seq<(u128, u128, &'static BaseMonster, bool)>,
) -> bool {
    &&& lists_deck_cards(cards, deck_cards(game_of(state).deck), listing_test(state))
    &&& hand_listed(state, hand)
    &&& state matches FloorState::Battle(b) ==> lists_monsters(monsters, battle_monsters(b.monsters))
}

/// Whether, in a battle that waits on no choice of cards, a list names the hand.
pub open spec fn hand_listed(state: FloorState, hand: Seq<CardReference>) -> bool {
    match state {
        FloorState::Battle(b) => b.card_choose is None ==> lists_pile(
            hand,
            uuid_set(b.hand),
            deck_cards(b.cards),
            CardLocation::PlayerHand,
        ),
        _ => true,
    }
}

// ---- building the choices ----
/// Discarding the potion of each filled slot of the run's belt.
fn discard_part(g: &GameState) -> (res: Vec<Choice>)
    ensures
        views(res@) == discard_choices(slot_items(g.potions)),
{
    let slots = slots_items(&g.potions);
    let mut res: Vec<Choice> = Vec::new();
    let mut i: usize = 0;
    while i < slots.len()
        invariant
            0 <= i <= slots@.len(),
            slots@ == slot_items(g.potions),
            views(res@) == discard_choices(slots@.take(i as int)),
        decreases slots@.len() - i,
    {
        assert(slots@.take(i + 1).drop_last() == slots@.take(i as int));
        if slots[i].is_some() {
            let ghost before = res@;
            res.push(Choice::DiscardPotion { slot: i });
            assert(views(res@) == views(before).push(ChoiceView::DiscardPotion { slot: i }));
        }
        i = i + 1;
    }
    assert(slots@.take(slots@.len() as int) == slots@);
    res
}

/// The choices of a card offer.
fn offer_part(offers: &im::Vector<CardOffer>, bowl: bool) -> (res: Vec<Choice>)
    ensures
        views(res@) == offer_choices(offer_items(*offers), bowl),
{
    let items = offers_items(offers);
    let mut res: Vec<Choice> = Vec::new();
    res.push(Choice::Skip);
    let mut i: usize = 0;
    while i < items.len()
        invariant
            0 <= i <= items@.len(),
            items@ == offer_items(*offers),
            views(res@) == seq![ChoiceView::Skip] + items@.take(i as int).map_values(
                |o: CardOffer| ChoiceView::AddCardToDeck(o.base.name@),
            ),
        decreases items@.len() - i,
    {
        let ghost before = res@;
        res.push(Choice::AddCardToDeck(items[i].base.name.clone()));
        assert(views(res@) == views(before).push(ChoiceView::AddCardToDeck(items@[i as int].base.name@)));
        assert(items@.take(i + 1).map_values(|o: CardOffer| ChoiceView::AddCardToDeck(o.base.name@))
            == items@.take(i as int).map_values(|o: CardOffer| ChoiceView::AddCardToDeck(o.base.name@)).push(
            ChoiceView::AddCardToDeck(items@[i as int].base.name@),
        ));
        i = i + 1;
    }
    assert(items@.take(items@.len() as int) == items@);
    let ghost before = res@;
    if bowl {
        res.push(Choice::SingingBowl);
    }
    res.push(Choice::Proceed);
    assert(views(res@) == views(before) + (if bowl {
        seq![ChoiceView::SingingBowl]
    } else {
        Seq::empty()
    }) + seq![ChoiceView::Proceed]);
    res
}

/// The choices of a screen of rewards.
fn reward_part(r: &RewardState, bowl: bool) -> (res: Vec<Choice>)
    requires
        rewards_viewable(*r),
    ensures
        views(res@) == reward_choices(*r, bowl),
{
    match r.viewing_reward {
        Some(index) => match reward_at(&r.rewards, index) {
            Reward::CardChoice(offers, _, _) => offer_part(&offers, bowl),
            _ => vstd::pervasive::unreached(),
        },
        None => {
            let mut res: Vec<Choice> = Vec::new();
            res.push(Choice::Proceed);
            let n = rewards_len(&r.rewards);
            let mut i: usize = 0;
            while i < n
                invariant
                    0 <= i <= n,
                    n == reward_items(r.rewards).len(),
                    views(res@) == seq![ChoiceView::Proceed] + Seq::new(i as nat, |j: int| ChoiceView::TakeReward(j as usize)),
                decreases n - i,
            {
                let ghost before = res@;
                res.push(Choice::TakeReward(i));
                assert(views(res@) == views(before).push(ChoiceView::TakeReward(i)));
                assert(Seq::new((i + 1) as nat, |j: int| ChoiceView::TakeReward(j as usize)) == Seq::new(
                    i as nat,
                    |j: int| ChoiceView::TakeReward(j as usize),
                ).push(ChoiceView::TakeReward(i)));
                i = i + 1;
            }
            res
        },
    }
}

/// Moves the choices of `more` to the end of `res`.
fn append_choices(res: &mut Vec<Choice>, more: Vec<Choice>)
    ensures
        views(final(res)@) == views(old(res)@) + views(more@),
{
    let ghost given = more@;
    let mut more = more;
    res.append(&mut more);
    assert(views(res@) =~= views(old(res)@) + views(given));
}

/// Each combination of `k` references as a scry or a selection.
fn select_part(items: &Vec<CardReference>, k: usize, scry: bool) -> (res: Vec<Choice>)
    ensures
        views(res@) == select_views(combos(items@, k as nat), scry),
{
    let mut all = combinations_of(items, k);
    let ghost whole = all@.map_values(|v: Vec<CardReference>| v@);
    let mut res: Vec<Choice> = Vec::new();
    let mut j: usize = 0;
    let total = all.len();
    let ghost n = all@.len();
    while all.len() > 0
        invariant
            j + all@.len() == n,
            n == total,
            n == whole.len(),
            whole == combos(items@, k as nat),
            forall|t: int| 0 <= t < all@.len() ==> (#[trigger] all@[t])@ == whole[j + t],
            views(res@) == select_views(whole.take(j as int), scry),
        decreases all@.len(),
    {
        let c = all.remove(0);
        assert(c@ == whole[j as int]);
        let ghost before = res@;
        let choice = if scry {
            Choice::Scry(c)
        } else {
            Choice::SelectCards(c)
        };
        assert(choice@ == select_view(whole[j as int], scry));
        res.push(choice);
        assert(views(res@) =~= views(before).push(choice@));
        assert(select_views(whole.take(j + 1), scry) =~= select_views(whole.take(j as int), scry).push(
            select_view(whole[j as int], scry),
        ));
        j = j + 1;
    }
    assert(whole.take(n as int) == whole);
    res
}

/// The choices in a battle, given a listing of its hand and its targets.
fn battle_part(b: &BattleState, hand: &Vec<CardReference>, targets: &Vec<MonsterReference>) -> (res: Vec<Choice>)
    requires
        b.card_choose is None ==> hand_ready(*b) && lists_pile(hand@, uuid_set(b.hand), deck_cards(b.cards), CardLocation::PlayerHand),
    ensures
        views(res@) == battle_choices(*b, hand@, targets@),
{
    match &b.card_choose {
        Some(cc) => {
            let items = card_refs_items(&cc.choices);
            let mut res: Vec<Choice> = Vec::new();
            let start = cc.count_range.start;
            let end = cc.count_range.end;
            let mut i: usize = start;
            while i < end
                invariant
                    start <= i,
                    start < end ==> i <= end,
                    items@ == card_refs(cc.choices),
                    views(res@) + select_choices(items@, i as int, end as int, cc.scry) == select_choices(
                        items@,
                        start as int,
                        end as int,
                        cc.scry,
                    ),
                decreases end - i,
            {
                let more = select_part(&items, i, cc.scry);
                append_choices(&mut res, more);
                i = i + 1;
            }
            assert(select_choices(items@, i as int, end as int, cc.scry) == Seq::<ChoiceView>::empty());
            assert(views(res@) + Seq::<ChoiceView>::empty() == views(res@));
            res
        },
        None => {
            let mut res: Vec<Choice> = Vec::new();
            res.push(Choice::End);
            let mut i: usize = 0;
            while i < hand.len()
                invariant
                    0 <= i <= hand@.len(),
                    b.card_choose is None,
                    hand_ready(*b),
                    lists_pile(hand@, uuid_set(b.hand), deck_cards(b.cards), CardLocation::PlayerHand),
                    views(res@) == seq![ChoiceView::End] + play_choices(*b, hand@.take(i as int), targets@),
                decreases hand@.len() - i,
            {
                let c = hand[i];
                assert(hand@.take(i + 1).drop_last() == hand@.take(i as int));
                assert(uuid_set(b.hand).contains(hand@[i as int].uuid));
                let card = b.get_card(c);
                let ghost mid = views(res@);
                if b.card_playable(c) {
                    if card.targeted() {
                        let mut j: usize = 0;
                        while j < targets.len()
                            invariant
                                0 <= j <= targets@.len(),
                                views(res@) == mid + targets@.take(j as int).map_values(
                                    |m: MonsterReference| ChoiceView::PlayCard { card: c, target: Some(m) },
                                ),
                            decreases targets@.len() - j,
                        {
                            let ghost before = res@;
                            res.push(Choice::PlayCard { card: c, target: Some(targets[j]) });
                            assert(views(res@) == views(before).push(ChoiceView::PlayCard { card: c, target: Some(targets@[j as int]) }));
                            assert(targets@.take(j + 1).map_values(|m: MonsterReference| ChoiceView::PlayCard { card: c, target: Some(m) })
                                == targets@.take(j as int).map_values(|m: MonsterReference| ChoiceView::PlayCard { card: c, target: Some(m) }).push(
                                ChoiceView::PlayCard { card: c, target: Some(targets@[j as int]) },
                            ));
                            j = j + 1;
                        }
                        assert(targets@.take(targets@.len() as int) == targets@);
                    } else {
                        let ghost before = res@;
                        res.push(Choice::PlayCard { card: c, target: None });
                        assert(views(res@) == views(before).push(ChoiceView::PlayCard { card: c, target: None }));
                    }
                }
                i = i + 1;
            }
            assert(hand@.take(hand@.len() as int) == hand@);
            let potions = b.game_state.potions();
            let ghost mid2 = views(res@);
            let mut i: usize = 0;
            while i < potions.len()
                invariant
                    0 <= i <= potions@.len(),
                    views(res@) == mid2 + drink_choices(potions@.take(i as int), targets@),
                decreases potions@.len() - i,
            {
                let p = potions[i];
                assert(potions@.take(i + 1).drop_last() == potions@.take(i as int));
                let ghost mid = views(res@);
                if p.base.targeted {
                    let mut j: usize = 0;
                    while j < targets.len()
                        invariant
                            0 <= j <= targets@.len(),
                            views(res@) == mid + targets@.take(j as int).map_values(
                                |m: MonsterReference| ChoiceView::DrinkPotion { slot: p.index, target: Some(m) },
                            ),
                        decreases targets@.len() - j,
                    {
                        let ghost before = res@;
                        res.push(Choice::DrinkPotion { slot: p.index, target: Some(targets[j]) });
                        assert(views(res@) == views(before).push(ChoiceView::DrinkPotion { slot: p.index, target: Some(targets@[j as int]) }));
                        assert(targets@.take(j + 1).map_values(|m: MonsterReference| ChoiceView::DrinkPotion { slot: p.index, target: Some(m) })
                            == targets@.take(j as int).map_values(|m: MonsterReference| ChoiceView::DrinkPotion { slot: p.index, target: Some(m) }).push(
                            ChoiceView::DrinkPotion { slot: p.index, target: Some(targets@[j as int]) },
                        ));
                        j = j + 1;
                    }
                    assert(targets@.take(targets@.len() as int) == targets@);
                } else {
                    let ghost before = res@;
                    res.push(Choice::DrinkPotion { slot: p.index, target: None });
                    assert(views(res@) == views(before).push(ChoiceView::DrinkPotion { slot: p.index, target: None }));
                }
                i = i + 1;
            }
            assert(potions@.take(potions@.len() as int) == potions@);
            res
        },
    }
}

/// Each group of `k` cards of a listing, for an operation on the deck.
fn group_part(cards: &Vec<DeckCard>, k: usize, op: DeckOperation) -> (res: Vec<Choice>)
    ensures
        views(res@) == group_selects(combos(cards@, k as nat), op),
{
    let mut all = combinations_of(cards, k);
    let ghost whole = all@.map_values(|v: Vec<DeckCard>| v@);
    let mut res: Vec<Choice> = Vec::new();
    let mut j: usize = 0;
    let total = all.len();
    let ghost n = all@.len();
    while all.len() > 0
        invariant
            j + all@.len() == n,
            n == total,
            n == whole.len(),
            whole == combos(cards@, k as nat),
            forall|t: int| 0 <= t < all@.len() ==> (#[trigger] all@[t])@ == whole[j + t],
            views(res@) == group_selects(whole.take(j as int), op),
        decreases all@.len(),
    {
        let c = all.remove(0);
        assert(c@ == whole[j as int]);
        let ghost before = res@;
        let choice = Choice::DeckSelect(c, op);
        res.push(choice);
        assert(views(res@) =~= views(before).push(choice@));
        assert(group_selects(whole.take(j + 1), op) =~= group_selects(whole.take(j as int), op).push(choice@));
        j = j + 1;
    }
    assert(whole.take(n as int) == whole);
    res
}

/// Selecting each card of a listing alone, for an operation on the deck.
fn single_part(cards: &Vec<DeckCard>, op: DeckOperation) -> (res: Vec<Choice>)
    ensures
        views(res@) == single_selects(cards@, op),
{
    let mut res: Vec<Choice> = Vec::new();
    let mut i: usize = 0;
    while i < cards.len()
        invariant
            0 <= i <= cards@.len(),
            views(res@) == single_selects(cards@.take(i as int), op),
        decreases cards@.len() - i,
    {
        let ghost before = res@;
        let one = vec![cards[i]];
        assert(one@ =~= seq![cards@[i as int]]);
        let choice = Choice::DeckSelect(one, op);
        res.push(choice);
        assert(views(res@) =~= views(before).push(choice@));
        assert(single_selects(cards@.take(i + 1), op) =~= single_selects(cards@.take(i as int), op).push(choice@));
        i = i + 1;
    }
    assert(cards@.take(cards@.len() as int) == cards@);
    res
}

/// The choices of an event, given a listing of the deck for its screen.
fn event_part(e: &EventState, cards: &Vec<DeckCard>, bowl: bool) -> (res: Vec<Choice>)
    requires
        e.screen_state matches Some(EventScreenState::Rewards(r)) ==> rewards_viewable(r),
    ensures
        views(res@) == event_choices(*e, cards@, bowl),
{
    match &e.screen_state {
        Some(EventScreenState::Rewards(r)) => reward_part(r, bowl),
        Some(EventScreenState::DeckChoose(op, count)) => {
            let size = if cards.len() > *count {
                cards.len()
            } else {
                *count
            };
            group_part(cards, size, *op)
        },
        None => {
            let mut res: Vec<Choice> = Vec::new();
            let mut i: usize = 0;
            while i < e.available_choices.len()
                invariant
                    0 <= i <= e.available_choices@.len(),
                    views(res@) == event_options(e.available_choices@.take(i as int)),
                decreases e.available_choices@.len() - i,
            {
                let ghost before = res@;
                let choice = Choice::Event(e.available_choices[i].clone());
                res.push(choice);
                assert(views(res@) =~= views(before).push(choice@));
                assert(event_options(e.available_choices@.take(i + 1)) =~= event_options(
                    e.available_choices@.take(i as int),
                ).push(choice@));
                i = i + 1;
            }
            assert(e.available_choices@.take(e.available_choices@.len() as int) == e.available_choices@);
            res
        },
    }
}

/// The choices on the map.
fn map_part(m: &MapState) -> (res: Vec<Choice>)
    requires
        map_ready(*m),
    ensures
        views(res@) == map_choices(*m),
{
    let mut res: Vec<Choice> = Vec::new();
    if m.floor == -1 {
        let mut i: usize = 0;
        while i < 7
            invariant
                0 <= i <= 7,
                m.nodes@.len() == 105,
                views(res@) == row_choices(m.nodes@.take(i as int)),
            decreases 7 - i,
        {
            assert(m.nodes@.take(i + 1).drop_last() == m.nodes@.take(i as int));
            match m.nodes[i] {
                Some(n) => {
                    let ghost before = res@;
                    res.push(Choice::NavigateToNode(n.x));
                    assert(views(res@) =~= views(before).push(ChoiceView::NavigateToNode(n.x)));
                },
                None => {},
            }
            i = i + 1;
        }
    } else {
        let index = match m.index {
            Some(i) => i,
            None => vstd::pervasive::unreached(),
        };
        let n = match m.nodes[index] {
            Some(n) => n,
            None => vstd::pervasive::unreached(),
        };
        if n.left {
            res.push(Choice::NavigateToNode(n.x - 1));
        }
        if n.up {
            res.push(Choice::NavigateToNode(n.x));
        }
        if n.right {
            res.push(Choice::NavigateToNode(n.x + 1));
        }
        assert(views(res@) =~= next_choices(n));
    }
    res
}

/// A listing of the deck is empty exactly when no card of the deck passes its test.
proof fn lemma_listing_empty(l: Seq<DeckCard>, g: GameState, keep: spec_fn(Card) -> bool)
    requires
        lists_deck_cards(l, deck_cards(g.deck), keep),
    ensures
        (l.len() > 0) == deck_has(g, keep),
{
    if l.len() > 0 {
        assert(crate::state::game::deck_item_ok(deck_cards(g.deck), keep, l[0]));
        assert(deck_cards(g.deck).contains_key(l[0].uuid) && keep(deck_cards(g.deck)[l[0].uuid]));
    }
    if deck_has(g, keep) {
        let k = choose|k: u128| #[trigger] deck_cards(g.deck).contains_key(k) && keep(deck_cards(g.deck)[k]);
        assert(exists|i: int| 0 <= i < l.len() && (#[trigger] l[i]).uuid == k);
    }
}

/// The choices at a rest site's first screen.
fn rest_menu_part(g: &GameState) -> (res: Vec<Choice>)
    requires
        g.deck_typed(),
    ensures
        views(res@) == rest_menu(*g),
{
    let mut res: Vec<Choice> = Vec::new();
    if !g.relics.contains("Coffee Dripper") {
        res.push(Choice::Rest);
    }
    let ghost after_rest = views(res@);
    if !g.relics.contains("Fusion Hammer") {
        let upgradable = g.upgradable_cards();
        proof {
            assert(upgradable_test() =~= (|c: Card| c.upgradable_spec()));
            lemma_listing_empty(upgradable@, *g, upgradable_test());
        }
        if upgradable.len() > 0 {
            res.push(Choice::Smith);
        }
    }
    let ghost after_smith = views(res@);
    match g.relics.find("Girya") {
        Some(r) => {
            if r.vars.x < 3 {
                res.push(Choice::Lift);
            }
        },
        None => {},
    }
    let ghost after_lift = views(res@);
    if g.relics.contains("Shovel") {
        res.push(Choice::Dig);
    }
    let ghost after_dig = views(res@);
    if g.relics.contains("Peace Pipe") {
        let removable = g.removable_cards();
        proof {
            assert(removable_test() =~= (|c: Card| c.removable_spec()));
            lemma_listing_empty(removable@, *g, removable_test());
        }
        if removable.len() > 0 {
            res.push(Choice::Toke);
        }
    }
    let ghost after_toke = views(res@);
    match g.keys {
        Some(k) => {
            if !k.ruby {
                res.push(Choice::Recall);
            }
        },
        None => {},
    }
    assert(views(res@) =~= rest_menu(*g));
    res
}

/// The choices at a rest site, given a listing of the deck for its screen.
fn rest_part(r: &RestState, cards: &Vec<DeckCard>, bowl: bool) -> (res: Vec<Choice>)
    requires
        r.game_state.deck_typed(),
        r.screen_state matches RestScreenState::Dig(rewards) ==> rewards_viewable(rewards),
    ensures
        views(res@) == rest_choices(*r, cards@, bowl),
{
    match &r.screen_state {
        RestScreenState::IShouldRest => rest_menu_part(&r.game_state),
        RestScreenState::DreamCatch(offers) => offer_part(offers, bowl),
        RestScreenState::Smith => single_part(cards, DeckOperation::Upgrade),
        RestScreenState::Toke => single_part(cards, DeckOperation::Remove),
        RestScreenState::DeckSelect(op) => single_part(cards, *op),
        RestScreenState::Dig(rewards) => reward_part(rewards, bowl),
        RestScreenState::Proceed => {
            let mut res: Vec<Choice> = Vec::new();
            res.push(Choice::Proceed);
            assert(views(res@) =~= seq![ChoiceView::Proceed]);
            res
        },
    }
}

/// Buying each priced item that the player can pay for.
fn buy_part<T: Copy>(items: &Vec<(T, u16)>, gold: u16, kind: u8) -> (res: Vec<Choice>)
    requires
        kind <= 2,
    ensures
        views(res@) == buy_choices(prices_of(items@), gold, kind as int),
{
    let mut res: Vec<Choice> = Vec::new();
    let mut i: usize = 0;
    while i < items.len()
        invariant
            0 <= i <= items@.len(),
            kind <= 2,
            views(res@) == buy_choices(prices_of(items@.take(i as int)), gold, kind as int),
        decreases items@.len() - i,
    {
        assert(prices_of(items@.take(i + 1)).drop_last() =~= prices_of(items@.take(i as int)));
        let (_, price) = items[i];
        if price <= gold {
            let ghost before = res@;
            let choice = if kind == 0 {
                Choice::BuyCard(i)
            } else if kind == 1 {
                Choice::BuyRelic(i)
            } else {
                Choice::BuyPotion(i)
            };
            res.push(choice);
            assert(views(res@) =~= views(before).push(choice@));
        }
        i = i + 1;
    }
    assert(items@.take(items@.len() as int) == items@);
    res
}

/// The choices in a shop, given a listing of the deck for its screen.
fn shop_part(s: &ShopState, cards: &Vec<DeckCard>, bowl: bool) -> (res: Vec<Choice>)
    requires
        s.screen_state matches ShopScreenState::Reward(r) ==> rewards_viewable(r),
        s.screen_state is InShop && s.can_purge ==> purge_ready(*s),
    ensures
        views(res@) == shop_choices(*s, cards@, bowl),
{
    match &s.screen_state {
        ShopScreenState::DeckChoose(op) => single_part(cards, *op),
        ShopScreenState::Entrance => {
            let mut res: Vec<Choice> = Vec::new();
            res.push(Choice::EnterShop);
            res.push(Choice::Proceed);
            assert(views(res@) =~= seq![ChoiceView::EnterShop, ChoiceView::Proceed]);
            res
        },
        ShopScreenState::Reward(r) => reward_part(r, bowl),
        ShopScreenState::InShop => {
            let gold = s.game_state.gold;
            let mut res = buy_part(&store_cards_items(&s.cards), gold, 0);
            append_choices(&mut res, buy_part(&store_relics_items(&s.relics), gold, 1));
            let slots = slots_items(&s.game_state.potions);
            let mut empty = false;
            let mut i: usize = 0;
            while i < slots.len()
                invariant
                    0 <= i <= slots@.len(),
                    empty == exists|j: int| 0 <= j < i && (#[trigger] slots@[j]) is None,
                decreases slots@.len() - i,
            {
                if slots[i].is_none() {
                    empty = true;
                }
                i = i + 1;
            }
            if empty {
                append_choices(&mut res, buy_part(&store_potions_items(&s.potions), gold, 2));
            }
            let ghost before = views(res@);
            if s.can_purge && s.purge_cost() <= gold {
                let mut i: usize = 0;
                while i < cards.len()
                    invariant
                        0 <= i <= cards@.len(),
                        views(res@) == before + remove_buys(cards@.take(i as int)),
                    decreases cards@.len() - i,
                {
                    let ghost prior = res@;
                    let choice = Choice::BuyRemoveCard(cards[i]);
                    res.push(choice);
                    assert(views(res@) =~= views(prior).push(choice@));
                    assert(remove_buys(cards@.take(i + 1)) =~= remove_buys(cards@.take(i as int)).push(choice@));
                    i = i + 1;
                }
                assert(cards@.take(cards@.len() as int) == cards@);
            } else {
                assert(views(res@) =~= before + Seq::<ChoiceView>::empty());
            }
            res
        },
    }
}

/// The choices in a state, given a listing of the deck for its screen, a listing of the
/// hand and the targets of a battle.
pub fn choices_from(
    state: &FloorState,
    cards: &Vec<DeckCard>,
    hand: &Vec<CardReference>,
    targets: &Vec<MonsterReference>,
) -> (res: Vec<Choice>)
    requires
        choices_ready(*state),
        hand_listed(*state, hand@),
    ensures
        views(res@) == choices_spec(*state, cards@, hand@, targets@),
{
    let g = state.game_state();
    let bowl = g.relics.contains("Singing Bowl");
    let mut res = discard_part(g);
    let part = match state {
        FloorState::Battle(b) => battle_part(b, hand, targets),
        FloorState::BattleOver(s) => reward_part(&s.rewards, bowl),
        FloorState::Chest(c) => match &c.rewards {
            Some(r) => reward_part(r, bowl),
            None => {
                let mut v: Vec<Choice> = Vec::new();
                v.push(Choice::OpenChest);
                v.push(Choice::Proceed);
                assert(views(v@) =~= seq![ChoiceView::OpenChest, ChoiceView::Proceed]);
                v
            },
        },
        FloorState::Event(e) => event_part(e, cards, bowl),
        FloorState::OnMap(m) => map_part(&m.map),
        FloorState::Rest(r) => rest_part(r, cards, bowl),
        FloorState::Shop(s) => shop_part(s, cards, bowl),
        _ => vstd::pervasive::unreached(),
    };
    append_choices(&mut res, part);
    res
}

/// The kind of listing for an operation on the deck.
fn op_listing(op: DeckOperation) -> (res: u8)
    ensures
        res == op_kind(op),
{
    match op {
        DeckOperation::Remove | DeckOperation::Transform | DeckOperation::TransformUpgrade => 1,
        DeckOperation::Upgrade => 2,
        _ => 0,
    }
}

/// A listing of the deck's cards that pass the test of the state's screen, in an order
/// that is not stated.
fn listing_for(state: &FloorState) -> (res: Vec<DeckCard>)
    requires
        has_game(*state),
        game_of(*state).deck_typed(),
    ensures
        lists_deck_cards(res@, deck_cards(game_of(*state).deck), listing_test(*state)),
{
    let which: u8 = match state {
        FloorState::Event(e) => match &e.screen_state {
            Some(EventScreenState::DeckChoose(op, _)) => op_listing(*op),
            _ => 0,
        },
        FloorState::Rest(r) => match &r.screen_state {
            RestScreenState::Smith => 2,
            RestScreenState::Toke => 1,
            RestScreenState::DeckSelect(op) => op_listing(*op),
            _ => 0,
        },
        FloorState::Shop(s) => match &s.screen_state {
            ShopScreenState::DeckChoose(op) => op_listing(*op),
            ShopScreenState::InShop => 1,
            _ => 0,
        },
        _ => 0,
    };
    assert(which == listing_kind(*state));
    let g = state.game_state();
    if which == 1 {
        assert(removable_test() =~= (|c: Card| c.removable_spec()));
        g.removable_cards()
    } else if which == 2 {
        assert(upgradable_test() =~= (|c: Card| c.upgradable_spec()));
        g.upgradable_cards()
    } else {
        assert(any_test() =~= (|c: Card| true));
        g.deck()
    }
}

/// Every choice that the player has in a state: discarding each potion, then those of
/// the screen (see `choices_spec`). The order of cards taken from the deck or the hand,
/// and of targets, follows listings whose order is not stated.
pub fn all_choices(state: &FloorState) -> (res: Vec<Choice>)
    requires
        choices_ready(*state),
    ensures
        exists|cards: Seq<DeckCard>, hand: Seq<CardReference>, monsters: Seq<(u128, u128, &'static BaseMonster, bool)>|
            #[trigger] listings_of(*state, cards, hand, monsters) && views(res@) == choices_spec(
                *state,
                cards,
                hand,
                targets_of(monsters),
            ),
{
    let cards = listing_for(state);
    let (hand, monsters) = match state {
        FloorState::Battle(b) => {
            let hand = if b.card_choose.is_none() {
                b.hand()
            } else {
                Vec::new()
            };
            (hand, monster_listing(&b.monsters))
        },
        _ => (Vec::new(), Vec::new()),
    };
    let targets = crate::state::battle::targets_in(&monsters);
    let res = choices_from(state, &cards, &hand, &targets);
    assert(listings_of(*state, cards@, hand@, monsters@));
    res
}

} // verus!
