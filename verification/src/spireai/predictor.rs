//! What a choice does to the state of the game.

use vstd::prelude::*;

use crate::models::cards::{available_cards_by_class, class_pool, has_card_named, BaseCard};
use crate::models::common::{Amount, CardEffect, CardType, ChestType, Class, DeckOperation, FightType, Rarity, Stance};
use crate::models::choices::{Choice, ChoiceView};
use crate::models::potions::BasePotion;
use crate::models::relics::{has_relic_named, BaseRelic};
use crate::models::buffs::{has_buff_named, BaseBuff};
use crate::models::events::{has_event_named, BaseEvent, BaseEventChoice};
use crate::models::common::str_eq;
use crate::state::collections::{
    card_effects, card_effects_items,
    deck_cards, deck_entries, store_cards, store_cards_from, store_potions, store_potions_from, store_relics, store_relics_from, deck_get, deck_insert, deck_remove, name_index, name_index_get, offer_items, offers_append, offers_is_empty, offers_new,
    relic_entries, relic_map_get, relic_map_insert, reward_at, reward_items, rewards_from,
    rewards_remove, rewards_set, slot_items, slots_set,
};
use crate::state::common::{
    buff_added, is_first_of_kind, lemma_upgrade_of_is, starting_cost, upgraded_card, Creature, has_known_cost, is_plain_condition, new_uuid, upgrade_of, upgrade_ready, Card, CardOffer, HpRange,
    Relic, Reward, RewardState, Vars,
};
use crate::state::event::{effects_applied, effects_known, initial_choices, names_of, EventScreenState, EventState};
use crate::state::floor::{
    game_of, has_game, BattleOverState, ChestState, FloorState, GamePossibility, KeyState,
    RestScreenState, RestState,
};
use crate::state::shop::{
    shop_generable, shop_generated, card_bought, potion_bought, relic_bought, screen_after_relic, ShopScreenState, ShopState,
};
use crate::state::game::{potion_drunk, slot_reference, cards_makeable, is_hero, starting_deck, starting_relic, starts_run, DeckCard, GameState, Relics};
use crate::state::map::{MapHistory, MapNode, MapNodeIcon, MapState};
use crate::state::battle::{battle_drink_ready, battle_drunk, BattleState, CardChoiceState};
use crate::spireai::references::{CardReference, MonsterReference};
use crate::state::probability::{weight_total, Probability};

verus! {

// ---- the rewards on screen ----
/// Whether `after` is `before` with the reward being looked at taken out, and none
/// looked at.
pub open spec fn card_reward_removed(before: RewardState, after: RewardState) -> bool {
    match before.viewing_reward {
        Some(i) => {
            &&& reward_items(after.rewards) == reward_items(before.rewards).remove(i as int)
            &&& after.viewing_reward is None
            &&& after.deck_operation == before.deck_operation
        },
        None => false,
    }
}

/// Whether a card reward is being looked at.
pub open spec fn viewing_some(r: RewardState) -> bool {
    r.viewing_reward matches Some(i) && i < reward_items(r.rewards).len()
}

/// Takes out the reward being looked at, which there must be.
pub fn remove_card_reward(rewards: &mut RewardState)
    requires
        viewing_some(*old(rewards)),
    ensures
        card_reward_removed(*old(rewards), *final(rewards)),
{
    match rewards.viewing_reward {
        Some(index) => {
            rewards_remove(&mut rewards.rewards, index);
            rewards.viewing_reward = None;
        },
        None => vstd::pervasive::unreached(),
    }
}

/// The run after the Singing Bowl: two more maximum hit points, and healed by two.
pub open spec fn bowl_taken(g: GameState) -> GameState {
    GameState { hp: g.heal_spec(HpRange { max: (g.hp.max + 2) as u16, ..g.hp }, 2), ..g }
}

/// Whether the Singing Bowl can be taken without overflow.
pub open spec fn bowl_ok(g: GameState) -> bool {
    g.hp.max + 2 <= u16::MAX && g.hp.amount + 2 <= u16::MAX
}

/// Whether `after` is `before` with a new card of the given name of a catalog added.
pub open spec fn named_card_added(before: GameState, after: GameState, name: Seq<char>, catalog: Seq<&'static BaseCard>) -> bool {
    exists|card: Card| {
        &&& card.base.name@ == name
        &&& catalog.contains(card.base)
        &&& card.upgrades == 0
        &&& !card.bottled
        &&& #[trigger] before.card_added(after, card)
    }
}

/// Whether each card of a catalog can be made new.
pub open spec fn catalog_makeable(catalog: Seq<&'static BaseCard>) -> bool {
    forall|i: int| 0 <= i < catalog.len() ==> has_known_cost(*(#[trigger] catalog[i])) && is_plain_condition(catalog[i].retain)
}

/// Whether a card of the given name can be added to the run: the catalog holds it, and
/// every card of that name can join the deck without overflow.
pub open spec fn name_addable(g: GameState, name: Seq<char>, catalog: Seq<&'static BaseCard>) -> bool {
    &&& has_card_named(catalog, name)
    &&& catalog_makeable(catalog)
    &&& forall|i: int| 0 <= i < catalog.len() && (#[trigger] catalog[i]).name@ == name ==> g.card_kind_addable(catalog[i])
}

/// Adds a new card of the given name of a catalog to the run.
fn add_named_card(game: &mut GameState, name: &str, catalog: &[&'static BaseCard])
    requires
        name_addable(*old(game), name@, catalog@),
    ensures
        named_card_added(*old(game), *final(game), name@, catalog@),
{
    let card = Card::by_name(catalog, name);
    proof {
        let i = choose|i: int| 0 <= i < catalog@.len() && catalog@[i] == card.base;
        assert(old(game).card_kind_addable(catalog@[i]));
    }
    let ghost before = *game;
    game.add_card(card);
    proof {
        assert(before.card_added(*game, card));
    }
}

/// The keys with the emerald key taken, where the run has keys.
pub open spec fn with_emerald(keys: Option<KeyState>) -> Option<KeyState> {
    match keys {
        Some(k) => Some(KeyState { emerald: true, ..k }),
        None => None,
    }
}

/// The keys with the sapphire key taken, where the run has keys.
pub open spec fn with_sapphire(keys: Option<KeyState>) -> Option<KeyState> {
    match keys {
        Some(k) => Some(KeyState { sapphire: true, ..k }),
        None => None,
    }
}

/// Whether the reward at an index can be taken: it is in the list; gold fits; a relic
/// can be taken; a card choice yet to be drawn can be drawn; the sapphire key has its
/// relic after it, and a linked relic its key before it.
pub open spec fn reward_takeable(
    r: RewardState,
    g: GameState,
    i: int,
    catalog: Seq<&'static BaseCard>,
) -> bool {
    &&& 0 <= i < reward_items(r.rewards).len()
    &&& match reward_items(r.rewards)[i] {
        Reward::CardChoice(offers, fight_type, colorless) => offer_items(offers).len() == 0 ==> card_rewards_drawable(g, fight_type, colorless, catalog),
        Reward::Gold(amount) => !g.relics.has("Ectoplasm"@) ==> g.gold + amount <= u16::MAX && (g.relics.has("Bloody Idol"@) ==> g.hp.amount + 5 <= u16::MAX),
        Reward::Relic(base) => g.relic_takeable(base),
        Reward::SapphireKey => i + 1 < reward_items(r.rewards).len(),
        Reward::SapphireLinkedRelic(base) => i >= 1 && g.relic_takeable(base),
        _ => true,
    }
}

/// Whether the cards of a reward can be drawn for a run.
pub open spec fn card_rewards_drawable(g: GameState, fight_type: Option<FightType>, colorless: bool, catalog: Seq<&'static BaseCard>) -> bool {
    let pool = crate::models::cards::class_pool(catalog, g.reward_class(fight_type, colorless));
    &&& g.rare_probability_offset <= 55
    &&& crate::state::game::offerable(pool)
    &&& crate::state::game::names_unique(pool)
    &&& crate::state::game::enough_to_offer(fight_type, pool, 3)
    &&& (1 <= g.act <= 4 || forall|i: int| 0 <= i < pool.len() ==> g.egg_upgrades((#[trigger] pool[i])._type))
}

/// Whether `r1` and `g1` are the rewards and run after taking the reward at index `i`,
/// and `fa` the factors after `fb`. A card choice is looked at, its cards drawn first
/// where it has none; a key is taken (the sapphire key with the relic after it, a
/// linked relic with the key before it); gold is added; a potion fills the first empty
/// slot, and stays on screen where there is none; a relic is taken.
pub open spec fn reward_taken(
    r0: RewardState,
    g0: GameState,
    i: int,
    r1: RewardState,
    g1: GameState,
    fb: Seq<(u64, u64)>,
    fa: Seq<(u64, u64)>,
    catalog: Seq<&'static BaseCard>,
) -> bool {
    let items = reward_items(r0.rewards);
    match items[i] {
        Reward::CardChoice(offers, fight_type, colorless) => {
            &&& r1.viewing_reward == Some(i as usize)
            &&& r1.deck_operation == r0.deck_operation
            &&& exists|v: im::Vector<CardOffer>| {
                &&& #[trigger] reward_items(r1.rewards) == items.update(i, Reward::CardChoice(v, fight_type, colorless))
                &&& if offer_items(offers).len() == 0 {
                    &&& offer_items(v).len() == (if g0.relics.has("Busted Crown"@) { 1int } else { 2 })
                        + (if g0.relics.has("Question Card"@) { 1int } else { 0 })
                    &&& forall|j: int| 0 <= j < offer_items(v).len() ==> catalog.contains((#[trigger] offer_items(v)[j]).base)
                    &&& g1 == (GameState { rare_probability_offset: g1.rare_probability_offset, ..g0 })
                } else {
                    &&& offer_items(v) == offer_items(offers)
                    &&& g1 == g0
                    &&& fa == fb
                }
            }
        },
        Reward::EmeraldKey => {
            &&& g1 == (GameState { keys: with_emerald(g0.keys), ..g0 })
            &&& reward_items(r1.rewards) == items.remove(i)
            &&& r1.viewing_reward == r0.viewing_reward && r1.deck_operation == r0.deck_operation
            &&& fa == fb
        },
        Reward::Gold(amount) => {
            &&& g1 == g0.with_gold(amount as int)
            &&& reward_items(r1.rewards) == items.remove(i)
            &&& r1.viewing_reward == r0.viewing_reward && r1.deck_operation == r0.deck_operation
            &&& fa == fb
        },
        Reward::Potion(p) => {
            &&& g0.potion_added(g1, p)
            &&& g1 == (GameState { potions: g1.potions, ..g0 })
            &&& reward_items(r1.rewards) == (if slot_items(g0.potions).contains(None) {
                items.remove(i)
            } else {
                items
            })
            &&& r1.viewing_reward == r0.viewing_reward && r1.deck_operation == r0.deck_operation
            &&& fa == fb
        },
        Reward::Relic(base) => {
            &&& g0.relic_added(g1, base, fb, fa)
            &&& reward_items(r1.rewards) == items.remove(i)
            &&& r1.viewing_reward == r0.viewing_reward && r1.deck_operation == r0.deck_operation
        },
        Reward::SapphireKey => {
            &&& g1 == (GameState { keys: with_sapphire(g0.keys), ..g0 })
            &&& reward_items(r1.rewards) == items.remove(i).remove(i)
            &&& r1.viewing_reward == r0.viewing_reward && r1.deck_operation == r0.deck_operation
            &&& fa == fb
        },
        Reward::SapphireLinkedRelic(base) => {
            &&& g0.relic_added(g1, base, fb, fa)
            &&& reward_items(r1.rewards) == items.remove(i - 1).remove(i - 1)
            &&& r1.viewing_reward == r0.viewing_reward && r1.deck_operation == r0.deck_operation
        },
    }
}

/// Takes the reward at an index (see `reward_taken`).
pub fn take_reward(
    rewards: &mut RewardState,
    game: &mut GameState,
    index: usize,
    probability: &mut Probability,
    catalog: &[&'static BaseCard],
)
    requires
        reward_takeable(*old(rewards), *old(game), index as int, catalog@),
    ensures
        reward_taken(
            *old(rewards),
            *old(game),
            index as int,
            *final(rewards),
            *final(game),
            old(probability).factors@,
            final(probability).factors@,
            catalog@,
        ),
{
    let ghost items = reward_items(rewards.rewards);
    match reward_at(&rewards.rewards, index) {
        Reward::CardChoice(offers, fight_type, colorless) => {
            let mut all = offers;
            if offers_is_empty(&all) {
                let new_offer = game.generate_card_rewards(fight_type, colorless, probability, catalog);
                offers_append(&mut all, new_offer);
            } else {
                offers_append(&mut all, offers_new());
                assert(offer_items(all) =~= offer_items(offers));
            }
            rewards.viewing_reward = Some(index);
            rewards_set(&mut rewards.rewards, index, Reward::CardChoice(all, fight_type, colorless));
            assert(reward_items(rewards.rewards) == items.update(index as int, Reward::CardChoice(all, fight_type, colorless)));
        },
        Reward::EmeraldKey => {
            match &mut game.keys {
                Some(keys) => keys.emerald = true,
                None => {},
            }
            rewards_remove(&mut rewards.rewards, index);
        },
        Reward::Gold(amount) => {
            game.add_gold(amount);
            rewards_remove(&mut rewards.rewards, index);
        },
        Reward::Potion(potion) => {
            if game.add_potion(potion) {
                rewards_remove(&mut rewards.rewards, index);
            }
        },
        Reward::Relic(relic) => {
            game.add_relic(relic, probability);
            rewards_remove(&mut rewards.rewards, index);
        },
        Reward::SapphireKey => {
            match &mut game.keys {
                Some(keys) => keys.sapphire = true,
                None => {},
            }
            rewards_remove(&mut rewards.rewards, index);
            rewards_remove(&mut rewards.rewards, index);
        },
        Reward::SapphireLinkedRelic(relic) => {
            game.add_relic(relic, probability);
            rewards_remove(&mut rewards.rewards, index - 1);
            rewards_remove(&mut rewards.rewards, index - 1);
        },
    }
}

// ---- the screens of rewards, and the cards dreamt of at a rest site ----
/// Whether `a` is the state after a choice on a screen of rewards of `b`, where the run
/// goes from `g0` to `g1` by `game_rel`: at a rest site the player goes on; on a screen
/// of rewards, the reward being looked at is taken out (where `removes`) or is no longer
/// looked at; an event without a screen keeps it.
pub open spec fn reward_screen_step(
    b: FloorState,
    a: FloorState,
    game_rel: spec_fn(GameState, GameState) -> bool,
    removes: bool,
) -> bool {
    let rewards_rel = |r0: RewardState, r1: RewardState| if removes {
        card_reward_removed(r0, r1)
    } else {
        r1 == RewardState { viewing_reward: None, ..r0 }
    };
    match b {
        FloorState::Rest(r) => match a {
            FloorState::Rest(r2) => r2.screen_state == RestScreenState::Proceed && game_rel(r.game_state, r2.game_state),
            _ => false,
        },
        FloorState::BattleOver(s) => match a {
            FloorState::BattleOver(s2) => game_rel(s.game_state, s2.game_state) && rewards_rel(s.rewards, s2.rewards),
            _ => false,
        },
        FloorState::Chest(c) => match (a, c.rewards) {
            (FloorState::Chest(c2), Some(r)) => match c2.rewards {
                Some(r2) => c2.chest == c.chest && game_rel(c.game_state, c2.game_state) && rewards_rel(r, r2),
                None => false,
            },
            _ => false,
        },
        FloorState::Event(e) => match a {
            FloorState::Event(e2) => {
                &&& game_rel(e.game_state, e2.game_state)
                &&& e2 == (EventState { game_state: e2.game_state, screen_state: e2.screen_state, ..e })
                &&& match e.screen_state {
                    None => e2.screen_state is None,
                    Some(EventScreenState::Rewards(r)) => match e2.screen_state {
                        Some(EventScreenState::Rewards(r2)) => rewards_rel(r, r2),
                        _ => false,
                    },
                    _ => false,
                }
            },
            _ => false,
        },
        FloorState::Shop(s) => match (a, s.screen_state) {
            (FloorState::Shop(s2), ShopScreenState::Reward(r)) => match s2.screen_state {
                ShopScreenState::Reward(r2) => {
                    &&& game_rel(s.game_state, s2.game_state)
                    &&& rewards_rel(r, r2)
                    &&& s2 == (ShopState { game_state: s2.game_state, screen_state: s2.screen_state, ..s })
                },
                _ => false,
            },
            _ => false,
        },
        _ => false,
    }
}

/// Whether a choice can be made on the screen of rewards of a state: the state shows
/// one (or is a rest site, or an event without a screen), and, where the reward looked
/// at is taken out, one is looked at.
pub open spec fn reward_screen_ok(b: FloorState, removes: bool) -> bool {
    let rewards_ok = |r: RewardState| removes ==> viewing_some(r);
    match b {
        FloorState::Rest(_) => true,
        FloorState::BattleOver(s) => rewards_ok(s.rewards),
        FloorState::Chest(c) => match c.rewards {
            Some(r) => rewards_ok(r),
            None => false,
        },
        FloorState::Event(e) => match e.screen_state {
            None => true,
            Some(EventScreenState::Rewards(r)) => rewards_ok(r),
            _ => false,
        },
        FloorState::Shop(s) => match s.screen_state {
            ShopScreenState::Reward(r) => rewards_ok(r),
            _ => false,
        },
        _ => false,
    }
}

/// The test that a run stays as it is.
pub open spec fn game_kept() -> spec_fn(GameState, GameState) -> bool {
    |g0: GameState, g1: GameState| g1 == g0
}

/// The test that a run took the Singing Bowl.
pub open spec fn game_bowl() -> spec_fn(GameState, GameState) -> bool {
    |g0: GameState, g1: GameState| g1 == bowl_taken(g0)
}

/// The test that a run took a new card of a name of a catalog.
pub open spec fn game_card(name: Seq<char>, catalog: Seq<&'static BaseCard>) -> spec_fn(GameState, GameState) -> bool {
    |g0: GameState, g1: GameState| named_card_added(g0, g1, name, catalog)
}

/// Skipping a reward: going on at a rest site, or looking at no reward.
fn skip_step(state: &mut FloorState)
    requires
        reward_screen_ok(*old(state), false),
    ensures
        reward_screen_step(*old(state), *final(state), game_kept(), false),
{
    match state {
        FloorState::Rest(rest) => rest.screen_state = RestScreenState::Proceed,
        FloorState::BattleOver(s) => s.rewards.viewing_reward = None,
        FloorState::Chest(chest) => match &mut chest.rewards {
            Some(rewards) => rewards.viewing_reward = None,
            None => vstd::pervasive::unreached(),
        },
        FloorState::Event(event) => match &mut event.screen_state {
            Some(EventScreenState::Rewards(reward)) => reward.viewing_reward = None,
            Some(_) => vstd::pervasive::unreached(),
            None => {},
        },
        FloorState::Shop(shop) => match &mut shop.screen_state {
            ShopScreenState::Reward(reward) => reward.viewing_reward = None,
            _ => vstd::pervasive::unreached(),
        },
        _ => vstd::pervasive::unreached(),
    }
}

/// Taking the Singing Bowl for a card reward: two more maximum hit points; then going on
/// at a rest site, or the reward taken out.
fn bowl_step(state: &mut FloorState)
    requires
        reward_screen_ok(*old(state), true),
        crate::state::floor::has_game(*old(state)),
        bowl_ok(crate::state::floor::game_of(*old(state))),
    ensures
        reward_screen_step(*old(state), *final(state), game_bowl(), true),
{
    match state {
        FloorState::Rest(rest) => {
            rest.game_state.add_max_hp(2);
            rest.screen_state = RestScreenState::Proceed;
        },
        FloorState::BattleOver(s) => {
            s.game_state.add_max_hp(2);
            remove_card_reward(&mut s.rewards);
        },
        FloorState::Chest(chest) => {
            chest.game_state.add_max_hp(2);
            match &mut chest.rewards {
                Some(rewards) => remove_card_reward(rewards),
                None => vstd::pervasive::unreached(),
            }
        },
        FloorState::Event(event) => {
            event.game_state.add_max_hp(2);
            match &mut event.screen_state {
                Some(EventScreenState::Rewards(reward)) => remove_card_reward(reward),
                Some(_) => vstd::pervasive::unreached(),
                None => {},
            }
        },
        FloorState::Shop(shop) => {
            shop.game_state.add_max_hp(2);
            match &mut shop.screen_state {
                ShopScreenState::Reward(reward) => remove_card_reward(reward),
                _ => vstd::pervasive::unreached(),
            }
        },
        _ => vstd::pervasive::unreached(),
    }
}

/// Taking a card of a reward or of a dream: a new card of its name joins the deck; then
/// going on at a rest site, or the reward taken out.
fn card_step(state: &mut FloorState, name: &str, catalog: &[&'static BaseCard])
    requires
        reward_screen_ok(*old(state), true),
        crate::state::floor::has_game(*old(state)),
        name_addable(crate::state::floor::game_of(*old(state)), name@, catalog@),
    ensures
        reward_screen_step(*old(state), *final(state), game_card(name@, catalog@), true),
{
    match state {
        FloorState::Rest(rest) => {
            add_named_card(&mut rest.game_state, name, catalog);
            rest.screen_state = RestScreenState::Proceed;
        },
        FloorState::BattleOver(s) => {
            add_named_card(&mut s.game_state, name, catalog);
            remove_card_reward(&mut s.rewards);
        },
        FloorState::Chest(chest) => {
            add_named_card(&mut chest.game_state, name, catalog);
            match &mut chest.rewards {
                Some(rewards) => remove_card_reward(rewards),
                None => vstd::pervasive::unreached(),
            }
        },
        FloorState::Event(event) => {
            add_named_card(&mut event.game_state, name, catalog);
            match &mut event.screen_state {
                Some(EventScreenState::Rewards(reward)) => remove_card_reward(reward),
                Some(_) => vstd::pervasive::unreached(),
                None => {},
            }
        },
        FloorState::Shop(shop) => {
            add_named_card(&mut shop.game_state, name, catalog);
            match &mut shop.screen_state {
                ShopScreenState::Reward(reward) => remove_card_reward(reward),
                _ => vstd::pervasive::unreached(),
            }
        },
        _ => vstd::pervasive::unreached(),
    }
}

/// The rewards that a state shows: after digging, after a battle, in an open chest, in
/// an event or in a shop.
pub open spec fn rewards_of(f: FloorState) -> Option<RewardState> {
    match f {
        FloorState::Rest(r) => match r.screen_state {
            RestScreenState::Dig(x) => Some(x),
            _ => None,
        },
        FloorState::BattleOver(s) => Some(s.rewards),
        FloorState::Chest(c) => c.rewards,
        FloorState::Event(e) => match e.screen_state {
            Some(EventScreenState::Rewards(x)) => Some(x),
            _ => None,
        },
        FloorState::Shop(s) => match s.screen_state {
            ShopScreenState::Reward(x) => Some(x),
            _ => None,
        },
        _ => None,
    }
}

/// A state that shows rewards, with its rewards and run replaced.
pub open spec fn with_rewards(f: FloorState, r: RewardState, g: GameState) -> FloorState {
    match f {
        FloorState::Rest(_) => FloorState::Rest(RestState { screen_state: RestScreenState::Dig(r), game_state: g }),
        FloorState::BattleOver(_) => FloorState::BattleOver(BattleOverState { game_state: g, rewards: r }),
        FloorState::Chest(c) => FloorState::Chest(ChestState { rewards: Some(r), game_state: g, ..c }),
        FloorState::Event(e) => FloorState::Event(EventState {
            game_state: g,
            screen_state: Some(EventScreenState::Rewards(r)),
            ..e
        }),
        FloorState::Shop(s) => FloorState::Shop(ShopState { game_state: g, screen_state: ShopScreenState::Reward(r), ..s }),
        _ => f,
    }
}

/// Whether `a` is `b` after taking the reward at an index of the rewards it shows.
pub open spec fn reward_step(
    b: FloorState,
    a: FloorState,
    i: int,
    fb: Seq<(u64, u64)>,
    fa: Seq<(u64, u64)>,
    catalog: Seq<&'static BaseCard>,
) -> bool {
    match rewards_of(b) {
        Some(r0) => exists|r1: RewardState, g1: GameState|
            #[trigger] reward_taken(r0, crate::state::floor::game_of(b), i, r1, g1, fb, fa, catalog) && a == with_rewards(b, r1, g1),
        None => false,
    }
}

/// Takes the reward at an index of the rewards that the state shows.
fn take_step(state: &mut FloorState, index: usize, probability: &mut Probability, catalog: &[&'static BaseCard])
    requires
        rewards_of(*old(state)) matches Some(r) && reward_takeable(r, crate::state::floor::game_of(*old(state)), index as int, catalog@),
    ensures
        reward_step(*old(state), *final(state), index as int, old(probability).factors@, final(probability).factors@, catalog@),
{
    let ghost r0 = rewards_of(*state).unwrap();
    let ghost g0 = crate::state::floor::game_of(*state);
    let ghost f0 = probability.factors@;
    match state {
        FloorState::Rest(rest) => match &mut rest.screen_state {
            RestScreenState::Dig(rewards) => take_reward(rewards, &mut rest.game_state, index, probability, catalog),
            _ => vstd::pervasive::unreached(),
        },
        FloorState::BattleOver(s) => take_reward(&mut s.rewards, &mut s.game_state, index, probability, catalog),
        FloorState::Chest(chest) => match &mut chest.rewards {
            Some(rewards) => take_reward(rewards, &mut chest.game_state, index, probability, catalog),
            None => vstd::pervasive::unreached(),
        },
        FloorState::Event(event) => match &mut event.screen_state {
            Some(EventScreenState::Rewards(rewards)) => take_reward(rewards, &mut event.game_state, index, probability, catalog),
            _ => vstd::pervasive::unreached(),
        },
        FloorState::Shop(shop) => match &mut shop.screen_state {
            ShopScreenState::Reward(rewards) => take_reward(rewards, &mut shop.game_state, index, probability, catalog),
            _ => vstd::pervasive::unreached(),
        },
        _ => vstd::pervasive::unreached(),
    }
    proof {
        let r1 = rewards_of(*state).unwrap();
        let g1 = crate::state::floor::game_of(*state);
        assert(reward_taken(r0, g0, index as int, r1, g1, f0, probability.factors@, catalog@));
        assert(*state == with_rewards(*old(state), r1, g1));
    }
}

// ---- the run of any state ----
/// A state that holds a run, with its run replaced.
pub open spec fn with_game(f: FloorState, g: GameState) -> FloorState {
    match f {
        FloorState::Event(s) => FloorState::Event(EventState { game_state: g, ..s }),
        FloorState::Rest(s) => FloorState::Rest(RestState { game_state: g, ..s }),
        FloorState::Chest(s) => FloorState::Chest(ChestState { game_state: g, ..s }),
        FloorState::Battle(s) => FloorState::Battle(crate::state::battle::BattleState { game_state: g, ..s }),
        FloorState::BattleOver(s) => FloorState::BattleOver(BattleOverState { game_state: g, ..s }),
        FloorState::Shop(s) => FloorState::Shop(ShopState { game_state: g, ..s }),
        FloorState::OnMap(_) => FloorState::OnMap(g),
        _ => f,
    }
}

/// Empties a slot of the belt of the run, which must be on it.
fn discard_step(state: &mut FloorState, slot: usize)
    requires
        crate::state::floor::has_game(*old(state)),
        slot < slot_items(crate::state::floor::game_of(*old(state)).potions).len(),
    ensures
        ({
            let g0 = crate::state::floor::game_of(*old(state));
            let g1 = crate::state::floor::game_of(*final(state));
            &&& slot_items(g1.potions) == slot_items(g0.potions).update(slot as int, None)
            &&& *final(state) == with_game(*old(state), GameState { potions: g1.potions, ..g0 })
        }),
{
    match state {
        FloorState::Event(s) => slots_set(&mut s.game_state.potions, slot, None),
        FloorState::Rest(s) => slots_set(&mut s.game_state.potions, slot, None),
        FloorState::Chest(s) => slots_set(&mut s.game_state.potions, slot, None),
        FloorState::Battle(s) => slots_set(&mut s.game_state.potions, slot, None),
        FloorState::BattleOver(s) => slots_set(&mut s.game_state.potions, slot, None),
        FloorState::Shop(s) => slots_set(&mut s.game_state.potions, slot, None),
        FloorState::OnMap(s) => slots_set(&mut s.potions, slot, None),
        _ => vstd::pervasive::unreached(),
    }
}

/// Whether the potion of a slot can be drunk outside of battle: the slot is on the belt
/// of the run and holds a potion that can be drunk there.
pub open spec fn drink_ready(b: FloorState, slot: usize, potions: Seq<&'static BasePotion>) -> bool {
    &&& !(b is Battle)
    &&& has_game(b)
    &&& slot < slot_items(game_of(b).potions).len()
    &&& slot_reference(slot_items(game_of(b).potions)[slot as int], slot as int) matches Some(r)
    &&& game_of(b).drinkable(r, potions)
}

/// Whether the potion of a slot can be drunk in a battle: the slot is on the belt and
/// holds a potion whose effects can be carried out (see `battle_drink_ready`).
pub open spec fn battle_potion_ready(bs: BattleState, slot: usize, target: Option<MonsterReference>) -> bool {
    &&& slot < slot_items(bs.game_state.potions).len()
    &&& slot_reference(slot_items(bs.game_state.potions)[slot as int], slot as int) matches Some(r)
    &&& battle_drink_ready(bs, r, target)
}

/// Drinks the potion of a slot in a battle; the potion stays in its slot.
fn battle_drink_step(battle: &mut BattleState, slot: usize, target: Option<MonsterReference>)
    requires
        battle_potion_ready(*old(battle), slot, target),
    ensures
        match slot_reference(slot_items(old(battle).game_state.potions)[slot as int], slot as int) {
            Some(r) => battle_drunk(*old(battle), *final(battle), r, target),
            None => false,
        },
{
    let potion = match battle.game_state.potion_at(slot) {
        Some(p) => p,
        None => vstd::pervasive::unreached(),
    };
    battle.drink_potion(potion, target);
}

/// Drinks the potion of a slot outside of battle, with its effect on the run; the
/// potion stays in its slot.
fn drink_step(state: &mut FloorState, slot: usize, probability: &mut Probability, catalog: &[&'static BasePotion])
    requires
        drink_ready(*old(state), slot, catalog@),
    ensures
        match slot_reference(slot_items(game_of(*old(state)).potions)[slot as int], slot as int) {
            Some(r) => has_game(*final(state)) && *final(state) == with_game(*old(state), game_of(*final(state)))
                && potion_drunk(game_of(*old(state)), game_of(*final(state)), r, catalog@, old(probability).factors@, final(probability).factors@),
            None => false,
        },
{
    match state {
        FloorState::Event(s) => {
            let r = s.game_state.potion_at(slot).unwrap();
            s.game_state.drink_potion(r, true, probability, catalog);
        },
        FloorState::Rest(s) => {
            let r = s.game_state.potion_at(slot).unwrap();
            s.game_state.drink_potion(r, true, probability, catalog);
        },
        FloorState::Chest(s) => {
            let r = s.game_state.potion_at(slot).unwrap();
            s.game_state.drink_potion(r, true, probability, catalog);
        },
        FloorState::BattleOver(s) => {
            let r = s.game_state.potion_at(slot).unwrap();
            s.game_state.drink_potion(r, true, probability, catalog);
        },
        FloorState::Shop(s) => {
            let r = s.game_state.potion_at(slot).unwrap();
            s.game_state.drink_potion(r, true, probability, catalog);
        },
        FloorState::OnMap(g) => {
            let r = g.potion_at(slot).unwrap();
            g.drink_potion(r, true, probability, catalog);
        },
        _ => {},
    }
}

// ---- a rest site ----
/// How much resting heals: three tenths of the maximum, rounded up, and 15 more with the
/// Regal Pillow.
pub open spec fn rest_heal(g: GameState) -> int {
    (3 * g.hp.max + 9) / 10 + (if g.relics.has("Regal Pillow"@) { 15int } else { 0 })
}

/// The run after resting.
pub open spec fn rested(g: GameState) -> GameState {
    GameState { hp: g.heal_spec(g.hp, rest_heal(g)), ..g }
}

/// Whether resting can be done: healing fits, and with the Dream Catcher its cards can
/// be drawn.
pub open spec fn rest_ok(g: GameState, catalog: Seq<&'static BaseCard>) -> bool {
    &&& g.hp.amount + rest_heal(g) <= u16::MAX
    &&& g.relics.has("Dream Catcher"@) ==> card_rewards_drawable(rested(g), None, false, catalog)
}

/// Whether `r2` is the rest site after resting at `r`: healed; with the Dream Catcher,
/// dreaming of the cards drawn, else going on.
pub open spec fn rest_taken(r: RestState, r2: RestState, fb: Seq<(u64, u64)>, fa: Seq<(u64, u64)>, catalog: Seq<&'static BaseCard>) -> bool {
    let g = rested(r.game_state);
    if r.game_state.relics.has("Dream Catcher"@) {
        &&& r2.game_state == (GameState { rare_probability_offset: r2.game_state.rare_probability_offset, ..g })
        &&& match r2.screen_state {
            RestScreenState::DreamCatch(offers) => {
                &&& offer_items(offers).len() == (if g.relics.has("Busted Crown"@) { 1int } else { 2 }) + (if g.relics.has(
                    "Question Card"@,
                ) { 1int } else { 0 })
                &&& forall|j: int| 0 <= j < offer_items(offers).len() ==> catalog.contains((#[trigger] offer_items(offers)[j]).base)
            },
            _ => false,
        }
    } else {
        r2.game_state == g && r2.screen_state == RestScreenState::Proceed && fa == fb
    }
}

/// Rests at a rest site.
fn rest_step(rest: &mut RestState, probability: &mut Probability, catalog: &[&'static BaseCard])
    requires
        rest_ok(old(rest).game_state, catalog@),
    ensures
        rest_taken(*old(rest), *final(rest), old(probability).factors@, final(probability).factors@, catalog@),
{
    let max = rest.game_state.hp.max as u32;
    let mut amount: u32 = (3 * max + 9) / 10;
    if rest.game_state.relics.contains("Regal Pillow") {
        amount = amount + 15;
    }
    rest.game_state.heal(amount as u16);
    if rest.game_state.relics.contains("Dream Catcher") {
        let offers = rest.game_state.generate_card_rewards(None, false, probability, catalog);
        rest.screen_state = RestScreenState::DreamCatch(offers);
    } else {
        rest.screen_state = RestScreenState::Proceed;
    }
}

/// The run after lifting the Girya: its counter one higher.
pub open spec fn lifted(g: GameState, g1: GameState) -> bool {
    let uuid = name_index(g.relics.relic_names)["Girya"@];
    let r = relic_entries(g.relics.relics)[uuid];
    &&& relic_entries(g1.relics.relics) == relic_entries(g.relics.relics).insert(
        uuid,
        Relic { vars: Vars { x: (r.vars.x + 1) as i16, ..r.vars }, ..r },
    )
    &&& g1 == (GameState { relics: Relics { relics: g1.relics.relics, ..g.relics }, ..g })
}

/// Lifts the Girya, which the run must have, below the top of its counter.
fn lift_step(game: &mut GameState)
    requires
        old(game).relics.find_spec("Girya"@) matches Some(r) && r.vars.x < i16::MAX,
    ensures
        lifted(*old(game), *final(game)),
{
    match name_index_get(&game.relics.relic_names, "Girya") {
        Some(uuid) => match relic_map_get(&game.relics.relics, uuid) {
            Some(relic) => {
                let mut relic = relic;
                relic.vars.x = relic.vars.x + 1;
                relic_map_insert(&mut game.relics.relics, uuid, relic);
            },
            None => vstd::pervasive::unreached(),
        },
        None => vstd::pervasive::unreached(),
    }
}

/// Whether `r2` is the rest site after digging at `r`: a relic drawn, shown as the only
/// reward.
pub open spec fn dug(r: RestState, r2: RestState, fb: Seq<(u64, u64)>, fa: Seq<(u64, u64)>, catalog: Seq<&'static BaseRelic>) -> bool {
    match r2.screen_state {
        RestScreenState::Dig(rewards) => exists|relic: &'static BaseRelic| {
            &&& #[trigger] r.game_state.relic_drawn(r2.game_state, None, None, false, catalog, relic, fb, fa)
            &&& reward_items(rewards.rewards) == seq![Reward::Relic(relic)]
            &&& rewards.viewing_reward is None
            &&& rewards.deck_operation is None
        },
        _ => false,
    }
}

/// Digs at a rest site with the Shovel.
fn dig_step(rest: &mut RestState, probability: &mut Probability, catalog: &[&'static BaseRelic])
    requires
        old(rest).game_state.relics_drawable(catalog@, None, None, false),
    ensures
        dug(*old(rest), *final(rest), old(probability).factors@, final(probability).factors@, catalog@),
{
    let ghost f0 = probability.factors@;
    let ghost g0 = rest.game_state;
    let relic = rest.game_state.random_relic(None, None, false, probability, catalog);
    let found = vec![Reward::Relic(relic)];
    assert(found@ =~= seq![Reward::Relic(relic)]);
    let rewards = rewards_from(found);
    rest.screen_state = RestScreenState::Dig(RewardState { rewards, viewing_reward: None, deck_operation: None });
    proof {
        assert(g0.relic_drawn(rest.game_state, None, None, false, catalog@, relic, f0, probability.factors@));
    }
}

/// Whether `s1` is the shop after removing a card of the deck for the purge cost.
pub open spec fn purged(s0: ShopState, s1: ShopState, card: DeckCard) -> bool {
    &&& s1.game_state.gold == s0.game_state.gold - s0.purge_cost_spec()
    &&& deck_cards(s1.game_state.deck) == deck_cards(s0.game_state.deck).remove(card.uuid)
    &&& s1.game_state.purge_count == s0.game_state.purge_count + 1
    &&& s1.game_state.relics == (Relics { relics: s1.game_state.relics.relics, ..s0.game_state.relics })
    &&& s1.game_state == (GameState {
        gold: s1.game_state.gold,
        relics: s1.game_state.relics,
        deck: s1.game_state.deck,
        purge_count: s1.game_state.purge_count,
        ..s0.game_state
    })
    &&& s1 == (ShopState { game_state: s1.game_state, can_purge: false, ..s0 })
}

// ---- the shop ----
/// Whether the card offer at an index can be bought (see `ShopState::buy_card`).
pub open spec fn card_buyable(s: ShopState, index: int, catalog: Seq<&'static BaseCard>) -> bool {
    &&& 0 <= index < crate::state::collections::store_cards(s.cards).len()
    &&& {
        let (offer, cost) = crate::state::collections::store_cards(s.cards)[index];
        &&& s.game_state.gold >= cost
        &&& s.game_state.relics.has("The Courier"@) ==> s.sellable(s.shop_pool(catalog, offer.base._type, None))
        &&& has_known_cost(*offer.base)
        &&& is_plain_condition(offer.base.retain)
        &&& s.game_state.card_kind_addable(offer.base)
    }
}

/// Whether the potion at an index can be bought (see `ShopState::buy_potion`).
pub open spec fn potion_buyable(s: ShopState, index: int, catalog: Seq<&'static BasePotion>) -> bool {
    &&& 0 <= index < crate::state::collections::store_potions(s.potions).len()
    &&& s.game_state.gold >= crate::state::collections::store_potions(s.potions)[index].1
    &&& s.game_state.relics.has("The Courier"@) ==> crate::state::game::potions_drawable(catalog, false)
}

/// Whether the relic at an index can be bought (see `ShopState::buy_relic`).
pub open spec fn relic_buyable(s: ShopState, index: int, relics: Seq<&'static BaseRelic>, potions: Seq<&'static BasePotion>) -> bool {
    &&& 0 <= index < crate::state::collections::store_relics(s.relics).len()
    &&& {
        let (relic, cost) = crate::state::collections::store_relics(s.relics)[index];
        &&& s.game_state.gold >= cost
        &&& s.game_state.relics.has("The Courier"@) ==> s.game_state.relics_drawable(relics, None, None, true)
        &&& s.game_state.relic_takeable(relic)
        &&& relic.name@ == "Cauldron"@ ==> crate::state::game::potions_drawable(potions, false)
    }
}

/// Whether `s1` is the shop after buying the relic at an index of `s0` (see
/// `ShopState::buy_relic`).
pub open spec fn relic_purchased(
    s0: ShopState,
    s1: ShopState,
    index: int,
    relics: Seq<&'static BaseRelic>,
    potions: Seq<&'static BasePotion>,
    fb: Seq<(u64, u64)>,
) -> bool {
    &&& screen_after_relic(crate::state::collections::store_relics(s0.relics)[index].0.name@, s0.screen_state, s1.screen_state, potions)
    &&& exists|mid: GameState, fm: Seq<(u64, u64)>, fr: Seq<(u64, u64)>, g2: GameState|
        #[trigger] relic_bought(s0, s1, index, relics, fb, g2, mid, fm, fr)
    &&& s1.generated == s0.generated
    &&& s1.updated == s0.updated
    &&& s1.cards == s0.cards
    &&& s1.potions == s0.potions
    &&& s1.can_purge == s0.can_purge
}

// ---- a choice ----
/// Whether what a choice does can be foretold in a state: the choice is one that this
/// library carries out (see `predicted`), the state is not a battle that is over unless
/// a run is begun, and the choice's own conditions hold.
pub open spec fn predictable(
    choice: ChoiceView,
    b: FloorState,
    cards: Seq<&'static BaseCard>,
    relics: Seq<&'static BaseRelic>,
    potions: Seq<&'static BasePotion>,
    events: Seq<&'static BaseEvent>,
    buffs: Seq<&'static BaseBuff>,
) -> bool {
    &&& (choice is Start || !(b matches FloorState::Battle(bs) && bs.battle_over))
    &&& match choice {
        ChoiceView::Start { player_class, ascension } => start_ready(player_class, ascension_of(ascension), cards, relics, events),
        ChoiceView::WishGold => match b {
            FloorState::Battle(bs) => bs.wish > 0 && gold_gainable(bs.game_state, 25),
            _ => false,
        },
        ChoiceView::WishPlated => wish_buff_ready(b, buffs, "Plated Armor"@, 6),
        ChoiceView::WishStrength => wish_buff_ready(b, buffs, "Strength"@, 3),
        ChoiceView::DrinkPotion { slot, target } => match b {
            FloorState::Battle(bs) => battle_potion_ready(bs, slot, target),
            _ => drink_ready(b, slot, potions),
        },
        ChoiceView::SelectCards(refs) => select_ready(b, refs),
        ChoiceView::StanceCalm => b is Battle,
        ChoiceView::StanceWrath => match b {
            FloorState::Battle(bs) => bs.stance == Stance::Wrath || ((rushdown_of(bs.player) as u8) == 0
                && (bs.stance == Stance::Calm ==> bs.energy + 3 <= u8::MAX)),
            _ => false,
        },
        ChoiceView::State | ChoiceView::Smith => true,
        ChoiceView::DiscardPotion { slot } => has_game(b) && slot < slot_items(game_of(b).potions).len(),
        ChoiceView::Toke => b is Rest,
        ChoiceView::Recall => match b {
            FloorState::Rest(r) => r.game_state.keys is Some,
            _ => false,
        },
        ChoiceView::Lift => match b {
            FloorState::Rest(r) => r.game_state.relics.find_spec("Girya"@) matches Some(g) && g.vars.x < i16::MAX,
            _ => false,
        },
        ChoiceView::Rest => match b {
            FloorState::Rest(r) => rest_ok(r.game_state, cards),
            _ => false,
        },
        ChoiceView::Dig => match b {
            FloorState::Rest(r) => r.game_state.relics_drawable(relics, None, None, false),
            _ => false,
        },
        ChoiceView::Skip => reward_screen_ok(b, false),
        ChoiceView::SingingBowl => reward_screen_ok(b, true) && has_game(b) && bowl_ok(game_of(b)),
        ChoiceView::AddCardToDeck(name) => reward_screen_ok(b, true) && has_game(b) && name_addable(game_of(b), name, cards),
        ChoiceView::TakeReward(i) => match rewards_of(b) {
            Some(r) => reward_takeable(r, game_of(b), i as int, cards),
            None => false,
        },
        ChoiceView::BuyCard(i) => match b {
            FloorState::Shop(s) => card_buyable(s, i as int, cards),
            _ => false,
        },
        ChoiceView::BuyPotion(i) => match b {
            FloorState::Shop(s) => potion_buyable(s, i as int, potions),
            _ => false,
        },
        ChoiceView::BuyRelic(i) => match b {
            FloorState::Shop(s) => relic_buyable(s, i as int, relics, potions),
            _ => false,
        },
        ChoiceView::BuyRemoveCard(_) => match b {
            FloorState::Shop(s) => s.purge_priceable() && s.game_state.purge_count < u8::MAX && s.game_state.gold >= s.purge_cost_spec(),
            _ => false,
        },
        ChoiceView::DeckSelect(listed, op) => (b is Rest || b is Event || b is Shop) && deck_select_ok(game_of(b), listed, op, cards),
        ChoiceView::OpenChest => chest_ready(b, cards, relics),
        ChoiceView::EnterShop => match b {
            FloorState::Shop(s) => shop_generable(s, cards, relics, potions),
            _ => false,
        },
        ChoiceView::Proceed => b is Rest || b is Event || b is Shop || b is OnMap || b is BattleOver || (b matches FloorState::Chest(c)
            && c.chest != crate::models::common::ChestType::Boss),
        ChoiceView::NavigateToNode(x) => navigate_ready(b, x),
        ChoiceView::Event(name) => match b {
            FloorState::Event(e) => has_event_choice(e.base.choices@, name) && effects_known(
                e,
                e.base.choices@[first_event_choice(e.base.choices@, name)].effects@,
                cards,
                potions,
                relics,
            ),
            _ => false,
        },
        _ => false,
    }
}

/// The ascension a run is begun at: the one chosen, else zero.
pub open spec fn ascension_of(ascension: Option<u8>) -> u8 {
    match ascension {
        Some(a) => a,
        None => 0,
    }
}

/// Whether a run can be begun as a class at an ascension: the class is a hero, the
/// catalogs hold its starting cards, which can be made, and its starting relic, and
/// the events hold Neow.
pub open spec fn start_ready(
    class: Class,
    asc: u8,
    cards: Seq<&'static BaseCard>,
    relics: Seq<&'static BaseRelic>,
    events: Seq<&'static BaseEvent>,
) -> bool {
    &&& is_hero(class)
    &&& forall|i: int| 0 <= i < starting_deck(class, asc).len() ==> has_card_named(cards, #[trigger] starting_deck(class, asc)[i])
    &&& cards_makeable(cards)
    &&& has_relic_named(relics, starting_relic(class))
    &&& has_event_named(events, "Neow"@)
}

/// Whether `a`, with the factors `fa`, is a run begun as a class at an ascension: the
/// first event named Neow of the catalog, just entered, on a run just begun, with no
/// factors yet.
pub open spec fn run_started(a: FloorState, fa: Seq<(u64, u64)>, class: Class, asc: u8, events: Seq<&'static BaseEvent>) -> bool {
    &&& fa.len() == 0
    &&& a matches FloorState::Event(e)
    &&& exists|i: int|
        0 <= i < events.len() && events[i] == e.base && forall|j: int|
            0 <= j < i ==> (#[trigger] events[j]).name@ != "Neow"@
    &&& e.base.name@ == "Neow"@
    &&& starts_run(e.game_state, class, asc)
    &&& e.vars == Vars::new_spec()
    &&& e.variant is None
    &&& e.variant_cards@.len() == 0
    &&& e.variant_relics@.len() == 0
    &&& e.variant_amount is None
    &&& names_of(e.available_choices@) == initial_choices(*e.base)
    &&& e.screen_state is None
}

/// Whether gold can be gained in a run without overflow, nor overflow of the hit
/// points that the Bloody Idol heals.
pub open spec fn gold_gainable(g: GameState, amount: int) -> bool {
    !g.relics.has("Ectoplasm"@) ==> g.gold + amount <= u16::MAX && (g.relics.has("Bloody Idol"@) ==> g.hp.amount + 5 <= u16::MAX)
}

/// Whether `bf` is the first buff of a name in a catalog.
pub open spec fn first_buff_named(buffs: Seq<&'static BaseBuff>, name: Seq<char>, bf: &'static BaseBuff) -> bool {
    exists|i: int|
        0 <= i < buffs.len() && buffs[i] == bf && bf.name@ == name && forall|j: int|
            0 <= j < i ==> (#[trigger] buffs[j]).name@ != name
}

/// Whether a wish for a buff can be granted: a wish is left in the battle, the catalog
/// holds the buff, and the player can take that much of it.
pub open spec fn wish_buff_ready(b: FloorState, buffs: Seq<&'static BaseBuff>, name: Seq<char>, amount: i16) -> bool {
    match b {
        FloorState::Battle(bs) => {
            &&& bs.wish > 0
            &&& has_buff_named(buffs, name)
            &&& forall|bf: &'static BaseBuff| #[trigger] first_buff_named(buffs, name, bf) ==> bs.player.buff_addable(bf, amount)
        },
        _ => false,
    }
}

/// Whether `a` is the battle `b` after a wish for a buff: the player has gained that
/// much of the first buff of the name, and one wish fewer is left.
pub open spec fn wish_buff_taken(b: FloorState, a: FloorState, buffs: Seq<&'static BaseBuff>, name: Seq<char>, amount: i16) -> bool {
    match (b, a) {
        (FloorState::Battle(bs), FloorState::Battle(bs2)) => {
            &&& bs2 == (BattleState { player: bs2.player, wish: (bs.wish - 1) as u8, ..bs })
            &&& exists|bf: &'static BaseBuff| #[trigger] first_buff_named(buffs, name, bf) && buff_added(bs.player, bs2.player, bf, amount)
        },
        _ => false,
    }
}

/// The counter of the first Rushdown buff of a creature, or zero where it has none.
pub open spec fn rushdown_of(c: Creature) -> i16 {
    if exists|i: int| is_first_of_kind(c.buffs@, "Rushdown"@, i) {
        c.buffs@[choose|i: int| is_first_of_kind(c.buffs@, "Rushdown"@, i)].vars.x
    } else {
        0
    }
}

/// The energy after the potion of stance choice enters Wrath: leaving Calm gives three
/// energy, or two with the Violet Lotus; the stance itself is left as it was, and the
/// cards that Rushdown would draw are none.
pub open spec fn wrath_energy(bs: BattleState) -> u8 {
    if bs.stance != Stance::Wrath && bs.stance == Stance::Calm {
        (bs.energy + (if bs.game_state.relics.has("Violet Lotus"@) { 2int } else { 3int })) as u8
    } else {
        bs.energy
    }
}

/// Whether `i` is the first choice of an event with the given name.
pub open spec fn is_first_choice(choices: Seq<BaseEventChoice>, name: Seq<char>, i: int) -> bool {
    &&& 0 <= i < choices.len()
    &&& choices[i].name@ == name
    &&& forall|j: int| 0 <= j < i ==> (#[trigger] choices[j]).name@ != name
}

/// Whether an event offers a choice of the given name.
pub open spec fn has_event_choice(choices: Seq<BaseEventChoice>, name: Seq<char>) -> bool {
    exists|i: int| is_first_choice(choices, name, i)
}

/// The position of the first choice of an event with the given name.
pub open spec fn first_event_choice(choices: Seq<BaseEventChoice>, name: Seq<char>) -> int {
    choose|i: int| is_first_choice(choices, name, i)
}

/// Whether `a`, with `fa`, is the event `b`, with `fb`, after its first choice of the
/// given name: left for the map where the choice has no effects, else with its effects
/// applied one after the other.
pub open spec fn event_chosen(
    b: FloorState,
    a: FloorState,
    name: Seq<char>,
    fb: Seq<(u64, u64)>,
    fa: Seq<(u64, u64)>,
    cards: Seq<&'static BaseCard>,
    potions: Seq<&'static BasePotion>,
    relics: Seq<&'static BaseRelic>,
) -> bool {
    match b {
        FloorState::Event(e) => {
            let effects = e.base.choices@[first_event_choice(e.base.choices@, name)].effects@;
            if effects.len() == 0 {
                fa == fb && a == FloorState::OnMap(e.game_state)
            } else {
                a matches FloorState::Event(e2) && effects_applied(e, e2, effects, cards, potions, relics, fb, fa)
            }
        },
        _ => false,
    }
}

/// Whether `a`, with the factors `fa`, is what a choice makes of `b`, with `fb`:
/// a run begun at Neow; gold or a buff wished for in a battle; cards chosen in a battle
/// given the choice's effects; Calm or Wrath chosen
/// from the potion of stance choice; a potion drunk, in battle or outside; nothing for the
/// state; a slot emptied; smithing or toking chosen at a rest site;
/// the ruby key taken, the Girya lifted, resting or digging there; a reward skipped,
/// traded for the Singing Bowl, its card taken, or a reward taken; a card, potion or
/// relic bought, or a card removed, at a shop; cards of the deck copied, removed,
/// upgraded, bottled or transformed; a chest opened; a shop entered; the floor left for
/// the map; a node of the map gone to; a choice made in an event.
pub open spec fn predicted(
    choice: ChoiceView,
    b: FloorState,
    a: FloorState,
    fb: Seq<(u64, u64)>,
    fa: Seq<(u64, u64)>,
    cards: Seq<&'static BaseCard>,
    relics: Seq<&'static BaseRelic>,
    potions: Seq<&'static BasePotion>,
    events: Seq<&'static BaseEvent>,
    buffs: Seq<&'static BaseBuff>,
) -> bool {
    match choice {
        ChoiceView::Start { player_class, ascension } => run_started(a, fa, player_class, ascension_of(ascension), events),
        ChoiceView::WishGold => fa == fb && match b {
            FloorState::Battle(bs) => a == FloorState::Battle(
                BattleState { game_state: bs.game_state.add_gold_spec(25), wish: (bs.wish - 1) as u8, ..bs },
            ),
            _ => false,
        },
        ChoiceView::WishPlated => fa == fb && wish_buff_taken(b, a, buffs, "Plated Armor"@, 6),
        ChoiceView::WishStrength => fa == fb && wish_buff_taken(b, a, buffs, "Strength"@, 3),
        ChoiceView::DrinkPotion { slot, target } => match slot_reference(slot_items(game_of(b).potions)[slot as int], slot as int) {
            Some(r) => match b {
                FloorState::Battle(bs) => fa == fb && (a matches FloorState::Battle(bs2) && battle_drunk(bs, bs2, r, target)),
                _ => has_game(a) && a == with_game(b, game_of(a)) && potion_drunk(game_of(b), game_of(a), r, potions, fb, fa),
            },
            None => false,
        },
        ChoiceView::SelectCards(refs) => fa == fb && select_done(b, a, refs),
        ChoiceView::StanceCalm => fa == fb && match b {
            FloorState::Battle(bs) => a == FloorState::Battle(BattleState { stance_pot: false, ..bs }),
            _ => false,
        },
        ChoiceView::StanceWrath => fa == fb && match b {
            FloorState::Battle(bs) => a == FloorState::Battle(BattleState { energy: wrath_energy(bs), stance_pot: false, ..bs }),
            _ => false,
        },
        ChoiceView::State => a == b && fa == fb,
        ChoiceView::DiscardPotion { slot } => {
            &&& has_game(a)
            &&& slot_items(game_of(a).potions) == slot_items(game_of(b).potions).update(slot as int, None)
            &&& a == with_game(b, GameState { potions: game_of(a).potions, ..game_of(b) })
            &&& fa == fb
        },
        ChoiceView::Smith => fa == fb && match b {
            FloorState::Rest(r) => a == FloorState::Rest(RestState { screen_state: RestScreenState::Smith, ..r }),
            _ => a == b,
        },
        ChoiceView::Toke => fa == fb && match b {
            FloorState::Rest(r) => a == FloorState::Rest(RestState { screen_state: RestScreenState::Toke, ..r }),
            _ => false,
        },
        ChoiceView::Recall => fa == fb && match b {
            FloorState::Rest(r) => match r.game_state.keys {
                Some(k) => a == FloorState::Rest(RestState {
                    screen_state: RestScreenState::Proceed,
                    game_state: GameState { keys: Some(KeyState { ruby: true, ..k }), ..r.game_state },
                }),
                None => false,
            },
            _ => false,
        },
        ChoiceView::Lift => fa == fb && match (b, a) {
            (FloorState::Rest(r), FloorState::Rest(r2)) => r2.screen_state == RestScreenState::Proceed && lifted(r.game_state, r2.game_state),
            _ => false,
        },
        ChoiceView::Rest => match (b, a) {
            (FloorState::Rest(r), FloorState::Rest(r2)) => rest_taken(r, r2, fb, fa, cards),
            _ => false,
        },
        ChoiceView::Dig => match (b, a) {
            (FloorState::Rest(r), FloorState::Rest(r2)) => dug(r, r2, fb, fa, relics),
            _ => false,
        },
        ChoiceView::Skip => fa == fb && reward_screen_step(b, a, game_kept(), false),
        ChoiceView::SingingBowl => fa == fb && reward_screen_step(b, a, game_bowl(), true),
        ChoiceView::AddCardToDeck(name) => fa == fb && reward_screen_step(b, a, game_card(name, cards), true),
        ChoiceView::TakeReward(i) => reward_step(b, a, i as int, fb, fa, cards),
        ChoiceView::BuyCard(i) => match (b, a) {
            (FloorState::Shop(s0), FloorState::Shop(s1)) => card_bought(s0, s1, i as int, cards, fb, fa),
            _ => false,
        },
        ChoiceView::BuyPotion(i) => match (b, a) {
            (FloorState::Shop(s0), FloorState::Shop(s1)) => potion_bought(s0, s1, i as int, potions, fb, fa),
            _ => false,
        },
        ChoiceView::BuyRelic(i) => match (b, a) {
            (FloorState::Shop(s0), FloorState::Shop(s1)) => relic_purchased(s0, s1, i as int, relics, potions, fb),
            _ => false,
        },
        ChoiceView::BuyRemoveCard(card) => fa == fb && match (b, a) {
            (FloorState::Shop(s0), FloorState::Shop(s1)) => purged(s0, s1, card),
            _ => false,
        },
        ChoiceView::DeckSelect(listed, op) => deck_select_done(b, a, listed, op, cards, fb, fa),
        ChoiceView::OpenChest => chest_opened(b, a, fb, fa, cards, relics),
        ChoiceView::EnterShop => shop_entered(b, a, fb, fa, cards, relics, potions),
        ChoiceView::Proceed => fa == fb && a == FloorState::OnMap(game_of(b)),
        ChoiceView::NavigateToNode(x) => navigated(b, a, x, fb, fa),
        ChoiceView::Event(name) => event_chosen(b, a, name, fb, fa, cards, potions, relics),
        _ => false,
    }
}

/// Carries out an operation on the listed cards of the deck, then goes on: at a rest
/// site, to leave it; in an event, to its choices; in a shop, back to the shop.
fn deck_select_step(
    state: &mut FloorState,
    cards: &Vec<DeckCard>,
    op: DeckOperation,
    probability: &mut Probability,
    catalog: &[&'static BaseCard],
)
    requires
        *old(state) is Rest || *old(state) is Event || *old(state) is Shop,
        deck_select_ok(game_of(*old(state)), cards@, op, catalog@),
    ensures
        deck_select_done(*old(state), *final(state), cards@, op, catalog@, old(probability).factors@, final(probability).factors@),
{
    match state {
        FloorState::Rest(rest) => {
            deck_select_op(&mut rest.game_state, cards, op, probability, catalog);
            rest.screen_state = RestScreenState::Proceed;
        },
        FloorState::Event(event) => {
            deck_select_op(&mut event.game_state, cards, op, probability, catalog);
            event.screen_state = None;
        },
        FloorState::Shop(shop) => {
            deck_select_op(&mut shop.game_state, cards, op, probability, catalog);
            shop.screen_state = ShopScreenState::InShop;
        },
        _ => vstd::pervasive::unreached(),
    }
}

/// Carries out an operation on the listed cards of the deck: a transform, or one of the
/// others.
fn deck_select_op(
    game: &mut GameState,
    cards: &Vec<DeckCard>,
    op: DeckOperation,
    probability: &mut Probability,
    catalog: &[&'static BaseCard],
)
    requires
        deck_select_ok(*old(game), cards@, op, catalog@),
    ensures
        deck_selected(*old(game), *final(game), cards@, op, catalog@, old(probability).factors@, final(probability).factors@),
{
    if op == DeckOperation::Transform || op == DeckOperation::TransformUpgrade {
        transform_op(game, cards, op == DeckOperation::TransformUpgrade, probability, catalog);
    } else {
        deck_op(game, cards, op);
    }
}

/// Whether the listed cards can go through an operation on the deck: a transform, or
/// one of the others (see `deck_op_ok`).
pub open spec fn deck_select_ok(g: GameState, listed: Seq<DeckCard>, op: DeckOperation, catalog: Seq<&'static BaseCard>) -> bool {
    if op is Transform || op is TransformUpgrade {
        transform_ok(g, listed, catalog, op is TransformUpgrade)
    } else {
        deck_op_ok(g, listed, op)
    }
}

/// Whether `g1`, with `fa`, is the run `g0`, with `fb`, after an operation on the listed
/// cards of the deck: transformed, or operated on as `deck_operated` says, with no draw.
pub open spec fn deck_selected(
    g0: GameState,
    g1: GameState,
    listed: Seq<DeckCard>,
    op: DeckOperation,
    catalog: Seq<&'static BaseCard>,
    fb: Seq<(u64, u64)>,
    fa: Seq<(u64, u64)>,
) -> bool {
    if op is Transform || op is TransformUpgrade {
        transformed(g0, g1, listed, catalog, op is TransformUpgrade, fb, fa)
    } else {
        fa == fb && deck_operated(g0, g1, listed, op)
    }
}

/// Whether `a`, with `fa`, is the floor `b`, with `fb`, after an operation on the listed
/// cards of the deck, going on: at a rest site, to leave it; in an event, to its
/// choices; in a shop, back to the shop.
pub open spec fn deck_select_done(
    b: FloorState,
    a: FloorState,
    listed: Seq<DeckCard>,
    op: DeckOperation,
    catalog: Seq<&'static BaseCard>,
    fb: Seq<(u64, u64)>,
    fa: Seq<(u64, u64)>,
) -> bool {
    match (b, a) {
        (FloorState::Rest(r), FloorState::Rest(r2)) => r2.screen_state == RestScreenState::Proceed && deck_selected(
            r.game_state,
            r2.game_state,
            listed,
            op,
            catalog,
            fb,
            fa,
        ),
        (FloorState::Event(e), FloorState::Event(e2)) => e2 == (EventState { game_state: e2.game_state, screen_state: None, ..e })
            && deck_selected(e.game_state, e2.game_state, listed, op, catalog, fb, fa),
        (FloorState::Shop(s0), FloorState::Shop(s1)) => s1 == (ShopState {
            game_state: s1.game_state,
            screen_state: ShopScreenState::InShop,
            ..s0
        }) && deck_selected(s0.game_state, s1.game_state, listed, op, catalog, fb, fa),
        _ => false,
    }
}

// ---- transforming cards ----
/// The kinds of card that a listed card may become: those of the catalog that its class
/// can be offered, but its own by name.
pub open spec fn transform_pool(catalog: Seq<&'static BaseCard>, c: DeckCard) -> Seq<&'static BaseCard> {
    class_pool(catalog, c.base._class).filter(|b: &'static BaseCard| b.name@ != c.base.name@)
}

/// The kinds each listed card may become, in order.
pub open spec fn transform_pools(catalog: Seq<&'static BaseCard>, listed: Seq<DeckCard>) -> Seq<Seq<&'static BaseCard>> {
    listed.map_values(|c: DeckCard| transform_pool(catalog, c))
}

/// Whether `c` is a new card of a kind, as `Card::new` makes it, upgraded where asked.
pub open spec fn new_card_of(c: Card, upgrade: bool) -> bool {
    let plain = Card {
        base: c.base,
        uuid: c.uuid,
        cost: starting_cost(*c.base),
        base_cost: starting_cost(*c.base),
        cost_until_played: false,
        retain: c.base.retain is Always,
        vars: Vars::new_spec(),
        upgrades: 0,
        bottled: false,
    };
    if upgrade {
        upgrade_of(plain, c)
    } else {
        c == plain
    }
}

/// Whether `g1`, with `fa`, is `g0`, with `fb`, with a new card added for each list of
/// kinds in turn: a kind drawn evenly from the list, made new and upgraded where asked.
pub open spec fn cards_drawn_in(
    g0: GameState,
    g1: GameState,
    pools: Seq<Seq<&'static BaseCard>>,
    upgrade: bool,
    fb: Seq<(u64, u64)>,
    fa: Seq<(u64, u64)>,
) -> bool
    decreases pools.len(),
{
    if pools.len() == 0 {
        g1 == g0 && fa == fb
    } else {
        exists|gm: GameState, fm: Seq<(u64, u64)>, c: Card| {
            &&& #[trigger] gm.card_added(g1, c)
            &&& cards_drawn_in(g0, gm, pools.drop_last(), upgrade, fb, fm)
            &&& new_card_of(c, upgrade)
            &&& pools.last().contains(c.base)
            &&& fa == #[trigger] fm.push((1u64, pools.last().len() as u64))
        }
    }
}

/// One more card drawn and added.
proof fn lemma_drawn_step(
    g0: GameState,
    gm: GameState,
    g1: GameState,
    pools: Seq<Seq<&'static BaseCard>>,
    upgrade: bool,
    fb: Seq<(u64, u64)>,
    fm: Seq<(u64, u64)>,
    fa: Seq<(u64, u64)>,
    c: Card,
)
    requires
        pools.len() > 0,
        gm.card_added(g1, c),
        cards_drawn_in(g0, gm, pools.drop_last(), upgrade, fb, fm),
        new_card_of(c, upgrade),
        pools.last().contains(c.base),
        fa == fm.push((1u64, pools.last().len() as u64)),
    ensures
        cards_drawn_in(g0, g1, pools, upgrade, fb, fa),
{
}

/// Whether `g1`, with `fa`, is `g0`, with `fb`, after transforming the listed cards:
/// all of them taken out of the deck, then for each in turn a new card of a kind drawn
/// from those it may become, upgraded where asked, added to the deck.
pub open spec fn transformed(
    g0: GameState,
    g1: GameState,
    listed: Seq<DeckCard>,
    catalog: Seq<&'static BaseCard>,
    upgrade: bool,
    fb: Seq<(u64, u64)>,
    fa: Seq<(u64, u64)>,
) -> bool {
    exists|gr: GameState| {
        &&& #[trigger] deck_cards(gr.deck) == removed_all(deck_cards(g0.deck), listed)
        &&& gr == (GameState { deck: gr.deck, ..g0 })
        &&& cards_drawn_in(gr, g1, transform_pools(catalog, listed), upgrade, fb, fa)
    }
}

/// Whether the listed cards can be transformed: they are in the deck, each once; each
/// may become some kind; the catalog's cards can be made new, and upgraded where asked;
/// and the hit points and gold that adding the new cards may bring fit.
pub open spec fn transform_ok(g: GameState, listed: Seq<DeckCard>, catalog: Seq<&'static BaseCard>, upgrade: bool) -> bool {
    let d = deck_cards(g.deck);
    let n = listed.len();
    &&& forall|i: int| 0 <= i < n ==> d.contains_key(#[trigger] listed[i].uuid)
    &&& forall|i: int, j: int| 0 <= i < j < n ==> (#[trigger] listed[i]).uuid != (#[trigger] listed[j]).uuid
    &&& forall|i: int| 0 <= i < n ==> transform_pool(catalog, #[trigger] listed[i]).len() > 0
    &&& crate::state::game::cards_makeable(catalog)
    &&& forall|i: int| 0 <= i < catalog.len() ==> (#[trigger] catalog[i])._type != CardType::All
    &&& upgrade ==> forall|i: int| 0 <= i < catalog.len() ==> ((#[trigger] catalog[i]).cost matches Amount::Upgradable { amount, upgraded }
        ==> (upgraded as u8) <= (amount as u8))
    &&& g.hp.max + 6 * n <= u16::MAX
    &&& g.hp.amount + 11 * n <= u16::MAX
    &&& g.gold + 9 * n <= u16::MAX
}

/// The kinds of card that a listed card may become.
fn transform_pool_of(catalog: &[&'static BaseCard], c: DeckCard) -> (res: Vec<&'static BaseCard>)
    ensures
        res@ == transform_pool(catalog@, c),
{
    let pool = available_cards_by_class(catalog, c.base._class);
    let ghost pred = |b: &'static BaseCard| b.name@ != c.base.name@;
    let mut res: Vec<&'static BaseCard> = Vec::new();
    let mut i: usize = 0;
    while i < pool.len()
        invariant
            0 <= i <= pool@.len(),
            pred == (|b: &'static BaseCard| b.name@ != c.base.name@),
            res@ == pool@.take(i as int).filter(pred),
        decreases pool@.len() - i,
    {
        if !str_eq(pool[i].name.as_str(), c.base.name.as_str()) {
            res.push(pool[i]);
        }
        proof {
            assert(pool@.take(i + 1).drop_last() =~= pool@.take(i as int));
            assert(pool@.take(i + 1).last() == pool@[i as int]);
            reveal_with_fuel(Seq::<_>::filter, 1);
        }
        i = i + 1;
    }
    proof {
        assert(pool@.take(pool@.len() as int) =~= pool@);
    }
    res
}

/// Transforms the listed cards: takes them all out of the deck, then for each in turn
/// adds a new card of a kind drawn from those it may become, upgraded where asked.
fn transform_op(game: &mut GameState, cards: &Vec<DeckCard>, upgrade: bool, probability: &mut Probability, catalog: &[&'static BaseCard])
    requires
        transform_ok(*old(game), cards@, catalog@, upgrade),
    ensures
        transformed(*old(game), *final(game), cards@, catalog@, upgrade, old(probability).factors@, final(probability).factors@),
{
    let ghost g0 = *game;
    proof {
        assert(deck_op_ok(*game, cards@, DeckOperation::Remove));
    }
    deck_op(game, cards, DeckOperation::Remove);
    let ghost gr = *game;
    let ghost fr = probability.factors@;
    let ghost pools = transform_pools(catalog@, cards@);
    proof {
        assert(pools.take(0) =~= Seq::<Seq<&'static BaseCard>>::empty());
    }
    let mut i: usize = 0;
    while i < cards.len()
        invariant
            0 <= i <= cards@.len(),
            transform_ok(g0, cards@, catalog@, upgrade),
            pools == transform_pools(catalog@, cards@),
            pools.len() == cards@.len(),
            cards_drawn_in(gr, *game, pools.take(i as int), upgrade, fr, probability.factors@),
            game.relics.relic_names == gr.relics.relic_names,
            game.hp.max <= gr.hp.max + 6 * i,
            game.hp.amount <= gr.hp.amount + 11 * i,
            game.gold <= gr.gold + 9 * i,
            gr.hp == g0.hp,
            gr.gold == g0.gold,
        decreases cards@.len() - i,
    {
        let pool = transform_pool_of(catalog, cards[i]);
        proof {
            assert(pool@ == pools[i as int]);
            assert(transform_pool(catalog@, cards@[i as int]).len() > 0);
        }
        let ghost gm = *game;
        let ghost fm = probability.factors@;
        let base = probability.choose_one(pool).unwrap();
        proof {
            let c = cards@[i as int];
            let in_class = class_pool(catalog@, c.base._class);
            in_class.lemma_filter_contains_rev(|b: &'static BaseCard| b.name@ != c.base.name@, base);
            catalog@.lemma_filter_contains_rev(|b: &'static BaseCard| crate::models::cards::available_for_class(*b, c.base._class), base);
            let k = choose|k: int| 0 <= k < catalog@.len() && catalog@[k] == base;
            assert(catalog@[k] == base);
        }
        let mut card = Card::new(base);
        if upgrade {
            card.upgrade();
        }
        game.add_card(card);
        proof {
            let t = pools.take(i + 1);
            assert(t.drop_last() =~= pools.take(i as int));
            assert(t.last() == pools[i as int]);
            assert(new_card_of(card, upgrade));
            lemma_drawn_step(gr, gm, *game, t, upgrade, fr, fm, probability.factors@, card);
        }
        i = i + 1;
    }
    proof {
        assert(pools.take(cards@.len() as int) =~= pools);
        assert(deck_cards(gr.deck) == removed_all(deck_cards(g0.deck), cards@));
    }
}

/// Leaves a floor for the map, with the run it held.
fn proceed_step(state: &mut FloorState)
    requires
        *old(state) is Rest || *old(state) is Event || *old(state) is Shop || *old(state) is OnMap || *old(state) is Chest
            || *old(state) is BattleOver,
    ensures
        *final(state) == FloorState::OnMap(game_of(*old(state))),
{
    let mut before = FloorState::Menu;
    std::mem::swap(&mut before, state);
    let game = match before {
        FloorState::Rest(r) => r.game_state,
        FloorState::Event(e) => e.game_state,
        FloorState::Shop(s) => s.game_state,
        FloorState::OnMap(g) => g,
        FloorState::Chest(c) => c.game_state,
        FloorState::BattleOver(o) => o.game_state,
        _ => vstd::pervasive::unreached(),
    };
    *state = FloorState::OnMap(game);
}

/// Leaves an event for the map, with its run.
fn leave_event_step(state: &mut FloorState)
    requires
        *old(state) is Event,
    ensures
        *final(state) == FloorState::OnMap(game_of(*old(state))),
{
    let mut before = FloorState::Menu;
    std::mem::swap(&mut before, state);
    match before {
        FloorState::Event(event) => *state = FloorState::OnMap(event.game_state),
        _ => vstd::pervasive::unreached(),
    }
}

/// The position of the first choice of an event with the given name.
fn event_choice_index(choices: &Vec<BaseEventChoice>, name: &str) -> (res: usize)
    requires
        has_event_choice(choices@, name@),
    ensures
        is_first_choice(choices@, name@, res as int),
        res as int == first_event_choice(choices@, name@),
{
    let mut i: usize = 0;
    while i < choices.len()
        invariant
            0 <= i <= choices@.len(),
            has_event_choice(choices@, name@),
            forall|j: int| 0 <= j < i ==> (#[trigger] choices@[j]).name@ != name@,
        decreases choices@.len() - i,
    {
        if str_eq(choices[i].name.as_str(), name) {
            proof {
                let k = first_event_choice(choices@, name@);
                assert(is_first_choice(choices@, name@, k));
                if k < i {
                    assert(choices@[k].name@ != name@);
                } else if k > i {
                    assert(choices@[i as int].name@ != name@);
                }
            }
            return i;
        }
        i = i + 1;
    }
    proof {
        let k = choose|k: int| is_first_choice(choices@, name@, k);
        assert(choices@[k].name@ != name@);
    }
    vstd::pervasive::unreached()
}

/// Makes the first choice of an event with the given name: leaves for the map where it
/// has no effects, else applies its effects.
fn event_choice_step(
    state: &mut FloorState,
    name: &str,
    probability: &mut Probability,
    cards: &[&'static BaseCard],
    potions: &[&'static BasePotion],
    relics: &[&'static BaseRelic],
)
    requires
        match *old(state) {
            FloorState::Event(e) => has_event_choice(e.base.choices@, name@) && effects_known(
                e,
                e.base.choices@[first_event_choice(e.base.choices@, name@)].effects@,
                cards@,
                potions@,
                relics@,
            ),
            _ => false,
        },
    ensures
        event_chosen(*old(state), *final(state), name@, old(probability).factors@, final(probability).factors@, cards@, potions@, relics@),
{
    let (base, k) = match &*state {
        FloorState::Event(e) => (e.base, event_choice_index(&e.base.choices, name)),
        _ => vstd::pervasive::unreached(),
    };
    if base.choices[k].effects.len() == 0 {
        leave_event_step(state);
    } else {
        match state {
            FloorState::Event(event) => event.eval_effects(base.choices[k].effects.as_slice(), probability, cards, potions, relics),
            _ => {},
        }
    }
}

// ---- opening a chest ----
/// The chance in a hundred that a chest of the kind holds gold, and the lowest and
/// highest amount of the gold (the highest excluded).
pub open spec fn chest_gold(chest: ChestType) -> (u8, u16, u16) {
    match chest {
        ChestType::Small => (50, 23, 27),
        ChestType::Medium => (35, 45, 55),
        ChestType::Large => (50, 68, 82),
        ChestType::Boss => (0, 0, 0),
    }
}

/// Whether the run holds a Matryoshka that has given fewer than two relics more.
pub open spec fn matryoshka_gives(g: GameState) -> bool {
    g.relics.find_spec("Matryoshka"@) matches Some(r) && r.vars.x < 2
}

/// Whether `g1` is `g` with the `x` counter of its relic of the given name one higher.
pub open spec fn relic_counted(g: GameState, g1: GameState, name: Seq<char>) -> bool {
    let uuid = name_index(g.relics.relic_names)[name];
    let r = relic_entries(g.relics.relics)[uuid];
    &&& relic_entries(g1.relics.relics) == relic_entries(g.relics.relics).insert(
        uuid,
        Relic { vars: Vars { x: (r.vars.x + 1) as i16, ..r.vars }, ..r },
    )
    &&& g1 == (GameState { relics: Relics { relics: g1.relics.relics, ..g.relics }, ..g })
}

/// Raises the `x` counter of the run's relic of the given name, which the run must
/// have, below the top of the counter.
fn count_relic(game: &mut GameState, name: &str)
    requires
        old(game).relics.find_spec(name@) matches Some(r) && r.vars.x < i16::MAX,
    ensures
        relic_counted(*old(game), *final(game), name@),
{
    match name_index_get(&game.relics.relic_names, name) {
        Some(uuid) => match relic_map_get(&game.relics.relics, uuid) {
            Some(relic) => {
                let mut relic = relic;
                relic.vars.x = relic.vars.x + 1;
                relic_map_insert(&mut game.relics.relics, uuid, relic);
            },
            None => vstd::pervasive::unreached(),
        },
        None => vstd::pervasive::unreached(),
    }
}

/// Raising a relic's counter changes which relics can be drawn in no way.
proof fn lemma_counted_draws_alike(g: GameState, g1: GameState, name: Seq<char>, catalog: Seq<&'static BaseRelic>, chest: Option<ChestType>, rarity: Option<Rarity>, in_shop: bool)
    requires
        relic_counted(g, g1, name),
    ensures
        g1.relics_drawable(catalog, chest, rarity, in_shop) == g.relics_drawable(catalog, chest, rarity, in_shop),
        forall|r: Rarity| #[trigger] g1.relic_candidates(catalog, r, in_shop) == g.relic_candidates(catalog, r, in_shop),
{
    assert forall|r: Rarity| #[trigger] g1.relic_candidates(catalog, r, in_shop) == g.relic_candidates(catalog, r, in_shop) by {
        assert((|c: &'static BaseRelic| g1.relic_available(*c, r, in_shop)) =~= (|c: &'static BaseRelic| g.relic_available(*c, r, in_shop)));
    }
}

/// The rewards that a relic drawn from a chest comes as: linked to the sapphire key,
/// beside the key, while the key is still to be taken; else on its own.
pub open spec fn chest_relic_rewards(g: GameState, relic: &'static BaseRelic) -> Seq<Reward> {
    if g.keys matches Some(k) && !k.sapphire {
        seq![Reward::SapphireKey, Reward::SapphireLinkedRelic(relic)]
    } else {
        seq![Reward::Relic(relic)]
    }
}

/// Whether `after` (factors `fa`) is `before` (factors `fb`) with the chest's gold, if
/// it holds any: an amount drawn in its range, last.
pub open spec fn chest_gold_added(chest: ChestType, gold: bool, before: Seq<Reward>, after: Seq<Reward>, fb: Seq<(u64, u64)>, fa: Seq<(u64, u64)>) -> bool {
    let (chance, low, high) = chest_gold(chest);
    if gold {
        exists|amount: u16| {
            &&& low <= amount < high
            &&& #[trigger] before.push(Reward::Gold(amount)) == after
            &&& fa == fb.push((1u64, (high - low) as u64))
        }
    } else {
        after == before && fa == fb
    }
}

/// Whether the run `g2` (factors `fa`) and the rewards are what the Matryoshka adds to
/// a chest from the run `g1` (factors `f2`): its counter raised, a relic drawn for the
/// chest in the same way, first among the rewards, then the gold.
pub open spec fn chest_more(
    g1: GameState,
    g2: GameState,
    chest: ChestType,
    catalog: Seq<&'static BaseRelic>,
    gold: bool,
    first: Seq<Reward>,
    rewards: Seq<Reward>,
    f2: Seq<(u64, u64)>,
    fa: Seq<(u64, u64)>,
) -> bool {
    exists|relic2: &'static BaseRelic, g1m: GameState, f3: Seq<(u64, u64)>| {
        &&& relic_counted(g1, g1m, "Matryoshka"@)
        &&& #[trigger] g1m.relic_drawn(g2, Some(chest), None, false, catalog, relic2, f2, f3)
        &&& chest_gold_added(chest, gold, seq![Reward::Relic(relic2)] + first, rewards, f3, fa)
    }
}

/// Whether the run `g2` (factors `fa`) and the rewards are what opening a chest gives
/// from the run `g` (factors `fb`) when the relic drawn first is `relic`, leaving the
/// run `g1` (factors `f1`), and the chest holds gold exactly when `gold`.
pub open spec fn chest_branch(
    g: GameState,
    g1: GameState,
    g2: GameState,
    chest: ChestType,
    catalog: Seq<&'static BaseRelic>,
    relic: &'static BaseRelic,
    gold: bool,
    rewards: Seq<Reward>,
    fb: Seq<(u64, u64)>,
    f1: Seq<(u64, u64)>,
    fa: Seq<(u64, u64)>,
) -> bool {
    let chance = chest_gold(chest).0;
    let f2 = f1.push(if gold { (chance as u64, 100u64) } else { ((100 - chance) as u64, 100u64) });
    let first = chest_relic_rewards(g1, relic);
    &&& g.relic_drawn(g1, Some(chest), None, false, catalog, relic, fb, f1)
    &&& gold ==> chance > 0
    &&& !gold ==> chance < 100
    &&& if matryoshka_gives(g1) {
        chest_more(g1, g2, chest, catalog, gold, first, rewards, f2, fa)
    } else {
        g2 == g1 && chest_gold_added(chest, gold, first, rewards, f2, fa)
    }
}

/// Whether the run `g2` (factors `fa`) and the rewards are what opening a chest gives
/// from the run `g` (factors `fb`): a relic drawn for the chest, then whether it holds
/// gold, drawn by its chance; a Matryoshka that has given fewer than two relics more
/// counts one more and gives a relic drawn in the same way, first among the rewards;
/// the gold comes last.
pub open spec fn chest_rewarded(
    g: GameState,
    g2: GameState,
    chest: ChestType,
    catalog: Seq<&'static BaseRelic>,
    rewards: Seq<Reward>,
    fb: Seq<(u64, u64)>,
    fa: Seq<(u64, u64)>,
) -> bool {
    exists|relic: &'static BaseRelic, g1: GameState, f1: Seq<(u64, u64)>, gold: bool|
        #[trigger] chest_branch(g, g1, g2, chest, catalog, relic, gold, rewards, fb, f1, fa)
}

/// Whether a chest can be opened from the run: a relic can be drawn for it, and, where
/// the Matryoshka gives one more, again after the first is drawn.
pub open spec fn chest_openable(g: GameState, chest: ChestType, catalog: Seq<&'static BaseRelic>) -> bool {
    &&& g.relics_drawable(catalog, Some(chest), None, false)
    &&& forall|relic: &'static BaseRelic, g1: GameState, fb: Seq<(u64, u64)>, f1: Seq<(u64, u64)>|
        #[trigger] g.relic_drawn(g1, Some(chest), None, false, catalog, relic, fb, f1) && matryoshka_gives(g1)
            ==> g1.relics_drawable(catalog, Some(chest), None, false)
}

/// The rewards of a chest of the given kind (see `chest_rewarded`).
pub fn generate_rewards_chest(
    state: &mut GameState,
    chest_type: ChestType,
    probability: &mut Probability,
    catalog: &[&'static BaseRelic],
) -> (res: im::Vector<Reward>)
    requires
        chest_openable(*old(state), chest_type, catalog@),
    ensures
        chest_rewarded(*old(state), *final(state), chest_type, catalog@, reward_items(res), old(probability).factors@, final(probability).factors@),
        final(state).relics.relic_names == old(state).relics.relic_names,
        final(state).hp == old(state).hp,
        final(state).gold == old(state).gold,
{
    let ghost g0 = *state;
    let ghost f0 = probability.factors@;
    let relic = state.random_relic(Some(chest_type), None, false, probability, catalog);
    let ghost g1 = *state;
    let ghost f1 = probability.factors@;
    assert(g0.relic_drawn(g1, Some(chest_type), None, false, catalog@, relic, f0, f1));
    let (gold_chance, gold_min, gold_max): (u8, u16, u16) = match chest_type {
        ChestType::Small => (50, 23, 27),
        ChestType::Medium => (35, 45, 55),
        ChestType::Large => (50, 68, 82),
        ChestType::Boss => (0, 0, 0),
    };
    let no_gold_chance: u8 = 100 - gold_chance;
    let options: Vec<(bool, u8)> = vec![(true, gold_chance), (false, no_gold_chance)];
    proof {
        reveal_with_fuel(weight_total, 3);
        assert(options@.drop_last().drop_last() =~= Seq::<(bool, u8)>::empty());
        assert(weight_total(options@) == 100);
    }
    let gets_gold = match probability.choose_weighted(options.as_slice()) {
        Some(g) => *g,
        None => vstd::pervasive::unreached(),
    };
    let ghost f2 = probability.factors@;
    proof {
        assert(f2 == f1.push(if gets_gold { (gold_chance as u64, 100u64) } else { ((100 - gold_chance) as u64, 100u64) }));
        assert(gets_gold ==> gold_chance > 0);
        assert(!gets_gold ==> gold_chance < 100);
    }
    let mut rewards: Vec<Reward> = match state.keys {
        Some(k) => if !k.sapphire {
            vec![Reward::SapphireKey, Reward::SapphireLinkedRelic(relic)]
        } else {
            vec![Reward::Relic(relic)]
        },
        None => vec![Reward::Relic(relic)],
    };
    let ghost first = rewards@;
    assert(first == chest_relic_rewards(g1, relic));
    let extra_relic = match state.relics.find("Matryoshka") {
        Some(r) => if r.vars.x < 2 {
            count_relic(state, "Matryoshka");
            true
        } else {
            false
        },
        None => false,
    };
    let ghost g1m = *state;
    let ghost mut second = relic;
    if extra_relic {
        proof {
            lemma_counted_draws_alike(g1, g1m, "Matryoshka"@, catalog@, Some(chest_type), None, false);
        }
        let relic2 = state.random_relic(Some(chest_type), None, false, probability, catalog);
        proof {
            lemma_counted_draws_alike(g1, g1m, "Matryoshka"@, catalog@, Some(chest_type), None, false);
        }
        rewards.insert(0, Reward::Relic(relic2));
        proof {
            second = relic2;
            assert(rewards@ =~= seq![Reward::Relic(relic2)] + first);
            assert(g1m.relic_drawn(*state, Some(chest_type), None, false, catalog@, relic2, f2, probability.factors@));
        }
    }
    let ghost before_gold = rewards@;
    let ghost f3 = probability.factors@;
    if gets_gold {
        let amount = probability.range((gold_max - gold_min) as usize) + gold_min as usize;
        rewards.push(Reward::Gold(amount as u16));
        proof {
            assert(before_gold.push(Reward::Gold(amount as u16)) == rewards@);
        }
    }
    proof {
        assert(chest_gold_added(chest_type, gets_gold, before_gold, rewards@, f3, probability.factors@));
    }
    let res = rewards_from(rewards);
    proof {
        assert(reward_items(res) == rewards@);
        assert(chest_gold(chest_type).0 == gold_chance);
        if extra_relic {
            assert(matryoshka_gives(g1));
            assert(g1m.relic_drawn(*state, Some(chest_type), None, false, catalog@, second, f2, f3));
            assert(chest_more(g1, *state, chest_type, catalog@, gets_gold, first, reward_items(res), f2, probability.factors@));
        } else {
            assert(!matryoshka_gives(g1));
            assert(*state == g1);
        }
        assert(chest_branch(g0, g1, *state, chest_type, catalog@, relic, gets_gold, reward_items(res), f0, f1, probability.factors@));
    }
    res
}

/// Whether a curse can join the run's deck from the catalog: there is one, and each
/// can be made new and added.
pub open spec fn curses_addable(g: GameState, cards: Seq<&'static BaseCard>) -> bool {
    let pool = class_pool(cards, Class::Curse);
    &&& pool.len() > 0
    &&& forall|i: int|
        0 <= i < pool.len() ==> has_known_cost(*(#[trigger] pool[i])) && is_plain_condition(pool[i].retain)
            && g.card_kind_addable(pool[i])
}

/// Whether the floor is a chest that can be opened: its rewards can be drawn, and, with
/// the Cursed Key, a curse can join the deck.
pub open spec fn chest_ready(b: FloorState, cards: Seq<&'static BaseCard>, relics: Seq<&'static BaseRelic>) -> bool {
    match b {
        FloorState::Chest(c) => chest_openable(c.game_state, c.chest, relics) && (c.game_state.relics.has("Cursed Key"@)
            ==> curses_addable(c.game_state, cards)),
        _ => false,
    }
}

/// Whether the run `g3` (factors `fa`) is `g2` (factors `f2`) after the Cursed Key: with
/// it, a new curse drawn out of the curses of the catalog joins the deck.
pub open spec fn cursed_key_curse(g2: GameState, g3: GameState, cards: Seq<&'static BaseCard>, f2: Seq<(u64, u64)>, fa: Seq<(u64, u64)>) -> bool {
    if g2.relics.has("Cursed Key"@) {
        let pool = class_pool(cards, Class::Curse);
        exists|card: Card| {
            &&& pool.contains(card.base)
            &&& card.upgrades == 0
            &&& !card.bottled
            &&& #[trigger] g2.card_added(g3, card)
            &&& fa == f2.push((1u64, pool.len() as u64))
        }
    } else {
        g3 == g2 && fa == f2
    }
}

/// Whether `a` (factors `fa`) is the chest `b` (factors `fb`) opened: its rewards
/// drawn (see `chest_rewarded`) and on screen, none looked at, and then the Cursed
/// Key's curse.
pub open spec fn chest_opened(
    b: FloorState,
    a: FloorState,
    fb: Seq<(u64, u64)>,
    fa: Seq<(u64, u64)>,
    cards: Seq<&'static BaseCard>,
    relics: Seq<&'static BaseRelic>,
) -> bool {
    match (b, a) {
        (FloorState::Chest(c), FloorState::Chest(c2)) => exists|g2: GameState, rewards: Seq<Reward>, f2: Seq<(u64, u64)>| {
            &&& #[trigger] chest_rewarded(c.game_state, g2, c.chest, relics, rewards, fb, f2)
            &&& c2.chest == c.chest
            &&& c2.rewards matches Some(rs) && rs.viewing_reward is None && rs.deck_operation is None
                && reward_items(rs.rewards) == rewards
            &&& cursed_key_curse(g2, c2.game_state, cards, f2, fa)
        },
        _ => false,
    }
}

/// Opens a chest: draws its rewards and puts them on screen; with the Cursed Key, a
/// curse drawn out of the catalog's curses joins the deck first.
fn open_chest_step(state: &mut FloorState, probability: &mut Probability, cards: &[&'static BaseCard], relics: &[&'static BaseRelic])
    requires
        chest_ready(*old(state), cards@, relics@),
    ensures
        chest_opened(*old(state), *final(state), old(probability).factors@, final(probability).factors@, cards@, relics@),
{
    let ghost b = *state;
    let ghost f0 = probability.factors@;
    match state {
        FloorState::Chest(chest) => {
            let ghost g0 = chest.game_state;
            let rewards = generate_rewards_chest(&mut chest.game_state, chest.chest, probability, relics);
            let ghost g2 = chest.game_state;
            let ghost f2 = probability.factors@;
            if chest.game_state.relics.contains("Cursed Key") {
                let pool = available_cards_by_class(cards, Class::Curse);
                let curse = match probability.choose_one(pool) {
                    Some(c) => c,
                    None => vstd::pervasive::unreached(),
                };
                proof {
                    let k = choose|k: int| 0 <= k < class_pool(cards@, Class::Curse).len() && class_pool(cards@, Class::Curse)[k] == curse;
                    assert(has_known_cost(*class_pool(cards@, Class::Curse)[k]));
                    assert(g0.card_kind_addable(curse));
                }
                let card = Card::new(curse);
                chest.game_state.add_card(card);
                proof {
                    assert(g2.card_added(chest.game_state, card));
                }
            }
            chest.rewards = Some(RewardState { viewing_reward: None, rewards, deck_operation: None });
            proof {
                assert(cursed_key_curse(g2, chest.game_state, cards@, f2, probability.factors@));
                assert(chest_rewarded(g0, g2, chest.chest, relics@, reward_items(rewards), f0, f2));
            }
        },
        _ => vstd::pervasive::unreached(),
    }
}

// ---- entering a shop ----
/// Whether `a` (factors `fa`) is the shop `b` (factors `fb`) entered: stocked (see
/// `shop_generated`), and the player in it.
pub open spec fn shop_entered(
    b: FloorState,
    a: FloorState,
    fb: Seq<(u64, u64)>,
    fa: Seq<(u64, u64)>,
    cards: Seq<&'static BaseCard>,
    relics: Seq<&'static BaseRelic>,
    potions: Seq<&'static BasePotion>,
) -> bool {
    match (b, a) {
        (FloorState::Shop(s0), FloorState::Shop(s1)) => exists|s2: ShopState| {
            &&& #[trigger] shop_generated(s0, s2, cards, relics, potions, fb, fa)
            &&& s1 == (ShopState { screen_state: ShopScreenState::InShop, ..s2 })
        },
        _ => false,
    }
}

/// Enters a shop: stocks it, once, and puts the player in it.
fn enter_shop_step(
    state: &mut FloorState,
    probability: &mut Probability,
    cards: &[&'static BaseCard],
    relics: &[&'static BaseRelic],
    potions: &[&'static BasePotion],
)
    requires
        *old(state) matches FloorState::Shop(s) && shop_generable(s, cards@, relics@, potions@),
    ensures
        shop_entered(*old(state), *final(state), old(probability).factors@, final(probability).factors@, cards@, relics@, potions@),
{
    match state {
        FloorState::Shop(shop) => {
            let ghost s0 = *shop;
            let ghost f0 = probability.factors@;
            shop.generate(probability, cards, relics, potions);
            let ghost s2 = *shop;
            shop.screen_state = ShopScreenState::InShop;
            proof {
                assert(shop_generated(s0, s2, cards@, relics@, potions@, f0, probability.factors@));
            }
        },
        _ => vstd::pervasive::unreached(),
    }
}

/// A run begun as a class at the chosen ascension, or zero: the Neow event of the
/// catalog on a new run, with a new probability.
fn start_run(
    class: Class,
    ascension: Option<u8>,
    cards: &[&'static BaseCard],
    relic_catalog: &[&'static BaseRelic],
    event_catalog: &[&'static BaseEvent],
) -> (res: GamePossibility)
    requires
        start_ready(class, ascension_of(ascension), cards@, relic_catalog@, event_catalog@),
    ensures
        run_started(res.state, res.probability.factors@, class, ascension_of(ascension), event_catalog@),
{
    let asc: u8 = match ascension {
        Some(a) => a,
        None => 0,
    };
    let game = GameState::new(class, asc, cards, relic_catalog);
    let neow = EventState::by_name(event_catalog, "Neow", game);
    GamePossibility { state: FloorState::Event(neow), probability: Probability::new() }
}

/// The counter of the first Rushdown buff of a creature, or zero where it has none.
fn rushdown_amount(c: &Creature) -> (res: i16)
    ensures
        res == rushdown_of(*c),
{
    let mut i: usize = 0;
    while i < c.buffs.len()
        invariant
            0 <= i <= c.buffs@.len(),
            forall|j: int| 0 <= j < i ==> (#[trigger] c.buffs@[j]).base.name@ != "Rushdown"@,
        decreases c.buffs@.len() - i,
    {
        if str_eq(c.buffs[i].base.name.as_str(), "Rushdown") {
            proof {
                assert(is_first_of_kind(c.buffs@, "Rushdown"@, i as int));
                let k = choose|k: int| is_first_of_kind(c.buffs@, "Rushdown"@, k);
                if k < i {
                    assert(c.buffs@[k].base.name@ != "Rushdown"@);
                } else if k > i {
                    assert(c.buffs@[i as int].base.name@ != "Rushdown"@);
                }
            }
            return c.buffs[i].vars.x;
        }
        i = i + 1;
    }
    proof {
        assert(!exists|k: int| is_first_of_kind(c.buffs@, "Rushdown"@, k)) by {
            if exists|k: int| is_first_of_kind(c.buffs@, "Rushdown"@, k) {
                let k = choose|k: int| is_first_of_kind(c.buffs@, "Rushdown"@, k);
                assert(c.buffs@[k].base.name@ != "Rushdown"@);
            }
        }
    }
    0
}

// ---- cards chosen in a battle ----
/// Whether an effect on a chosen card changes that card alone: retained, upgraded, or
/// made free.
pub open spec fn card_local(e: CardEffect) -> bool {
    e is Retain || e is Upgrade || e is ZeroCombatCost || e is ZeroCostUntilPlayed || e is ZeroTurnCost
}

/// A card after an effect on itself (one that `card_local` allows): retained, upgraded,
/// free for the battle, free until played, or free for the turn.
pub open spec fn card_after_effect(c: Card, e: CardEffect) -> Card {
    match e {
        CardEffect::Retain => Card { retain: true, ..c },
        CardEffect::Upgrade => upgraded_card(c),
        CardEffect::ZeroCombatCost => Card { cost: 0, base_cost: 0, ..c },
        CardEffect::ZeroCostUntilPlayed => Card { cost: 0, cost_until_played: true, ..c },
        CardEffect::ZeroTurnCost => Card { cost: 0, ..c },
        _ => c,
    }
}

/// A card after the effects, one after the other.
pub open spec fn card_after_all(c: Card, es: Seq<&'static CardEffect>) -> Card
    decreases es.len(),
{
    if es.len() == 0 {
        c
    } else {
        card_after_effect(card_after_all(c, es.drop_last()), *es.last())
    }
}

/// Whether each upgrade among the effects finds the card ready for it.
pub open spec fn card_effects_ready(c: Card, es: Seq<&'static CardEffect>) -> bool {
    forall|k: int| 0 <= k < es.len() && (*es[k]) is Upgrade ==> upgrade_ready(#[trigger] card_after_all(c, es.take(k)))
}

/// The cards of a battle after the effects are applied to each chosen card in turn.
pub open spec fn chosen_all(m: Map<u128, Card>, refs: Seq<CardReference>, es: Seq<&'static CardEffect>) -> Map<u128, Card>
    decreases refs.len(),
{
    if refs.len() == 0 {
        m
    } else {
        let m0 = chosen_all(m, refs.drop_last(), es);
        m0.insert(refs.last().uuid, card_after_all(m0[refs.last().uuid], es))
    }
}

/// Whether the effects can be applied to each chosen card in turn: the battle holds it,
/// and each upgrade finds it ready.
pub open spec fn chosen_ready(m: Map<u128, Card>, refs: Seq<CardReference>, es: Seq<&'static CardEffect>) -> bool {
    forall|k: int| 0 <= k < refs.len() ==> {
        let mk = #[trigger] chosen_all(m, refs.take(k), es);
        &&& mk.contains_key(refs[k].uuid)
        &&& card_effects_ready(mk[refs[k].uuid], es)
    }
}

/// Whether cards chosen in a battle can have the choice's effects: there is no choice
/// waiting, or each of its effects changes the chosen card alone and can be applied.
pub open spec fn select_ready(b: FloorState, refs: Seq<CardReference>) -> bool {
    match b {
        FloorState::Battle(bs) => match bs.card_choose {
            None => true,
            Some(CardChoiceState { then: th, .. }) => {
                &&& forall|i: int| 0 <= i < card_effects(th).len() ==> card_local(*(#[trigger] card_effects(th)[i]))
                &&& chosen_ready(deck_cards(bs.cards), refs, card_effects(th))
            },
        },
        _ => false,
    }
}

/// Whether `a` is the battle `b` after cards are chosen: unchanged where no choice is
/// waiting, else with the choice's effects applied to each chosen card in turn; the
/// choice stays waiting.
pub open spec fn select_done(b: FloorState, a: FloorState, refs: Seq<CardReference>) -> bool {
    match b {
        FloorState::Battle(bs) => match bs.card_choose {
            None => a == b,
            Some(CardChoiceState { then: th, .. }) => a matches FloorState::Battle(bs2) && bs2 == (BattleState { cards: bs2.cards, ..bs })
                && deck_cards(bs2.cards) == chosen_all(deck_cards(bs.cards), refs, card_effects(th)),
        },
        _ => false,
    }
}

/// Applies effects that change a card alone to the card of a battle with the given
/// identifier, one after the other.
fn apply_card_effects(cards: &mut im::HashMap<u128, Card>, uuid: u128, es: &Vec<&'static CardEffect>)
    requires
        deck_cards(*old(cards)).contains_key(uuid),
        forall|i: int| 0 <= i < es@.len() ==> card_local(*(#[trigger] es@[i])),
        card_effects_ready(deck_cards(*old(cards))[uuid], es@),
    ensures
        deck_cards(*final(cards)) == deck_cards(*old(cards)).insert(uuid, card_after_all(deck_cards(*old(cards))[uuid], es@)),
{
    let mut c = match deck_get(cards, uuid) {
        Some(c) => c,
        None => vstd::pervasive::unreached(),
    };
    let ghost c0 = c;
    let mut j: usize = 0;
    proof {
        assert(es@.take(0) =~= Seq::<&'static CardEffect>::empty());
    }
    while j < es.len()
        invariant
            0 <= j <= es@.len(),
            card_effects_ready(c0, es@),
            forall|i: int| 0 <= i < es@.len() ==> card_local(*(#[trigger] es@[i])),
            c == card_after_all(c0, es@.take(j as int)),
        decreases es@.len() - j,
    {
        let ghost before = c;
        proof {
            assert(es@.take(j + 1).drop_last() =~= es@.take(j as int));
            assert(es@.take(j + 1).last() == es@[j as int]);
            assert(card_local(*es@[j as int]));
        }
        match es[j] {
            CardEffect::Retain => c.retain = true,
            CardEffect::Upgrade => {
                proof {
                    assert(upgrade_ready(card_after_all(c0, es@.take(j as int))));
                }
                c.upgrade();
                proof {
                    lemma_upgrade_of_is(before, c);
                }
            },
            CardEffect::ZeroCombatCost => {
                c.cost = 0;
                c.base_cost = 0;
            },
            CardEffect::ZeroCostUntilPlayed => {
                c.cost = 0;
                c.cost_until_played = true;
            },
            CardEffect::ZeroTurnCost => c.cost = 0,
            _ => {},
        }
        j = j + 1;
    }
    proof {
        assert(es@.take(es@.len() as int) =~= es@);
    }
    deck_insert(cards, uuid, c);
}

/// Applies the waiting choice's effects to each chosen card in turn; with no choice
/// waiting, nothing happens.
fn select_step(state: &mut FloorState, refs: &Vec<CardReference>)
    requires
        select_ready(*old(state), refs@),
    ensures
        select_done(*old(state), *final(state), refs@),
{
    match state {
        FloorState::Battle(battle) => {
            let effects = match &battle.card_choose {
                Some(CardChoiceState { then: th, .. }) => Some(card_effects_items(th)),
                None => None,
            };
            match effects {
                Some(es) => {
                    let ghost b0 = *battle;
                    let ghost m0 = deck_cards(battle.cards);
                    proof {
                        assert(refs@.take(0) =~= Seq::<CardReference>::empty());
                    }
                    let mut i: usize = 0;
                    while i < refs.len()
                        invariant
                            0 <= i <= refs@.len(),
                            b0.card_choose matches Some(CardChoiceState { then: th, .. }) && es@ == card_effects(th),
                            forall|t: int| 0 <= t < es@.len() ==> card_local(*(#[trigger] es@[t])),
                            chosen_ready(m0, refs@, es@),
                            deck_cards(battle.cards) == chosen_all(m0, refs@.take(i as int), es@),
                            *battle == (BattleState { cards: battle.cards, ..b0 }),
                        decreases refs@.len() - i,
                    {
                        proof {
                            assert(refs@.take(i + 1).drop_last() =~= refs@.take(i as int));
                            assert(refs@.take(i + 1).last() == refs@[i as int]);
                            let mk = chosen_all(m0, refs@.take(i as int), es@);
                            assert(mk.contains_key(refs@[i as int].uuid));
                        }
                        apply_card_effects(&mut battle.cards, refs[i].uuid, &es);
                        i = i + 1;
                    }
                    proof {
                        assert(refs@.take(refs@.len() as int) =~= refs@);
                    }
                },
                None => {},
            }
        },
        _ => {},
    }
}

/// Enters Calm from the potion of stance choice: the potion's choice is spent, and the
/// stance is left as it was.
fn calm_step(state: &mut FloorState)
    requires
        *old(state) is Battle,
    ensures
        match *old(state) {
            FloorState::Battle(bs) => *final(state) == FloorState::Battle(BattleState { stance_pot: false, ..bs }),
            _ => false,
        },
{
    match state {
        FloorState::Battle(battle) => battle.stance_pot = false,
        _ => {},
    }
}

/// Enters Wrath from the potion of stance choice: leaving Calm gives three energy, or
/// two with the Violet Lotus; the potion's choice is spent, and the stance is left as it
/// was.
fn wrath_step(state: &mut FloorState)
    requires
        match *old(state) {
            FloorState::Battle(bs) => bs.stance == Stance::Wrath || ((rushdown_of(bs.player) as u8) == 0
                && (bs.stance == Stance::Calm ==> bs.energy + 3 <= u8::MAX)),
            _ => false,
        },
    ensures
        match *old(state) {
            FloorState::Battle(bs) => *final(state) == FloorState::Battle(BattleState { energy: wrath_energy(bs), stance_pot: false, ..bs }),
            _ => false,
        },
{
    match state {
        FloorState::Battle(battle) => {
            if battle.stance != Stance::Wrath {
                if battle.stance == Stance::Calm {
                    let gain: u8 = if battle.game_state.relics.contains("Violet Lotus") { 2 } else { 3 };
                    battle.energy = battle.energy + gain;
                }
                let drawn = rushdown_amount(&battle.player);
                proof {
                    assert((drawn as u8) == 0);
                }
            }
            battle.stance_pot = false;
        },
        _ => {},
    }
}

/// Grants a wish for gold in a battle: 25 gold, and one wish is spent.
fn wish_gold_step(state: &mut FloorState)
    requires
        match *old(state) {
            FloorState::Battle(bs) => bs.wish > 0 && gold_gainable(bs.game_state, 25),
            _ => false,
        },
    ensures
        match *old(state) {
            FloorState::Battle(bs) => *final(state) == FloorState::Battle(
                BattleState { game_state: bs.game_state.add_gold_spec(25), wish: (bs.wish - 1) as u8, ..bs },
            ),
            _ => false,
        },
{
    match state {
        FloorState::Battle(battle) => {
            battle.game_state.add_gold(25);
            battle.wish = battle.wish - 1;
        },
        _ => {},
    }
}

/// Grants a wish for a buff in a battle: the player gains that much of the first buff
/// of the name in the catalog, and one wish is spent.
fn wish_buff_step(state: &mut FloorState, buffs: &[&'static BaseBuff], name: &str, amount: i16)
    requires
        wish_buff_ready(*old(state), buffs@, name@, amount),
    ensures
        wish_buff_taken(*old(state), *final(state), buffs@, name@, amount),
{
    match state {
        FloorState::Battle(battle) => {
            let bf = crate::models::buffs::by_name(buffs, name);
            proof {
                assert(first_buff_named(buffs@, name@, bf));
            }
            battle.player.add_buff(bf, amount);
            battle.wish = battle.wish - 1;
        },
        _ => {},
    }
}

// ---- going on along the map ----
/// The place on the map that going to column `x` reaches: in the first row while the run
/// has not yet entered the map, else in the row above the current node.
pub open spec fn next_node_index(m: MapState, x: u8) -> int {
    match m.index {
        Some(i) => match m.nodes@[i as int] {
            Some(n) => i - n.x + 7 + x,
            None => x as int,
        },
        None => x as int,
    }
}

/// The node at a place, where the place is on the map.
pub open spec fn node_at(m: MapState, i: int) -> Option<MapNode> {
    if 0 <= i < 105 {
        m.nodes@[i]
    } else {
        None
    }
}

/// The run moved on the map to a place: one floor higher, at that place, and no longer
/// just out of a shop.
pub open spec fn moved_to(g: GameState, index: int) -> GameState {
    GameState {
        map: MapState {
            floor: (g.map.floor + 1) as i8,
            index: Some(index as usize),
            history: MapHistory { last_shop: false, ..g.map.history },
            ..g.map
        },
        ..g
    }
}

/// What the Eternal Feather heals on arrival at a rest site: three hit points for each
/// five cards of the deck.
pub open spec fn feather_heal(g: GameState) -> int {
    deck_cards(g.deck).dom().len() as int / 5 * 3
}

/// Whether going to column `x` of the map can be foretold: the run is on the map, below
/// the top row of its node (from there the boss is fought), with room in its floor
/// counter, and the node reached is one whose arrival `arrival_ready` allows.
pub open spec fn navigate_ready(b: FloorState, x: u8) -> bool {
    match b {
        FloorState::OnMap(g) => {
            &&& g.map.floor < i8::MAX
            &&& match g.map.index {
                Some(i) => i < 105 && (g.map.nodes@[i as int] matches Some(n) && n.y < 14 && n.x <= i),
                None => true,
            }
            &&& node_at(g.map, next_node_index(g.map, x)) matches Some(n)
                && arrival_ready(moved_to(g, next_node_index(g.map, x)), n.icon, g.map.history.last_shop)
        },
        _ => false,
    }
}

/// Whether `g1` is `g` with its relic of the given name readied.
pub open spec fn relic_enabled(g: GameState, g1: GameState, name: Seq<char>) -> bool {
    let uuid = name_index(g.relics.relic_names)[name];
    let r = relic_entries(g.relics.relics)[uuid];
    &&& relic_entries(g1.relics.relics) == relic_entries(g.relics.relics).insert(uuid, Relic { enabled: true, ..r })
    &&& g1 == (GameState { relics: Relics { relics: g1.relics.relics, ..g.relics }, ..g })
}

/// Whether `g1` is `g` with the Ancient Tea Set readied, where the run has it.
pub open spec fn tea_readied(g: GameState, g1: GameState) -> bool {
    if g.relics.find_spec("Ancient Tea Set"@) is Some {
        relic_enabled(g, g1, "Ancient Tea Set"@)
    } else {
        g1 == g
    }
}

/// The run after the Eternal Feather's healing, where it has the feather.
pub open spec fn feathered(g: GameState) -> GameState {
    if g.relics.has("Eternal Feather"@) {
        GameState { hp: g.heal_spec(g.hp, feather_heal(g)), ..g }
    } else {
        g
    }
}

/// The run after the Meal Ticket's fifteen hit points, where it has the ticket.
pub open spec fn fed(g: GameState) -> GameState {
    if g.relics.has("Meal Ticket"@) {
        GameState { hp: g.heal_spec(g.hp, 15), ..g }
    } else {
        g
    }
}

/// Whether `a` (factors `fa`) is the floor that the run `g` (factors `fb`) comes to at
/// a shop: nothing on offer yet, the Meal Ticket's healing, the shop remembered as the
/// last room.
pub open spec fn shop_arrived(g: GameState, a: FloorState, fb: Seq<(u64, u64)>, fa: Seq<(u64, u64)>) -> bool {
    fa == fb && match a {
        FloorState::Shop(s) => {
            &&& s.game_state == fed(GameState { map: MapState { history: MapHistory { last_shop: true, ..g.map.history }, ..g.map }, ..g })
            &&& !s.generated && !s.updated && s.can_purge
            &&& s.screen_state == ShopScreenState::Entrance
            &&& store_cards(s.cards).len() == 0 && store_potions(s.potions).len() == 0 && store_relics(s.relics).len() == 0
        },
        _ => false,
    }
}

/// Whether `a` (factors `fa`) is the floor that the run `g` (factors `fb`) comes to at
/// a treasure room: its chest small, medium or large at odds of three, two and one in six.
pub open spec fn chest_arrived(g: GameState, a: FloorState, fb: Seq<(u64, u64)>, fa: Seq<(u64, u64)>) -> bool {
    ||| (a == FloorState::Chest(ChestState { chest: ChestType::Small, rewards: None, game_state: g }) && fa == fb.push((3u64, 6u64)))
    ||| (a == FloorState::Chest(ChestState { chest: ChestType::Medium, rewards: None, game_state: g }) && fa == fb.push((2u64, 6u64)))
    ||| (a == FloorState::Chest(ChestState { chest: ChestType::Large, rewards: None, game_state: g }) && fa == fb.push((1u64, 6u64)))
}

/// Whether the Tiny Chest's count comes round on entering an unknown node: its counter is
/// one short of four.
pub open spec fn tiny_fires(g: GameState) -> bool {
    g.relics.find_spec("Tiny Chest"@) matches Some(r) && r.vars.x + 1 == 4
}

/// The weights out of a hundred, before they are cut to fit, of a fight, a shop and a
/// treasure room at an unknown node: ten, three and two times one more than the unknown
/// nodes since the last of each; no shop right after a shop; with the Tiny Chest's count
/// come round, a treasure room for sure; with the Juzu Bracelet, no fight.
pub open spec fn unknown_first_weights(g: GameState, last_shop: bool) -> (int, int, int) {
    let h = g.map.history;
    if tiny_fires(g) {
        (0, 0, 100)
    } else {
        (
            if g.relics.has("Juzu Bracelet"@) { 0 } else { (h.unknown_normal_count + 1) * 10 },
            if last_shop { 0 } else { (h.unknown_shop_count + 1) * 3 },
            (h.unknown_treasure_count + 1) * 2,
        )
    }
}

/// The weights of a fight, a shop and a treasure room at an unknown node, out of a
/// hundred: where they come to more, the treasure room's and then the shop's are cut, as
/// far as they go. An event takes what is left.
pub open spec fn unknown_weights(g: GameState, last_shop: bool) -> (int, int, int) {
    let (n, s0, t0) = unknown_first_weights(g, last_shop);
    let over1 = n + s0 + t0 - 100;
    let t = if over1 > 0 { t0 - (if over1 < t0 { over1 } else { t0 }) } else { t0 };
    let over2 = n + s0 + t - 100;
    let s = if over2 > 0 { s0 - (if over2 < s0 { over2 } else { s0 }) } else { s0 };
    (n, s, t)
}

/// The odds of an unknown node always leave an event its share: where the weight of a
/// fight is at most a hundred, the weights of a fight, a shop and a treasure room, each
/// cut no lower than zero and no higher than it began, come to at most a hundred.
pub proof fn law_unknown_odds_fit(g: GameState, last_shop: bool)
    requires
        unknown_first_weights(g, last_shop).0 <= 100,
    ensures
        ({
            let (n0, s0, t0) = unknown_first_weights(g, last_shop);
            let (n, s, t) = unknown_weights(g, last_shop);
            &&& n == n0
            &&& 0 <= s <= s0
            &&& 0 <= t <= t0
            &&& n + s + t <= 100
        }),
{
}

/// Whether an unknown node can be entered so that what it turns out to be can be
/// foretold: the Ssserpent Head's gold fits, the counters and weights fit their bytes,
/// the Tiny Chest's counter has room, and neither a fight nor an event can come of it
/// (both begin with what cannot be carried out: a fight's first turn, an event drawn
/// out of the past events of the run); where a shop can, the Meal Ticket's healing fits.
pub open spec fn unknown_ready(g: GameState, last_shop: bool) -> bool {
    let h = g.map.history;
    let (n0, s0, t0) = unknown_first_weights(g, last_shop);
    let (n, s, t) = unknown_weights(g, last_shop);
    &&& g.relics.has("Ssserpent Head"@) ==> g.gold + 50 <= u16::MAX
    &&& (h.unknown_normal_count + 1) * 10 <= u8::MAX
    &&& (h.unknown_shop_count + 1) * 3 <= u8::MAX
    &&& (h.unknown_treasure_count + 1) * 2 <= u8::MAX
    &&& (g.relics.find_spec("Tiny Chest"@) matches Some(r) ==> r.vars.x < i16::MAX)
    &&& n0 + s0 + t0 <= u8::MAX
    &&& n == 0 && s + t == 100
    &&& s > 0 && g.relics.has("Meal Ticket"@) ==> g.hp.amount + 15 <= u16::MAX
}

/// Whether `g1` is `g` with the `x` counter of its relic of the given name set.
pub open spec fn relic_x_set(g: GameState, g1: GameState, name: Seq<char>, x: int) -> bool {
    let uuid = name_index(g.relics.relic_names)[name];
    let r = relic_entries(g.relics.relics)[uuid];
    &&& relic_entries(g1.relics.relics) == relic_entries(g.relics.relics).insert(
        uuid,
        Relic { vars: Vars { x: x as i16, ..r.vars }, ..r },
    )
    &&& g1 == (GameState { relics: Relics { relics: g1.relics.relics, ..g.relics }, ..g })
}

/// Whether `g2` is `g` on entering an unknown node: fifty gold with the Ssserpent Head,
/// then the Tiny Chest's counter one higher, back to zero where it comes round.
pub open spec fn unknown_entered(g: GameState, g2: GameState) -> bool {
    let g1 = if g.relics.has("Ssserpent Head"@) { GameState { gold: (g.gold + 50) as u16, ..g } } else { g };
    match g1.relics.find_spec("Tiny Chest"@) {
        Some(r) => relic_x_set(g1, g2, "Tiny Chest"@, if r.vars.x + 1 == 4 { 0 } else { r.vars.x + 1 }),
        None => g2 == g1,
    }
}

/// The run with its counters of unknown nodes moved on, one of them back to zero: the
/// shop's when `shop`, else the treasure room's.
pub open spec fn unknown_counted(g: GameState, shop: bool) -> GameState {
    let h = g.map.history;
    GameState {
        map: MapState {
            history: MapHistory {
                unknown_normal_count: (h.unknown_normal_count + 1) as u8,
                unknown_shop_count: if shop { 0 } else { (h.unknown_shop_count + 1) as u8 },
                unknown_treasure_count: if shop { (h.unknown_treasure_count + 1) as u8 } else { 0 },
                ..h
            },
            ..g.map
        },
        ..g
    }
}

/// Whether arriving at a node of the given kind can be carried out for the run
/// (`last_shop`: whether the room before was a shop).
pub open spec fn arrival_ready(g: GameState, icon: MapNodeIcon, last_shop: bool) -> bool {
    match icon {
        MapNodeIcon::Campfire => g.relics.has("Eternal Feather"@) ==> g.hp.amount + feather_heal(g) <= u16::MAX,
        MapNodeIcon::Shop => g.relics.has("Meal Ticket"@) ==> g.hp.amount + 15 <= u16::MAX,
        MapNodeIcon::Chest => true,
        MapNodeIcon::Question => unknown_ready(g, last_shop),
        _ => false,
    }
}

/// Whether `a` (factors `fa`) is the floor that the run `g` (factors `fb`), just moved
/// on the map, comes to at a node of the given kind (`last_shop`: whether the room before
/// was a shop): a rest site, with the Ancient Tea Set readied and the Eternal Feather's
/// healing; a shop (`shop_arrived`); a treasure room (`chest_arrived`); an unknown node,
/// entered, that turns out a shop or a treasure room at the odds of `unknown_weights`,
/// out of a hundred, with its counters moved on.
pub open spec fn arrived(g: GameState, icon: MapNodeIcon, last_shop: bool, a: FloorState, fb: Seq<(u64, u64)>, fa: Seq<(u64, u64)>) -> bool {
    match icon {
        MapNodeIcon::Campfire => fa == fb && exists|g1: GameState| #[trigger] tea_readied(g, g1)
            && a == FloorState::Rest(RestState { screen_state: RestScreenState::IShouldRest, game_state: feathered(g1) }),
        MapNodeIcon::Shop => shop_arrived(g, a, fb, fa),
        MapNodeIcon::Chest => chest_arrived(g, a, fb, fa),
        MapNodeIcon::Question => exists|g2: GameState| #[trigger] unknown_entered(g, g2) && {
            let (n, s, t) = unknown_weights(g, last_shop);
            ||| s > 0 && shop_arrived(unknown_counted(g2, true), a, fb.push((s as u64, 100u64)), fa)
            ||| t > 0 && chest_arrived(unknown_counted(g2, false), a, fb.push((t as u64, 100u64)), fa)
        },
        _ => false,
    }
}

/// Whether `a` (factors `fa`) is `b` (factors `fb`) after going to column `x` of the
/// map: the run moves to the node reached and arrives there.
pub open spec fn navigated(b: FloorState, a: FloorState, x: u8, fb: Seq<(u64, u64)>, fa: Seq<(u64, u64)>) -> bool {
    match b {
        FloorState::OnMap(g) => {
            let j = next_node_index(g.map, x);
            match node_at(g.map, j) {
                Some(n) => arrived(moved_to(g, j), n.icon, g.map.history.last_shop, a, fb, fa),
                None => false,
            }
        },
        _ => false,
    }
}

/// Readies the run's relic of the given name, which the run must have.
fn enable_relic(game: &mut GameState, name: &str)
    requires
        old(game).relics.find_spec(name@) is Some,
    ensures
        relic_enabled(*old(game), *final(game), name@),
{
    match name_index_get(&game.relics.relic_names, name) {
        Some(uuid) => match relic_map_get(&game.relics.relics, uuid) {
            Some(relic) => {
                let mut relic = relic;
                relic.enabled = true;
                relic_map_insert(&mut game.relics.relics, uuid, relic);
            },
            None => vstd::pervasive::unreached(),
        },
        None => vstd::pervasive::unreached(),
    }
}

/// Sets the `x` counter of the run's relic of the given name, which the run must have.
fn set_relic_x(game: &mut GameState, name: &str, x: i16)
    requires
        old(game).relics.find_spec(name@) is Some,
    ensures
        relic_x_set(*old(game), *final(game), name@, x as int),
{
    match name_index_get(&game.relics.relic_names, name) {
        Some(uuid) => match relic_map_get(&game.relics.relics, uuid) {
            Some(relic) => {
                let mut relic = relic;
                relic.vars.x = x;
                relic_map_insert(&mut game.relics.relics, uuid, relic);
            },
            None => vstd::pervasive::unreached(),
        },
        None => vstd::pervasive::unreached(),
    }
}

/// Arrives at a shop (see `shop_arrived`).
fn arrive_shop(game: GameState) -> (res: FloorState)
    requires
        game.relics.has("Meal Ticket"@) ==> game.hp.amount + 15 <= u16::MAX,
    ensures
        forall|f: Seq<(u64, u64)>| shop_arrived(game, res, f, f),
{
    let mut game = game;
    game.map.history.last_shop = true;
    if game.relics.contains("Meal Ticket") {
        game.heal(15);
    }
    FloorState::Shop(ShopState {
        generated: false,
        updated: false,
        cards: store_cards_from(Vec::new()),
        potions: store_potions_from(Vec::new()),
        relics: store_relics_from(Vec::new()),
        can_purge: true,
        game_state: game,
        screen_state: ShopScreenState::Entrance,
    })
}

/// Arrives at a treasure room (see `chest_arrived`).
fn arrive_chest(game: GameState, probability: &mut Probability) -> (res: FloorState)
    ensures
        chest_arrived(game, res, old(probability).factors@, final(probability).factors@),
{
    let types: Vec<(ChestType, u8)> = vec![(ChestType::Small, 3), (ChestType::Medium, 2), (ChestType::Large, 1)];
    assert(weight_total(types@) == 6) by {
        reveal_with_fuel(weight_total, 4);
    }
    let chest = match probability.choose_weighted(types.as_slice()) {
        Some(t) => t.clone(),
        None => vstd::pervasive::unreached(),
    };
    FloorState::Chest(ChestState { chest, rewards: None, game_state: game })
}

/// What an unknown node turns out to be.
#[derive(Clone, Copy)]
enum UnknownRoom {
    Fight,
    Shop,
    Treasure,
    Event,
}

/// Enters an unknown node, which turns out a shop or a treasure room (see `arrived`).
fn arrive_unknown(game: GameState, last_shop: bool, probability: &mut Probability) -> (res: FloorState)
    requires
        unknown_ready(game, last_shop),
    ensures
        arrived(game, MapNodeIcon::Question, last_shop, res, old(probability).factors@, final(probability).factors@),
{
    let ghost g0 = game;
    let mut game = game;
    if game.relics.contains("Ssserpent Head") {
        game.gold = game.gold + 50;
    }
    let ghost g1 = game;
    let mut normal: u8 = (game.map.history.unknown_normal_count + 1) * 10;
    let mut shop: u8 = (game.map.history.unknown_shop_count + 1) * 3;
    let mut treasure: u8 = (game.map.history.unknown_treasure_count + 1) * 2;
    if last_shop {
        shop = 0;
    }
    match game.relics.find("Tiny Chest") {
        Some(r) => {
            let x = r.vars.x + 1;
            let x2: i16 = if x == 4 {
                shop = 0;
                treasure = 100;
                normal = 0;
                0
            } else {
                x
            };
            set_relic_x(&mut game, "Tiny Chest", x2);
        },
        None => {},
    }
    if game.relics.contains("Juzu Bracelet") {
        normal = 0;
    }
    let ghost g2 = game;
    assert(unknown_entered(g0, g2));
    assert((normal as int, shop as int, treasure as int) == unknown_first_weights(g0, last_shop));
    let mut total: u8 = normal + shop + treasure;
    if total > 100 {
        let cut: u8 = if total - 100 < treasure { total - 100 } else { treasure };
        treasure = treasure - cut;
        total = total - cut;
    }
    if total > 100 {
        let cut: u8 = if total - 100 < shop { total - 100 } else { shop };
        shop = shop - cut;
        total = total - cut;
    }
    assert((normal as int, shop as int, treasure as int) == unknown_weights(g0, last_shop));
    let event: u8 = 100 - total;
    let choices: Vec<(UnknownRoom, u8)> = vec![
        (UnknownRoom::Fight, normal),
        (UnknownRoom::Shop, shop),
        (UnknownRoom::Treasure, treasure),
        (UnknownRoom::Event, event),
    ];
    assert(weight_total(choices@) == 100) by {
        reveal_with_fuel(weight_total, 5);
    }
    let ghost f1 = probability.factors@;
    let room = match probability.choose_weighted(choices.as_slice()) {
        Some(c) => *c,
        None => vstd::pervasive::unreached(),
    };
    let ghost f2 = probability.factors@;
    match room {
        UnknownRoom::Shop => {
            assert(f2 == f1.push((shop as u64, 100u64)));
            game.map.history.unknown_normal_count = game.map.history.unknown_normal_count + 1;
            game.map.history.unknown_shop_count = 0;
            game.map.history.unknown_treasure_count = game.map.history.unknown_treasure_count + 1;
            assert(game == unknown_counted(g2, true));
            arrive_shop(game)
        },
        UnknownRoom::Treasure => {
            assert(f2 == f1.push((treasure as u64, 100u64)));
            game.map.history.unknown_normal_count = game.map.history.unknown_normal_count + 1;
            game.map.history.unknown_shop_count = game.map.history.unknown_shop_count + 1;
            game.map.history.unknown_treasure_count = 0;
            assert(game == unknown_counted(g2, false));
            arrive_chest(game, probability)
        },
        _ => vstd::pervasive::unreached(),
    }
}

/// Goes to column `x` of the map, and arrives at the node reached (see `navigated`).
fn navigate_step(state: &mut FloorState, x: u8, probability: &mut Probability)
    requires
        navigate_ready(*old(state), x),
    ensures
        navigated(*old(state), *final(state), x, old(probability).factors@, final(probability).factors@),
{
    let mut before = FloorState::Menu;
    std::mem::swap(&mut before, state);
    let mut game = match before {
        FloorState::OnMap(g) => g,
        _ => vstd::pervasive::unreached(),
    };
    let ghost g0 = game;
    let index: usize = match game.map.index {
        Some(i) => match game.map.nodes[i] {
            Some(n) => i - n.x as usize + 7 + x as usize,
            None => vstd::pervasive::unreached(),
        },
        None => x as usize,
    };
    let last_shop = game.map.history.last_shop;
    game.map.floor = game.map.floor + 1;
    game.map.index = Some(index);
    game.map.history.last_shop = false;
    let icon = match game.map.nodes[index] {
        Some(n) => n.icon,
        None => vstd::pervasive::unreached(),
    };
    let ghost g1 = game;
    assert(g1 == moved_to(g0, index as int));
    match icon {
        MapNodeIcon::Campfire => {
            if game.relics.find("Ancient Tea Set").is_some() {
                enable_relic(&mut game, "Ancient Tea Set");
            }
            let ghost g2 = game;
            assert(tea_readied(g1, g2));
            if game.relics.contains("Eternal Feather") {
                let cards = deck_entries(&game.deck).len();
                game.heal((cards / 5 * 3) as u16);
            }
            *state = FloorState::Rest(RestState { screen_state: RestScreenState::IShouldRest, game_state: game });
        },
        MapNodeIcon::Shop => {
            *state = arrive_shop(game);
        },
        MapNodeIcon::Chest => {
            *state = arrive_chest(game, probability);
        },
        MapNodeIcon::Question => {
            *state = arrive_unknown(game, last_shop, probability);
        },
        _ => vstd::pervasive::unreached(),
    }
}

/// Carries out a choice on a state of the game (see `predicted`), drawing what chance
/// decides with the possibility's probability.
pub fn predict_outcome(
    choice: Choice,
    possibility: &mut GamePossibility,
    cards: &[&'static BaseCard],
    relic_catalog: &[&'static BaseRelic],
    potion_catalog: &[&'static BasePotion],
    event_catalog: &[&'static BaseEvent],
    buff_catalog: &[&'static BaseBuff],
)
    requires
        predictable(choice@, old(possibility).state, cards@, relic_catalog@, potion_catalog@, event_catalog@, buff_catalog@),
    ensures
        predicted(
            choice@,
            old(possibility).state,
            final(possibility).state,
            old(possibility).probability.factors@,
            final(possibility).probability.factors@,
            cards@,
            relic_catalog@,
            potion_catalog@,
            event_catalog@,
            buff_catalog@,
        ),
{
    match choice {
        Choice::Start { player_class, ascension } => {
            *possibility = start_run(player_class, ascension, cards, relic_catalog, event_catalog);
        },
        Choice::WishGold => wish_gold_step(&mut possibility.state),
        Choice::WishPlated => wish_buff_step(&mut possibility.state, buff_catalog, "Plated Armor", 6),
        Choice::WishStrength => wish_buff_step(&mut possibility.state, buff_catalog, "Strength", 3),
        Choice::StanceCalm => calm_step(&mut possibility.state),
        Choice::SelectCards(refs) => select_step(&mut possibility.state, &refs),
        Choice::DrinkPotion { slot, target } => match &mut possibility.state {
            FloorState::Battle(battle) => battle_drink_step(battle, slot, target),
            _ => drink_step(&mut possibility.state, slot, &mut possibility.probability, potion_catalog),
        },
        Choice::StanceWrath => wrath_step(&mut possibility.state),
        Choice::State => {},
        Choice::DiscardPotion { slot } => discard_step(&mut possibility.state, slot),
        Choice::Smith => match &mut possibility.state {
            FloorState::Rest(rest) => rest.screen_state = RestScreenState::Smith,
            _ => {},
        },
        Choice::Toke => match &mut possibility.state {
            FloorState::Rest(rest) => rest.screen_state = RestScreenState::Toke,
            _ => vstd::pervasive::unreached(),
        },
        Choice::Recall => match &mut possibility.state {
            FloorState::Rest(rest) => {
                match &mut rest.game_state.keys {
                    Some(keys) => keys.ruby = true,
                    None => vstd::pervasive::unreached(),
                }
                rest.screen_state = RestScreenState::Proceed;
            },
            _ => vstd::pervasive::unreached(),
        },
        Choice::Lift => match &mut possibility.state {
            FloorState::Rest(rest) => {
                lift_step(&mut rest.game_state);
                rest.screen_state = RestScreenState::Proceed;
            },
            _ => vstd::pervasive::unreached(),
        },
        Choice::Rest => match &mut possibility.state {
            FloorState::Rest(rest) => rest_step(rest, &mut possibility.probability, cards),
            _ => vstd::pervasive::unreached(),
        },
        Choice::Dig => match &mut possibility.state {
            FloorState::Rest(rest) => dig_step(rest, &mut possibility.probability, relic_catalog),
            _ => vstd::pervasive::unreached(),
        },
        Choice::Skip => skip_step(&mut possibility.state),
        Choice::SingingBowl => bowl_step(&mut possibility.state),
        Choice::AddCardToDeck(name) => card_step(&mut possibility.state, name.as_str(), cards),
        Choice::TakeReward(index) => take_step(&mut possibility.state, index, &mut possibility.probability, cards),
        Choice::BuyCard(index) => match &mut possibility.state {
            FloorState::Shop(shop) => shop.buy_card(index, &mut possibility.probability, cards),
            _ => vstd::pervasive::unreached(),
        },
        Choice::BuyPotion(index) => match &mut possibility.state {
            FloorState::Shop(shop) => shop.buy_potion(index, &mut possibility.probability, potion_catalog),
            _ => vstd::pervasive::unreached(),
        },
        Choice::BuyRelic(index) => match &mut possibility.state {
            FloorState::Shop(shop) => shop.buy_relic(index, &mut possibility.probability, relic_catalog, potion_catalog),
            _ => vstd::pervasive::unreached(),
        },
        Choice::BuyRemoveCard(card) => match &mut possibility.state {
            FloorState::Shop(shop) => shop.purge(card),
            _ => vstd::pervasive::unreached(),
        },
        Choice::DeckSelect(listed, op) => deck_select_step(&mut possibility.state, &listed, op, &mut possibility.probability, cards),
        Choice::OpenChest => open_chest_step(&mut possibility.state, &mut possibility.probability, cards, relic_catalog),
        Choice::EnterShop => enter_shop_step(&mut possibility.state, &mut possibility.probability, cards, relic_catalog, potion_catalog),
        Choice::Proceed => proceed_step(&mut possibility.state),
        Choice::NavigateToNode(x) => navigate_step(&mut possibility.state, x, &mut possibility.probability),
        Choice::Event(name) => event_choice_step(
            &mut possibility.state,
            name.as_str(),
            &mut possibility.probability,
            cards,
            potion_catalog,
            relic_catalog,
        ),
        _ => vstd::pervasive::unreached(),
    }
}

// ---- operations on the deck ----
/// The deck with the listed cards removed.
pub open spec fn removed_all(d: Map<u128, Card>, cards: Seq<DeckCard>) -> Map<u128, Card>
    decreases cards.len(),
{
    if cards.len() == 0 {
        d
    } else {
        removed_all(d, cards.drop_last()).remove(cards.last().uuid)
    }
}

/// The deck with the listed cards bottled.
pub open spec fn bottled_all(d: Map<u128, Card>, cards: Seq<DeckCard>) -> Map<u128, Card>
    decreases cards.len(),
{
    if cards.len() == 0 {
        d
    } else {
        let before = bottled_all(d, cards.drop_last());
        before.insert(cards.last().uuid, Card { bottled: true, ..before[cards.last().uuid] })
    }
}

/// Whether `d1` is the deck `d0` with the listed cards upgraded, one after the other.
pub open spec fn upgraded_all(d0: Map<u128, Card>, d1: Map<u128, Card>, cards: Seq<DeckCard>) -> bool
    decreases cards.len(),
{
    if cards.len() == 0 {
        d1 == d0
    } else {
        exists|dm: Map<u128, Card>, n: Card|
            #![trigger upgrade_of(dm[cards.last().uuid], n)]
        {
            &&& upgraded_all(d0, dm, cards.drop_last())
            &&& upgrade_of(dm[cards.last().uuid], n)
            &&& d1 == dm.insert(cards.last().uuid, n)
        }
    }
}

/// A copy of a card under another identifier.
pub open spec fn copy_under(c: Card, u: u128) -> Card {
    Card { uuid: u, ..c }
}

/// Whether `d1` is the deck `d0` with a copy of each listed card added, one after the
/// other, each under a new identifier.
pub open spec fn duplicated_all(d0: Map<u128, Card>, d1: Map<u128, Card>, cards: Seq<DeckCard>) -> bool
    decreases cards.len(),
{
    if cards.len() == 0 {
        d1 == d0
    } else {
        exists|dm: Map<u128, Card>, u: u128|
            #![trigger copy_under(dm[cards.last().uuid], u)]
        {
            &&& duplicated_all(d0, dm, cards.drop_last())
            &&& d1 == dm.insert(u, copy_under(dm[cards.last().uuid], u))
        }
    }
}

/// Whether the listed cards can go through an operation on the deck other than a
/// transform (see `transform_ok`): they are in the deck, each once; cards to upgrade can
/// be upgraded.
pub open spec fn deck_op_ok(g: GameState, cards: Seq<DeckCard>, op: DeckOperation) -> bool {
    let d = deck_cards(g.deck);
    &&& forall|i: int| 0 <= i < cards.len() ==> d.contains_key(#[trigger] cards[i].uuid)
    &&& forall|i: int, j: int| 0 <= i < j < cards.len() ==> (#[trigger] cards[i]).uuid != (#[trigger] cards[j]).uuid
    &&& op == DeckOperation::Upgrade ==> forall|i: int| 0 <= i < cards.len() ==> upgrade_ready(d[(#[trigger] cards[i]).uuid])
    &&& !(op is Transform || op is TransformUpgrade)
}

/// Whether `g1` is the run `g0` after an operation on the listed cards of the deck:
/// copied, removed, upgraded or bottled.
pub open spec fn deck_operated(g0: GameState, g1: GameState, cards: Seq<DeckCard>, op: DeckOperation) -> bool {
    let d0 = deck_cards(g0.deck);
    let d1 = deck_cards(g1.deck);
    &&& g1 == (GameState { deck: g1.deck, ..g0 })
    &&& match op {
        DeckOperation::Duplicate => duplicated_all(d0, d1, cards),
        DeckOperation::Remove => d1 == removed_all(d0, cards),
        DeckOperation::Upgrade => upgraded_all(d0, d1, cards),
        DeckOperation::BottleFlame | DeckOperation::BottleLightning | DeckOperation::BottleTornado => d1 == bottled_all(d0, cards),
        _ => false,
    }
}

/// One more card copied.
proof fn lemma_duplicated_step(d0: Map<u128, Card>, dm: Map<u128, Card>, cards: Seq<DeckCard>, u: u128)
    requires
        cards.len() > 0,
        duplicated_all(d0, dm, cards.drop_last()),
    ensures
        duplicated_all(d0, dm.insert(u, copy_under(dm[cards.last().uuid], u)), cards),
{
}

/// One more card upgraded.
proof fn lemma_upgraded_step(d0: Map<u128, Card>, dm: Map<u128, Card>, cards: Seq<DeckCard>, n: Card)
    requires
        cards.len() > 0,
        upgraded_all(d0, dm, cards.drop_last()),
        upgrade_of(dm[cards.last().uuid], n),
    ensures
        upgraded_all(d0, dm.insert(cards.last().uuid, n), cards),
{
}

/// Each card of a list without repeats, other than the one at `i`, is not the card at
/// `i`.
proof fn lemma_other_cards(cards: Seq<DeckCard>, i: int)
    requires
        0 <= i < cards.len(),
        forall|a: int, b: int| 0 <= a < b < cards.len() ==> (#[trigger] cards[a]).uuid != (#[trigger] cards[b]).uuid,
    ensures
        forall|a: int| 0 <= a < i ==> (#[trigger] cards[a]).uuid != cards[i].uuid,
{
}

/// Carries out an operation on the listed cards of the deck of a run.
fn deck_op(game: &mut GameState, cards: &Vec<DeckCard>, op: DeckOperation)
    requires
        deck_op_ok(*old(game), cards@, op),
    ensures
        deck_operated(*old(game), *final(game), cards@, op),
{
    let ghost d0 = deck_cards(game.deck);
    let mut i: usize = 0;
    while i < cards.len()
        invariant
            0 <= i <= cards@.len(),
            deck_op_ok(*old(game), cards@, op),
            d0 == deck_cards(old(game).deck),
            *game == (GameState { deck: game.deck, ..*old(game) }),
            op != DeckOperation::Duplicate ==> forall|k: u128| #[trigger] deck_cards(game.deck).contains_key(k) && !(exists|a: int| 0 <= a < i && (#[trigger] cards@[a]).uuid == k)
                ==> d0.contains_key(k) && deck_cards(game.deck)[k] == d0[k],
            op != DeckOperation::Remove ==> forall|k: u128| d0.contains_key(k) ==> #[trigger] deck_cards(game.deck).contains_key(k),
            op != DeckOperation::Duplicate ==> forall|k: u128| #[trigger] deck_cards(game.deck).contains_key(k) ==> d0.contains_key(k),
            match op {
                DeckOperation::Duplicate => duplicated_all(d0, deck_cards(game.deck), cards@.take(i as int)),
                DeckOperation::Remove => deck_cards(game.deck) == removed_all(d0, cards@.take(i as int)),
                DeckOperation::Upgrade => upgraded_all(d0, deck_cards(game.deck), cards@.take(i as int)),
                DeckOperation::BottleFlame | DeckOperation::BottleLightning | DeckOperation::BottleTornado => deck_cards(game.deck)
                    == bottled_all(d0, cards@.take(i as int)),
                _ => false,
            },
        decreases cards@.len() - i,
    {
        let card = cards[i];
        let ghost dm = deck_cards(game.deck);
        assert(cards@.take(i + 1).drop_last() == cards@.take(i as int));
        assert(cards@.take(i + 1).last() == card);
        proof {
            lemma_other_cards(cards@, i as int);
            assert(d0.contains_key(card.uuid));
            if op != DeckOperation::Duplicate {
                if !dm.contains_key(card.uuid) {
                } else {
                    assert(dm[card.uuid] == d0[card.uuid]);
                }
            }
        }
        match op {
            DeckOperation::Duplicate => {
                let copy = match deck_get(&game.deck, card.uuid) {
                    Some(c) => c,
                    None => vstd::pervasive::unreached(),
                };
                let uuid = new_uuid();
                deck_insert(&mut game.deck, uuid, Card { uuid, ..copy });
                proof {
                    let t = cards@.take(i + 1);
                    assert(duplicated_all(d0, dm, t.drop_last()));
                    assert(copy_under(dm[t.last().uuid], uuid) == Card { uuid, ..copy });
                    assert(deck_cards(game.deck) == dm.insert(uuid, copy_under(dm[t.last().uuid], uuid)));
                    assert(t.len() > 0);
                    lemma_duplicated_step(d0, dm, t, uuid);
                    assert(duplicated_all(d0, deck_cards(game.deck), t));
                }
            },
            DeckOperation::Remove => {
                game.remove_card(card.uuid);
            },
            DeckOperation::Upgrade => {
                let mut c = match deck_get(&game.deck, card.uuid) {
                    Some(c) => c,
                    None => vstd::pervasive::unreached(),
                };
                let ghost o = c;
                c.upgrade();
                deck_insert(&mut game.deck, card.uuid, c);
                proof {
                    let t = cards@.take(i + 1);
                    assert(upgraded_all(d0, dm, t.drop_last()));
                    assert(upgrade_of(dm[t.last().uuid], c));
                    assert(deck_cards(game.deck) == dm.insert(t.last().uuid, c));
                    lemma_upgraded_step(d0, dm, t, c);
                    assert(upgraded_all(d0, deck_cards(game.deck), t));
                }
            },
            DeckOperation::BottleFlame | DeckOperation::BottleLightning | DeckOperation::BottleTornado => {
                let c = match deck_get(&game.deck, card.uuid) {
                    Some(c) => c,
                    None => vstd::pervasive::unreached(),
                };
                deck_insert(&mut game.deck, card.uuid, Card { bottled: true, ..c });
            },
            _ => vstd::pervasive::unreached(),
        }
        i = i + 1;
    }
    assert(cards@.take(cards@.len() as int) == cards@);
}

} // verus!
