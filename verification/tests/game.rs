use spireai::models::cards::BaseCard;
use spireai::models::common::{Amount, CardType, Class, Condition, Rarity, When};
use spireai::models::relics::{Activation, BaseRelic};
use spireai::state::common::{Card, HpRange};
use spireai::state::game::GameState;

fn card(name: &str, card_type: CardType, cost: Amount) -> &'static BaseCard {
    Box::leak(Box::new(BaseCard {
        name: name.to_string(),
        _type: card_type,
        _class: Class::Ironclad,
        cost,
        rarity: Rarity::Starter,
        playable_if: Condition::Always,
        on_start: vec![],
        on_play: vec![],
        on_discard: vec![],
        on_draw: vec![],
        on_exhaust: vec![],
        on_retain: vec![],
        on_turn_end: vec![],
        innate: Condition::Never,
        retain: Condition::Never,
        targeted: Condition::Never,
    }))
}

fn relic(name: &str) -> &'static BaseRelic {
    Box::leak(Box::new(BaseRelic {
        name: name.to_string(),
        rarity: Rarity::Starter,
        activation: Activation::Custom,
        effect: vec![],
        disable_at: When::Never,
        class: Class::All,
        energy_relic: false,
        replaces_starter: false,
        starting_x: 0,
        max_floor: 0,
        shop_relic: false,
    }))
}

fn catalog() -> Vec<&'static BaseCard> {
    vec![
        card("Strike", CardType::Attack, Amount::Upgradable { amount: 1, upgraded: 1 }),
        card("Defend", CardType::Skill, Amount::Upgradable { amount: 1, upgraded: 1 }),
        card("Bash", CardType::Attack, Amount::Upgradable { amount: 2, upgraded: 2 }),
        card("Ascender's Bane", CardType::Curse, Amount::Fixed(0)),
    ]
}

fn relics() -> Vec<&'static BaseRelic> {
    vec![relic("Burning Blood"), relic("Membership Card")]
}

#[test]
fn new_ironclad_starts_with_its_deck_and_relic() {
    let state = GameState::new(Class::Ironclad, 0, &catalog(), &relics());
    assert_eq!(state.gold, 99);
    assert_eq!(state.hp, HpRange { amount: 80, max: 80 });
    assert_eq!(state.act, 1);
    assert_eq!(state.deck().len(), 10);
    assert!(state.relics.contains("Burning Blood"));
    assert!(!state.relics.contains("Membership Card"));
    assert_eq!(state.potions.len(), 3);
}

#[test]
fn new_ironclad_at_high_ascension() {
    let state = GameState::new(Class::Ironclad, 20, &catalog(), &relics());
    assert_eq!(state.hp.max, 75);
    assert_eq!(state.hp.amount, 68);
    assert_eq!(state.deck().len(), 11);
    assert_eq!(state.potions.len(), 2);
    assert_eq!(state.removable_cards().len(), 10);
}

#[test]
fn heal_stops_at_maximum() {
    let mut state = GameState::new(Class::Ironclad, 6, &catalog(), &relics());
    assert_eq!(state.hp.amount, 72);
    state.heal(5);
    assert_eq!(state.hp.amount, 77);
    state.heal(50);
    assert_eq!(state.hp.amount, 80);
}

#[test]
fn max_hp_raises_both() {
    let mut state = GameState::new(Class::Ironclad, 0, &catalog(), &relics());
    state.add_max_hp(7);
    assert_eq!(state.hp, HpRange { amount: 87, max: 87 });
}

#[test]
fn gold_is_added() {
    let mut state = GameState::new(Class::Ironclad, 0, &catalog(), &relics());
    state.add_gold(21);
    assert_eq!(state.gold, 120);
}

#[test]
fn removed_card_leaves_the_deck() {
    let mut state = GameState::new(Class::Ironclad, 0, &catalog(), &relics());
    let first = state.deck()[0];
    state.remove_card(first.uuid);
    assert_eq!(state.deck().len(), 9);
    assert!(state.deck().iter().all(|c| c.uuid != first.uuid));
}

#[test]
fn upgradable_cards_are_the_unupgraded_attacks_and_skills() {
    let mut state = GameState::new(Class::Ironclad, 10, &catalog(), &relics());
    assert_eq!(state.upgradable_cards().len(), 10);
    let bane = catalog()[3];
    state.add_card(Card::new(bane));
    assert_eq!(state.upgradable_cards().len(), 10);
    assert_eq!(state.deck().len(), 12);
}

#[test]
fn second_upgrade_changes_nothing() {
    let strike = card("Strike", CardType::Attack, Amount::Upgradable { amount: 1, upgraded: 0 });
    let mut c = Card::new(strike);
    assert_eq!(c.cost, 1);
    c.upgrade();
    assert_eq!(c.upgrades, 1);
    assert_eq!(c.cost, 0);
    assert_eq!(c.base_cost, 0);
    let once = c;
    c.upgrade();
    assert_eq!(c, once);
}

#[test]
fn hp_range_new_is_full() {
    assert_eq!(HpRange::new(45), HpRange { amount: 45, max: 45 });
}

#[test]
fn reducing_max_hp_caps_hit_points() {
    let mut hp = HpRange { amount: 40, max: 50 };
    hp.reduce_max_hp(15);
    assert_eq!(hp, HpRange { amount: 35, max: 35 });
    let mut low = HpRange { amount: 10, max: 50 };
    low.reduce_max_hp(15);
    assert_eq!(low, HpRange { amount: 10, max: 35 });
}

#[test]
fn hp_range_add_stops_at_max() {
    let mut hp = HpRange { amount: 10, max: 20 };
    hp.add(5);
    assert_eq!(hp.amount, 15);
    hp.add(100);
    assert_eq!(hp.amount, 20);
}

#[test]
fn removing_an_added_relic_restores_the_relics() {
    let mut state = GameState::new(Class::Ironclad, 0, &catalog(), &relics());
    let before = state.relics.clone();
    let added: &'static BaseRelic = Box::leak(Box::new(BaseRelic {
        name: "Pen Nib".to_string(),
        rarity: Rarity::Common,
        activation: Activation::When(When::PlayCard(CardType::Attack)),
        effect: vec![],
        disable_at: When::Never,
        class: Class::All,
        energy_relic: false,
        replaces_starter: false,
        starting_x: 0,
        max_floor: 0,
        shop_relic: false,
    }));
    state.relics.add(added);
    assert!(state.relics.contains("Pen Nib"));
    state.relics.remove("Pen Nib");
    assert!(!state.relics.contains("Pen Nib"));
    assert_eq!(state.relics.relics, before.relics);
    assert_eq!(state.relics.relic_names, before.relic_names);
    assert!(state.relics.relic_whens.values().all(|list| list.is_empty() || before.relic_whens.values().any(|l| l == list)));
}
