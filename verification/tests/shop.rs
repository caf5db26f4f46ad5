use spireai::models::cards::BaseCard;
use spireai::models::common::{Amount, CardType, Class, Condition, Rarity, When};
use spireai::models::relics::{Activation, BaseRelic};
use spireai::state::game::GameState;
use spireai::state::shop::{ShopScreenState, ShopState};

fn shop_card(name: &str, card_type: CardType) -> &'static BaseCard {
    Box::leak(Box::new(BaseCard {
        name: name.to_string(),
        _type: card_type,
        _class: Class::Ironclad,
        cost: Amount::Fixed(1),
        rarity: Rarity::Starter,
        playable_if: Condition::Always,
        on_start: vec![],
        on_play: vec![],
        on_discard: vec![],
        on_draw: vec![],
        on_exhaust: vec![],
        on_retain: vec![],
        on_turn_end: vec![],
        innate: Condition::Never,
        retain: Condition::Never,
        targeted: Condition::Never,
    }))
}

fn shop_relic(name: &str) -> &'static BaseRelic {
    Box::leak(Box::new(BaseRelic {
        name: name.to_string(),
        rarity: Rarity::Shop,
        activation: Activation::Custom,
        effect: vec![],
        disable_at: When::Never,
        class: Class::All,
        energy_relic: false,
        replaces_starter: false,
        starting_x: 0,
        max_floor: 0,
        shop_relic: true,
    }))
}

fn shop_with(relics: &[&str], purge_count: u8) -> ShopState {
    let cards = vec![
        shop_card("Strike", CardType::Attack),
        shop_card("Defend", CardType::Skill),
        shop_card("Bash", CardType::Attack),
    ];
    let catalog = vec![shop_relic("Burning Blood")];
    let mut game_state = GameState::new(Class::Ironclad, 0, &cards, &catalog);
    for name in relics {
        game_state.relics.add(shop_relic(name));
    }
    game_state.purge_count = purge_count;
    ShopState {
        generated: false,
        updated: false,
        cards: im::Vector::new(),
        potions: im::Vector::new(),
        relics: im::Vector::new(),
        can_purge: true,
        game_state,
        screen_state: ShopScreenState::InShop,
    }
}

#[test]
fn purge_cost_grows_with_each_removal() {
    assert_eq!(shop_with(&[], 0).purge_cost(), 75);
    assert_eq!(shop_with(&[], 1).purge_cost(), 100);
    assert_eq!(shop_with(&[], 4).purge_cost(), 175);
}

#[test]
fn purge_cost_with_relics() {
    assert_eq!(shop_with(&["Smiling Mask"], 3).purge_cost(), 50);
    assert_eq!(shop_with(&["Membership Card"], 0).purge_cost(), 38);
    assert_eq!(shop_with(&["The Courier"], 0).purge_cost(), 60);
    assert_eq!(shop_with(&["Membership Card", "The Courier"], 0).purge_cost(), 45);
    assert_eq!(shop_with(&["Membership Card", "The Courier"], 1).purge_cost(), 61);
    assert_eq!(shop_with(&["Membership Card", "The Courier"], 2).purge_cost(), 75);
    assert_eq!(shop_with(&["Membership Card", "The Courier"], 4).purge_cost(), 106);
    assert_eq!(shop_with(&["Membership Card", "The Courier"], 5).purge_cost(), 121);
    assert_eq!(shop_with(&["Smiling Mask"], 9).purge_cost(), 50);
}

#[test]
fn discount_fractions() {
    assert_eq!(shop_with(&[], 0).get_discount(), (5, 5));
    assert_eq!(shop_with(&["The Courier"], 0).get_discount(), (4, 5));
    assert_eq!(shop_with(&["Membership Card"], 0).get_discount(), (5, 10));
    assert_eq!(shop_with(&["Membership Card", "The Courier"], 0).get_discount(), (4, 10));
}

#[test]
fn purge_takes_gold_and_card() {
    let mut shop = shop_with(&[], 0);
    let card = shop.game_state.deck()[0];
    shop.purge(card);
    assert_eq!(shop.game_state.gold, 24);
    assert_eq!(shop.game_state.deck().len(), 9);
    assert_eq!(shop.game_state.purge_count, 1);
    assert!(!shop.can_purge);
}

#[test]
fn spend_gold_lowers_gold() {
    let mut shop = shop_with(&[], 0);
    shop.spend_gold(40);
    assert_eq!(shop.game_state.gold, 59);
}
