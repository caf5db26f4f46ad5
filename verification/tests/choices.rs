use spireai::models::cards::BaseCard;
use spireai::models::choices::Choice;
use spireai::models::common::{Amount, CardType, ChestType, Class, Condition, DeckOperation, Rarity, When};
use spireai::models::events::BaseEvent;
use spireai::models::relics::{Activation, BaseRelic};
use spireai::spireai::enumerator::all_choices;
use spireai::state::common::Vars;
use spireai::state::event::EventState;
use spireai::state::floor::{ChestState, FloorState, KeyState, RestScreenState, RestState};
use spireai::state::game::GameState;
use spireai::state::map::MapState;
use spireai::state::probability::Probability;
use spireai::state::shop::{ShopScreenState, ShopState};

fn choice_card(name: &str, card_type: CardType) -> &'static BaseCard {
    Box::leak(Box::new(BaseCard {
        name: name.to_string(),
        _type: card_type,
        _class: Class::Ironclad,
        cost: Amount::Fixed(1),
        rarity: Rarity::Starter,
        playable_if: Condition::Always,
        on_start: vec![],
        on_play: vec![],
        on_discard: vec![],
        on_draw: vec![],
        on_exhaust: vec![],
        on_retain: vec![],
        on_turn_end: vec![],
        innate: Condition::Never,
        retain: Condition::Never,
        targeted: Condition::Never,
    }))
}

fn choice_relic(name: &str) -> &'static BaseRelic {
    Box::leak(Box::new(BaseRelic {
        name: name.to_string(),
        rarity: Rarity::Common,
        activation: Activation::Custom,
        effect: vec![],
        disable_at: When::Never,
        class: Class::All,
        energy_relic: false,
        replaces_starter: false,
        starting_x: 0,
        max_floor: 0,
        shop_relic: false,
    }))
}

fn run() -> GameState {
    let cards = vec![
        choice_card("Strike", CardType::Attack),
        choice_card("Defend", CardType::Skill),
        choice_card("Bash", CardType::Attack),
    ];
    GameState::new(Class::Ironclad, 0, &cards, &[choice_relic("Burning Blood")])
}

#[test]
fn closed_chest_can_be_opened_or_left() {
    let state = FloorState::Chest(ChestState { chest: ChestType::Small, rewards: None, game_state: run() });
    assert_eq!(all_choices(&state), vec![Choice::OpenChest, Choice::Proceed]);
}

#[test]
fn shop_entrance_choices() {
    let state = FloorState::Shop(ShopState {
        generated: false,
        updated: false,
        cards: im::Vector::new(),
        potions: im::Vector::new(),
        relics: im::Vector::new(),
        can_purge: true,
        game_state: run(),
        screen_state: ShopScreenState::Entrance,
    });
    assert_eq!(all_choices(&state), vec![Choice::EnterShop, Choice::Proceed]);
}

#[test]
fn empty_shop_offers_the_purge_of_each_removable_card() {
    let state = FloorState::Shop(ShopState {
        generated: true,
        updated: true,
        cards: im::Vector::new(),
        potions: im::Vector::new(),
        relics: im::Vector::new(),
        can_purge: true,
        game_state: run(),
        screen_state: ShopScreenState::InShop,
    });
    let choices = all_choices(&state);
    assert_eq!(choices.len(), 10);
    assert!(choices.iter().all(|c| matches!(c, Choice::BuyRemoveCard(_))));
}

#[test]
fn rest_site_menu() {
    let mut game_state = run();
    game_state.keys = Some(KeyState { ruby: false, emerald: false, sapphire: false });
    let state = FloorState::Rest(RestState { screen_state: RestScreenState::IShouldRest, game_state });
    assert_eq!(all_choices(&state), vec![Choice::Rest, Choice::Smith, Choice::Recall]);
}

#[test]
fn rest_site_menu_with_relics() {
    let mut game_state = run();
    game_state.relics.add(choice_relic("Coffee Dripper"));
    game_state.relics.add(choice_relic("Shovel"));
    game_state.relics.add(choice_relic("Peace Pipe"));
    game_state.relics.add(choice_relic("Girya"));
    let state = FloorState::Rest(RestState { screen_state: RestScreenState::IShouldRest, game_state });
    assert_eq!(all_choices(&state), vec![Choice::Smith, Choice::Lift, Choice::Dig, Choice::Toke]);
}

#[test]
fn smithing_selects_each_upgradable_card() {
    let state = FloorState::Rest(RestState { screen_state: RestScreenState::Smith, game_state: run() });
    let choices = all_choices(&state);
    assert_eq!(choices.len(), 10);
    assert!(choices
        .iter()
        .all(|c| matches!(c, Choice::DeckSelect(cards, DeckOperation::Upgrade) if cards.len() == 1)));
}

#[test]
fn first_floor_offers_each_node_of_the_first_row() {
    let mut game_state = run();
    let mut map = MapState::new();
    map.generate(false, false, &mut Probability::new());
    let expected: Vec<Choice> = (0..7)
        .filter_map(|x| map.nodes[x].map(|n| Choice::NavigateToNode(n.x)))
        .collect();
    game_state.map = map;
    let state = FloorState::OnMap(game_state);
    assert_eq!(all_choices(&state), expected);
    assert!(!expected.is_empty());
}

#[test]
fn potions_can_be_discarded() {
    let mut game_state = run();
    let potion = Box::leak(Box::new(spireai::models::potions::BasePotion {
        name: "Fire Potion".to_string(),
        class: Class::All,
        rarity: Rarity::Common,
        on_drink: vec![],
        targeted: true,
    }));
    assert!(game_state.add_potion(potion));
    let state = FloorState::Chest(ChestState { chest: ChestType::Small, rewards: None, game_state });
    assert_eq!(
        all_choices(&state),
        vec![Choice::DiscardPotion { slot: 0 }, Choice::OpenChest, Choice::Proceed]
    );
}

#[test]
fn event_offers_its_choices() {
    let base: &'static BaseEvent = Box::leak(Box::new(BaseEvent {
        name: "Test Event".to_string(),
        choices: vec![],
        shrine: false,
        variants: vec![],
        condition: Condition::Always,
    }));
    let state = FloorState::Event(EventState {
        base,
        game_state: run(),
        vars: Vars { n: 0, n_reset: 0, x: 0 },
        variant: None,
        variant_cards: vec![],
        variant_relics: vec![],
        variant_amount: None,
        available_choices: vec!["Fight".to_string(), "Leave".to_string()],
        screen_state: None,
    });
    assert_eq!(
        all_choices(&state),
        vec![Choice::Event("Fight".to_string()), Choice::Event("Leave".to_string())]
    );
}
