use spireai::comm::interop::{floor_state_matches, relics_match, state_matches};
use spireai::models::cards::BaseCard;
use spireai::models::common::{Amount, CardType, Class, Condition, Rarity, When};
use spireai::models::relics::{Activation, BaseRelic};
use spireai::serialization as external;
use spireai::state::common::{Relic, Vars};
use spireai::state::floor::FloorState;
use spireai::state::game::GameState;

fn card(name: &str, card_type: CardType, cost: Amount) -> &'static BaseCard {
    Box::leak(Box::new(BaseCard {
        name: name.to_string(),
        _type: card_type,
        _class: Class::Ironclad,
        cost,
        rarity: Rarity::Starter,
        playable_if: Condition::Always,
        on_start: vec![],
        on_play: vec![],
        on_discard: vec![],
        on_draw: vec![],
        on_exhaust: vec![],
        on_retain: vec![],
        on_turn_end: vec![],
        innate: Condition::Never,
        retain: Condition::Never,
        targeted: Condition::Never,
    }))
}

fn relic(name: &str) -> &'static BaseRelic {
    Box::leak(Box::new(BaseRelic {
        name: name.to_string(),
        rarity: Rarity::Starter,
        activation: Activation::Custom,
        effect: vec![],
        disable_at: When::Never,
        class: Class::All,
        energy_relic: false,
        replaces_starter: false,
        starting_x: 0,
        max_floor: 0,
        shop_relic: false,
    }))
}

fn new_game() -> GameState {
    let cards = vec![
        card("Strike", CardType::Attack, Amount::Upgradable { amount: 1, upgraded: 1 }),
        card("Defend", CardType::Skill, Amount::Upgradable { amount: 1, upgraded: 1 }),
        card("Bash", CardType::Attack, Amount::Upgradable { amount: 2, upgraded: 2 }),
        card("Ascender's Bane", CardType::Curse, Amount::Fixed(0)),
    ];
    let relics = vec![relic("Burning Blood")];
    GameState::new(Class::Ironclad, 0, &cards, &relics)
}

fn reported_card(id: &str, name: &str, upgrades: i32, cost: i32) -> external::Card {
    external::Card {
        id: id.to_string(),
        name: name.to_string(),
        card_type: external::CardType::Attack,
        rarity: external::CardRarity::Basic,
        upgrades,
        has_target: false,
        cost,
        uuid: id.to_string(),
        misc: None,
        price: None,
        is_playable: true,
        exhausts: false,
    }
}

fn reported_relic(id: &str, name: &str) -> external::Relic {
    external::Relic { id: id.to_string(), name: name.to_string(), counter: -1, price: None }
}

fn empty_slot() -> external::Potion {
    external::Potion {
        id: "Potion Slot".to_string(),
        name: "Potion Slot".to_string(),
        can_use: false,
        can_discard: false,
        requires_target: false,
        price: None,
    }
}

fn reported_game(game: &GameState) -> external::GameState {
    let deck = game
        .deck
        .values()
        .enumerate()
        .map(|(i, c)| reported_card(&format!("card-{}", i), &c.base.name, c.upgrades as i32, c.cost as i32))
        .collect();
    external::GameState {
        current_action: None,
        current_hp: game.hp.amount as i32,
        max_hp: game.hp.max as i32,
        floor: game.map.floor as i32,
        act: game.act as i32,
        gold: game.gold as i32,
        seed: 0,
        class: external::PlayerClass::Ironclad,
        ascension_level: game.asc as i32,
        relics: vec![reported_relic("relic-0", "Burning Blood")],
        deck,
        map: vec![],
        potions: vec![empty_slot(), empty_slot(), empty_slot()],
        act_boss: None,
        is_screen_up: false,
        room_phase: external::RoomPhase::Complete,
        room_type: "Event".to_string(),
        combat_state: None,
        screen_state: external::ScreenState::MapScreen(external::MapChoice {
            current_node: None,
            next_nodes: None,
            boss_available: false,
        }),
        choice_list: vec![],
    }
}

#[test]
fn without_a_game_only_the_menu_matches() {
    let mut uuid_map: im::HashMap<String, u128> = im::HashMap::new();
    assert!(state_matches(&None, &FloorState::Menu, &mut uuid_map));
    assert!(!state_matches(&None, &FloorState::GameOver(false), &mut uuid_map));
    assert!(uuid_map.is_empty());
}

#[test]
fn a_run_on_the_map_matches_and_learns_the_identifiers() {
    let game = new_game();
    let reported = reported_game(&game);
    let mut uuid_map: im::HashMap<String, u128> = im::HashMap::new();
    assert!(state_matches(&Some(reported), &FloorState::OnMap(game.clone()), &mut uuid_map));
    assert_eq!(uuid_map.len(), 11);
    for i in 0..10 {
        let uuid = uuid_map[&format!("card-{}", i)];
        assert!(game.deck.contains_key(&uuid));
    }
    let relic_uuid = uuid_map["relic-0"];
    assert_eq!(game.relics.relics[&relic_uuid].base.name, "Burning Blood");
    // a second time, every identifier is known and points at what it is
    let again = reported_game(&game);
    let before = uuid_map.clone();
    assert!(state_matches(&Some(again), &FloorState::OnMap(game.clone()), &mut uuid_map));
    assert_eq!(uuid_map, before);
}

#[test]
fn a_run_with_other_gold_does_not_match() {
    let game = new_game();
    let mut reported = reported_game(&game);
    reported.gold = 100;
    let mut uuid_map: im::HashMap<String, u128> = im::HashMap::new();
    assert!(!state_matches(&Some(reported), &FloorState::OnMap(game), &mut uuid_map));
    assert!(uuid_map.is_empty());
}

#[test]
fn a_run_with_another_card_does_not_match() {
    let game = new_game();
    let mut reported = reported_game(&game);
    reported.deck[0] = reported_card("card-0", "Anger", 0, 0);
    let mut uuid_map: im::HashMap<String, u128> = im::HashMap::new();
    assert!(!state_matches(&Some(reported), &FloorState::OnMap(game), &mut uuid_map));
}

#[test]
fn upgraded_cards_are_named_with_a_plus() {
    let mut game = new_game();
    let uuid = *game.deck.keys().next().unwrap();
    let mut upgraded = game.deck[&uuid];
    upgraded.upgrades = 1;
    game.deck.insert(uuid, upgraded);
    let mut reported = reported_game(&game);
    let index = game.deck.keys().position(|u| *u == uuid).unwrap();
    let name = format!("{}+", upgraded.base.name);
    reported.deck[index] = reported_card(&format!("card-{}", index), &name, 1, upgraded.cost as i32);
    let mut uuid_map: im::HashMap<String, u128> = im::HashMap::new();
    assert!(state_matches(&Some(reported), &FloorState::OnMap(game), &mut uuid_map));
    assert_eq!(uuid_map[&format!("card-{}", index)], uuid);
}

#[test]
fn the_map_screen_is_the_map() {
    let game = new_game();
    let reported = reported_game(&game);
    let mut uuid_map: im::HashMap<String, u128> = im::HashMap::new();
    assert!(floor_state_matches(&reported, &FloorState::OnMap(game.clone()), &mut uuid_map));
    assert!(!floor_state_matches(&reported, &FloorState::GameOver(true), &mut uuid_map));
}

#[test]
fn relics_match_by_count_and_name() {
    let base = relic("Anchor");
    let mut internal = im::HashMap::new();
    internal.insert(7u128, Relic { base, uuid: 7, vars: Vars { n: 0, n_reset: 0, x: 0 }, enabled: true });
    let mut uuid_map: im::HashMap<String, u128> = im::HashMap::new();
    assert!(!relics_match(&vec![], &internal, &mut uuid_map));
    assert!(!relics_match(&vec![reported_relic("x", "Lantern")], &internal, &mut uuid_map));
    assert!(uuid_map.is_empty());
    assert!(relics_match(&vec![reported_relic("x", "Anchor")], &internal, &mut uuid_map));
    assert_eq!(uuid_map["x"], 7);
    // the known identifier now points at the relic, which is checked by name
    assert!(relics_match(&vec![reported_relic("x", "Anchor")], &internal, &mut uuid_map));
}
