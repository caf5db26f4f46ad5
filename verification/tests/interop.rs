use spireai::comm::interop::{convert_node, relic_matches};
use spireai::models::common::{
    is_one, is_true, one, CardDestination, CardLocation, CardType, Class, FightType, Rarity, RelativePosition, RoomType, When,
};
use spireai::models::monsters::Intent as MonsterIntent;
use spireai::models::relics::{Activation, BaseRelic};
use spireai::serialization as external;
use spireai::serialization::{convert_intent, convert_room};
use spireai::state::common::{Relic, Vars};
use spireai::state::map::MapNodeIcon;

fn node(x: i32, y: i32, symbol: char, children: Vec<i32>) -> external::MapNode {
    external::MapNode {
        x,
        y,
        symbol,
        children: children.into_iter().map(|cx| external::MapNode { x: cx, y: y + 1, symbol: 'M', children: vec![] }).collect(),
    }
}

#[test]
fn node_paths_follow_children() {
    let n = convert_node(&node(3, 2, '?', vec![2, 4]));
    assert_eq!((n.x, n.y), (3, 2));
    assert!(n.left && !n.up && n.right);
    assert_eq!(n.icon, MapNodeIcon::Question);
    let m = convert_node(&node(0, 5, 'R', vec![0]));
    assert!(!m.left && m.up && !m.right);
    assert_eq!(m.icon, MapNodeIcon::Campfire);
}

#[test]
fn node_symbols() {
    assert_eq!(convert_node(&node(1, 1, 'M', vec![])).icon, MapNodeIcon::Monster);
    assert_eq!(convert_node(&node(1, 1, '$', vec![])).icon, MapNodeIcon::Shop);
    assert_eq!(convert_node(&node(1, 1, 'T', vec![])).icon, MapNodeIcon::Chest);
    assert_eq!(convert_node(&node(1, 1, 'E', vec![])).icon, MapNodeIcon::Elite);
}

#[test]
fn relics_match_by_name() {
    let base: &'static BaseRelic = Box::leak(Box::new(BaseRelic {
        name: "Anchor".to_string(),
        rarity: Rarity::Common,
        activation: Activation::Custom,
        effect: vec![],
        disable_at: When::Never,
        class: Class::All,
        energy_relic: false,
        replaces_starter: false,
        starting_x: 0,
        max_floor: 0,
        shop_relic: false,
    }));
    let internal = Relic { base, uuid: 1, vars: Vars { n: 0, n_reset: 0, x: 0 }, enabled: true };
    let same = external::Relic { id: "Anchor".to_string(), name: "Anchor".to_string(), counter: -1, price: None };
    let other = external::Relic { id: "Lantern".to_string(), name: "Lantern".to_string(), counter: -1, price: None };
    assert!(relic_matches(&same, &internal));
    assert!(!relic_matches(&other, &internal));
}

#[test]
fn rooms_of_the_client() {
    assert_eq!(convert_room(&"Rest".to_string()), RoomType::Rest);
    assert_eq!(convert_room(&"HallwayFight".to_string()), RoomType::Fight(FightType::Common));
    assert_eq!(convert_room(&"Elite".to_string()), RoomType::Fight(FightType::Elite { burning: false }));
    assert_eq!(convert_room(&"Boss".to_string()), RoomType::Fight(FightType::Boss));
    assert_eq!(convert_room(&"Treasure".to_string()), RoomType::Treasure);
}

#[test]
fn intents_of_the_client() {
    assert_eq!(convert_intent(&external::Intent::Attack), MonsterIntent::Attack);
    assert_eq!(convert_intent(&external::Intent::AttackDefend), MonsterIntent::AttackDefend);
    assert_eq!(convert_intent(&external::Intent::Sleep), MonsterIntent::Sleep);
}

#[test]
fn card_types_match_themselves_and_all() {
    assert!(CardType::All.matches(CardType::Skill));
    assert!(CardType::Attack.matches(CardType::Attack));
    assert!(!CardType::Attack.matches(CardType::Skill));
}

#[test]
fn destinations_have_piles() {
    assert_eq!(CardDestination::DrawPile(RelativePosition::Bottom).location(), CardLocation::DrawPile);
    assert_eq!(CardDestination::PlayerHand.location(), CardLocation::PlayerHand);
    assert_eq!(CardDestination::DiscardPile.location(), CardLocation::DiscardPile);
    assert_eq!(CardDestination::ExhaustPile.location(), CardLocation::ExhaustPile);
}

#[test]
fn small_helpers() {
    assert!(is_true(&true));
    assert!(!is_true(&false));
    assert_eq!(one(), 1);
    assert!(is_one(&1));
    assert!(!is_one(&2));
}

fn shop_card(name: &str) -> &'static spireai::models::cards::BaseCard {
    Box::leak(Box::new(spireai::models::cards::BaseCard {
        name: name.to_string(),
        _type: CardType::Attack,
        _class: Class::Ironclad,
        cost: spireai::models::common::Amount::Fixed(1),
        rarity: Rarity::Common,
        playable_if: spireai::models::common::Condition::Always,
        on_start: vec![],
        on_play: vec![],
        on_discard: vec![],
        on_draw: vec![],
        on_exhaust: vec![],
        on_retain: vec![],
        on_turn_end: vec![],
        innate: spireai::models::common::Condition::Never,
        retain: spireai::models::common::Condition::Never,
        targeted: spireai::models::common::Condition::Never,
    }))
}

fn client_shop(floor: i32) -> external::GameState {
    external::GameState {
        current_action: None,
        current_hp: 80,
        max_hp: 80,
        floor,
        act: 1,
        gold: 99,
        seed: 0,
        class: external::PlayerClass::Ironclad,
        ascension_level: 0,
        relics: vec![],
        deck: vec![],
        map: vec![],
        potions: vec![],
        act_boss: Some("The Guardian".to_string()),
        is_screen_up: true,
        room_phase: external::RoomPhase::Complete,
        room_type: "Shop".to_string(),
        combat_state: None,
        screen_state: external::ScreenState::ShopScreen(external::ShopScreen {
            cards: vec![external::Card {
                id: "Strike_R".to_string(),
                name: "Strike".to_string(),
                card_type: external::CardType::Attack,
                rarity: external::CardRarity::Basic,
                upgrades: 1,
                has_target: true,
                cost: 1,
                uuid: "a".to_string(),
                misc: None,
                price: Some(50),
                is_playable: true,
                exhausts: false,
            }],
            relics: vec![],
            potions: vec![],
            purge_available: true,
            purge_cost: true,
        }),
        choice_list: vec![],
    }
}

#[test]
fn second_update_takes_no_stock_again() {
    let cards = vec![shop_card("Strike"), shop_card("Defend"), shop_card("Bash")];
    let starter: Vec<&'static BaseRelic> = vec![Box::leak(Box::new(BaseRelic {
        name: "Burning Blood".to_string(),
        rarity: Rarity::Starter,
        activation: Activation::Custom,
        effect: vec![],
        disable_at: When::Never,
        class: Class::All,
        energy_relic: false,
        replaces_starter: false,
        starting_x: 0,
        max_floor: 0,
        shop_relic: false,
    }))];
    let game_state = spireai::state::game::GameState::new(Class::Ironclad, 0, &cards, &starter);
    let mut internal = spireai::state::floor::FloorState::Shop(spireai::state::shop::ShopState {
        generated: false,
        updated: false,
        cards: im::Vector::new(),
        potions: im::Vector::new(),
        relics: im::Vector::new(),
        can_purge: false,
        game_state,
        screen_state: spireai::state::shop::ShopScreenState::InShop,
    });
    let client = Some(client_shop(3));
    spireai::comm::interop::update_state(&client, &mut internal, &cards, &[], &starter);
    let first = match &internal {
        spireai::state::floor::FloorState::Shop(s) => s.clone(),
        _ => panic!("not in a shop"),
    };
    assert!(first.updated && first.generated && first.can_purge);
    assert_eq!(first.cards.len(), 1);
    assert_eq!(first.cards[0].0.base.name, "Strike");
    assert!(first.cards[0].0.upgraded);
    assert_eq!(first.cards[0].1, 50);
    spireai::comm::interop::update_state(&client, &mut internal, &cards, &[], &starter);
    match &internal {
        spireai::state::floor::FloorState::Shop(s) => {
            assert_eq!(s.cards, first.cards);
            assert_eq!(s.updated, first.updated);
            assert_eq!(s.can_purge, first.can_purge);
        }
        _ => panic!("not in a shop"),
    }
}
