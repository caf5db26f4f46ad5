use spireai::comm::response::{decompose_choice, serialize_response, Response};
use spireai::models::cards::BaseCard;
use spireai::models::choices::Choice;
use spireai::models::common::{Amount, CardLocation, CardType, Class, Condition, DeckOperation, FightType, Rarity};
use spireai::models::monsters::{BaseMonster, SimpleRange};
use spireai::serialization as external;
use spireai::spireai::references::{CardReference, MonsterReference};
use spireai::state::game::DeckCard;

fn request_card(id: &str) -> external::Card {
    external::Card {
        id: id.to_string(),
        name: "Strike".to_string(),
        card_type: external::CardType::Attack,
        rarity: external::CardRarity::Basic,
        upgrades: 0,
        has_target: true,
        cost: 1,
        uuid: id.to_string(),
        misc: None,
        price: None,
        is_playable: true,
        exhausts: false,
    }
}

fn request_monster(id: &str) -> external::Monster {
    external::Monster {
        max_hp: 40,
        current_hp: 40,
        block: 0,
        powers: vec![],
        name: "Cultist".to_string(),
        id: id.to_string(),
        intent: external::Intent::Buff,
        half_dead: false,
        is_gone: false,
        move_id: None,
        last_move_id: None,
        second_last_move_id: None,
        move_base_damage: 0,
        move_adjusted_damage: 0,
        move_hits: 0,
    }
}

fn game(screen_state: external::ScreenState, combat: Option<external::CombatState>, choice_list: Vec<&str>) -> external::GameState {
    external::GameState {
        current_action: None,
        current_hp: 80,
        max_hp: 80,
        floor: 1,
        act: 1,
        gold: 99,
        seed: 0,
        class: external::PlayerClass::Ironclad,
        ascension_level: 0,
        relics: vec![],
        deck: vec![request_card("d0"), request_card("d1"), request_card("d2")],
        map: vec![],
        potions: vec![],
        act_boss: None,
        is_screen_up: false,
        room_phase: external::RoomPhase::Combat,
        room_type: "MonsterRoom".to_string(),
        combat_state: combat,
        screen_state,
        choice_list: choice_list.into_iter().map(|s| s.to_string()).collect(),
    }
}

fn combat() -> external::CombatState {
    external::CombatState {
        player: external::Player { max_hp: 80, current_hp: 80, block: 0, powers: vec![], energy: 3, orbs: vec![] },
        monsters: vec![request_monster("m0"), request_monster("m1")],
        draw_pile: vec![request_card("c3")],
        discard_pile: vec![],
        exhaust_pile: vec![],
        hand: vec![request_card("c0"), request_card("c1"), request_card("c2")],
        limbo: vec![request_card("g0"), request_card("g1")],
        card_in_play: None,
        turn: 1,
        cards_discarded_this_turn: 0,
    }
}

fn request(game_state: Option<external::GameState>) -> external::Response {
    external::Response { error: None, ready_for_command: true, in_game: true, game_state, available_commands: vec![] }
}

fn base_card() -> &'static BaseCard {
    Box::leak(Box::new(BaseCard {
        name: "Strike".to_string(),
        _type: CardType::Attack,
        _class: Class::Ironclad,
        cost: Amount::Fixed(1),
        rarity: Rarity::Starter,
        playable_if: Condition::Always,
        on_start: vec![],
        on_play: vec![],
        on_discard: vec![],
        on_draw: vec![],
        on_exhaust: vec![],
        on_retain: vec![],
        on_turn_end: vec![],
        innate: Condition::Never,
        retain: Condition::Never,
        targeted: Condition::Always,
    }))
}

fn base_monster() -> &'static BaseMonster {
    Box::leak(Box::new(BaseMonster {
        name: "Cultist".to_string(),
        hp_range: SimpleRange { min: 48, max: 54 },
        hp_range_asc: SimpleRange { min: 50, max: 56 },
        fight_type: FightType::Common,
        moveset: vec![],
        phases: vec![],
        n_range: None,
        x_range: None,
        effects: vec![],
    }))
}

fn uuid_map() -> im::HashMap<String, u128> {
    let mut m = im::HashMap::new();
    for (i, id) in ["c0", "c1", "c2", "c3", "g0", "g1", "m0", "m1", "d0", "d1", "d2"].iter().enumerate() {
        m.insert(id.to_string(), i as u128 + 100);
    }
    m
}

fn simple(text: &str) -> Response {
    Response::Simple(text.to_string())
}

#[test]
fn plain_choices_become_literal_commands() {
    let r = request(None);
    let m = im::HashMap::new();
    assert_eq!(decompose_choice(Choice::End, &r, &m), vec![simple("END")]);
    assert_eq!(decompose_choice(Choice::Proceed, &r, &m), vec![simple("PROCEED")]);
    assert_eq!(decompose_choice(Choice::OpenChest, &r, &m), vec![simple("CHOOSE 0")]);
    assert_eq!(decompose_choice(Choice::TakeReward(3), &r, &m), vec![simple("CHOOSE 3")]);
    assert_eq!(decompose_choice(Choice::BuyCard(2), &r, &m), vec![Response::ChooseIdx(2)]);
    assert_eq!(
        decompose_choice(Choice::NavigateToNode(4), &r, &m),
        vec![Response::Choose("x=4".to_string())]
    );
    assert_eq!(
        decompose_choice(Choice::Rest, &r, &m),
        vec![Response::Choose("rest".to_string()), simple("PROCEED")]
    );
    assert_eq!(decompose_choice(Choice::DiscardPotion { slot: 1 }, &r, &m), vec![simple("POTION Discard 1")]);
}

#[test]
fn start_names_the_class_and_ascension() {
    let r = request(None);
    let m = im::HashMap::new();
    assert_eq!(
        decompose_choice(Choice::Start { player_class: Class::Ironclad, ascension: Some(20) }, &r, &m),
        vec![simple("START Ironclad 20")]
    );
    assert_eq!(
        decompose_choice(Choice::Start { player_class: Class::Silent, ascension: None }, &r, &m),
        vec![simple("START Silent ")]
    );
}

#[test]
fn playing_a_card_names_its_place_and_target() {
    let r = request(Some(game(external::ScreenState::Idle, Some(combat()), vec![])));
    let m = uuid_map();
    let card = CardReference { location: CardLocation::PlayerHand, uuid: 102, base: base_card() };
    let target = MonsterReference { base: base_monster(), uuid: 107 };
    assert_eq!(
        decompose_choice(Choice::PlayCard { card, target: Some(target) }, &r, &m),
        vec![simple("PLAY 3 1")]
    );
    assert_eq!(
        decompose_choice(Choice::PlayCard { card, target: None }, &r, &m),
        vec![simple("PLAY 3 ")]
    );
    let drawn = CardReference { location: CardLocation::DrawPile, uuid: 103, base: base_card() };
    assert_eq!(decompose_choice(Choice::PlayCard { card: drawn, target: None }, &r, &m), vec![simple("PLAY 1 ")]);
    assert_eq!(
        decompose_choice(Choice::DrinkPotion { slot: 2, target: Some(target) }, &r, &m),
        vec![simple("POTION Use 2 1")]
    );
}

#[test]
fn selections_pick_cards_then_confirm() {
    let r = request(Some(game(external::ScreenState::Idle, Some(combat()), vec![])));
    let m = uuid_map();
    let g1 = CardReference { location: CardLocation::Unplaced, uuid: 105, base: base_card() };
    let g0 = CardReference { location: CardLocation::Unplaced, uuid: 104, base: base_card() };
    assert_eq!(
        decompose_choice(Choice::SelectCards(vec![g1, g0]), &r, &m),
        vec![Response::CardInGrid(1), Response::CardInGrid(0), simple("CONFIRM")]
    );
    let d2 = DeckCard { uuid: 110, base: base_card() };
    assert_eq!(
        decompose_choice(Choice::DeckSelect(vec![d2], DeckOperation::Upgrade), &r, &m),
        vec![Response::CardInDeck(2), simple("CONFIRM")]
    );
    assert_eq!(
        decompose_choice(Choice::BuyRemoveCard(d2), &r, &m),
        vec![Response::Choose("purge".to_string()), Response::CardInDeck(2)]
    );
}

#[test]
fn serialized_commands() {
    let state = Some(game(external::ScreenState::Idle, None, vec!["smith", "Rest", "dig"]));
    assert_eq!(serialize_response(&simple("END"), &state), "END");
    assert_eq!(serialize_response(&Response::ChooseIdx(12), &state), "CHOOSE 12");
    assert_eq!(serialize_response(&Response::CardInGrid(0), &state), "CHOOSE 0");
    assert_eq!(serialize_response(&Response::Choose("REST".to_string()), &state), "CHOOSE 1");
    assert_eq!(serialize_response(&Response::Choose("Dig".to_string()), &state), "CHOOSE 2");
}

#[test]
fn card_of_the_deck_is_found_in_the_grid() {
    let grid = external::Grid {
        cards: vec![request_card("d2"), request_card("d0")],
        selected_cards: vec![],
        num_cards: 1,
        any_number: false,
        confirm_up: false,
        for_upgrade: true,
        for_transform: false,
        for_purge: false,
    };
    let state = Some(game(external::ScreenState::Grid(grid), None, vec![]));
    assert_eq!(serialize_response(&Response::CardInDeck(0), &state), "CHOOSE 1");
    assert_eq!(serialize_response(&Response::CardInDeck(2), &state), "CHOOSE 0");
}
