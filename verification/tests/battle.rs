use spireai::models::cards::BaseCard;
use spireai::models::choices::Choice;
use spireai::models::common::{Amount, CardLocation, CardType, Class, Condition, FightType, Rarity, Stance, When};
use spireai::models::monsters::{BaseMonster, SimpleRange};
use spireai::models::relics::{Activation, BaseRelic};
use spireai::spireai::enumerator::all_choices;
use spireai::spireai::references::{Binding, CardReference, CreatureReference, MonsterReference};
use spireai::state::battle::{BattleState, CardChoiceState, CountRange};
use spireai::state::common::{Card, Creature, HpRange, Monster};
use spireai::state::floor::FloorState;
use spireai::state::game::GameState;

fn b_card(name: &str, card_type: CardType, cost: i16, playable_if: Condition, targeted: Condition) -> &'static BaseCard {
    Box::leak(Box::new(BaseCard {
        name: name.to_string(),
        _type: card_type,
        _class: Class::Ironclad,
        cost: Amount::Fixed(cost),
        rarity: Rarity::Common,
        playable_if,
        on_start: vec![],
        on_play: vec![],
        on_discard: vec![],
        on_draw: vec![],
        on_exhaust: vec![],
        on_retain: vec![],
        on_turn_end: vec![],
        innate: Condition::Never,
        retain: Condition::Never,
        targeted,
    }))
}

fn b_monster(name: &str, fight_type: FightType) -> &'static BaseMonster {
    Box::leak(Box::new(BaseMonster {
        name: name.to_string(),
        hp_range: SimpleRange { min: 10, max: 12 },
        hp_range_asc: SimpleRange { min: 11, max: 13 },
        fight_type,
        moveset: vec![],
        phases: vec![],
        n_range: None,
        x_range: None,
        effects: vec![],
    }))
}

fn run() -> GameState {
    let cards = vec![
        b_card("Strike", CardType::Attack, 1, Condition::Always, Condition::Always),
        b_card("Defend", CardType::Skill, 1, Condition::Always, Condition::Never),
        b_card("Bash", CardType::Attack, 2, Condition::Always, Condition::Always),
    ];
    let relic: &'static BaseRelic = Box::leak(Box::new(BaseRelic {
        name: "Burning Blood".to_string(),
        rarity: Rarity::Starter,
        activation: Activation::Custom,
        effect: vec![],
        disable_at: When::Never,
        class: Class::Ironclad,
        energy_relic: false,
        replaces_starter: false,
        starting_x: 0,
        max_floor: 0,
        shop_relic: false,
    }));
    GameState::new(Class::Ironclad, 0, &cards, &[relic])
}

fn battle(hand: &[Card], monsters: Vec<Monster>, energy: u8) -> BattleState {
    let mut cards = im::HashMap::new();
    let mut hand_set = im::HashSet::new();
    for c in hand {
        cards.insert(c.uuid, *c);
        hand_set.insert(c.uuid);
    }
    let mut monster_map = im::HashMap::new();
    for m in monsters {
        monster_map.insert(m.uuid, m);
    }
    BattleState {
        deck_references: im::HashMap::new(),
        player: Creature::player(HpRange { amount: 70, max: 80 }),
        cards,
        draw: im::HashSet::new(),
        draw_top_known: im::Vector::new(),
        draw_bottom_known: im::Vector::new(),
        draw_inserted: im::Vector::new(),
        discard: im::Vector::new(),
        exhaust: im::HashSet::new(),
        hand: hand_set,
        monsters: monster_map,
        orbs: im::Vector::new(),
        orb_slots: 0,
        energy,
        base_energy: 3,
        stance: Stance::Neutral,
        fight_type: FightType::Common,
        event_battle: None,
        draw_visible: false,
        discard_count: 0,
        play_count: 0,
        hp_loss_count: 0,
        power_count: 0,
        last_card_played: Some(CardType::Skill),
        end_turn: false,
        gold_recovered: 0,
        skip_monsters: false,
        wish: 0,
        blizzard: 2,
        stance_pot: false,
        game_state: run(),
        card_choose: None,
        battle_over: false,
        skip_rewards: false,
    }
}

fn in_hand(c: &Card) -> CardReference {
    CardReference { location: CardLocation::PlayerHand, uuid: c.uuid, base: c.base }
}

#[test]
fn cards_need_energy() {
    let strike = Card::new(b_card("Strike", CardType::Attack, 1, Condition::Always, Condition::Always));
    let bash = Card::new(b_card("Bash", CardType::Attack, 2, Condition::Always, Condition::Always));
    let b = battle(&[strike, bash], vec![], 1);
    assert!(b.card_playable(in_hand(&strike)));
    assert!(!b.card_playable(in_hand(&bash)));
    assert_eq!(b.hand().len(), 2);
}

#[test]
fn clash_wants_only_attacks() {
    let clash = Card::new(b_card("Clash", CardType::Attack, 0, Condition::Custom, Condition::Always));
    let defend = Card::new(b_card("Defend", CardType::Skill, 1, Condition::Always, Condition::Never));
    let alone = battle(&[clash], vec![], 3);
    assert!(alone.card_playable(in_hand(&clash)));
    let mixed = battle(&[clash, defend], vec![], 3);
    assert!(!mixed.card_playable(in_hand(&clash)));
}

#[test]
fn signature_move_wants_one_attack() {
    let sig = Card::new(b_card("Signature Move", CardType::Attack, 2, Condition::Custom, Condition::Always));
    let strike = Card::new(b_card("Strike", CardType::Attack, 1, Condition::Always, Condition::Always));
    let defend = Card::new(b_card("Defend", CardType::Skill, 1, Condition::Always, Condition::Never));
    assert!(battle(&[sig, defend], vec![], 3).card_playable(in_hand(&sig)));
    assert!(!battle(&[sig, strike], vec![], 3).card_playable(in_hand(&sig)));
}

#[test]
fn only_targetable_monsters_are_targets() {
    let a = Monster::create(b_monster("Cultist", FightType::Common), 50);
    let mut hidden = Monster::create(b_monster("Darkling", FightType::Common), 50);
    hidden.targetable = false;
    let b = battle(&[], vec![a.clone(), hidden], 3);
    let targets = b.available_monsters();
    assert_eq!(targets, vec![MonsterReference { base: a.base, uuid: a.uuid }]);
}

#[test]
fn battle_amounts() {
    let defend = Card::new(b_card("Defend", CardType::Skill, 1, Condition::Always, Condition::Never));
    let a = Monster::create(b_monster("Cultist", FightType::Common), 50);
    let b = battle(&[defend], vec![a.clone()], 3);
    let player = Binding::Creature(CreatureReference::Player);
    assert_eq!(b.eval_amount(&Amount::Fixed(7), player), 7);
    assert_eq!(b.eval_amount(&Amount::Blizzard, player), 2);
    assert_eq!(b.eval_amount(&Amount::EnemyCount, player), 1);
    assert_eq!(b.eval_amount(&Amount::Mult(vec![Amount::Fixed(3), Amount::Fixed(4)]), player), 12);
    assert_eq!(b.eval_amount(&Amount::Sum(vec![Amount::Fixed(3), Amount::Blizzard]), player), 5);
    assert_eq!(b.eval_amount(&Amount::ByAsc { amount: 1, low: 2, high: 3 }, player), 1);
    let card = Binding::Card(in_hand(&defend));
    assert_eq!(b.eval_amount(&Amount::Upgradable { amount: 5, upgraded: 8 }, card), 5);
    let monster = Binding::Creature(CreatureReference::Creature(MonsterReference { base: a.base, uuid: a.uuid }));
    assert_eq!(b.eval_amount(&Amount::MaxHp, monster), 50);
}

#[test]
fn battle_conditions() {
    let defend = Card::new(b_card("Defend", CardType::Skill, 1, Condition::Always, Condition::Never));
    let a = Monster::create(b_monster("Cultist", FightType::Common), 50);
    let b = battle(&[defend], vec![a], 3);
    let player = Binding::Creature(CreatureReference::Player);
    assert!(b.eval_condition(&Condition::HasCard { location: CardLocation::PlayerHand, card: CardType::Skill }, player, None));
    assert!(!b.eval_condition(&Condition::HasCard { location: CardLocation::PlayerHand, card: CardType::Attack }, player, None));
    assert!(b.eval_condition(&Condition::NoBlock, player, None));
    assert!(b.eval_condition(&Condition::FriendlyDead("Cultist".to_string()), player, None));
    assert!(!b.eval_condition(&Condition::FriendlyDead("Louse".to_string()), player, None));
    assert!(b.eval_condition(&Condition::LastCard(CardType::Skill), player, None));
    assert!(!b.eval_condition(&Condition::HalfHp, player, None));
    assert!(b.eval_condition(&Condition::Stance(Stance::Neutral), player, None));
    assert!(b.eval_condition(
        &Condition::MultipleAnd(vec![Condition::NoBlock, Condition::Not(Box::new(Condition::HasOrbSlot))]),
        player,
        None
    ));
    assert!(b.eval_condition(&Condition::LessThan(Amount::Fixed(1), Amount::Blizzard), player, None));
}

#[test]
fn battle_choices_end_play_and_target() {
    let strike = Card::new(b_card("Strike", CardType::Attack, 1, Condition::Always, Condition::Always));
    let a = Monster::create(b_monster("Cultist", FightType::Common), 50);
    let b = battle(&[strike], vec![a.clone()], 3);
    let choices = all_choices(&FloorState::Battle(b));
    assert_eq!(
        choices,
        vec![
            Choice::End,
            Choice::PlayCard {
                card: in_hand(&strike),
                target: Some(MonsterReference { base: a.base, uuid: a.uuid })
            },
        ]
    );
}

#[test]
fn card_choice_offers_each_combination() {
    let cards: Vec<Card> = (0..3)
        .map(|_| Card::new(b_card("Strike", CardType::Attack, 1, Condition::Always, Condition::Always)))
        .collect();
    let mut b = battle(&cards, vec![], 3);
    let refs: Vec<CardReference> = cards.iter().map(in_hand).collect();
    b.card_choose = Some(CardChoiceState {
        choices: im::Vector::from(refs.clone()),
        count_range: CountRange { start: 1, end: 3 },
        then: im::Vector::new(),
        scry: false,
    });
    let choices = all_choices(&FloorState::Battle(b));
    assert_eq!(
        choices,
        vec![
            Choice::SelectCards(vec![refs[0]]),
            Choice::SelectCards(vec![refs[1]]),
            Choice::SelectCards(vec![refs[2]]),
            Choice::SelectCards(vec![refs[0], refs[1]]),
            Choice::SelectCards(vec![refs[0], refs[2]]),
            Choice::SelectCards(vec![refs[1], refs[2]]),
        ]
    );
}
