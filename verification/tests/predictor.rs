use spireai::models::cards::BaseCard;
use spireai::models::choices::Choice;
use spireai::models::buffs::BaseBuff;
use spireai::models::common::{Amount, CardType, Class, Condition, DeckOperation, Effect, FightType, Rarity, Stance, When};
use spireai::models::events::{BaseEvent, BaseEventChoice};
use spireai::state::battle::{BattleState, CardChoiceState, CountRange};
use spireai::spireai::references::CardReference;
use spireai::models::common::{CardEffect, CardLocation};
use spireai::state::common::{Card, Creature};
use spireai::models::potions::BasePotion;
use spireai::models::relics::{Activation, BaseRelic};
use spireai::spireai::predictor::predict_outcome;
use spireai::state::common::{HpRange, Reward, RewardState, Vars};
use spireai::state::event::EventState;
use spireai::models::common::ChestType;
use spireai::state::shop::{ShopScreenState, ShopState};
use spireai::state::floor::{BattleOverState, ChestState, FloorState, GamePossibility, KeyState, RestScreenState, RestState};
use spireai::state::game::GameState;
use spireai::state::probability::Probability;

fn p_card(name: &str, card_type: CardType) -> &'static BaseCard {
    Box::leak(Box::new(BaseCard {
        name: name.to_string(),
        _type: card_type,
        _class: Class::Ironclad,
        cost: Amount::Upgradable { amount: 2, upgraded: 1 },
        rarity: Rarity::Starter,
        playable_if: Condition::Always,
        on_start: vec![],
        on_play: vec![],
        on_discard: vec![],
        on_draw: vec![],
        on_exhaust: vec![],
        on_retain: vec![],
        on_turn_end: vec![],
        innate: Condition::Never,
        retain: Condition::Never,
        targeted: Condition::Never,
    }))
}

fn p_relic(name: &str) -> &'static BaseRelic {
    Box::leak(Box::new(BaseRelic {
        name: name.to_string(),
        rarity: Rarity::Common,
        activation: Activation::Custom,
        effect: vec![],
        disable_at: When::Never,
        class: Class::All,
        energy_relic: false,
        replaces_starter: false,
        starting_x: 0,
        max_floor: 0,
        shop_relic: false,
    }))
}

fn cards() -> Vec<&'static BaseCard> {
    vec![p_card("Strike", CardType::Attack), p_card("Defend", CardType::Skill), p_card("Bash", CardType::Attack)]
}

fn fresh_run() -> GameState {
    GameState::new(Class::Ironclad, 0, &cards(), &[p_relic("Burning Blood")])
}

fn at_rest(game_state: GameState) -> GamePossibility {
    GamePossibility {
        state: FloorState::Rest(RestState { screen_state: RestScreenState::IShouldRest, game_state }),
        probability: Probability::new(),
    }
}

fn predict(choice: Choice, possibility: &mut GamePossibility) {
    let relics: Vec<&'static BaseRelic> = vec![];
    let potions: Vec<&'static BasePotion> = vec![];
    predict_outcome(choice, possibility, &cards(), &relics, &potions, &[], &[]);
}

fn rest_of(p: &GamePossibility) -> &RestState {
    match &p.state {
        FloorState::Rest(r) => r,
        _ => panic!("not at a rest site"),
    }
}

#[test]
fn resting_heals_three_tenths() {
    let mut g = fresh_run();
    g.hp = HpRange { amount: 50, max: 80 };
    let mut p = at_rest(g);
    predict(Choice::Rest, &mut p);
    let r = rest_of(&p);
    assert_eq!(r.game_state.hp, HpRange { amount: 74, max: 80 });
    assert_eq!(r.screen_state, RestScreenState::Proceed);
    assert!(p.probability.factors.is_empty());
}

#[test]
fn resting_rounds_up_and_adds_the_pillow() {
    let mut g = fresh_run();
    g.hp = HpRange { amount: 10, max: 75 };
    g.relics.add(p_relic("Regal Pillow"));
    let mut p = at_rest(g);
    predict(Choice::Rest, &mut p);
    assert_eq!(rest_of(&p).game_state.hp.amount, 10 + 23 + 15);
}

#[test]
fn recall_takes_the_ruby_key() {
    let mut g = fresh_run();
    g.keys = Some(KeyState { ruby: false, emerald: true, sapphire: false });
    let mut p = at_rest(g);
    predict(Choice::Recall, &mut p);
    let r = rest_of(&p);
    assert_eq!(r.game_state.keys, Some(KeyState { ruby: true, emerald: true, sapphire: false }));
    assert_eq!(r.screen_state, RestScreenState::Proceed);
}

#[test]
fn lifting_counts_up() {
    let mut g = fresh_run();
    g.relics.add(p_relic("Girya"));
    let mut p = at_rest(g);
    predict(Choice::Lift, &mut p);
    assert_eq!(rest_of(&p).game_state.relics.find("Girya").unwrap().vars.x, 1);
    predict(Choice::Smith, &mut p);
    assert_eq!(rest_of(&p).screen_state, RestScreenState::Smith);
    predict(Choice::Toke, &mut p);
    assert_eq!(rest_of(&p).screen_state, RestScreenState::Toke);
}

#[test]
fn removing_and_upgrading_cards() {
    let mut p = at_rest(fresh_run());
    let deck = rest_of(&p).game_state.deck();
    predict(Choice::DeckSelect(vec![deck[0], deck[1]], DeckOperation::Remove), &mut p);
    assert_eq!(rest_of(&p).game_state.deck().len(), 8);
    assert_eq!(rest_of(&p).screen_state, RestScreenState::Proceed);
    let left = rest_of(&p).game_state.deck();
    predict(Choice::DeckSelect(vec![left[0]], DeckOperation::Upgrade), &mut p);
    let after = rest_of(&p).game_state.deck();
    let upgraded = after.iter().find(|c| c.uuid == left[0].uuid).unwrap();
    let card = rest_of(&p).game_state.deck.get(&upgraded.uuid).copied().unwrap();
    assert_eq!(card.upgrades, 1);
    assert_eq!(card.base_cost, 1);
    assert_eq!(card.cost, 0);
}

#[test]
fn duplicating_and_bottling_cards() {
    let mut p = at_rest(fresh_run());
    let deck = rest_of(&p).game_state.deck();
    predict(Choice::DeckSelect(vec![deck[3]], DeckOperation::Duplicate), &mut p);
    assert_eq!(rest_of(&p).game_state.deck().len(), 11);
    predict(Choice::DeckSelect(vec![deck[2]], DeckOperation::BottleFlame), &mut p);
    assert!(rest_of(&p).game_state.deck.get(&deck[2].uuid).unwrap().bottled);
}

#[test]
fn proceeding_goes_to_the_map() {
    let g = fresh_run();
    let mut p = at_rest(g.clone());
    predict(Choice::Proceed, &mut p);
    assert!(matches!(p.state, FloorState::OnMap(ref m) if m.gold == g.gold && m.hp == g.hp));
}

#[test]
fn potion_slot_is_emptied() {
    let mut g = fresh_run();
    let potion: &'static BasePotion = Box::leak(Box::new(BasePotion {
        name: "Block Potion".to_string(),
        class: Class::All,
        rarity: Rarity::Common,
        on_drink: vec![],
        targeted: false,
    }));
    g.add_potion(potion);
    let mut p = at_rest(g);
    predict(Choice::DiscardPotion { slot: 0 }, &mut p);
    assert!(rest_of(&p).game_state.potions.iter().all(|s| s.is_none()));
}

#[test]
fn gold_reward_is_taken_and_removed() {
    let rewards = RewardState {
        rewards: im::Vector::from(vec![Reward::Gold(15), Reward::Gold(30)]),
        deck_operation: None,
        viewing_reward: None,
    };
    let mut p = GamePossibility {
        state: FloorState::BattleOver(BattleOverState { game_state: fresh_run(), rewards }),
        probability: Probability::new(),
    };
    predict(Choice::TakeReward(1), &mut p);
    match &p.state {
        FloorState::BattleOver(s) => {
            assert_eq!(s.game_state.gold, 129);
            assert_eq!(s.rewards.rewards.len(), 1);
            assert_eq!(s.rewards.rewards[0], Reward::Gold(15));
        },
        _ => panic!("left the rewards"),
    }
}

fn rarity_relic(name: &str, rarity: Rarity) -> &'static BaseRelic {
    Box::leak(Box::new(BaseRelic {
        name: name.to_string(),
        rarity,
        activation: Activation::Custom,
        effect: vec![],
        disable_at: When::Never,
        class: Class::All,
        energy_relic: false,
        replaces_starter: false,
        starting_x: 0,
        max_floor: 0,
        shop_relic: false,
    }))
}

fn chest_relics() -> Vec<&'static BaseRelic> {
    vec![
        rarity_relic("Anchor", Rarity::Common),
        rarity_relic("Vajra", Rarity::Common),
        rarity_relic("Kunai", Rarity::Uncommon),
        rarity_relic("Shuriken", Rarity::Uncommon),
        rarity_relic("Ginger", Rarity::Rare),
        rarity_relic("Turnip", Rarity::Rare),
        rarity_relic("Astrolabe", Rarity::Boss),
    ]
}

fn open_chest(chest: ChestType, game_state: GameState) -> GamePossibility {
    let mut p = GamePossibility {
        state: FloorState::Chest(ChestState { chest, rewards: None, game_state }),
        probability: Probability::new(),
    };
    let potions: Vec<&'static BasePotion> = vec![];
    predict_outcome(Choice::OpenChest, &mut p, &cards(), &chest_relics(), &potions, &[], &[]);
    p
}

fn chest_of(p: &GamePossibility) -> &ChestState {
    match &p.state {
        FloorState::Chest(c) => c,
        _ => panic!("not at a chest"),
    }
}

#[test]
fn a_small_chest_holds_a_relic_and_maybe_gold() {
    for _ in 0..20 {
        let p = open_chest(ChestType::Small, fresh_run());
        let c = chest_of(&p);
        let rewards: Vec<Reward> = c.rewards.as_ref().unwrap().rewards.iter().cloned().collect();
        assert!(rewards.len() == 1 || rewards.len() == 2);
        match rewards[0] {
            Reward::Relic(r) => {
                assert!(r.rarity == Rarity::Common || r.rarity == Rarity::Uncommon);
                assert!(c.game_state.relics.seen.contains(&r.name));
            }
            _ => panic!("the relic comes first"),
        }
        if rewards.len() == 2 {
            match rewards[1] {
                Reward::Gold(g) => assert!((23..27).contains(&g)),
                _ => panic!("gold comes last"),
            }
            assert_eq!(p.probability.factors.len(), 4);
        } else {
            assert_eq!(p.probability.factors.len(), 3);
        }
        assert_eq!(c.rewards.as_ref().unwrap().viewing_reward, None);
    }
}

#[test]
fn a_boss_chest_holds_no_gold() {
    let p = open_chest(ChestType::Boss, fresh_run());
    let c = chest_of(&p);
    let rewards: Vec<Reward> = c.rewards.as_ref().unwrap().rewards.iter().cloned().collect();
    assert_eq!(rewards.len(), 1);
    assert!(matches!(rewards[0], Reward::Relic(r) if r.name == "Astrolabe"));
}

#[test]
fn the_sapphire_key_comes_with_the_relic() {
    let mut g = fresh_run();
    g.keys = Some(KeyState { ruby: false, emerald: false, sapphire: false });
    let p = open_chest(ChestType::Large, g);
    let rewards: Vec<Reward> = chest_of(&p).rewards.as_ref().unwrap().rewards.iter().cloned().collect();
    assert_eq!(rewards[0], Reward::SapphireKey);
    assert!(matches!(rewards[1], Reward::SapphireLinkedRelic(r) if r.rarity == Rarity::Uncommon || r.rarity == Rarity::Rare));
}

#[test]
fn the_matryoshka_gives_a_second_relic_first() {
    let mut g = fresh_run();
    g.relics.add(p_relic("Matryoshka"));
    let p = open_chest(ChestType::Medium, g);
    let c = chest_of(&p);
    let rewards: Vec<Reward> = c.rewards.as_ref().unwrap().rewards.iter().cloned().collect();
    assert!(matches!(rewards[0], Reward::Relic(_)));
    assert!(matches!(rewards[1], Reward::Relic(_)));
    assert_ne!(rewards[0], rewards[1]);
    assert_eq!(c.game_state.relics.find("Matryoshka").unwrap().vars.x, 1);
}

fn rarity_card(name: &str, card_type: CardType, class: Class, rarity: Rarity) -> &'static BaseCard {
    Box::leak(Box::new(BaseCard {
        name: name.to_string(),
        _type: card_type,
        _class: class,
        cost: Amount::Fixed(1),
        rarity,
        playable_if: Condition::Always,
        on_start: vec![],
        on_play: vec![],
        on_discard: vec![],
        on_draw: vec![],
        on_exhaust: vec![],
        on_retain: vec![],
        on_turn_end: vec![],
        innate: Condition::Never,
        retain: Condition::Never,
        targeted: Condition::Never,
    }))
}

fn shop_cards() -> Vec<&'static BaseCard> {
    let mut catalog = cards();
    for rarity in [Rarity::Common, Rarity::Uncommon, Rarity::Rare] {
        for i in 0..2 {
            catalog.push(rarity_card(&format!("Attack {:?} {}", rarity, i), CardType::Attack, Class::Ironclad, rarity));
            catalog.push(rarity_card(&format!("Skill {:?} {}", rarity, i), CardType::Skill, Class::Ironclad, rarity));
        }
        catalog.push(rarity_card(&format!("Power {:?}", rarity), CardType::Power, Class::Ironclad, rarity));
    }
    catalog.push(rarity_card("Swift Strike", CardType::Attack, Class::Colorless, Rarity::Uncommon));
    catalog.push(rarity_card("Finesse", CardType::Skill, Class::Colorless, Rarity::Uncommon));
    catalog
}

fn shop_relics() -> Vec<&'static BaseRelic> {
    let mut catalog = vec![];
    for rarity in [Rarity::Common, Rarity::Uncommon, Rarity::Rare] {
        for i in 0..4 {
            catalog.push(rarity_relic(&format!("Relic {:?} {}", rarity, i), rarity));
        }
    }
    catalog.push(rarity_relic("Shop Relic 0", Rarity::Shop));
    catalog.push(rarity_relic("Shop Relic 1", Rarity::Shop));
    catalog
}

fn shop_potions() -> Vec<&'static BasePotion> {
    [Rarity::Common, Rarity::Uncommon, Rarity::Rare]
        .iter()
        .map(|rarity| {
            &*Box::leak(Box::new(BasePotion {
                name: format!("Potion {:?}", rarity),
                class: Class::All,
                rarity: *rarity,
                on_drink: vec![],
                targeted: false,
            }))
        })
        .collect()
}

#[test]
fn entering_a_shop_stocks_it_once() {
    let shop = ShopState {
        generated: false,
        updated: false,
        cards: im::Vector::new(),
        potions: im::Vector::new(),
        relics: im::Vector::new(),
        can_purge: true,
        game_state: fresh_run(),
        screen_state: ShopScreenState::Entrance,
    };
    let mut p = GamePossibility { state: FloorState::Shop(shop), probability: Probability::new() };
    predict_outcome(Choice::EnterShop, &mut p, &shop_cards(), &shop_relics(), &shop_potions(), &[], &[]);
    let shop = match &p.state {
        FloorState::Shop(s) => s.clone(),
        _ => panic!("not in a shop"),
    };
    assert!(shop.generated);
    assert_eq!(shop.screen_state, ShopScreenState::InShop);
    let types: Vec<CardType> = shop.cards.iter().map(|(o, _)| o.base._type).collect();
    assert_eq!(types.len(), 7);
    assert_eq!(&types[0..5], &[CardType::Attack, CardType::Attack, CardType::Skill, CardType::Skill, CardType::Power]);
    assert_ne!(shop.cards[0].0.base.name, shop.cards[1].0.base.name);
    assert_ne!(shop.cards[2].0.base.name, shop.cards[3].0.base.name);
    assert!(shop.cards.iter().skip(5).all(|(o, _)| o.base._class == Class::Colorless));
    assert_eq!(shop.relics.len(), 3);
    assert_eq!(shop.relics[2].0.rarity, Rarity::Shop);
    for (relic, price) in shop.relics.iter() {
        let (low, high) = match relic.rarity {
            Rarity::Uncommon => (238, 262),
            Rarity::Rare => (285, 315),
            _ => (143, 157),
        };
        assert!(low <= *price && *price < high);
    }
    assert_eq!(shop.potions.len(), 3);
    // six relics were drawn: three set aside and three for sale
    assert_eq!(shop.game_state.relics.seen.len(), 6);
    // a second entrance stocks nothing more
    let before = shop.clone();
    let mut q = GamePossibility { state: FloorState::Shop(shop), probability: Probability::new() };
    predict_outcome(Choice::EnterShop, &mut q, &shop_cards(), &shop_relics(), &shop_potions(), &[], &[]);
    match &q.state {
        FloorState::Shop(s) => {
            assert_eq!(s.cards, before.cards);
            assert_eq!(s.relics, before.relics);
            assert!(q.probability.factors.is_empty());
        }
        _ => panic!("not in a shop"),
    }
}

fn p_event(name: &str) -> &'static BaseEvent {
    Box::leak(Box::new(BaseEvent {
        name: name.to_string(),
        choices: vec![
            BaseEventChoice { name: "Talk".to_string(), effects: vec![], condition: Condition::Always, initial: true },
            BaseEventChoice { name: "Leave".to_string(), effects: vec![], condition: Condition::Always, initial: false },
        ],
        shrine: false,
        variants: vec![],
        condition: Condition::Always,
    }))
}

fn p_buff(name: &str) -> &'static BaseBuff {
    Box::leak(Box::new(BaseBuff {
        name: name.to_string(),
        repeats: false,
        singular: false,
        zeroable: false,
        debuff: false,
        on_add: vec![],
        reduce_at: When::Never,
        expire_at: When::Never,
        effects: vec![],
    }))
}

fn in_battle(wish: u8) -> GamePossibility {
    let battle = BattleState {
        deck_references: im::HashMap::new(),
        player: Creature::player(HpRange { amount: 70, max: 80 }),
        cards: im::HashMap::new(),
        draw: im::HashSet::new(),
        draw_top_known: im::Vector::new(),
        draw_bottom_known: im::Vector::new(),
        draw_inserted: im::Vector::new(),
        discard: im::Vector::new(),
        exhaust: im::HashSet::new(),
        hand: im::HashSet::new(),
        monsters: im::HashMap::new(),
        orbs: im::Vector::new(),
        orb_slots: 0,
        energy: 3,
        base_energy: 3,
        stance: Stance::Neutral,
        fight_type: FightType::Common,
        event_battle: None,
        draw_visible: false,
        discard_count: 0,
        play_count: 0,
        hp_loss_count: 0,
        power_count: 0,
        last_card_played: None,
        end_turn: false,
        gold_recovered: 0,
        skip_monsters: false,
        wish,
        blizzard: 0,
        stance_pot: false,
        game_state: fresh_run(),
        card_choose: None,
        battle_over: false,
        skip_rewards: false,
    };
    GamePossibility { state: FloorState::Battle(battle), probability: Probability::new() }
}

fn battle_of(p: &GamePossibility) -> &BattleState {
    match &p.state {
        FloorState::Battle(b) => b,
        _ => panic!("not in a battle"),
    }
}

#[test]
fn starting_a_run_meets_neow() {
    let mut p = GamePossibility { state: FloorState::Menu, probability: Probability::new() };
    let relics = vec![p_relic("Burning Blood")];
    let events = vec![p_event("Bonfire"), p_event("Neow")];
    predict_outcome(Choice::Start { player_class: Class::Ironclad, ascension: None }, &mut p, &cards(), &relics, &[], &events, &[]);
    match &p.state {
        FloorState::Event(e) => {
            assert_eq!(e.base.name, "Neow");
            assert_eq!(e.game_state.class, Class::Ironclad);
            assert_eq!(e.game_state.asc, 0);
            assert_eq!(e.game_state.hp, HpRange { amount: 80, max: 80 });
            assert_eq!(e.game_state.gold, 99);
            assert_eq!(e.game_state.deck.len(), 10);
            assert!(e.game_state.relics.contains("Burning Blood"));
            assert_eq!(e.available_choices, vec!["Talk".to_string()]);
            assert!(e.screen_state.is_none());
        }
        _ => panic!("not at an event"),
    }
    assert!(p.probability.factors.is_empty());
}

#[test]
fn starting_at_an_ascension_lowers_hit_points() {
    let mut p = GamePossibility { state: FloorState::Menu, probability: Probability::new() };
    let relics = vec![p_relic("Burning Blood")];
    let events = vec![p_event("Neow")];
    predict_outcome(Choice::Start { player_class: Class::Ironclad, ascension: Some(6) }, &mut p, &cards(), &relics, &[], &events, &[]);
    match &p.state {
        FloorState::Event(e) => {
            assert_eq!(e.game_state.asc, 6);
            assert_eq!(e.game_state.hp, HpRange { amount: 72, max: 80 });
            assert_eq!(e.game_state.deck.len(), 10);
        }
        _ => panic!("not at an event"),
    }
}

#[test]
fn wishing_for_gold() {
    let mut p = in_battle(1);
    predict(Choice::WishGold, &mut p);
    let b = battle_of(&p);
    assert_eq!(b.game_state.gold, 124);
    assert_eq!(b.wish, 0);
}

#[test]
fn wishing_for_plated_armor() {
    let mut p = in_battle(2);
    let buffs = vec![p_buff("Strength"), p_buff("Plated Armor")];
    predict_outcome(Choice::WishPlated, &mut p, &cards(), &[], &[], &[], &buffs);
    let b = battle_of(&p);
    assert_eq!(b.player.buffs.len(), 1);
    assert_eq!(b.player.buffs[0].base.name, "Plated Armor");
    assert_eq!(b.wish, 1);
    predict_outcome(Choice::WishStrength, &mut p, &cards(), &[], &[], &[], &buffs);
    let b = battle_of(&p);
    assert_eq!(b.player.buffs.len(), 2);
    assert_eq!(b.player.buffs[1].base.name, "Strength");
    assert_eq!(b.wish, 0);
}

#[test]
fn event_choice_with_effects_applies_them() {
    let base: &'static BaseEvent = Box::leak(Box::new(BaseEvent {
        name: "Counting".to_string(),
        choices: vec![
            BaseEventChoice {
                name: "Count".to_string(),
                effects: vec![Effect::SetN(Amount::Fixed(3)), Effect::AddN(Amount::Fixed(2)), Effect::ShowChoices(vec!["Leave".to_string()])],
                condition: Condition::Always,
                initial: true,
            },
            BaseEventChoice { name: "Leave".to_string(), effects: vec![], condition: Condition::Always, initial: false },
        ],
        shrine: false,
        variants: vec![],
        condition: Condition::Always,
    }));
    let event = EventState {
        base,
        game_state: fresh_run(),
        vars: Vars { n: 0, n_reset: 0, x: 0 },
        variant: None,
        variant_cards: vec![],
        variant_relics: vec![],
        variant_amount: None,
        available_choices: vec!["Count".to_string()],
        screen_state: None,
    };
    let mut p = GamePossibility { state: FloorState::Event(event), probability: Probability::new() };
    predict(Choice::Event("Count".to_string()), &mut p);
    match &p.state {
        FloorState::Event(e) => {
            assert_eq!(e.vars.n, 5);
            assert_eq!(e.vars.n_reset, 3);
            assert_eq!(e.available_choices, vec!["Leave".to_string()]);
        }
        _ => panic!("not at an event"),
    }
    predict(Choice::Event("Leave".to_string()), &mut p);
    assert!(matches!(p.state, FloorState::OnMap(_)));
}

#[test]
fn stance_choices_spend_the_potion() {
    let mut p = in_battle(0);
    if let FloorState::Battle(b) = &mut p.state {
        b.stance = Stance::Calm;
        b.energy = 1;
        b.stance_pot = true;
    }
    predict(Choice::StanceWrath, &mut p);
    let b = battle_of(&p);
    assert_eq!(b.energy, 4);
    assert!(!b.stance_pot);
    assert_eq!(b.stance, Stance::Calm);
    let mut q = in_battle(0);
    if let FloorState::Battle(b) = &mut q.state {
        b.stance_pot = true;
    }
    predict(Choice::StanceCalm, &mut q);
    let b = battle_of(&q);
    assert!(!b.stance_pot);
    assert_eq!(b.energy, 3);
    assert_eq!(b.stance, Stance::Neutral);
}

#[test]
fn drinking_fruit_juice_at_a_rest_site() {
    let mut g = fresh_run();
    let juice: &'static BasePotion = Box::leak(Box::new(BasePotion {
        name: "Fruit Juice".to_string(),
        class: Class::All,
        rarity: Rarity::Rare,
        on_drink: vec![],
        targeted: false,
    }));
    g.add_potion(juice);
    let mut p = at_rest(g);
    predict(Choice::DrinkPotion { slot: 0, target: None }, &mut p);
    let r = rest_of(&p);
    assert_eq!(r.game_state.hp, HpRange { amount: 85, max: 85 });
    assert_eq!(r.screen_state, RestScreenState::IShouldRest);
    assert!(p.probability.factors.is_empty());
}

fn common_card(name: &str) -> &'static BaseCard {
    Box::leak(Box::new(BaseCard {
        name: name.to_string(),
        _type: CardType::Attack,
        _class: Class::Ironclad,
        cost: Amount::Upgradable { amount: 2, upgraded: 1 },
        rarity: Rarity::Common,
        playable_if: Condition::Always,
        on_start: vec![],
        on_play: vec![],
        on_discard: vec![],
        on_draw: vec![],
        on_exhaust: vec![],
        on_retain: vec![],
        on_turn_end: vec![],
        innate: Condition::Never,
        retain: Condition::Never,
        targeted: Condition::Never,
    }))
}

#[test]
fn transforming_cards_draws_new_ones() {
    let mut p = at_rest(fresh_run());
    let deck = rest_of(&p).game_state.deck();
    let strike = *deck.iter().find(|c| c.base.name == "Strike").unwrap();
    let bash = *deck.iter().find(|c| c.base.name == "Bash").unwrap();
    let catalog = vec![common_card("Anger"), common_card("Cleave"), common_card("Bash")];
    predict_outcome(
        Choice::DeckSelect(vec![strike, bash], DeckOperation::TransformUpgrade),
        &mut p,
        &catalog,
        &[],
        &[],
        &[],
        &[],
    );
    let r = rest_of(&p);
    assert_eq!(r.screen_state, RestScreenState::Proceed);
    let after = r.game_state.deck();
    assert_eq!(after.len(), 10);
    assert!(after.iter().all(|c| c.uuid != strike.uuid && c.uuid != bash.uuid));
    let new: Vec<_> = after.iter().filter(|c| c.base.name == "Anger" || c.base.name == "Cleave" || c.base.name == "Bash").collect();
    assert_eq!(new.len(), 2);
    assert!(new.iter().all(|c| c.base.rarity == Rarity::Common));
    // a transformed Bash never becomes Bash again
    assert_eq!(p.probability.factors, vec![(1, 3), (1, 2)]);
}

#[test]
fn chosen_cards_take_the_choice_effects() {
    let mut p = in_battle(0);
    let card = Card::new(p_card("Strike", CardType::Attack));
    let other = Card::new(p_card("Defend", CardType::Skill));
    let effects: im::Vector<&'static CardEffect> = vec![&*Box::leak(Box::new(CardEffect::Upgrade)), &*Box::leak(Box::new(CardEffect::Retain))]
        .into_iter()
        .collect();
    if let FloorState::Battle(b) = &mut p.state {
        b.cards.insert(card.uuid, card);
        b.cards.insert(other.uuid, other);
        b.card_choose = Some(CardChoiceState {
            choices: im::Vector::new(),
            count_range: CountRange { start: 1, end: 2 },
            then: effects,
            scry: false,
        });
    }
    let chosen = CardReference { location: CardLocation::PlayerHand, uuid: card.uuid, base: card.base };
    predict(Choice::SelectCards(vec![chosen]), &mut p);
    let b = battle_of(&p);
    let after = b.cards.get(&card.uuid).unwrap();
    assert_eq!(after.upgrades, 1);
    assert!(after.retain);
    assert_eq!(after.base_cost, 1);
    assert_eq!(b.cards.get(&other.uuid).unwrap(), &other);
    assert!(b.card_choose.is_some());
    // with no choice waiting, choosing changes nothing
    let mut q = in_battle(0);
    predict(Choice::SelectCards(vec![chosen]), &mut q);
    assert!(battle_of(&q).cards.is_empty());
}

#[test]
fn drinking_a_potion_in_battle() {
    let strength = p_buff("Strength");
    let potion: &'static BasePotion = Box::leak(Box::new(BasePotion {
        name: "Energy Potion".to_string(),
        class: Class::All,
        rarity: Rarity::Common,
        on_drink: vec![
            Effect::AddEnergy(Amount::Fixed(2)),
            Effect::AddBuff { buff: strength, amount: Amount::Fixed(2), target: spireai::models::common::Target::Player },
        ],
        targeted: false,
    }));
    let mut p = in_battle(0);
    if let FloorState::Battle(b) = &mut p.state {
        b.game_state.add_potion(potion);
        b.game_state.relics.add(p_relic("Toy Ornithopter"));
        b.game_state.hp = HpRange { amount: 50, max: 80 };
    }
    predict(Choice::DrinkPotion { slot: 0, target: None }, &mut p);
    let b = battle_of(&p);
    assert_eq!(b.energy, 5);
    assert_eq!(b.player.buffs.len(), 1);
    assert_eq!(b.player.buffs[0].base.name, "Strength");
    assert_eq!(b.game_state.hp, HpRange { amount: 55, max: 80 });
    assert!(p.probability.factors.is_empty());
}

fn healing_potion(effect: Effect) -> &'static BasePotion {
    Box::leak(Box::new(BasePotion {
        name: "Blood Potion".to_string(),
        class: Class::All,
        rarity: Rarity::Common,
        on_drink: vec![effect],
        targeted: false,
    }))
}

#[test]
fn healing_potions_in_battle() {
    let by_share = healing_potion(Effect::HealPercentage {
        amount: Amount::Fixed(20),
        target: spireai::models::common::Target::Player,
    });
    let mut p = in_battle(0);
    if let FloorState::Battle(b) = &mut p.state {
        b.game_state.add_potion(by_share);
        b.game_state.hp = HpRange { amount: 50, max: 80 };
    }
    predict(Choice::DrinkPotion { slot: 0, target: None }, &mut p);
    assert_eq!(battle_of(&p).game_state.hp, HpRange { amount: 66, max: 80 });

    let mut p = in_battle(0);
    if let FloorState::Battle(b) = &mut p.state {
        b.game_state.add_potion(by_share);
        b.game_state.relics.add(p_relic("Magic Flower"));
        b.game_state.hp = HpRange { amount: 50, max: 80 };
    }
    predict(Choice::DrinkPotion { slot: 0, target: None }, &mut p);
    assert_eq!(battle_of(&p).game_state.hp, HpRange { amount: 74, max: 80 });

    let by_value = healing_potion(Effect::Heal { amount: Amount::Fixed(5), target: spireai::models::common::Target::_Self });
    let mut p = in_battle(0);
    if let FloorState::Battle(b) = &mut p.state {
        b.game_state.add_potion(by_value);
        b.game_state.relics.add(p_relic("Magic Flower"));
        b.game_state.hp = HpRange { amount: 50, max: 80 };
    }
    predict(Choice::DrinkPotion { slot: 0, target: None }, &mut p);
    assert_eq!(battle_of(&p).game_state.hp, HpRange { amount: 58, max: 80 });
}

fn on_map(g: GameState, column: usize, icon: spireai::state::map::MapNodeIcon) -> GamePossibility {
    let mut g = g;
    g.map.nodes[column] = Some(spireai::state::map::MapNode {
        y: 0,
        x: column as u8,
        left: false,
        up: true,
        right: false,
        icon,
    });
    GamePossibility { state: FloorState::OnMap(g), probability: Probability::new() }
}

#[test]
fn going_to_a_rest_site() {
    let mut g = fresh_run();
    g.hp = HpRange { amount: 40, max: 80 };
    g.relics.add(p_relic("Eternal Feather"));
    g.relics.add(p_relic("Ancient Tea Set"));
    let mut p = on_map(g, 3, spireai::state::map::MapNodeIcon::Campfire);
    predict(Choice::NavigateToNode(3), &mut p);
    let r = rest_of(&p);
    assert_eq!(r.screen_state, RestScreenState::IShouldRest);
    assert_eq!(r.game_state.map.floor, 0);
    assert_eq!(r.game_state.map.index, Some(3));
    assert_eq!(r.game_state.hp, HpRange { amount: 46, max: 80 });
    assert!(r.game_state.relics.find("Ancient Tea Set").unwrap().enabled);
    assert!(p.probability.factors.is_empty());
}

#[test]
fn going_to_a_shop() {
    let mut g = fresh_run();
    g.hp = HpRange { amount: 40, max: 80 };
    g.relics.add(p_relic("Meal Ticket"));
    let mut p = on_map(g, 0, spireai::state::map::MapNodeIcon::Shop);
    predict(Choice::NavigateToNode(0), &mut p);
    match &p.state {
        FloorState::Shop(s) => {
            assert_eq!(s.screen_state, ShopScreenState::Entrance);
            assert!(!s.generated);
            assert!(s.can_purge);
            assert!(s.cards.is_empty());
            assert!(s.game_state.map.history.last_shop);
            assert_eq!(s.game_state.hp, HpRange { amount: 55, max: 80 });
        },
        _ => panic!("not in a shop"),
    }
    assert!(p.probability.factors.is_empty());
}

#[test]
fn going_to_a_treasure_room() {
    let mut p = on_map(fresh_run(), 6, spireai::state::map::MapNodeIcon::Chest);
    predict(Choice::NavigateToNode(6), &mut p);
    match &p.state {
        FloorState::Chest(c) => {
            assert!(c.rewards.is_none());
            let odds = match c.chest {
                ChestType::Small => 3,
                ChestType::Medium => 2,
                ChestType::Large => 1,
                ChestType::Boss => panic!("no boss chest here"),
            };
            assert_eq!(p.probability.factors, vec![(odds, 6)]);
            assert_eq!(c.game_state.map.index, Some(6));
        },
        _ => panic!("not in a treasure room"),
    }
}

#[test]
fn tiny_chest_turns_an_unknown_node_into_treasure() {
    let mut g = fresh_run();
    let tiny = g.relics.add(p_relic("Tiny Chest"));
    let mut relic = g.relics.get(tiny);
    relic.vars.x = 3;
    g.relics.relics.insert(relic.uuid, relic);
    g.relics.add(p_relic("Ssserpent Head"));
    let gold = g.gold;
    let mut p = on_map(g, 2, spireai::state::map::MapNodeIcon::Question);
    predict(Choice::NavigateToNode(2), &mut p);
    match &p.state {
        FloorState::Chest(c) => {
            assert_eq!(p.probability.factors.len(), 2);
            assert_eq!(p.probability.factors[0], (100, 100));
            assert_eq!(p.probability.factors[1].1, 6);
            let g = &c.game_state;
            assert_eq!(g.gold, gold + 50);
            assert_eq!(g.relics.find("Tiny Chest").unwrap().vars.x, 0);
            assert_eq!(g.map.history.unknown_normal_count, 1);
            assert_eq!(g.map.history.unknown_shop_count, 1);
            assert_eq!(g.map.history.unknown_treasure_count, 0);
        },
        _ => panic!("not in a treasure room"),
    }
}

#[test]
fn ambrosia_enters_divinity() {
    let potion = healing_potion(Effect::SetStance(Stance::Divinity));
    let mut p = in_battle(0);
    if let FloorState::Battle(b) = &mut p.state {
        b.game_state.add_potion(potion);
        b.stance = Stance::Calm;
    }
    predict(Choice::DrinkPotion { slot: 0, target: None }, &mut p);
    let b = battle_of(&p);
    assert_eq!(b.energy, 9);
    assert_eq!(b.stance, Stance::Calm);
}

#[test]
fn weak_potion_weakens_its_target() {
    let weak = p_buff("Weak");
    let potion: &'static BasePotion = Box::leak(Box::new(BasePotion {
        name: "Weak Potion".to_string(),
        class: Class::All,
        rarity: Rarity::Common,
        on_drink: vec![Effect::AddBuff {
            buff: weak,
            amount: Amount::Fixed(3),
            target: spireai::models::common::Target::TargetMonster,
        }],
        targeted: true,
    }));
    let base: &'static spireai::models::monsters::BaseMonster = Box::leak(Box::new(spireai::models::monsters::BaseMonster {
        name: "Cultist".to_string(),
        hp_range: spireai::models::monsters::SimpleRange { min: 48, max: 54 },
        hp_range_asc: spireai::models::monsters::SimpleRange { min: 50, max: 56 },
        fight_type: FightType::Common,
        moveset: vec![],
        phases: vec![],
        n_range: None,
        x_range: None,
        effects: vec![],
    }));
    let monster = spireai::state::common::Monster::create(base, 50);
    let uuid = monster.uuid;
    let mut p = in_battle(0);
    if let FloorState::Battle(b) = &mut p.state {
        b.game_state.add_potion(potion);
        b.monsters.insert(uuid, monster);
    }
    let target = spireai::spireai::references::MonsterReference { base, uuid };
    predict(Choice::DrinkPotion { slot: 0, target: Some(target) }, &mut p);
    let b = battle_of(&p);
    let m = &b.monsters[&uuid];
    assert_eq!(m.creature.buffs.len(), 1);
    assert_eq!(m.creature.buffs[0].base.name, "Weak");
    assert!(b.player.buffs.is_empty());
}
