//! The game state that the game client reports, as plain values.

use vstd::prelude::*;

use crate::models;
use crate::models::common::str_eq;

verus! {

#[derive(Debug, Clone, Copy, PartialEq, Eq, Structural)]
pub enum PlayerClass {
    Ironclad,
    Silent,
    Defect,
    Watcher,
    Other,
}

#[derive(Debug, Clone, Copy, PartialEq, Eq, Structural)]
pub enum CardType {
    Attack,
    Skill,
    Power,
    Status,
    Curse,
}

#[derive(Debug, Clone, Copy, PartialEq, Eq, Structural)]
pub enum CardRarity {
    Basic,
    Common,
    Uncommon,
    Rare,
    Special,
    Curse,
}

#[derive(Debug, Clone, Copy, PartialEq, Eq, Structural)]
pub enum RoomPhase {
    Combat,
    Event,
    Complete,
    Incomplete,
}

#[derive(Debug, Clone)]
pub struct EventOption {
    pub text: String,
    pub label: String,
    pub disabled: bool,
    pub choice_index: Option<i32>,
}

#[derive(Debug, Clone)]
pub struct Event {
    pub event_name: String,
    pub event_id: String,
    pub body_text: String,
    pub options: Vec<EventOption>,
}

#[derive(Debug, Clone, Copy, PartialEq, Eq, Structural)]
pub struct Chest {
    pub chest_type: ChestType,
    pub chest_open: bool,
}

#[derive(Debug, Clone)]
pub struct Rest {
    pub has_rested: bool,
    pub rest_options: Vec<RestOption>,
}

#[derive(Debug)]
pub struct CardReward {
    pub cards: Vec<Card>,
    pub bowl_available: bool,
    pub skip_available: bool,
}

#[derive(Debug)]
pub struct MapChoice {
    pub current_node: Option<MapNode>,
    pub next_nodes: Option<Vec<MapNode>>,
    pub boss_available: bool,
}

#[derive(Debug)]
pub struct ShopScreen {
    pub cards: Vec<Card>,
    pub relics: Vec<Relic>,
    pub potions: Vec<Potion>,
    pub purge_available: bool,
    pub purge_cost: bool,
}

#[derive(Debug)]
pub struct Grid {
    pub cards: Vec<Card>,
    pub selected_cards: Vec<Card>,
    pub num_cards: i32,
    pub any_number: bool,
    pub confirm_up: bool,
    pub for_upgrade: bool,
    pub for_transform: bool,
    pub for_purge: bool,
}

#[derive(Debug)]
pub struct HandSelect {
    pub cards: Vec<Card>,
    pub selected: Vec<Card>,
    pub num_cards: i32,
    pub can_pick_zero: bool,
}

#[derive(Debug, Clone, Copy, PartialEq, Eq, Structural)]
pub struct GameOver {
    pub score: i32,
    pub victory: bool,
}

/// The screen that the client shows. `Idle` is the client's `NONE` screen.
#[derive(Debug)]
pub enum ScreenState {
    Idle,
    Event(Event),
    Chest(Chest),
    ShopRoom,
    Rest(Rest),
    CardReward(CardReward),
    CombatReward(Vec<RewardType>),
    MapScreen(MapChoice),
    BossReward(Vec<Relic>),
    ShopScreen(ShopScreen),
    Grid(Grid),
    HandSelect(HandSelect),
    GameOver(GameOver),
    Complete,
}

#[derive(Debug, Clone, Copy, PartialEq, Eq, Structural)]
pub enum ChestType {
    Small,
    Medium,
    Large,
    Boss,
    Unknown,
}

#[derive(Debug, Clone)]
pub enum RewardType {
    Card,
    Gold { gold: i32 },
    Relic { relic: Relic },
    Potion { potion: Potion },
    StolenGold { gold: i32 },
    EmeraldKey,
    SapphireKey { link: Relic },
}

#[derive(Debug, Clone, Copy, PartialEq, Eq, Structural)]
pub enum RestOption {
    Dig,
    Lift,
    Recall,
    Rest,
    Smith,
    Toke,
}

/// A message of the client: an error, whether it waits for a command, and the game.
#[derive(Debug)]
pub struct Response {
    pub error: Option<String>,
    pub ready_for_command: bool,
    pub in_game: bool,
    pub game_state: Option<GameState>,
    pub available_commands: Vec<String>,
}

/// The game as the client reports it.
#[derive(Debug)]
pub struct GameState {
    pub current_action: Option<String>,
    pub current_hp: i32,
    pub max_hp: i32,
    pub floor: i32,
    pub act: i32,
    pub gold: i32,
    pub seed: i64,
    pub class: PlayerClass,
    pub ascension_level: i32,
    pub relics: Vec<Relic>,
    pub deck: Vec<Card>,
    pub map: Vec<MapNode>,
    pub potions: Vec<Potion>,
    pub act_boss: Option<String>,
    pub is_screen_up: bool,
    pub room_phase: RoomPhase,
    pub room_type: String,
    pub combat_state: Option<CombatState>,
    pub screen_state: ScreenState,
    pub choice_list: Vec<String>,
}

#[derive(Debug)]
pub struct CombatState {
    pub player: Player,
    pub monsters: Vec<Monster>,
    pub draw_pile: Vec<Card>,
    pub discard_pile: Vec<Card>,
    pub exhaust_pile: Vec<Card>,
    pub hand: Vec<Card>,
    pub limbo: Vec<Card>,
    pub card_in_play: Option<Card>,
    pub turn: i32,
    pub cards_discarded_this_turn: i32,
}

/// What a monster shows that it will do, as the client names it. `Nothing` is the
/// client's `NONE` intent.
#[derive(Debug, Clone, Copy, PartialEq, Eq, Structural)]
pub enum Intent {
    Attack,
    AttackBuff,
    AttackDebuff,
    AttackDefend,
    Buff,
    Debuff,
    StrongDebuff,
    Debug,
    Defend,
    DefendDebuff,
    DefendBuff,
    Escape,
    Magic,
    Nothing,
    Sleep,
    Stun,
    Unknown,
}

#[derive(Debug)]
pub struct Monster {
    pub max_hp: i32,
    pub current_hp: i32,
    pub block: i32,
    pub powers: Vec<Power>,
    pub name: String,
    pub id: String,
    pub intent: Intent,
    pub half_dead: bool,
    pub is_gone: bool,
    pub move_id: Option<i32>,
    pub last_move_id: Option<i32>,
    pub second_last_move_id: Option<i32>,
    pub move_base_damage: i32,
    pub move_adjusted_damage: i32,
    pub move_hits: i32,
}

#[derive(Debug)]
pub struct Player {
    pub max_hp: i32,
    pub current_hp: i32,
    pub block: i32,
    pub powers: Vec<Power>,
    pub energy: i32,
    pub orbs: Vec<OrbType>,
}

#[derive(Debug, Clone)]
pub struct OrbType {
    pub name: String,
    pub orb_id: String,
    pub evoke_amount: i32,
    pub passive_amount: i32,
}

#[derive(Debug)]
pub struct Power {
    pub id: String,
    pub name: String,
    pub amount: i32,
    pub damage: Option<i32>,
    pub misc: Option<i32>,
    pub just_applied: bool,
    pub card: Option<Card>,
}

#[derive(Debug, Clone)]
pub struct Relic {
    pub id: String,
    pub name: String,
    pub counter: i32,
    pub price: Option<i32>,
}

#[derive(Debug, Clone)]
pub struct Card {
    pub id: String,
    pub name: String,
    pub card_type: CardType,
    pub rarity: CardRarity,
    pub upgrades: i32,
    pub has_target: bool,
    pub cost: i32,
    pub uuid: String,
    pub misc: Option<i32>,
    pub price: Option<i32>,
    pub is_playable: bool,
    pub exhausts: bool,
}

#[derive(Debug)]
pub struct MapNode {
    pub x: i32,
    pub y: i32,
    pub symbol: char,
    pub children: Vec<MapNode>,
}

#[derive(Debug, Clone)]
pub struct Potion {
    pub id: String,
    pub name: String,
    pub can_use: bool,
    pub can_discard: bool,
    pub requires_target: bool,
    pub price: Option<i32>,
}

/// The room types that the client names.
pub open spec fn is_known_room(room: Seq<char>) -> bool {
    room == "Rest"@ || room == "Shop"@ || room == "Question"@ || room == "Battle"@ || room
        == "HallwayFight"@ || room == "Event"@ || room == "Elite"@ || room == "Boss"@ || room
        == "Treasure"@
}

/// The room of a room type that the client names: fights of the hallway and of the
/// battle room are common fights, elite rooms unburnt elite fights.
pub open spec fn room_of(room: Seq<char>) -> models::common::RoomType {
    if room == "Rest"@ {
        models::common::RoomType::Rest
    } else if room == "Shop"@ {
        models::common::RoomType::Shop
    } else if room == "Question"@ {
        models::common::RoomType::Question
    } else if room == "Battle"@ || room == "HallwayFight"@ {
        models::common::RoomType::Fight(models::common::FightType::Common)
    } else if room == "Event"@ {
        models::common::RoomType::Event
    } else if room == "Elite"@ {
        models::common::RoomType::Fight(models::common::FightType::Elite { burning: false })
    } else if room == "Boss"@ {
        models::common::RoomType::Fight(models::common::FightType::Boss)
    } else {
        models::common::RoomType::Treasure
    }
}

/// The room of a room type that the client names.
pub fn convert_room(room_type: &String) -> (res: models::common::RoomType)
    requires
        is_known_room(room_type@),
    ensures
        res == room_of(room_type@),
{
    let r = room_type.as_str();
    if str_eq(r, "Rest") {
        models::common::RoomType::Rest
    } else if str_eq(r, "Shop") {
        models::common::RoomType::Shop
    } else if str_eq(r, "Question") {
        models::common::RoomType::Question
    } else if str_eq(r, "Battle") || str_eq(r, "HallwayFight") {
        models::common::RoomType::Fight(models::common::FightType::Common)
    } else if str_eq(r, "Event") {
        models::common::RoomType::Event
    } else if str_eq(r, "Elite") {
        models::common::RoomType::Fight(models::common::FightType::Elite { burning: false })
    } else if str_eq(r, "Boss") {
        models::common::RoomType::Fight(models::common::FightType::Boss)
    } else {
        models::common::RoomType::Treasure
    }
}

/// The intent of the model that an intent of the client names, for every intent but
/// `Debug` and `Magic`, which the model does not have.
pub open spec fn intent_of(intent: Intent) -> models::monsters::Intent {
    match intent {
        Intent::Attack => models::monsters::Intent::Attack,
        Intent::AttackBuff => models::monsters::Intent::AttackBuff,
        Intent::AttackDebuff => models::monsters::Intent::AttackDebuff,
        Intent::AttackDefend => models::monsters::Intent::AttackDefend,
        Intent::Buff => models::monsters::Intent::Buff,
        Intent::Debuff => models::monsters::Intent::Debuff,
        Intent::StrongDebuff => models::monsters::Intent::StrongDebuff,
        Intent::Defend => models::monsters::Intent::Defend,
        Intent::DefendDebuff => models::monsters::Intent::DefendDebuff,
        Intent::DefendBuff => models::monsters::Intent::DefendBuff,
        Intent::Escape => models::monsters::Intent::Escape,
        Intent::Nothing => models::monsters::Intent::NoIntent,
        Intent::Sleep => models::monsters::Intent::Sleep,
        Intent::Stun => models::monsters::Intent::Stun,
        _ => models::monsters::Intent::Unknown,
    }
}

/// The intent of the model that an intent of the client names.
pub fn convert_intent(intent: &Intent) -> (res: models::monsters::Intent)
    requires
        *intent != Intent::Debug && *intent != Intent::Magic,
    ensures
        res == intent_of(*intent),
{
    match intent {
        Intent::Attack => models::monsters::Intent::Attack,
        Intent::AttackBuff => models::monsters::Intent::AttackBuff,
        Intent::AttackDebuff => models::monsters::Intent::AttackDebuff,
        Intent::AttackDefend => models::monsters::Intent::AttackDefend,
        Intent::Buff => models::monsters::Intent::Buff,
        Intent::Debuff => models::monsters::Intent::Debuff,
        Intent::StrongDebuff => models::monsters::Intent::StrongDebuff,
        Intent::Defend => models::monsters::Intent::Defend,
        Intent::DefendDebuff => models::monsters::Intent::DefendDebuff,
        Intent::DefendBuff => models::monsters::Intent::DefendBuff,
        Intent::Escape => models::monsters::Intent::Escape,
        Intent::Nothing => models::monsters::Intent::NoIntent,
        Intent::Sleep => models::monsters::Intent::Sleep,
        Intent::Stun => models::monsters::Intent::Stun,
        _ => models::monsters::Intent::Unknown,
    }
}

/// The orb kinds that the client names.
pub open spec fn is_known_orb(name: Seq<char>) -> bool {
    name == "Lightning"@ || name == "Dark"@ || name == "Frost"@ || name == "Plasma"@
}

/// The orb kind of a name that the client uses.
pub open spec fn orb_of(name: Seq<char>) -> models::common::OrbType {
    if name == "Lightning"@ {
        models::common::OrbType::Lightning
    } else if name == "Dark"@ {
        models::common::OrbType::Dark
    } else if name == "Frost"@ {
        models::common::OrbType::Frost
    } else {
        models::common::OrbType::Plasma
    }
}

/// The orb kind of a name that the client uses.
pub fn orb_type_by_name(name: &str) -> (res: models::common::OrbType)
    requires
        is_known_orb(name@),
    ensures
        res == orb_of(name@),
{
    if str_eq(name, "Lightning") {
        models::common::OrbType::Lightning
    } else if str_eq(name, "Dark") {
        models::common::OrbType::Dark
    } else if str_eq(name, "Frost") {
        models::common::OrbType::Frost
    } else {
        models::common::OrbType::Plasma
    }
}

/// The player's orbs in the model, in order: each of the client's orbs with its kind
/// and evoke amount.
pub fn convert_orbs(orbs: &Vec<OrbType>) -> (res: Vec<models::state::Orb>)
    requires
        forall|i: int| 0 <= i < orbs@.len() ==> is_known_orb((#[trigger] orbs@[i]).name@),
    ensures
        res@.len() == orbs@.len(),
        forall|i: int|
            0 <= i < orbs@.len() ==> #[trigger] res@[i] == (models::state::Orb {
                base: orb_of(orbs@[i].name@),
                n: orbs@[i].evoke_amount as u16,
            }),
{
    let mut res: Vec<models::state::Orb> = Vec::new();
    let mut i: usize = 0;
    while i < orbs.len()
        invariant
            0 <= i <= orbs@.len(),
            forall|k: int| 0 <= k < orbs@.len() ==> is_known_orb((#[trigger] orbs@[k]).name@),
            res@.len() == i,
            forall|k: int|
                0 <= k < i ==> #[trigger] res@[k] == (models::state::Orb {
                    base: orb_of(orbs@[k].name@),
                    n: orbs@[k].evoke_amount as u16,
                }),
        decreases orbs@.len() - i,
    {
        let orb = &orbs[i];
        res.push(
            models::state::Orb {
                base: orb_type_by_name(orb.name.as_str()),
                n: orb.evoke_amount as u16,
            },
        );
        i = i + 1;
    }
    res
}

/// The class of the model that a class of the client names.
pub open spec fn class_of(class: PlayerClass) -> models::common::Class {
    match class {
        PlayerClass::Ironclad => models::common::Class::Ironclad,
        PlayerClass::Silent => models::common::Class::Silent,
        PlayerClass::Defect => models::common::Class::Defect,
        _ => models::common::Class::Watcher,
    }
}

/// Each class that the client reports is read as the model's class of the same name, and
/// no two of them as the same class.
pub proof fn law_classes_read_by_name()
    ensures
        class_of(PlayerClass::Ironclad) == models::common::Class::Ironclad,
        class_of(PlayerClass::Silent) == models::common::Class::Silent,
        class_of(PlayerClass::Defect) == models::common::Class::Defect,
        class_of(PlayerClass::Watcher) == models::common::Class::Watcher,
        forall|a: PlayerClass, b: PlayerClass| a != PlayerClass::Other && b != PlayerClass::Other
            && #[trigger] class_of(a) == #[trigger] class_of(b) ==> a == b,
{
}

/// The class of the model that a class of the client names.
pub fn convert_class(class: &PlayerClass) -> (res: models::common::Class)
    requires
        *class != PlayerClass::Other,
    ensures
        res == class_of(*class),
{
    match class {
        PlayerClass::Ironclad => models::common::Class::Ironclad,
        PlayerClass::Silent => models::common::Class::Silent,
        PlayerClass::Defect => models::common::Class::Defect,
        _ => models::common::Class::Watcher,
    }
}

} // verus!
