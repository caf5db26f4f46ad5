//! What the player faces on a floor, and the keys of the run.

use vstd::prelude::*;

use crate::models::common::{ChestType, DeckOperation};
use crate::state::battle::BattleState;
use crate::state::common::{CardOffer, RewardState};
use crate::state::event::EventState;
use crate::state::game::GameState;
use crate::state::probability::Probability;
use crate::state::shop::ShopState;

verus! {

/// The three keys that open the way to the fourth act.
#[derive(PartialEq, Eq, Structural, Hash, Clone, Copy, Debug)]
pub struct KeyState {
    pub ruby: bool,
    pub emerald: bool,
    pub sapphire: bool,
}

/// What the player faces: an event, a rest site, a chest, a battle or its rewards, the
/// end of the game, a shop, the map (`OnMap`), or the menu.
#[derive(PartialEq, Eq, Clone, Debug)]
pub enum FloorState {
    Event(EventState),
    Rest(RestState),
    Chest(ChestState),
    Battle(BattleState),
    BattleOver(BattleOverState),
    GameOver(bool),
    Shop(ShopState),
    OnMap(GameState),
    Menu,
}

/// Whether a floor state holds the run of the player: all but the end of the game and
/// the menu do.
pub open spec fn has_game(f: FloorState) -> bool {
    !(f is GameOver || f is Menu)
}

/// The run of the player in a floor state that holds one.
pub open spec fn game_of(f: FloorState) -> GameState {
    match f {
        FloorState::Event(state) => state.game_state,
        FloorState::Rest(state) => state.game_state,
        FloorState::Chest(state) => state.game_state,
        FloorState::Battle(state) => state.game_state,
        FloorState::BattleOver(state) => state.game_state,
        FloorState::Shop(state) => state.game_state,
        FloorState::OnMap(state) => state,
        _ => arbitrary(),
    }
}

impl FloorState {
    /// The run of the player, which the floor state must hold.
    pub fn game_state(&self) -> (res: &GameState)
        requires
            has_game(*self),
        ensures
            *res == game_of(*self),
    {
        match self {
            FloorState::Event(state) => &state.game_state,
            FloorState::Rest(state) => &state.game_state,
            FloorState::Chest(state) => &state.game_state,
            FloorState::Battle(state) => &state.game_state,
            FloorState::BattleOver(state) => &state.game_state,
            FloorState::Shop(state) => &state.game_state,
            FloorState::OnMap(state) => state,
            _ => vstd::pervasive::unreached(),
        }
    }
}

/// A state of the game that a choice may lead to, with the probability of reaching it.
pub struct GamePossibility {
    pub state: FloorState,
    pub probability: Probability,
}

/// A battle won, with its rewards on screen.
#[derive(PartialEq, Eq, Clone, Debug)]
pub struct BattleOverState {
    pub game_state: GameState,
    pub rewards: RewardState,
}

/// A rest site and what the player is doing there.
#[derive(PartialEq, Eq, Clone, Debug)]
pub struct RestState {
    pub screen_state: RestScreenState,
    pub game_state: GameState,
}

/// What the player is doing at a rest site.
#[derive(PartialEq, Eq, Hash, Clone, Debug)]
pub enum RestScreenState {
    IShouldRest,
    Toke,
    DreamCatch(im::Vector<CardOffer>),
    Smith,
    Dig(RewardState),
    DeckSelect(DeckOperation),
    Proceed,
}

/// A chest, its rewards once opened, and the run of the player.
#[derive(PartialEq, Eq, Clone, Debug)]
pub struct ChestState {
    pub chest: ChestType,
    pub rewards: Option<RewardState>,
    pub game_state: GameState,
}

} // verus!
