//! The targets, card modifiers and card places that status effects name.

use vstd::prelude::*;

verus! {

#[derive(PartialEq, Eq, Structural, Clone, Copy, Debug)]
pub enum EffectTarget {
    _Self,
    RandomEnemy,
    TargetEnemy,
    AllEnemies,
    Attacker,
}

/// How a card that an effect adds is changed. `Unchanged` is no change.
#[derive(PartialEq, Eq, Structural, Clone, Copy, Debug)]
pub enum CardModifier {
    Unchanged,
    SetZeroCombatCost,
    SetZeroTurnCost,
    SetZeroCostUntilPlayed,
    Upgraded,
}

#[derive(PartialEq, Eq, Structural, Clone, Copy, Debug)]
pub enum RelativePosition {
    Bottom,
    Top,
    Random,
    PlayerChoice(i32),
    All,
}

#[derive(PartialEq, Eq, Structural, Clone, Copy, Debug)]
pub enum CardLocation {
    This,
    DeckPile,
    DrawPile(RelativePosition),
    PlayerHand(RelativePosition),
    ExhaustPile(RelativePosition),
    DiscardPile(RelativePosition),
}

} // verus!
