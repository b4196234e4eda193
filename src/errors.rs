use vstd::prelude::*;

verus! {

/// Failures of territory accounts.
#[derive(Debug, PartialEq, Eq, Structural)]
pub enum TerritoryError {
    AlreadyInitialized,
    NotInitialized,
    InvalidPosition,
}

/// Failures of vampire accounts.
#[derive(Debug, PartialEq, Eq, Structural)]
pub enum VampireError {
    AlreadyInitialized,
    NotInitialized,
    AlreadyHunting,
    InvalidLoot,
}

/// Failures of crafting accounts.
#[derive(Debug, PartialEq, Eq, Structural)]
pub enum CraftError {
    AlreadyInitialized,
    NotInitialized,
    InvalidID,
}

/// Failures of player accounts.
#[derive(Debug, PartialEq, Eq, Structural)]
pub enum PlayerError {
    AlreadyInitialized,
    NotInitialized,
    NotEnoughCurrencies,
}

} // verus!
