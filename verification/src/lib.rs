//! Core rules of a draw-to-solve ball puzzle: a ball has to reach the stars of
//! a level, and the player helps it along by drawing and erasing strokes.
//!
//! - [`format`] and [`text`]: the text format levels are written in.
//! - [`level`]: levels, the catalog, and the stages of a level.
//! - [`stroke`], [`erase`] and [`player`]: the freehand stroke editor.
//! - [`session`]: the tick that drives it all.
//! - [`table`] and [`timer`]: what is taken on trust from the engine.
//!
//! Positions are fixed-point: whole thousandths of a pixel (see [`geometry`]).

use vstd::prelude::*;

pub use crate::level::LevelState;

pub mod erase;
pub mod format;
pub mod geometry;
pub mod level;
pub mod player;
pub mod session;
pub mod stroke;
pub mod table;
pub mod text;
pub mod timer;

verus! {

/// What a collidable thing on the playfield is.
#[derive(Clone, Copy, Debug, PartialEq, Eq, Hash, Structural)]
pub enum ColliderType {
    /// A stroke drawn by the player.
    Ground,
    /// A polyline of the level's scene.
    Scene,
    /// A star to collect.
    Star,
}

impl Default for ColliderType {
    fn default() -> (kind: ColliderType)
        ensures
            kind == ColliderType::Ground,
    {
        ColliderType::Ground
    }
}

/// The stage of the game. The stages follow each other in a cycle that never
/// ends: a level is loaded, revealed piece by piece, played until its last
/// star is collected, cleared, concealed piece by piece, and the next level
/// is loaded.
#[derive(Clone, Copy, Debug, PartialEq, Eq, Hash, Structural)]
pub enum GameState {
    Loading,
    Revealing,
    Playing,
    Clearing,
    Concealing,
}

impl Default for GameState {
    fn default() -> (state: GameState)
        ensures
            state == GameState::Loading,
    {
        GameState::Loading
    }
}

impl GameState {
    /// The stage that follows this one.
    pub open spec fn next(self) -> GameState {
        match self {
            GameState::Loading => GameState::Revealing,
            GameState::Revealing => GameState::Playing,
            GameState::Playing => GameState::Clearing,
            GameState::Clearing => GameState::Concealing,
            GameState::Concealing => GameState::Loading,
        }
    }

    /// Computes `self.next()`.
    pub fn successor(self) -> (state: GameState)
        ensures
            state == self.next(),
    {
        match self {
            GameState::Loading => GameState::Revealing,
            GameState::Revealing => GameState::Playing,
            GameState::Playing => GameState::Clearing,
            GameState::Clearing => GameState::Concealing,
            GameState::Concealing => GameState::Loading,
        }
    }
}

/// How many stars are left to collect.
#[derive(Clone, Copy, Debug, PartialEq, Eq, Structural)]
pub struct StarsLeft(pub usize);

} // verus!
