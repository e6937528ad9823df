//! The screens of the game.

use vstd::prelude::*;

verus! {

/// The screen that the game shows.
#[derive(Clone, Copy, Debug, PartialEq, Eq, Hash, Structural)]
pub enum GameState {
    PauseScreen,
    GameOverScreen,
    LoadingScreen,
    MainMenuScreen,
    LevelsMenuScreen,
    PlayingScreen,
    CreditScreen,
}

impl Default for GameState {
    fn default() -> (state: Self)
        ensures
            state == GameState::LoadingScreen,
    {
        GameState::LoadingScreen
    }
}

impl GameState {
    /// The screen that the escape key leads to: it pauses the game and takes
    /// it up again, and does nothing on any other screen.
    pub fn after_escape(self) -> (next: Option<GameState>)
        ensures
            next == match self {
                GameState::PauseScreen => Some(GameState::PlayingScreen),
                GameState::PlayingScreen => Some(GameState::PauseScreen),
                _ => None,
            },
    {
        match self {
            GameState::PauseScreen => Some(GameState::PlayingScreen),
            GameState::PlayingScreen => Some(GameState::PauseScreen),
            _ => None,
        }
    }
}

} // verus!
