use shadow_runner::state::GameState;

#[test]
fn game_starts_on_the_loading_screen() {
    assert_eq!(GameState::default(), GameState::LoadingScreen);
}

#[test]
fn escape_pauses_and_takes_up_again() {
    assert_eq!(GameState::PlayingScreen.after_escape(), Some(GameState::PauseScreen));
    assert_eq!(GameState::PauseScreen.after_escape(), Some(GameState::PlayingScreen));
}

#[test]
fn escape_does_nothing_on_the_other_screens() {
    assert_eq!(GameState::GameOverScreen.after_escape(), None);
    assert_eq!(GameState::LoadingScreen.after_escape(), None);
    assert_eq!(GameState::MainMenuScreen.after_escape(), None);
    assert_eq!(GameState::LevelsMenuScreen.after_escape(), None);
    assert_eq!(GameState::CreditScreen.after_escape(), None);
}
