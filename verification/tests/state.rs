use tetrinet::{titlescreen_next_state, AppState};

#[test]
fn client_starts_on_the_title_screen() {
    assert_eq!(AppState::default(), AppState::MainMenu);
}

#[test]
fn connect_click_moves_to_connecting() {
    assert_eq!(titlescreen_next_state(true), Some(AppState::Connecting));
    assert_eq!(titlescreen_next_state(false), None);
}
