//! The top-level states of the client and the title screen's decision.

use vstd::prelude::*;

verus! {

/// Where the client is: on the title screen, connecting to a server, or in a game.
#[derive(Clone, Copy, Debug, PartialEq, Eq, Hash, Structural)]
pub enum AppState {
    MainMenu,
    Connecting,
    InGame,
}

impl Default for AppState {
    /// The client starts on the title screen.
    fn default() -> (s: Self)
        ensures
            s == AppState::MainMenu,
    {
        AppState::MainMenu
    }
}

/// The state the title screen asks for: `Connecting` once the connect button has been
/// clicked, no change otherwise.
pub fn titlescreen_next_state(connect_clicked: bool) -> (next: Option<AppState>)
    ensures
        next == (if connect_clicked {
            Some(AppState::Connecting)
        } else {
            None
        }),
{
    if connect_clicked {
        Some(AppState::Connecting)
    } else {
        None
    }
}

} // verus!
