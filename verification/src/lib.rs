//! Client-side logic of a TetriNET 1.13 client: the encoded login command that opens a
//! session, the rules of the falling-block playfield, and the client's top-level states.

pub mod board;
pub mod login;
pub mod state;

pub use board::{
    apply_gravity, can_move_down, can_move_left, can_move_right, lock_tetro, spawn_tetro,
    tetro_on_left_right_input, GravityOutcome, Grid, Tetro, TetroKind, TetroRot,
    DEFAULT_BLOCK_SZ, GRID_HEIGHT, GRID_WIDTH,
};
pub use login::{tnet_encrypt, tnet_encrypt_with_salt};
pub use state::{titlescreen_next_state, AppState};
