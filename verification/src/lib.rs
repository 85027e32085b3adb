//! Simulation core of a falling-block puzzle game: a fixed 10 x 20 board, a
//! single falling piece with move/rotate/collision rules, a seven-batch
//! randomized piece supply, and a tick-driven update loop that ages the board,
//! locks pieces, clears completed rows and scores the result. Rendering,
//! audio playback and input polling are collaborators outside this crate; the
//! core exposes its state for them to read and emits abstract sound cues.

mod app_state;
mod board;
mod game_state;
mod piece_bag;
mod player_piece;
mod sound_queue;

pub use app_state::AppState;
pub use app_state::Mode;
pub use board::Board;
pub use game_state::GameState;
pub use game_state::Input;
pub use piece_bag::PieceBag;
pub use player_piece::PlayerPiece;
pub use player_piece::Tile;
pub use sound_queue::Sound;
pub use sound_queue::SoundQueue;
