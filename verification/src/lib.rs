//! Rules of Blokus Duo, verified: the pieces and their orientations, legal
//! moves, applying a move, the end of the game, scoring, the action encoding
//! and the input planes of a policy-value network, with a fast self-play
//! policy driven by a seeded generator.
pub mod table;
pub mod pieces;
pub mod types;
pub mod rules;
pub mod game;
pub mod score;
pub mod action;
pub mod features;
pub mod rng;
pub mod laws;
pub mod selfplay;
pub mod cli;
pub mod replay;

pub use table::{
    ACTION_SIZE, BOARD_CELLS, BOARD_SIZE, EMPTY, ORIENTATION_COUNT, PASS_ACTION, PIECE_IDS,
    STATE_PLANES,
};
pub use pieces::{get_orientation, get_orientations, orientation_count, orientations, piece_size, Orientation};
pub use types::{other, GameStatus, Move, StartPoint, StartPolicy, State};
pub use rules::{generate_legal_placements_for_player, is_legal_placement};
pub use game::{apply_move, create_initial_state, generate_legal_moves, is_terminal};
pub use score::{remaining_unit_squares, score_player, score_state};
pub use action::{action_size, decode_action, encode_action, pass_action};
pub use features::encode_state_tensor;
pub use rng::{choose_fast_move, move_piece_size, Lcg};
pub use selfplay::{play_fast_game, FastGame, FastPosition};
pub use cli::parse_options;
pub use replay::{frame_replay, unframe_replay, ReplayFrameError, REPLAY_MAGIC};
