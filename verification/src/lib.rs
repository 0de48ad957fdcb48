pub mod apply_moves;
pub mod attack;
pub mod constants;
pub mod initialize_board;
pub mod legal_move_generation;
pub mod pawn_directions;
pub mod pseudo_legal_move_generation;
pub mod utils;
