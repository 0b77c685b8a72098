//! A falling-block puzzle engine: a bounded playfield, a falling piece,
//! a bag-based piece queue, and the rules that move, rotate, lock and
//! clear pieces.

pub mod block;
pub mod field;
pub mod game;

pub use block::{BlockColor, BlockKind, BlockShape, gen_block_7, rotate_left, rotate_right,
    shapes_for_kind};
pub use field::{Playfield, Position, clear_completed_lines, is_collision, lock};
pub use game::{Game, SpawnBlocked, tick_interval_ms};
