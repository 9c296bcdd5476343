//! A grid-based snake game engine: levels with barriers, a snake that
//! moves on a wrapping board, grows by eating food and advances through
//! a gate to the next level.

mod direction;
mod game;
mod level;
mod parse;
mod placement;

pub use direction::{lemma_opposite_laws, opposite_pair, Direction};
pub use game::{
    lemma_collision_ends_game, lemma_gate_rules, lemma_growth, lemma_reverse_turn_ignored,
    Command, GameState, GATE_THRESHOLD, GROWTH, MIN_STEP_DELAY_NS, SNAKE_START_LENGTH,
    START_DELAY_NS,
};
pub use level::{lemma_wrap_on_board, Level, LevelError, LevelErrorKind, Tile, MAX_HEIGHT, MAX_WIDTH};
pub use placement::{new_food, occupies, PLACEMENT_DRAWS};
