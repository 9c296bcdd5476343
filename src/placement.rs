use vstd::prelude::*;
use vstd::set_lib::{lemma_int_range, lemma_len_subset, set_int_range};

use crate::level::{on_board, Level, Tile};
use rand::Rng;
use std::collections::VecDeque;

verus! {

/// Relies on rand's `thread_rng().gen_range(low, high)`, which draws a value
/// in `low..high` and panics when `low >= high`.
#[verifier::external_body]
fn random_in(low: i32, high: i32) -> (r: i32)
    requires
        low < high,
    ensures
        low <= r < high,
{
    rand::thread_rng().gen_range(low, high)
}

/// How many uniform draws placement makes before it lists the free tiles.
pub const PLACEMENT_DRAWS: u32 = 1000;

/// Whether `t` is one of the tiles of `snake`.
pub fn occupies(snake: &VecDeque<Tile>, t: Tile) -> (r: bool)
    ensures
        r == snake@.contains(t),
{
    let mut i: usize = 0;
    while i < snake.len()
        invariant
            i <= snake@.len(),
            forall|j: int| 0 <= j < i ==> snake@[j] != t,
        decreases snake@.len() - i,
    {
        let s = snake[i];
        if s.0 == t.0 && s.1 == t.1 {
            return true;
        }
        i += 1;
    }
    false
}

/// Whether `t` is on the board of `level`, free of barriers and of `snake`.
pub open spec fn is_free(level: &Level, snake: Seq<Tile>, t: Tile) -> bool {
    level.contains(t) && !level.is_barrier(t) && !snake.contains(t)
}

/// `r` is a tile free of barriers and of `snake` on the board of `level`,
/// or nothing where no tile is free.
pub open spec fn placed(level: &Level, snake: Seq<Tile>, r: Option<Tile>) -> bool {
    match r {
        Some(t) => is_free(level, snake, t),
        None => forall|t: Tile| #[trigger] level.contains(t) ==> !is_free(level, snake, t),
    }
}

/// Picks a tile for food or a gate: a uniformly drawn tile that is neither a
/// barrier nor part of the snake, or nothing when no such tile is left.
/// Draws are retried up to `PLACEMENT_DRAWS` times; after that the free
/// tiles are listed and one of them is drawn.
pub fn new_food(snake: &VecDeque<Tile>, level: &Level) -> (r: Option<Tile>)
    requires
        level.wf(),
    ensures
        placed(level, snake@, r),
{
    let width = level.width as i32;
    let height = level.height as i32;
    let mut attempt: u32 = 0;
    while attempt < PLACEMENT_DRAWS
        invariant
            level.wf(),
            width == level.width,
            height == level.height,
        decreases PLACEMENT_DRAWS - attempt,
    {
        let tile: Tile = (random_in(0, width), random_in(0, height));
        if !level.has_barrier(tile) && !occupies(snake, tile) {
            return Some(tile);
        }
        attempt += 1;
    }
    let mut free: Vec<Tile> = Vec::new();
    let mut y: i32 = 0;
    while y < height
        invariant
            level.wf(),
            width == level.width,
            height == level.height,
            0 <= y <= height,
            free@.len() <= y * width,
            forall|k: int| 0 <= k < free@.len() ==> is_free(level, snake@, #[trigger] free@[k]),
            free@.len() == 0 ==> forall|t: Tile|
                #[trigger] level.contains(t) && t.1 < y ==> !is_free(level, snake@, t),
        decreases height - y,
    {
        let mut x: i32 = 0;
        while x < width
            invariant
                level.wf(),
                width == level.width,
                height == level.height,
                0 <= y < height,
                0 <= x <= width,
                free@.len() <= y * width + x,
                forall|k: int| 0 <= k < free@.len() ==> is_free(level, snake@, #[trigger] free@[k]),
                free@.len() == 0 ==> forall|t: Tile|
                    #[trigger] level.contains(t) && (t.1 < y || t.1 == y && t.0 < x) ==> !is_free(
                        level,
                        snake@,
                        t,
                    ),
            decreases width - x,
        {
            let tile: Tile = (x, y);
            if !level.has_barrier(tile) && !occupies(snake, tile) {
                free.push(tile);
            }
            x += 1;
        }
        proof {
            assert((y + 1) * width == y * width + width) by (nonlinear_arith);
        }
        y += 1;
    }
    if free.len() == 0 {
        return None;
    }
    proof {
        assert(height * width <= 40 * 50) by (nonlinear_arith)
            requires
                height <= 40,
                width <= 50,
                height >= 0,
                width >= 0,
        ;
    }
    let k = random_in(0, free.len() as i32);
    Some(free[k as usize])
}

/// The index of a board tile in row-major order.
spec fn board_index(t: Tile, width: int) -> int {
    t.1 * width + t.0
}

/// A snake of distinct tiles on a board has no more tiles than the board.
pub proof fn lemma_board_capacity(snake: Seq<Tile>, width: int, height: int)
    requires
        width >= 1,
        height >= 1,
        snake.no_duplicates(),
        forall|i: int| 0 <= i < snake.len() ==> on_board(#[trigger] snake[i], width, height),
    ensures
        snake.len() <= width * height,
{
    let s = snake.map_values(|t: Tile| board_index(t, width));
    assert forall|i: int, j: int| 0 <= i < s.len() && 0 <= j < s.len() && i != j implies s[i]
        != s[j] by {
        let a = snake[i];
        let b = snake[j];
        assert(on_board(a, width, height));
        assert(on_board(b, width, height));
        assert(a != b);
        let (ax, ay, bx, by) = (a.0 as int, a.1 as int, b.0 as int, b.1 as int);
        assert(ay * width + ax != by * width + bx) by (nonlinear_arith)
            requires
                0 <= ax < width,
                0 <= bx < width,
                ax != bx || ay != by,
        {
            if ay < by {
                assert(ay * width + width <= by * width);
            } else if by < ay {
                assert(by * width + width <= ay * width);
            }
        }
    }
    assert(s.no_duplicates());
    s.unique_seq_to_set();
    assert forall|v: int| s.to_set().contains(v) implies set_int_range(0, width * height).contains(
        v,
    ) by {
        let i = choose|i: int| 0 <= i < s.len() && s[i] == v;
        let a = snake[i];
        assert(on_board(a, width, height));
        let (ax, ay) = (a.0 as int, a.1 as int);
        assert(0 <= ay * width + ax < width * height) by (nonlinear_arith)
            requires
                0 <= ax < width,
                0 <= ay < height,
        {
            assert(ay * width <= (height - 1) * width);
        }
    }
    lemma_int_range(0, width * height);
    lemma_len_subset(s.to_set(), set_int_range(0, width * height));
}

} // verus!
