use snake::{
    new_food, occupies, Command, Direction, GameState, Level, LevelErrorKind, Tile, GROWTH,
    MAX_HEIGHT, MAX_WIDTH, SNAKE_START_LENGTH, START_DELAY_NS,
};
use std::collections::VecDeque;

const ALL: [Direction; 4] = [Direction::Up, Direction::Down, Direction::Left, Direction::Right];

fn level(id: u32, text: &str) -> Level {
    match Level::from_text(id, text) {
        Ok(level) => level,
        Err(e) => panic!("level {} rejected: {:?}", id, e),
    }
}

fn error_kind(text: &str) -> LevelErrorKind {
    match Level::from_text(7, text) {
        Ok(_) => panic!("level accepted"),
        Err(e) => {
            assert_eq!(e.id, 7);
            e.kind
        }
    }
}

fn snake_tiles(state: &GameState) -> Vec<Tile> {
    state.snake.iter().copied().collect()
}

/// A row of `width` cells, the start at the left heading right, between two
/// empty rows.
fn corridor(width: usize) -> String {
    let empty = ".".repeat(width);
    format!("{}\n>{}\n{}\n", empty, ".".repeat(width - 1), empty)
}

#[test]
fn opposite_pairs() {
    for d in ALL {
        assert!(!d.is_opposite(d));
        assert!(d.is_opposite(d.opposite()));
        assert_eq!(d.opposite().opposite(), d);
        for e in ALL {
            assert_eq!(d.is_opposite(e), e == d.opposite());
        }
    }
    assert!(Direction::Up.is_opposite(Direction::Down));
    assert!(Direction::Left.is_opposite(Direction::Right));
    assert!(!Direction::Up.is_opposite(Direction::Left));
}

#[test]
fn delta_per_direction() {
    assert_eq!(Direction::Up.delta(), (0, -1));
    assert_eq!(Direction::Down.delta(), (0, 1));
    assert_eq!(Direction::Left.delta(), (-1, 0));
    assert_eq!(Direction::Right.delta(), (1, 0));
}

#[test]
fn wraparound_lands_on_board() {
    let lv = level(1, "#....\n..>..\n.....\n.....\n");
    assert_eq!((lv.width, lv.height), (5, 4));
    for x in -1..=5 {
        for y in -1..=4 {
            let (nx, ny) = lv.wraparound((x, y));
            assert!(0 <= nx && nx < 5 && 0 <= ny && ny < 4);
        }
    }
    assert_eq!(lv.wraparound((-1, 2)), (4, 2));
    assert_eq!(lv.wraparound((5, 2)), (0, 2));
    assert_eq!(lv.wraparound((3, -1)), (3, 3));
    assert_eq!(lv.wraparound((3, 4)), (3, 0));
    assert_eq!(lv.wraparound((3, 2)), (3, 2));
}

#[test]
fn parses_level() {
    let lv = level(3, "#..#\n.^ .\r\n##..\n");
    assert_eq!(lv.id, 3);
    assert_eq!(lv.width, 4);
    assert_eq!(lv.height, 3);
    assert_eq!(lv.start_tile, (1, 1));
    assert_eq!(lv.start_direction, Direction::Up);
    assert_eq!(lv.barriers, vec![(0, 0), (3, 0), (0, 2), (1, 2)]);
    assert!(lv.has_barrier((3, 0)));
    assert!(!lv.has_barrier((2, 2)));
}

#[test]
fn parses_each_start_marker() {
    assert_eq!(level(1, "<.").start_direction, Direction::Left);
    assert_eq!(level(1, ".>").start_direction, Direction::Right);
    assert_eq!(level(1, "^.").start_direction, Direction::Up);
    let lv = level(1, "..\n.v");
    assert_eq!(lv.start_direction, Direction::Down);
    assert_eq!(lv.start_tile, (1, 1));
    assert_eq!(lv.height, 2);
}

#[test]
fn rejects_bad_levels() {
    assert_eq!(error_kind("...\n.>\n"), LevelErrorKind::NotRectangular);
    assert_eq!(error_kind(&format!(">{}\n", ".".repeat(MAX_WIDTH as usize))), LevelErrorKind::TooWide);
    assert_eq!(error_kind("..x\n.>.\n"), LevelErrorKind::InvalidCharacter(b'x'));
    let tall = format!(">.\n{}", "..\n".repeat(MAX_HEIGHT as usize));
    assert_eq!(error_kind(&tall), LevelErrorKind::TooTall);
    assert_eq!(error_kind("...\n#..\n"), LevelErrorKind::NoStart);
    assert_eq!(error_kind(""), LevelErrorKind::NoStart);
    assert_eq!(error_kind(">.<\n...\n"), LevelErrorKind::MultipleStarts);
}

#[test]
fn level_errors_come_in_row_order() {
    // A defect in an early row wins over one in a later row.
    assert_eq!(error_kind(".x.\n....\n"), LevelErrorKind::InvalidCharacter(b'x'));
    assert_eq!(error_kind("...\n....\n..x\n"), LevelErrorKind::NotRectangular);
    // Row defects come before the row count.
    let tall = format!(">.\n{}x.\n", "..\n".repeat(MAX_HEIGHT as usize));
    assert_eq!(error_kind(&tall), LevelErrorKind::InvalidCharacter(b'x'));
    // Two markers, none rejected before the whole text is read.
    assert_eq!(error_kind(">>"), LevelErrorKind::MultipleStarts);
}

#[test]
fn largest_level_is_accepted() {
    let row = ".".repeat(MAX_WIDTH as usize);
    let mut text = format!(">{}\n", ".".repeat(MAX_WIDTH as usize - 1));
    for _ in 1..MAX_HEIGHT {
        text.push_str(&row);
        text.push('\n');
    }
    let lv = level(9, &text);
    assert_eq!((lv.width, lv.height), (MAX_WIDTH, MAX_HEIGHT));
}

#[test]
fn placement_avoids_the_snake() {
    let lv = level(1, ".....\n.....\n..>..\n.....\n.....\n");
    let mut snake = VecDeque::new();
    snake.push_front(lv.start_tile);
    assert_eq!(lv.start_tile, (2, 2));
    for _ in 0..500 {
        let t = new_food(&snake, &lv).expect("free tiles remain");
        assert_ne!(t, (2, 2));
        assert!(0 <= t.0 && t.0 < 5 && 0 <= t.1 && t.1 < 5);
    }
}

#[test]
fn placement_finds_the_last_free_tile() {
    let lv = level(1, "###\n#>.\n###\n");
    let mut snake = VecDeque::new();
    snake.push_front((1, 1));
    for _ in 0..20 {
        assert_eq!(new_food(&snake, &lv), Some((2, 1)));
    }
    snake.push_front((2, 1));
    assert_eq!(new_food(&snake, &lv), None);
    assert!(occupies(&snake, (2, 1)));
    assert!(!occupies(&snake, (0, 0)));
}

#[test]
fn new_state_starts_the_level() {
    let lv = level(1, ".....\n.>...\n.....\n");
    let s = GameState::new(lv, 42);
    assert_eq!(s.score, 0);
    assert_eq!(snake_tiles(&s), vec![(1, 1)]);
    assert_eq!(s.length, SNAKE_START_LENGTH);
    assert_eq!(s.direction, Direction::Right);
    assert!(s.future_directions.is_empty());
    let food = s.food.expect("food placed");
    assert_ne!(food, (1, 1));
    assert_eq!(s.gate, None);
    assert!(!s.gameover);
    assert_eq!(s.eaten_this_level, 0);
    assert_eq!(s.step_delay, START_DELAY_NS);
    assert_eq!(s.last_step, 42);
}

#[test]
fn step_moves_and_keeps_length() {
    let mut s = GameState::new(level(1, &corridor(20)), 0);
    s.food = None;
    for i in 1..=12 {
        s.update_single_step();
        assert_eq!(s.snake[0], (i, 1));
        let expected = if (i as u32) + 1 < SNAKE_START_LENGTH { i as usize + 1 } else { SNAKE_START_LENGTH as usize };
        assert_eq!(s.snake.len(), expected);
    }
    assert!(!s.gameover);
    assert_eq!(s.score, 0);
}

#[test]
fn step_wraps_at_the_edge() {
    let mut s = GameState::new(level(1, "...\n..<\n...\n"), 0);
    s.food = None;
    s.set_direction(Direction::Up);
    s.update_single_step();
    assert_eq!(s.snake[0], (2, 0));
    s.update_single_step();
    assert_eq!(s.snake[0], (2, 2));
    s.set_direction(Direction::Right);
    s.update_single_step();
    assert_eq!(s.snake[0], (0, 2));
}

#[test]
fn reverse_turn_is_ignored() {
    let mut s = GameState::new(level(1, &corridor(10)), 0);
    s.food = None;
    s.set_direction(Direction::Left);
    s.update_single_step();
    assert_eq!(s.direction, Direction::Right);
    assert_eq!(s.snake[0], (1, 1));
    assert!(s.future_directions.is_empty());
}

#[test]
fn queued_turns_apply_one_per_step() {
    let mut s = GameState::new(level(1, &corridor(10)), 0);
    s.food = None;
    s.set_direction(Direction::Down);
    s.set_direction(Direction::Left);
    assert_eq!(s.future_directions.len(), 2);
    s.update_single_step();
    assert_eq!(s.direction, Direction::Down);
    assert_eq!(s.snake[0], (0, 2));
    s.update_single_step();
    assert_eq!(s.direction, Direction::Left);
    assert_eq!(s.snake[0], (9, 2));
}

#[test]
fn barrier_ends_the_game() {
    let mut s = GameState::new(level(1, ".>#.\n....\n"), 0);
    s.food = None;
    s.update_single_step();
    assert!(s.gameover);
    assert_eq!(snake_tiles(&s), vec![(1, 0)]);
    s.set_direction(Direction::Down);
    s.update_single_step();
    assert_eq!(snake_tiles(&s), vec![(1, 0)]);
}

#[test]
fn tile_in_body_and_barrier_ends_the_game() {
    let mut s = GameState::new(level(1, ".....\n>....\n.....\n"), 0);
    s.food = None;
    s.level.barriers.push((0, 1));
    let mut body = VecDeque::new();
    for x in (0..5).rev() {
        body.push_back((x, 1));
    }
    s.snake = body;
    s.update_single_step();
    assert!(s.gameover);
    assert_eq!(s.snake.len(), 5);
}

#[test]
fn wrapping_into_the_body_ends_the_game() {
    let mut s = GameState::new(level(1, ">...."), 0);
    let mut body = VecDeque::new();
    for x in (0..10).rev() {
        body.push_back((x, 0));
    }
    s.snake = body;
    s.food = None;
    s.update_single_step();
    assert!(s.gameover);
    assert_eq!(s.snake.len(), 10);
    assert_eq!(s.snake[0], (9, 0));
}

#[test]
fn snake_runs_into_itself_across_the_edge() {
    let mut s = GameState::new(level(1, ">...."), 0);
    for _ in 0..4 {
        s.update_single_step();
        assert!(!s.gameover);
    }
    assert_eq!(snake_tiles(&s), vec![(4, 0), (3, 0), (2, 0), (1, 0), (0, 0)]);
    s.update_single_step();
    assert!(s.gameover);
}

#[test]
fn eating_three_times() {
    let mut s = GameState::new(level(1, &corridor(10)), 0);
    for x in 1..=3 {
        s.food = Some((x, 1));
        s.update_single_step();
        assert_eq!(s.snake[0], (x, 1));
        assert_ne!(s.food, Some((x, 1)));
    }
    assert_eq!(s.score, 3);
    assert_eq!(s.eaten_this_level, 3);
    assert_eq!(s.length, SNAKE_START_LENGTH + 3 * GROWTH);
    assert_eq!(s.length, 25);
    assert_eq!(s.step_delay, 138_894_750);
    assert_eq!(s.snake.len(), 4);
}

#[test]
fn growth_after_consecutive_meals() {
    let mut s = GameState::new(level(1, &corridor(20)), 0);
    for n in 1..=8u32 {
        s.food = Some((n as i32, 1));
        s.update_single_step();
        assert_eq!(s.length, SNAKE_START_LENGTH + GROWTH * n);
        assert_eq!(s.snake.len() as u32, (n + 1).min(s.length));
    }
}

#[test]
fn gate_appears_once_and_leads_on() {
    let mut s = GameState::new(level(1, &corridor(15)), 0);
    for x in 1..=11 {
        assert_eq!(s.gate, None);
        s.food = Some((x, 1));
        s.update_single_step();
    }
    assert_eq!(s.eaten_this_level, 11);
    let gate = s.gate.expect("gate placed");
    assert!(!snake_tiles(&s).contains(&gate));
    s.food = Some((12, 1));
    s.update_single_step();
    assert_eq!(s.eaten_this_level, 12);
    assert_eq!(s.gate, Some(gate));
    assert_eq!(s.score, 12);

    s.set_upcoming(Some(level(2, "...\n.v.\n...\n")));
    s.food = None;
    s.gate = Some((13, 1));
    s.update_single_step();
    assert_eq!(s.level.id, 2);
    assert_eq!(s.eaten_this_level, 0);
    assert_eq!(s.score, 12);
    assert_eq!(snake_tiles(&s), vec![(1, 1)]);
    assert_eq!(s.direction, Direction::Down);
    assert_eq!(s.length, SNAKE_START_LENGTH);
    assert_eq!(s.gate, None);
    assert_eq!(s.step_delay, START_DELAY_NS);
    assert!(s.upcoming.is_none());
    assert!(s.food.is_some());
}

#[test]
fn gate_without_next_level_changes_nothing() {
    let mut s = GameState::new(level(1, &corridor(10)), 0);
    s.food = None;
    s.gate = Some((1, 1));
    s.update_single_step();
    assert_eq!(s.level.id, 1);
    assert_eq!(snake_tiles(&s), vec![(1, 1), (0, 1)]);
    assert_eq!(s.gate, Some((1, 1)));
}

#[test]
fn food_and_gate_on_one_tile() {
    let mut s = GameState::new(level(1, &corridor(10)), 0);
    s.set_upcoming(Some(level(2, ">..")));
    s.food = Some((1, 1));
    s.gate = Some((1, 1));
    s.update_single_step();
    assert_eq!(s.score, 1);
    assert_eq!(s.level.id, 2);
    assert_eq!(s.eaten_this_level, 0);
    assert_eq!(s.length, SNAKE_START_LENGTH);
}

#[test]
fn next_level_resets_and_keeps_score() {
    let mut s = GameState::new(level(1, &corridor(10)), 0);
    s.next_level(500);
    assert_eq!(s.level.id, 1);
    assert_eq!(s.last_step, 0);
    s.food = Some((1, 1));
    s.update_single_step();
    s.set_direction(Direction::Up);
    s.set_upcoming(Some(level(2, "..\n<.")));
    s.next_level(500);
    assert_eq!(s.level.id, 2);
    assert_eq!(s.score, 1);
    assert_eq!(snake_tiles(&s), vec![(0, 1)]);
    assert_eq!(s.direction, Direction::Left);
    assert!(s.future_directions.is_empty());
    assert_eq!(s.last_step, 500);
    assert_eq!(s.eaten_this_level, 0);
}

#[test]
fn advance_steps_on_full_delays() {
    let mut s = GameState::new(level(1, &corridor(20)), 1_000);
    s.food = None;
    s.advance(1_000 + START_DELAY_NS - 1);
    assert_eq!(s.snake[0], (0, 1));
    assert_eq!(s.last_step, 1_000);
    s.advance(1_000 + START_DELAY_NS);
    assert_eq!(s.snake[0], (1, 1));
    assert_eq!(s.last_step, 1_000 + START_DELAY_NS);
    let now = 1_000 + 4 * START_DELAY_NS + 7;
    s.advance(now);
    assert_eq!(s.snake[0], (4, 1));
    assert_eq!(s.last_step, now - 7);
    s.advance(5);
    assert_eq!(s.snake[0], (4, 1));
}

#[test]
fn advance_speeds_up_after_food() {
    let mut s = GameState::new(level(1, &corridor(20)), 0);
    s.food = Some((1, 1));
    let faster = START_DELAY_NS * 19 / 20;
    s.advance(START_DELAY_NS + faster);
    assert_eq!(s.score, 1);
    assert_eq!(s.step_delay, faster);
    assert_eq!(s.snake[0], (2, 1));
    assert_eq!(s.last_step, START_DELAY_NS + faster);
}

#[test]
fn commands() {
    let mut s = GameState::new(level(1, &corridor(10)), 0);
    assert!(s.handle_command(Command::Turn(Direction::Down), 1));
    assert_eq!(s.future_directions.len(), 1);
    assert!(s.handle_command(Command::NextLevel, 2));
    assert_eq!(s.level.id, 1);
    s.set_upcoming(Some(level(2, ">.")));
    assert!(s.handle_command(Command::NextLevel, 3));
    assert_eq!(s.level.id, 2);
    assert_eq!(s.last_step, 3);
    assert!(!s.handle_command(Command::Quit, 4));
}

#[test]
fn placement_draws_vary() {
    let lv = level(1, ".....\n.....\n..>..\n.....\n.....\n");
    let mut snake = VecDeque::new();
    snake.push_front(lv.start_tile);
    let mut seen: Vec<Tile> = Vec::new();
    for _ in 0..200 {
        let t = new_food(&snake, &lv).expect("free tiles remain");
        if !seen.contains(&t) {
            seen.push(t);
        }
    }
    assert!(seen.len() > 1);
}
