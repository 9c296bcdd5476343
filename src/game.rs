use vstd::prelude::*;

use crate::direction::{delta_of, opposite_of, Direction};
use crate::level::{lemma_wrap_on_board, Level, Tile, MAX_HEIGHT, MAX_WIDTH};
use crate::placement::{lemma_board_capacity, new_food, occupies, placed};
use std::collections::VecDeque;

verus! {

/// The target length of a snake at the start of a level.
pub const SNAKE_START_LENGTH: u32 = 10;

/// How much the target length grows with each food eaten.
pub const GROWTH: u32 = 5;

/// A gate appears once more food than this has been eaten on a level.
pub const GATE_THRESHOLD: u32 = 10;

/// The time between steps at the start of a level, in nanoseconds.
pub const START_DELAY_NS: u64 = 162_000_000;

/// The shortest time between steps, in nanoseconds; it keeps the scheduler
/// from stepping without end.
pub const MIN_STEP_DELAY_NS: u64 = 1;

/// What the player asked for.
#[derive(Clone, Copy, Debug, PartialEq, Eq, Structural)]
pub enum Command {
    /// Turn the snake.
    Turn(Direction),
    /// Skip to the next level.
    NextLevel,
    /// End the session.
    Quit,
}

/// The mutable state of one game session.
pub struct GameState {
    pub score: u32,
    /// The tiles of the snake, head first.
    pub snake: VecDeque<Tile>,
    /// The length that the snake grows to.
    pub length: u32,
    pub direction: Direction,
    /// Direction changes not yet applied, oldest first.
    pub future_directions: VecDeque<Direction>,
    pub food: Option<Tile>,
    pub gate: Option<Tile>,
    pub gameover: bool,
    pub level: Level,
    /// The level that a gate leads to, once it has been loaded.
    pub upcoming: Option<Level>,
    pub eaten_this_level: u32,
    /// The time between steps, in nanoseconds.
    pub step_delay: u64,
    /// When the last step took place, in nanoseconds.
    pub last_step: u64,
}

/// The step delay after food is eaten: 95% of `d`, rounded down, and never
/// under `MIN_STEP_DELAY_NS`.
pub open spec fn sped_up(d: int) -> int {
    if d * 19 / 20 >= MIN_STEP_DELAY_NS {
        d * 19 / 20
    } else {
        MIN_STEP_DELAY_NS as int
    }
}

/// The heading after the oldest queued change is applied to `d`: a
/// reversal is dropped.
pub open spec fn heading_after(d: Direction, queue: Seq<Direction>) -> Direction {
    if queue.len() == 0 || queue[0] == opposite_of(d) {
        d
    } else {
        queue[0]
    }
}

/// The queue once its oldest change, if any, is taken.
pub open spec fn queue_after(queue: Seq<Direction>) -> Seq<Direction> {
    if queue.len() == 0 {
        queue
    } else {
        queue.drop_first()
    }
}

/// The tile one step from `t` in direction `d`, before wrapping.
pub open spec fn moved(t: Tile, d: Direction) -> Tile {
    ((t.0 + delta_of(d).0) as i32, (t.1 + delta_of(d).1) as i32)
}

/// `score` plus one, held at `u32::MAX`.
pub open spec fn score_after_food(score: u32) -> u32 {
    if score < u32::MAX {
        (score + 1) as u32
    } else {
        score
    }
}

/// The time that has built up before the `i`-th state of a run of the
/// scheduler at time `now`: from the last step of the first state on (none
/// if the clock reads earlier than that), and after each step what is left
/// of it.
pub open spec fn elapsed_at(trace: Seq<GameState>, now: int, i: int) -> int {
    if i == 0 {
        if now >= trace[0].last_step {
            now - trace[0].last_step
        } else {
            0
        }
    } else {
        now - trace[i].last_step
    }
}

/// The `i`-th state of `trace` had a full step delay of time built up, took
/// one step and took the time of that step off.
pub open spec fn tick(trace: Seq<GameState>, now: int, i: int) -> bool {
    &&& trace[i].step_delay <= elapsed_at(trace, now, i)
    &&& GameState::step_result(&trace[i], &trace[i + 1])
    &&& trace[i + 1].last_step == now - (elapsed_at(trace, now, i) - trace[i].step_delay)
}

/// `trace` is the run of the scheduler at time `now`: a step for each full
/// step delay of time built up, each with the delay in force before it,
/// until less than a delay is left.
pub open spec fn is_schedule(trace: Seq<GameState>, now: int) -> bool {
    &&& trace.len() >= 1
    &&& forall|i: int| 0 <= i < trace.len() - 1 ==> #[trigger] tick(trace, now, i)
    &&& elapsed_at(trace, now, trace.len() - 1) < trace[trace.len() - 1].step_delay
}

impl GameState {
    /// The state invariant: a valid level, a non-empty snake of distinct
    /// tiles on the board, and a target length that matches the food eaten
    /// on this level.
    pub open spec fn wf(&self) -> bool {
        &&& self.level.wf()
        &&& (self.upcoming matches Some(l) ==> l.wf())
        &&& self.snake@.len() >= 1
        &&& self.snake@.no_duplicates()
        &&& forall|i: int| 0 <= i < self.snake@.len() ==> self.level.contains(#[trigger] self.snake@[i])
        &&& self.eaten_this_level < self.snake@.len() <= self.length
        &&& self.length == SNAKE_START_LENGTH + GROWTH * self.eaten_this_level
        &&& MIN_STEP_DELAY_NS <= self.step_delay <= START_DELAY_NS
    }

    /// The heading of the next step.
    pub open spec fn next_direction(&self) -> Direction {
        heading_after(self.direction, self.future_directions@)
    }

    /// The tile the head moves to on the next step.
    pub open spec fn next_head(&self) -> Tile {
        self.level.wrap(moved(self.snake@[0], self.next_direction()))
    }

    /// The next step runs into the snake or a barrier.
    pub open spec fn blocked(&self) -> bool {
        self.snake@.contains(self.next_head()) || self.level.is_barrier(self.next_head())
    }

    /// The next step reaches the food.
    pub open spec fn eats(&self) -> bool {
        self.food == Some(self.next_head())
    }

    /// The next step reaches a gate and a next level is there to enter.
    pub open spec fn enters_gate(&self) -> bool {
        self.gate == Some(self.next_head()) && self.upcoming is Some
    }

    /// `self` is a fresh start on `level` with `score` carried over; the
    /// flag, the clock and the queue's history are not fixed here.
    pub open spec fn starts_level(&self, level: Level, score: u32) -> bool {
        &&& self.level == level
        &&& self.upcoming is None
        &&& self.score == score
        &&& self.snake@ == seq![level.start_tile]
        &&& self.length == SNAKE_START_LENGTH
        &&& self.direction == level.start_direction
        &&& self.future_directions@.len() == 0
        &&& placed(&level, seq![level.start_tile], self.food)
        &&& self.gate is None
        &&& self.eaten_this_level == 0
        &&& self.step_delay == START_DELAY_NS
    }

    /// `b` is `a` after one step, leaving the clock aside.
    pub open spec fn step_result(a: &GameState, b: &GameState) -> bool {
        if a.gameover {
            *b == (GameState { last_step: b.last_step, ..*a })
        } else if a.blocked() {
            &&& *b == (GameState {
                gameover: true,
                direction: a.next_direction(),
                future_directions: b.future_directions,
                last_step: b.last_step,
                ..*a
            })
            &&& b.future_directions@ == queue_after(a.future_directions@)
        } else {
            let head = a.next_head();
            let grown = seq![head] + a.snake@;
            let eats = a.eats();
            let score = if eats {
                score_after_food(a.score)
            } else {
                a.score
            };
            if a.enters_gate() {
                b.starts_level(a.upcoming->0, score) && !b.gameover
            } else {
                let eaten = if eats {
                    a.eaten_this_level + 1
                } else {
                    a.eaten_this_level as int
                };
                let length = if eats {
                    a.length + GROWTH
                } else {
                    a.length as int
                };
                &&& b.level == a.level
                &&& b.upcoming == a.upcoming
                &&& !b.gameover
                &&& b.direction == a.next_direction()
                &&& b.future_directions@ == queue_after(a.future_directions@)
                &&& b.snake@ == (if grown.len() > length {
                    grown.drop_last()
                } else {
                    grown
                })
                &&& b.score == score
                &&& b.eaten_this_level == eaten
                &&& b.length == length
                &&& b.step_delay == (if eats {
                    sped_up(a.step_delay as int)
                } else {
                    a.step_delay as int
                })
                &&& (if eats {
                    placed(&a.level, grown, b.food)
                } else {
                    b.food == a.food
                })
                &&& (if eats && a.gate is None && eaten > GATE_THRESHOLD {
                    placed(&a.level, grown, b.gate)
                } else {
                    b.gate == a.gate
                })
            }
        }
    }

    /// Starts a session on `level` at time `now`.
    pub fn new(level: Level, now: u64) -> (r: GameState)
        requires
            level.wf(),
        ensures
            r.wf(),
            r.starts_level(level, 0),
            !r.gameover,
            r.last_step == now,
    {
        let mut snake: VecDeque<Tile> = VecDeque::new();
        snake.push_front(level.start_tile);
        let food = new_food(&snake, &level);
        let r = GameState {
            score: 0,
            snake,
            length: SNAKE_START_LENGTH,
            direction: level.start_direction,
            future_directions: VecDeque::new(),
            food,
            gate: None,
            gameover: false,
            level,
            upcoming: None,
            eaten_this_level: 0,
            step_delay: START_DELAY_NS,
            last_step: now,
        };
        assert(r.snake@ =~= seq![r.level.start_tile]);
        r
    }

    /// Hands over the level that a gate leads to; nothing means that there
    /// is none.
    pub fn set_upcoming(&mut self, level: Option<Level>)
        requires
            old(self).wf(),
            level matches Some(l) ==> l.wf(),
        ensures
            final(self).wf(),
            *final(self) == (GameState { upcoming: level, ..*old(self) }),
    {
        self.upcoming = level;
    }

    /// Queues a change of direction, applied at a later step.
    pub fn set_direction(&mut self, direction: Direction)
        requires
            old(self).wf(),
        ensures
            final(self).wf(),
            final(self).future_directions@ == old(self).future_directions@.push(direction),
            *final(self) == (GameState {
                future_directions: final(self).future_directions,
                ..*old(self)
            }),
    {
        self.future_directions.push_back(direction);
    }

    /// Moves to the upcoming level, if there is one, keeping the score.
    fn enter_upcoming(&mut self) -> (entered: bool)
        requires
            old(self).upcoming matches Some(l) ==> l.wf(),
        ensures
            entered ==> final(self).wf(),
            entered == old(self).upcoming is Some,
            entered ==> final(self).starts_level(old(self).upcoming->0, old(self).score),
            entered ==> final(self).gameover == old(self).gameover,
            entered ==> final(self).last_step == old(self).last_step,
            !entered ==> *final(self) == *old(self),
    {
        match self.upcoming.take() {
            Some(level) => {
                let mut snake: VecDeque<Tile> = VecDeque::new();
                snake.push_front(level.start_tile);
                let food = new_food(&snake, &level);
                self.snake = snake;
                self.length = SNAKE_START_LENGTH;
                self.direction = level.start_direction;
                self.future_directions = VecDeque::new();
                self.food = food;
                self.gate = None;
                self.level = level;
                self.eaten_this_level = 0;
                self.step_delay = START_DELAY_NS;
                assert(self.snake@ =~= seq![self.level.start_tile]);
                true
            },
            None => false,
        }
    }

    /// One discrete step: apply the oldest queued turn, move the head one
    /// tile (wrapping at the edges), end the game on the snake or a barrier,
    /// otherwise eat, grow, pass a gate and drop the tail as due.
    #[verifier::spinoff_prover]
    #[verifier::rlimit(40)]
    pub fn update_single_step(&mut self)
        requires
            old(self).wf(),
        ensures
            final(self).wf(),
            GameState::step_result(&*old(self), &*final(self)),
            final(self).last_step == old(self).last_step,
    {
        if self.gameover {
            return;
        }
        let ghost a = *self;
        if let Some(direction) = self.future_directions.pop_front() {
            if !self.direction.is_opposite(direction) {
                self.direction = direction;
            }
        }
        assert(self.direction == a.next_direction());
        assert(self.future_directions@ == queue_after(a.future_directions@));
        let (dx, dy) = self.direction.delta();
        let head = self.snake[0];
        assert(self.level.contains(self.snake@[0]));
        let candidate: Tile = (head.0 + dx, head.1 + dy);
        proof {
            lemma_wrap_on_board(&self.level, candidate);
        }
        let new_head = self.level.wraparound(candidate);
        assert(new_head == a.next_head());
        if occupies(&self.snake, new_head) {
            self.gameover = true;
            return;
        }
        if self.level.has_barrier(new_head) {
            self.gameover = true;
            return;
        }
        let ghost grown = seq![new_head] + a.snake@;
        self.snake.push_front(new_head);
        proof {
            assert(self.snake@ == grown);
            assert forall|i: int, j: int| 0 <= i < j < grown.len() implies grown[i] != grown[j] by {
                if i == 0 {
                    assert(grown[j] == a.snake@[j - 1]);
                } else {
                    assert(grown[i] == a.snake@[i - 1]);
                    assert(grown[j] == a.snake@[j - 1]);
                }
            }
            assert(grown.no_duplicates());
            assert forall|i: int| 0 <= i < grown.len() implies self.level.contains(
                #[trigger] grown[i],
            ) by {
                if i > 0 {
                    assert(grown[i] == a.snake@[i - 1]);
                }
            }
            lemma_board_capacity(grown, self.level.width as int, self.level.height as int);
            assert(self.level.width * self.level.height <= MAX_WIDTH * MAX_HEIGHT) by (
            nonlinear_arith)
                requires
                    self.level.width <= MAX_WIDTH,
                    self.level.height <= MAX_HEIGHT,
            ;
        }
        if holds_tile(self.food, new_head) {
            if self.score < u32::MAX {
                self.score = self.score + 1;
            }
            self.eaten_this_level = self.eaten_this_level + 1;
            self.step_delay = faster(self.step_delay);
            self.length = self.length + GROWTH;
            self.food = new_food(&self.snake, &self.level);
            if self.gate.is_none() && self.eaten_this_level > GATE_THRESHOLD {
                self.gate = new_food(&self.snake, &self.level);
                assert(grown[0] == new_head);
            }
        }
        assert((self.gate == Some(new_head)) == (a.gate == Some(new_head)));
        if holds_tile(self.gate, new_head) {
            if self.enter_upcoming() {
                return;
            }
        }
        if self.snake.len() as u32 > self.length {
            self.snake.pop_back();
            proof {
                let s = self.snake@;
                assert(s =~= grown.drop_last());
                assert forall|i: int, j: int| 0 <= i < j < s.len() implies s[i] != s[j] by {
                    assert(s[i] == grown[i]);
                    assert(s[j] == grown[j]);
                }
                assert forall|i: int| 0 <= i < s.len() implies self.level.contains(
                    #[trigger] s[i],
                ) by {
                    assert(s[i] == grown[i]);
                }
            }
        }
    }

    /// Runs the steps that are due at time `now`: while a full step delay has
    /// passed since the last step, takes one step and moves the last step's
    /// time forward by that delay. The delay may shrink on the way.
    pub fn advance(&mut self, now: u64)
        requires
            old(self).wf(),
        ensures
            final(self).wf(),
            exists|trace: Seq<GameState>|
                {
                    &&& #[trigger] is_schedule(trace, now as int)
                    &&& trace[0] == *old(self)
                    &&& trace[trace.len() - 1] == *final(self)
                },
    {
        let mut elapsed: u64 = if now >= self.last_step {
            now - self.last_step
        } else {
            0
        };
        let ghost mut trace: Seq<GameState> = seq![*self];
        while elapsed >= self.step_delay
            invariant
                self.wf(),
                trace.len() >= 1,
                trace[0] == *old(self),
                trace[trace.len() - 1] == *self,
                elapsed <= now,
                elapsed == elapsed_at(trace, now as int, trace.len() - 1),
                forall|i: int| 0 <= i < trace.len() - 1 ==> #[trigger] tick(trace, now as int, i),
            decreases elapsed,
        {
            let ghost before = trace;
            elapsed = elapsed - self.step_delay;
            self.update_single_step();
            self.last_step = now - elapsed;
            proof {
                trace = trace.push(*self);
                assert forall|i: int| 0 <= i < trace.len() - 1 implies #[trigger] tick(
                    trace,
                    now as int,
                    i,
                ) by {
                    assert(trace[i] == before[i]);
                    if i < before.len() - 1 {
                        assert(tick(before, now as int, i));
                        assert(trace[i + 1] == before[i + 1]);
                    }
                }
            }
        }
        assert(is_schedule(trace, now as int));
    }

    /// Carries out `command` at time `now`: a turn is queued, a level skip
    /// moves to the upcoming level. Returns whether the session goes on.
    pub fn handle_command(&mut self, command: Command, now: u64) -> (running: bool)
        requires
            old(self).wf(),
        ensures
            final(self).wf(),
            running == (command != Command::Quit),
            command == Command::Quit ==> *final(self) == *old(self),
            command matches Command::Turn(d) ==> {
                &&& final(self).future_directions@ == old(self).future_directions@.push(d)
                &&& *final(self) == (GameState {
                    future_directions: final(self).future_directions,
                    ..*old(self)
                })
            },
            command == Command::NextLevel && old(self).upcoming is Some ==> {
                &&& final(self).starts_level(old(self).upcoming->0, old(self).score)
                &&& final(self).gameover == old(self).gameover
                &&& final(self).last_step == now
            },
            command == Command::NextLevel && old(self).upcoming is None ==> *final(self) == *old(
                self,
            ),
    {
        match command {
            Command::Turn(d) => {
                self.set_direction(d);
                true
            },
            Command::NextLevel => {
                self.next_level(now);
                true
            },
            Command::Quit => false,
        }
    }

    /// Moves to the upcoming level at time `now`; where no next level is
    /// there, nothing changes.
    pub fn next_level(&mut self, now: u64)
        requires
            old(self).wf(),
        ensures
            final(self).wf(),
            old(self).upcoming is Some ==> {
                &&& final(self).starts_level(old(self).upcoming->0, old(self).score)
                &&& final(self).gameover == old(self).gameover
                &&& final(self).last_step == now
            },
            old(self).upcoming is None ==> *final(self) == *old(self),
    {
        if self.enter_upcoming() {
            self.last_step = now;
        }
    }
}

/// Step `i` of `trace` moves onto the food without a collision and without
/// passing a gate.
pub open spec fn eating_step(trace: Seq<GameState>, i: int) -> bool {
    &&& !trace[i].gameover
    &&& !trace[i].blocked()
    &&& trace[i].eats()
    &&& !trace[i].enters_gate()
    &&& GameState::step_result(&trace[i], &trace[i + 1])
}

/// Growth: after `n` steps that each eat, the target length has grown by
/// `GROWTH` per step and the snake by one tile per step; from a level's
/// one-tile start the snake then has `min(n + 1, length)` tiles.
pub proof fn lemma_growth(trace: Seq<GameState>)
    requires
        trace.len() >= 1,
        trace[0].snake@.len() <= trace[0].length,
        forall|i: int| 0 <= i < trace.len() - 1 ==> #[trigger] eating_step(trace, i),
    ensures
        ({
            let n = trace.len() - 1;
            let first = trace[0];
            let last = trace[n];
            &&& last.length == first.length + GROWTH * n
            &&& last.snake@.len() == first.snake@.len() + n
            &&& last.snake@.len() <= last.length
            &&& first.snake@.len() == 1 ==> last.snake@.len() == (if n + 1 < last.length {
                n + 1
            } else {
                last.length as int
            })
        }),
    decreases trace.len(),
{
    let n = trace.len() - 1;
    if n > 0 {
        let prefix = trace.drop_last();
        assert forall|i: int| 0 <= i < prefix.len() - 1 implies #[trigger] eating_step(
            prefix,
            i,
        ) by {
            assert(eating_step(trace, i));
            assert(prefix[i] == trace[i]);
            assert(prefix[i + 1] == trace[i + 1]);
        }
        lemma_growth(prefix);
        assert(eating_step(trace, n - 1));
        assert(prefix[n - 1] == trace[n - 1]);
    }
}

/// A turn back onto the current heading, queued behind nothing, leaves the
/// heading as it was after the next step, unless that step passes a gate
/// into a new level, which sets the new level's heading.
pub proof fn lemma_reverse_turn_ignored(a: GameState, b: GameState, c: GameState)
    requires
        a.future_directions@.len() == 0,
        b.direction == a.direction,
        b.future_directions@ == a.future_directions@.push(opposite_of(a.direction)),
        GameState::step_result(&b, &c),
        !b.enters_gate(),
    ensures
        c.direction == a.direction,
{
    assert(b.future_directions@[0] == opposite_of(a.direction));
}

/// A step whose new head tile is part of the snake or a barrier, or both,
/// ends the game and leaves the snake, the score and the food as they were.
pub proof fn lemma_collision_ends_game(a: GameState, b: GameState)
    requires
        !a.gameover,
        a.snake@.contains(a.next_head()) || a.level.is_barrier(a.next_head()),
        GameState::step_result(&a, &b),
    ensures
        b.gameover,
        b.snake@ == a.snake@,
        b.score == a.score,
        b.food == a.food,
        b.length == a.length,
{
}

/// Gates: one that is there stays put; once more than `GATE_THRESHOLD`
/// foods have been eaten on a level a missing one is placed on a free tile;
/// and passing it starts the next level with the food count back at zero
/// and the score kept.
pub proof fn lemma_gate_rules(a: GameState, b: GameState)
    requires
        !a.gameover,
        !a.blocked(),
        GameState::step_result(&a, &b),
    ensures
        !a.enters_gate() && a.gate is Some ==> b.gate == a.gate,
        !a.enters_gate() && a.gate is None && a.eats() && a.eaten_this_level + 1 > GATE_THRESHOLD
            ==> placed(&a.level, seq![a.next_head()] + a.snake@, b.gate) && b.eaten_this_level
            == a.eaten_this_level + 1,
        !a.enters_gate() && a.gate is None && (!a.eats() || a.eaten_this_level + 1
            <= GATE_THRESHOLD) ==> b.gate is None,
        a.enters_gate() ==> b.eaten_this_level == 0 && b.gate is None && b.score == (if a.eats() {
            score_after_food(a.score)
        } else {
            a.score
        }),
{
}

/// Whether `slot` holds the tile `t`.
fn holds_tile(slot: Option<Tile>, t: Tile) -> (r: bool)
    ensures
        r == (slot == Some(t)),
{
    match slot {
        Some(u) => u.0 == t.0 && u.1 == t.1,
        None => false,
    }
}

/// The step delay after food is eaten.
fn faster(d: u64) -> (r: u64)
    requires
        d <= START_DELAY_NS,
    ensures
        r == sped_up(d as int),
{
    let shorter = d * 19 / 20;
    if shorter >= MIN_STEP_DELAY_NS {
        shorter
    } else {
        MIN_STEP_DELAY_NS
    }
}

} // verus!
