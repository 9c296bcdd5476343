use vstd::prelude::*;
use vstd::string::StringSliceAdditionalSpecFns;

use crate::direction::Direction;
use crate::level::{Level, LevelError, LevelErrorKind, Tile, MAX_HEIGHT, MAX_WIDTH};

verus! {

/// `#`: a barrier.
pub const BARRIER: u8 = 35;

/// `.`: an empty cell.
pub const EMPTY: u8 = 46;

/// A space: an empty cell too.
pub const BLANK: u8 = 32;

/// `<`: the start tile, heading left.
pub const START_LEFT: u8 = 60;

/// `>`: the start tile, heading right.
pub const START_RIGHT: u8 = 62;

/// `^`: the start tile, heading up.
pub const START_UP: u8 = 94;

/// `v`: the start tile, heading down.
pub const START_DOWN: u8 = 118;

/// Ends a row.
pub const NEWLINE: u8 = 10;

/// Precedes the newline in a `\r\n` line ending.
pub const CARRIAGE_RETURN: u8 = 13;

/// A row of `s` that begins at `start` and ends just before the newline at
/// `end`, without the carriage return of a `\r\n` line ending.
pub open spec fn terminated_row(s: Seq<u8>, start: int, end: int) -> Seq<u8> {
    if end > start && s[end - 1] == CARRIAGE_RETURN {
        s.subrange(start, end - 1)
    } else {
        s.subrange(start, end)
    }
}

/// The rows of `s` from the row that begins at `start`, scanning from
/// position `i`: rows are separated by `\n` (or `\r\n`), and a final line
/// ending adds no empty row.
pub open spec fn rows_from(s: Seq<u8>, start: int, i: int) -> Seq<Seq<u8>>
    decreases s.len() - i,
{
    if i >= s.len() {
        if start < s.len() {
            seq![s.subrange(start, s.len() as int)]
        } else {
            seq![]
        }
    } else if s[i] == NEWLINE {
        seq![terminated_row(s, start, i)] + rows_from(s, i + 1, i + 1)
    } else {
        rows_from(s, start, i + 1)
    }
}

/// The rows of a level text.
pub open spec fn text_rows(s: Seq<u8>) -> Seq<Seq<u8>> {
    rows_from(s, 0, 0)
}

/// Splits `s` into its rows.
fn split_rows(s: &[u8]) -> (r: Vec<Vec<u8>>)
    ensures
        r@.map_values(|row: Vec<u8>| row@) == text_rows(s@),
{
    let mut rows: Vec<Vec<u8>> = Vec::new();
    let mut start: usize = 0;
    let mut i: usize = 0;
    while i < s.len()
        invariant
            start <= i <= s@.len(),
            text_rows(s@) == rows@.map_values(|row: Vec<u8>| row@) + rows_from(s@, start as int, i as int),
        decreases s@.len() - i,
    {
        if s[i] == NEWLINE {
            let end: usize = if i > start && s[i - 1] == CARRIAGE_RETURN {
                i - 1
            } else {
                i
            };
            let row = copy_range(s, start, end);
            proof {
                assert(row@ == terminated_row(s@, start as int, i as int));
                assert(rows@.push(row).map_values(|row: Vec<u8>| row@) =~= rows@.map_values(
                    |row: Vec<u8>| row@,
                ).push(row@));
            }
            rows.push(row);
            start = i + 1;
        }
        i += 1;
    }
    if start < s.len() {
        let row = copy_range(s, start, s.len());
        proof {
            assert(rows@.push(row).map_values(|row: Vec<u8>| row@) =~= rows@.map_values(
                |row: Vec<u8>| row@,
            ).push(row@));
        }
        rows.push(row);
    } else {
        proof {
            assert(rows@.map_values(|row: Vec<u8>| row@) + seq![] =~= rows@.map_values(
                |row: Vec<u8>| row@,
            ));
        }
    }
    rows
}

/// The bytes of `s` from `lo` up to `hi`.
fn copy_range(s: &[u8], lo: usize, hi: usize) -> (r: Vec<u8>)
    requires
        lo <= hi <= s@.len(),
    ensures
        r@ == s@.subrange(lo as int, hi as int),
{
    let mut r: Vec<u8> = Vec::new();
    let mut i: usize = lo;
    while i < hi
        invariant
            lo <= i <= hi <= s@.len(),
            r@ == s@.subrange(lo as int, i as int),
        decreases hi - i,
    {
        r.push(s[i]);
        proof {
            assert(r@ =~= s@.subrange(lo as int, i + 1));
        }
        i += 1;
    }
    r
}

/// Whether `c` marks the start tile.
pub open spec fn is_marker(c: u8) -> bool {
    c == START_LEFT || c == START_RIGHT || c == START_UP || c == START_DOWN
}

/// Whether `c` stands for a kind of cell: a barrier, an empty cell or the
/// start tile.
pub open spec fn is_known_cell(c: u8) -> bool {
    c == BARRIER || c == EMPTY || c == BLANK || is_marker(c)
}

/// The heading that a start marker gives.
pub open spec fn marker_direction(c: u8) -> Direction {
    if c == START_LEFT {
        Direction::Left
    } else if c == START_RIGHT {
        Direction::Right
    } else if c == START_UP {
        Direction::Up
    } else {
        Direction::Down
    }
}

/// The first byte of `row` from column `x` on that stands for no cell.
pub open spec fn first_unknown(row: Seq<u8>, x: int) -> Option<LevelErrorKind>
    decreases row.len() - x,
{
    if x < 0 || x >= row.len() {
        None
    } else if !is_known_cell(row[x]) {
        Some(LevelErrorKind::InvalidCharacter(row[x]))
    } else {
        first_unknown(row, x + 1)
    }
}

/// What is wrong with row `y` on its own: a width unlike the first row's,
/// then a width over the limit, then the first unknown byte.
pub open spec fn row_defect(rows: Seq<Seq<u8>>, y: int) -> Option<LevelErrorKind> {
    if rows[y].len() != rows[0].len() {
        Some(LevelErrorKind::NotRectangular)
    } else if rows[y].len() > MAX_WIDTH {
        Some(LevelErrorKind::TooWide)
    } else {
        first_unknown(rows[y], 0)
    }
}

/// The defect of the first row from `y` on that has one.
pub open spec fn first_defect(rows: Seq<Seq<u8>>, y: int) -> Option<LevelErrorKind>
    decreases rows.len() - y,
{
    if y < 0 || y >= rows.len() {
        None
    } else if row_defect(rows, y) is Some {
        row_defect(rows, y)
    } else {
        first_defect(rows, y + 1)
    }
}

/// Whether `c` is a cell that is collected: a start marker when `starts`,
/// a barrier otherwise.
pub open spec fn picked(c: u8, starts: bool) -> bool {
    if starts {
        is_marker(c)
    } else {
        c == BARRIER
    }
}

/// The picked cells among the first `n` bytes of row `y`, left to right.
pub open spec fn row_cells(row: Seq<u8>, y: int, n: int, starts: bool) -> Seq<Tile>
    decreases n,
{
    if n <= 0 {
        seq![]
    } else if picked(row[n - 1], starts) {
        row_cells(row, y, n - 1, starts).push(((n - 1) as i32, y as i32))
    } else {
        row_cells(row, y, n - 1, starts)
    }
}

/// The picked cells of the first `k` rows, row by row.
pub open spec fn grid_cells(rows: Seq<Seq<u8>>, k: int, starts: bool) -> Seq<Tile>
    decreases k,
{
    if k <= 0 {
        seq![]
    } else {
        grid_cells(rows, k - 1, starts) + row_cells(rows[k - 1], k - 1, rows[k - 1].len() as int, starts)
    }
}

/// What keeps the rows of a level text from making a level, if anything:
/// the first row defect, then too many rows, then a start marker missing
/// or repeated.
pub open spec fn level_defect(rows: Seq<Seq<u8>>) -> Option<LevelErrorKind> {
    if first_defect(rows, 0) is Some {
        first_defect(rows, 0)
    } else if rows.len() > MAX_HEIGHT {
        Some(LevelErrorKind::TooTall)
    } else if grid_cells(rows, rows.len() as int, true).len() == 0 {
        Some(LevelErrorKind::NoStart)
    } else if grid_cells(rows, rows.len() as int, true).len() > 1 {
        Some(LevelErrorKind::MultipleStarts)
    } else {
        None
    }
}

/// Rows seen through their byte sequences.
pub open spec fn rows_view(rows: Seq<Vec<u8>>) -> Seq<Seq<u8>> {
    rows.map_values(|row: Vec<u8>| row@)
}

/// The first defect of any row.
fn find_defect(rows: &Vec<Vec<u8>>) -> (r: Option<LevelErrorKind>)
    ensures
        r == first_defect(rows_view(rows@), 0),
{
    let ghost rv = rows_view(rows@);
    if rows.len() == 0 {
        return None;
    }
    let width = rows[0].len();
    let mut y: usize = 0;
    while y < rows.len()
        invariant
            rv == rows_view(rows@),
            rows@.len() > 0,
            width == rv[0].len(),
            y <= rows@.len(),
            first_defect(rv, 0) == first_defect(rv, y as int),
        decreases rows@.len() - y,
    {
        let row = &rows[y];
        assert(row@ == rv[y as int]);
        if row.len() != width {
            return Some(LevelErrorKind::NotRectangular);
        }
        if row.len() > MAX_WIDTH as usize {
            return Some(LevelErrorKind::TooWide);
        }
        let mut x: usize = 0;
        while x < row.len()
            invariant
                rv == rows_view(rows@),
                y < rows@.len(),
                row@ == rv[y as int],
                row@.len() == rv[0].len(),
                row@.len() <= MAX_WIDTH,
                first_defect(rv, 0) == first_defect(rv, y as int),
                x <= row@.len(),
                first_unknown(row@, 0) == first_unknown(row@, x as int),
            decreases row@.len() - x,
        {
            let c = row[x];
            if !(c == BARRIER || c == EMPTY || c == BLANK || c == START_LEFT || c == START_RIGHT || c == START_UP || c
                == START_DOWN) {
                return Some(LevelErrorKind::InvalidCharacter(c));
            }
            x += 1;
        }
        y += 1;
    }
    None
}

/// Every cell collected from the first `n` bytes of a row of at most
/// `MAX_WIDTH` bytes lies in that row and is picked.
proof fn lemma_row_cells(row: Seq<u8>, y: int, n: int, starts: bool)
    requires
        0 <= n <= row.len() <= MAX_WIDTH,
        0 <= y < MAX_HEIGHT,
    ensures
        forall|i: int|
            0 <= i < row_cells(row, y, n, starts).len() ==> {
                let t = #[trigger] row_cells(row, y, n, starts)[i];
                &&& 0 <= t.0 < n
                &&& t.1 == y
                &&& picked(row[t.0 as int], starts)
            },
    decreases n,
{
    if n > 0 {
        lemma_row_cells(row, y, n - 1, starts);
        let prev = row_cells(row, y, n - 1, starts);
        let t: Tile = ((n - 1) as i32, y as i32);
        if picked(row[n - 1], starts) {
            assert forall|i: int| 0 <= i < prev.push(t).len() implies {
                let u = #[trigger] prev.push(t)[i];
                &&& 0 <= u.0 < n
                &&& u.1 == y
                &&& picked(row[u.0 as int], starts)
            } by {
                if i < prev.len() {
                    assert(prev.push(t)[i] == prev[i]);
                }
            }
        }
    }
}

/// Every cell collected from the first `k` rows, each of at most
/// `MAX_WIDTH` bytes, lies in those rows and is picked.
proof fn lemma_grid_cells(rows: Seq<Seq<u8>>, k: int, starts: bool)
    requires
        0 <= k <= rows.len(),
        k <= MAX_HEIGHT,
        forall|y: int| 0 <= y < k ==> #[trigger] rows[y].len() <= MAX_WIDTH,
    ensures
        forall|i: int|
            0 <= i < grid_cells(rows, k, starts).len() ==> {
                let t = #[trigger] grid_cells(rows, k, starts)[i];
                &&& 0 <= t.1 < k
                &&& 0 <= t.0 < rows[t.1 as int].len()
                &&& picked(rows[t.1 as int][t.0 as int], starts)
            },
    decreases k,
{
    if k > 0 {
        lemma_grid_cells(rows, k - 1, starts);
        lemma_row_cells(rows[k - 1], k - 1, rows[k - 1].len() as int, starts);
        let a = grid_cells(rows, k - 1, starts);
        let b = row_cells(rows[k - 1], k - 1, rows[k - 1].len() as int, starts);
        assert forall|i: int| 0 <= i < (a + b).len() implies {
            let t = #[trigger] (a + b)[i];
            &&& 0 <= t.1 < k
            &&& 0 <= t.0 < rows[t.1 as int].len()
            &&& picked(rows[t.1 as int][t.0 as int], starts)
        } by {
            if i >= a.len() {
                assert((a + b)[i] == b[i - a.len()]);
            }
        }
    }
}

/// The heading of a start marker.
fn marker_heading(c: u8) -> (r: Direction)
    ensures
        r == marker_direction(c),
{
    if c == START_LEFT {
        Direction::Left
    } else if c == START_RIGHT {
        Direction::Right
    } else if c == START_UP {
        Direction::Up
    } else {
        Direction::Down
    }
}

impl Level {
    /// Reads a level from its text: one row per line, `#` a barrier, `.` or
    /// a space an empty cell, and exactly one of `<`, `>`, `^`, `v` the start
    /// tile with its heading.
    pub fn from_text(id: u32, text: &str) -> (r: Result<Level, LevelError>)
        ensures
            ({
                let rows = text_rows(text.spec_bytes());
                match r {
                    Ok(level) => {
                        &&& level_defect(rows) is None
                        &&& level.wf()
                        &&& level.id == id
                        &&& level.width == rows[0].len()
                        &&& level.height == rows.len()
                        &&& level.start_tile == grid_cells(rows, rows.len() as int, true)[0]
                        &&& level.start_direction == marker_direction(
                            rows[level.start_tile.1 as int][level.start_tile.0 as int],
                        )
                        &&& level.barriers@ == grid_cells(rows, rows.len() as int, false)
                    },
                    Err(e) => e.id == id && level_defect(rows) == Some(e.kind),
                }
            }),
    {
        let rows = split_rows(text.as_bytes());
        let ghost rv = rows_view(rows@);
        assert(rv == text_rows(text.spec_bytes()));
        if let Some(kind) = find_defect(&rows) {
            return Err(LevelError { id, kind });
        }
        if rows.len() > MAX_HEIGHT as usize {
            return Err(LevelError { id, kind: LevelErrorKind::TooTall });
        }
        let mut barriers: Vec<Tile> = Vec::new();
        let mut starts: usize = 0;
        let mut start_tile: Tile = (0, 0);
        let mut start_direction = Direction::Right;
        let mut y: usize = 0;
        while y < rows.len()
            invariant
                rv == rows_view(rows@),
                first_defect(rv, 0) is None,
                rows@.len() <= MAX_HEIGHT,
                y <= rows@.len(),
                barriers@ == grid_cells(rv, y as int, false),
                starts == grid_cells(rv, y as int, true).len(),
                starts <= y * MAX_WIDTH,
                starts > 0 ==> start_tile == grid_cells(rv, y as int, true)[0],
                starts > 0 ==> start_direction == marker_direction(
                    rv[start_tile.1 as int][start_tile.0 as int],
                ),
            decreases rows@.len() - y,
        {
            let row = &rows[y];
            assert(row@ == rv[y as int]);
            proof {
                lemma_no_defect(rv, 0, y as int);
            }
            let mut x: usize = 0;
            while x < row.len()
                invariant
                    rv == rows_view(rows@),
                    rows@.len() <= MAX_HEIGHT,
                    y < rows@.len(),
                    row@ == rv[y as int],
                    row@.len() <= MAX_WIDTH,
                    x <= row@.len(),
                    barriers@ == grid_cells(rv, y as int, false) + row_cells(
                        row@,
                        y as int,
                        x as int,
                        false,
                    ),
                    starts == (grid_cells(rv, y as int, true) + row_cells(
                        row@,
                        y as int,
                        x as int,
                        true,
                    )).len(),
                    starts <= y * MAX_WIDTH + x,
                    starts > 0 ==> start_tile == (grid_cells(rv, y as int, true) + row_cells(
                        row@,
                        y as int,
                        x as int,
                        true,
                    ))[0],
                    starts > 0 ==> start_direction == marker_direction(
                        rv[start_tile.1 as int][start_tile.0 as int],
                    ),
                decreases row@.len() - x,
            {
                let c = row[x];
                let tile: Tile = (x as i32, y as i32);
                if c == BARRIER {
                    barriers.push(tile);
                } else if c == START_LEFT || c == START_RIGHT || c == START_UP || c == START_DOWN {
                    if starts == 0 {
                        start_tile = tile;
                        start_direction = marker_heading(c);
                    }
                    starts += 1;
                }
                proof {
                    let g = grid_cells(rv, y as int, true);
                    let rc = row_cells(row@, y as int, x as int, true);
                    if is_marker(c) {
                        assert(row_cells(row@, y as int, x + 1, true) == rc.push(tile));
                        assert((g + rc.push(tile)) =~= (g + rc).push(tile));
                    }
                    let gb = grid_cells(rv, y as int, false);
                    let rb = row_cells(row@, y as int, x as int, false);
                    if c == BARRIER {
                        assert((gb + rb.push(tile)) =~= (gb + rb).push(tile));
                    }
                }
                x += 1;
            }
            y += 1;
        }
        proof {
            assert forall|yy: int| 0 <= yy < rv.len() implies #[trigger] rv[yy].len() == rv[0].len()
                && rv[yy].len() <= MAX_WIDTH by {
                lemma_no_defect(rv, 0, yy);
            }
            lemma_grid_cells(rv, rv.len() as int, true);
        }
        if starts == 0 {
            return Err(LevelError { id, kind: LevelErrorKind::NoStart });
        }
        if starts > 1 {
            return Err(LevelError { id, kind: LevelErrorKind::MultipleStarts });
        }
        let width = rows[0].len() as u32;
        let height = rows.len() as u32;
        Ok(Level { id, width, height, start_tile, start_direction, barriers })
    }
}

/// Where no row from `y0` on has a defect, row `y` (from `y0` on) has none.
proof fn lemma_no_defect(rows: Seq<Seq<u8>>, y0: int, y: int)
    requires
        0 <= y0 <= y < rows.len(),
        first_defect(rows, y0) is None,
    ensures
        row_defect(rows, y) is None,
    decreases y - y0,
{
    if y0 < y {
        lemma_no_defect(rows, y0 + 1, y);
    }
}

} // verus!
