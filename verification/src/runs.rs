//! The mathematical model of a board and of its runs: maximal stretches of
//! equal gems along a row or a column, the matches they yield, and the cells
//! they cover.

use vstd::prelude::*;

verus! {

use crate::gem::Gem;

/// A board is a sequence of rows, each row a sequence of gems.
pub type Board = Seq<Seq<Gem>>;

/// How many contiguous equal gems make a match.
pub const NUMBER_TO_MATCH: u8 = 3;

/// Number of columns of a board: the length of its first row.
pub open spec fn cols_of(b: Board) -> int {
    if b.len() == 0 {
        0
    } else {
        b[0].len() as int
    }
}

/// A well-formed board: at least 2x2, no larger than 255 in either
/// dimension, and every row of the same length.
pub open spec fn board_wf(b: Board) -> bool {
    &&& 2 <= b.len() <= 255
    &&& 2 <= cols_of(b) <= 255
    &&& forall|i: int| 0 <= i < b.len() ==> (#[trigger] b[i]).len() == cols_of(b)
}

/// Whether (x, y) is a cell of the board.
pub open spec fn in_board(b: Board, x: int, y: int) -> bool {
    0 <= x < b.len() && 0 <= y < cols_of(b)
}

/// Column y of the board, read top to bottom, as a sequence of gems.
pub open spec fn col_seq(b: Board, y: int) -> Seq<Gem> {
    Seq::new(b.len(), |i: int| b[i][y])
}

/// First index of the maximal stretch of gems equal to `line[y]` that ends
/// at or extends through position y of the line.
pub open spec fn run_start(line: Seq<Gem>, y: int) -> int
    decreases y,
{
    if y <= 0 {
        0
    } else if line[y - 1] == line[y] {
        run_start(line, y - 1)
    } else {
        y
    }
}

/// Last index of the maximal stretch of gems equal to `line[y]` that starts
/// at or extends through position y of the line.
pub open spec fn run_end(line: Seq<Gem>, y: int) -> int
    decreases line.len() - y,
{
    if y >= line.len() - 1 {
        line.len() - 1
    } else if line[y + 1] == line[y] {
        run_end(line, y + 1)
    } else {
        y
    }
}

/// Length of the maximal run through position y of the line.
pub open spec fn run_len(line: Seq<Gem>, y: int) -> int {
    run_end(line, y) - run_start(line, y) + 1
}

/// The cell (x, y) lies in a horizontal match: its row run is long enough.
pub open spec fn cell_in_row_match(b: Board, x: int, y: int) -> bool {
    run_len(b[x], y) >= NUMBER_TO_MATCH as int
}

/// The cell (x, y) lies in a vertical match: its column run is long enough.
pub open spec fn cell_in_col_match(b: Board, x: int, y: int) -> bool {
    run_len(col_seq(b, y), x) >= NUMBER_TO_MATCH as int
}

/// The cell (x, y) belongs to some match and is due for removal.
pub open spec fn cell_matched(b: Board, x: int, y: int) -> bool {
    cell_in_row_match(b, x, y) || cell_in_col_match(b, x, y)
}

/// The matches of one line from position y on, in increasing order of
/// position, assuming y begins a run: each maximal run of length at least
/// NUMBER_TO_MATCH yields one (kind, length) entry.
pub open spec fn seg_matches(line: Seq<Gem>, y: int) -> Seq<(Gem, u8)>
    decreases line.len() - y,
    via seg_matches_decreases
{
    if y < 0 || y >= line.len() {
        Seq::empty()
    } else {
        let e = run_end(line, y);
        let rest = seg_matches(line, e + 1);
        if e - y + 1 >= NUMBER_TO_MATCH as int {
            seq![(line[y], (e - y + 1) as u8)] + rest
        } else {
            rest
        }
    }
}

#[via_fn]
proof fn seg_matches_decreases(line: Seq<Gem>, y: int) {
    if 0 <= y < line.len() {
        lemma_run_end_bounds(line, y);
    }
}

/// The horizontal matches of rows x, x+1, ... of the board, row by row.
pub open spec fn rows_matches_from(b: Board, x: int) -> Seq<(Gem, u8)>
    decreases b.len() - x,
{
    if x < 0 || x >= b.len() {
        Seq::empty()
    } else {
        seg_matches(b[x], 0) + rows_matches_from(b, x + 1)
    }
}

/// The vertical matches of columns y, y+1, ... of the board, column by column.
pub open spec fn cols_matches_from(b: Board, y: int) -> Seq<(Gem, u8)>
    decreases cols_of(b) - y,
{
    if y < 0 || y >= cols_of(b) {
        Seq::empty()
    } else {
        seg_matches(col_seq(b, y), 0) + cols_matches_from(b, y + 1)
    }
}

/// All matches of the board: every horizontal match row by row, then every
/// vertical match column by column.
pub open spec fn all_matches(b: Board) -> Seq<(Gem, u8)> {
    rows_matches_from(b, 0) + cols_matches_from(b, 0)
}

/// Strict lexicographic order on coordinates: first by row, then by column.
pub open spec fn pt_lt(p: (u8, u8), q: (u8, u8)) -> bool {
    p.0 < q.0 || (p.0 == q.0 && p.1 < q.1)
}

/// The board with the gem at (x, y) replaced by g.
pub open spec fn board_set(b: Board, x: int, y: int, g: Gem) -> Board {
    b.update(x, b[x].update(y, g))
}

/// The board with the gems at (x1, y1) and (x2, y2) exchanged.
pub open spec fn board_swap(b: Board, x1: int, y1: int, x2: int, y2: int) -> Board {
    board_set(board_set(b, x1, y1, b[x2][y2]), x2, y2, b[x1][y1])
}

/// The board after one cell (x, y) is destroyed: in column y every gem
/// above row x falls one row down, and the top cell receives `fresh`.
/// Every other column is untouched.
pub open spec fn board_remove_at(b: Board, x: int, y: int, fresh: Gem) -> Board {
    Seq::new(
        b.len(),
        |i: int|
            Seq::new(
                b[i].len(),
                |j: int|
                    if j == y && i <= x {
                        if i == 0 {
                            fresh
                        } else {
                            b[i - 1][j]
                        }
                    } else {
                        b[i][j]
                    },
            ),
    )
}

/// The board after the listed cells are destroyed in order, the k-th
/// drawing `fresh[k]` as its new top gem.
pub open spec fn board_destroy(b: Board, cells: Seq<(u8, u8)>, fresh: Seq<Gem>) -> Board
    decreases cells.len(),
{
    if cells.len() == 0 {
        b
    } else {
        board_destroy(
            board_remove_at(b, cells[0].0 as int, cells[0].1 as int, fresh[0]),
            cells.drop_first(),
            fresh.drop_first(),
        )
    }
}

/// Destroying one more cell after a list of cells is destroying the list
/// and then that cell: the fold may be unrolled from the right.
pub proof fn lemma_board_destroy_snoc(
    b: Board,
    cells: Seq<(u8, u8)>,
    fresh: Seq<Gem>,
    c: (u8, u8),
    g: Gem,
)
    requires
        fresh.len() == cells.len(),
    ensures
        board_destroy(b, cells.push(c), fresh.push(g)) == board_remove_at(
            board_destroy(b, cells, fresh),
            c.0 as int,
            c.1 as int,
            g,
        ),
    decreases cells.len(),
{
    reveal_with_fuel(board_destroy, 3);
    if cells.len() == 0 {
        assert(cells.push(c).drop_first() =~= Seq::<(u8, u8)>::empty());
        assert(fresh.push(g).drop_first() =~= Seq::<Gem>::empty());
    } else {
        assert(cells.push(c)[0] == cells[0]);
        assert(fresh.push(g)[0] == fresh[0]);
        assert(cells.push(c).drop_first() =~= cells.drop_first().push(c));
        assert(fresh.push(g).drop_first() =~= fresh.drop_first().push(g));
        lemma_board_destroy_snoc(
            board_remove_at(b, cells[0].0 as int, cells[0].1 as int, fresh[0]),
            cells.drop_first(),
            fresh.drop_first(),
            c,
            g,
        );
    }
}

/// The run start lies at or before y, every cell from it through y holds
/// the same gem, and the cell just before it (if any) differs.
pub proof fn lemma_run_start_bounds(line: Seq<Gem>, y: int)
    requires
        0 <= y < line.len(),
    ensures
        0 <= run_start(line, y) <= y,
        forall|j: int| run_start(line, y) <= j <= y ==> line[j] == line[y],
        run_start(line, y) > 0 ==> line[run_start(line, y) - 1] != line[y],
    decreases y,
{
    if y > 0 && line[y - 1] == line[y] {
        lemma_run_start_bounds(line, y - 1);
    }
}

/// The run end lies at or after y, every cell from y through it holds the
/// same gem, and the cell just after it (if any) differs.
pub proof fn lemma_run_end_bounds(line: Seq<Gem>, y: int)
    requires
        0 <= y < line.len(),
    ensures
        y <= run_end(line, y) < line.len(),
        forall|j: int| y <= j <= run_end(line, y) ==> line[j] == line[y],
        run_end(line, y) < line.len() - 1 ==> line[run_end(line, y) + 1] != line[y],
    decreases line.len() - y,
{
    if y < line.len() - 1 && line[y + 1] == line[y] {
        lemma_run_end_bounds(line, y + 1);
    }
}

/// Every position inside the maximal run through y belongs to the same run:
/// its run start and run end are those of y.
pub proof fn lemma_same_run(line: Seq<Gem>, y: int, j: int)
    requires
        0 <= y < line.len(),
        run_start(line, y) <= j <= run_end(line, y),
    ensures
        run_start(line, j) == run_start(line, y),
        run_end(line, j) == run_end(line, y),
    decreases
        if j <= y {
            y - j
        } else {
            j - y
        },
{
    lemma_run_start_bounds(line, y);
    lemma_run_end_bounds(line, y);
    if j < y {
        lemma_same_run(line, y, j + 1);
        assert(line[j] == line[y] && line[j + 1] == line[y]);
        assert(run_start(line, j + 1) == run_start(line, j));
        assert(run_end(line, j) == run_end(line, j + 1)) by {
            lemma_run_end_bounds(line, j + 1);
        }
    } else if j > y {
        lemma_same_run(line, y, j - 1);
        assert(line[j] == line[y] && line[j - 1] == line[y]);
        assert(run_end(line, j - 1) == run_end(line, j));
        assert(run_start(line, j) == run_start(line, j - 1)) by {
            lemma_run_start_bounds(line, j - 1);
        }
    }
}

/// An interval of equal gems through y lies inside the maximal run through
/// y: the run covers it, so the run is at least as long.
pub proof fn lemma_equal_interval_in_run(line: Seq<Gem>, a: int, y: int, e: int)
    requires
        0 <= a <= y <= e < line.len(),
        forall|j: int| a <= j <= e ==> line[j] == line[y],
    ensures
        run_start(line, y) <= a,
        run_end(line, y) >= e,
        run_len(line, y) >= e - a + 1,
{
    assert(run_start(line, y) <= a) by {
        lemma_run_start_down(line, a, y);
    }
    assert(run_end(line, y) >= e) by {
        lemma_run_end_up(line, y, e);
    }
    lemma_run_start_bounds(line, y);
    lemma_run_end_bounds(line, y);
}

proof fn lemma_run_start_down(line: Seq<Gem>, a: int, y: int)
    requires
        0 <= a <= y < line.len(),
        forall|j: int| a <= j <= y ==> line[j] == line[y],
    ensures
        run_start(line, y) <= a,
    decreases y - a,
{
    if y > a {
        assert(line[y - 1] == line[y]);
        lemma_run_start_down(line, a, y - 1);
    } else {
        lemma_run_start_bounds(line, y);
    }
}

proof fn lemma_run_end_up(line: Seq<Gem>, y: int, e: int)
    requires
        0 <= y <= e < line.len(),
        forall|j: int| y <= j <= e ==> line[j] == line[y],
    ensures
        run_end(line, y) >= e,
    decreases e - y,
{
    if e > y {
        assert(line[y + 1] == line[y]);
        lemma_run_end_up(line, y + 1, e);
    } else {
        lemma_run_end_bounds(line, y);
    }
}

} // verus!
