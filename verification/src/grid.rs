//! The grid: the dense board of gems and the engine's operations on it —
//! creation, cell access, swapping, run probing, the full-board match scan,
//! and the destroy-and-refill step.

use vstd::prelude::*;

verus! {

use crate::gem::Gem;
use crate::runs::Board;
use crate::runs::NUMBER_TO_MATCH;
use crate::runs::all_matches;
use crate::runs::board_destroy;
use crate::runs::board_remove_at;
use crate::runs::lemma_board_destroy_snoc;
use crate::runs::board_set;
use crate::runs::board_swap;
use crate::runs::board_wf;
use crate::runs::cell_matched;
use crate::runs::col_seq;
use crate::runs::cols_matches_from;
use crate::runs::cols_of;
use crate::runs::in_board;
use crate::runs::lemma_run_end_bounds;
use crate::runs::lemma_run_start_bounds;
use crate::runs::pt_lt;
use crate::runs::rows_matches_from;
use crate::runs::run_end;
use crate::runs::run_start;
use crate::runs::seg_matches;
use crate::store::GemStore;
use crate::store::arr_from_elem;
use crate::store::arr_get;
use crate::store::arr_ncols;
use crate::store::arr_nrows;
use crate::store::arr_set;
use crate::store::cells_of;
use crate::store::random_u8;

/// The board of gems. Its dimensions are fixed at construction and stay at
/// least 2 in each direction; every cell always holds exactly one gem.
pub struct Grid {
    cells: GemStore,
}

impl Grid {
    /// The board a grid holds, as its mathematical model.
    pub closed spec fn board(self) -> Board {
        cells_of(self.cells)
    }

    /// A well-formed grid: between 2 and 255 in each dimension, rows all of
    /// the same length.
    pub open spec fn wf(self) -> bool {
        board_wf(self.board())
    }

    /// Builds a grid with every cell the given gem. Construction fails, and
    /// nothing is built, exactly when a dimension is below the 2-cell
    /// minimum.
    pub fn new_from(lines: u8, cols: u8, gem: Gem) -> (r: Option<Grid>)
        ensures
            r is Some <==> lines >= 2 && cols >= 2,
            r is Some ==> r.unwrap().wf(),
            r is Some ==> r.unwrap().board().len() == lines,
            r is Some ==> cols_of(r.unwrap().board()) == cols,
            r is Some ==> forall|i: int, j: int|
                0 <= i < lines && 0 <= j < cols ==> r.unwrap().board()[i][j] == gem,
    {
        if lines < 2 || cols < 2 {
            return None;
        }
        Some(Grid { cells: arr_from_elem(lines as usize, cols as usize, gem) })
    }

    /// Builds a grid of the given dimensions with every cell drawn at
    /// random, independently. Fails exactly when a dimension is below the
    /// minimum.
    pub fn new_rand(lines: u8, cols: u8) -> (r: Option<Grid>)
        ensures
            r is Some <==> lines >= 2 && cols >= 2,
            r is Some ==> r.unwrap().wf(),
            r is Some ==> r.unwrap().board().len() == lines,
            r is Some ==> cols_of(r.unwrap().board()) == cols,
    {
        let g = Grid::new_from(lines, cols, Gem::Green);
        match g {
            None => None,
            Some(mut g) => {
                let h = g.lines();
                let w = g.cols();
                let mut x: usize = 0;
                while x < h
                    invariant
                        g.wf(),
                        g.board().len() == h,
                        cols_of(g.board()) == w,
                    decreases h - x,
                {
                    let mut y: usize = 0;
                    while y < w
                        invariant
                            g.wf(),
                            g.board().len() == h,
                            cols_of(g.board()) == w,
                            x < h,
                        decreases w - y,
                    {
                        g.set(x, y, Gem::from_u8(random_u8()));
                        y += 1;
                    }
                    x += 1;
                }
                Some(g)
            },
        }
    }

    /// The number of rows of the grid.
    pub fn lines(&self) -> (n: usize)
        ensures
            n == self.board().len(),
    {
        arr_nrows(&self.cells)
    }

    /// The number of columns of the grid.
    pub fn cols(&self) -> (n: usize)
        requires
            self.wf(),
        ensures
            n == cols_of(self.board()),
    {
        arr_ncols(&self.cells)
    }

    /// The gem at row x, column y.
    pub fn get(&self, x: usize, y: usize) -> (g: Gem)
        requires
            self.wf(),
            x < self.board().len(),
            y < cols_of(self.board()),
        ensures
            g == self.board()[x as int][y as int],
    {
        arr_get(&self.cells, x, y)
    }

    /// Replaces the gem at row x, column y.
    pub fn set(&mut self, x: usize, y: usize, g: Gem)
        requires
            old(self).wf(),
            x < old(self).board().len(),
            y < cols_of(old(self).board()),
        ensures
            final(self).board() == board_set(old(self).board(), x as int, y as int, g),
            final(self).wf(),
            final(self).board().len() == old(self).board().len(),
            cols_of(final(self).board()) == cols_of(old(self).board()),
    {
        arr_set(&mut self.cells, x, y, g)
    }

    /// Exchanges the gems at the two coordinates. A pure in-place exchange:
    /// no match checking, no adjacency requirement.
    pub fn permute(&mut self, a: (usize, usize), b: (usize, usize))
        requires
            old(self).wf(),
            a.0 < old(self).board().len(),
            a.1 < cols_of(old(self).board()),
            b.0 < old(self).board().len(),
            b.1 < cols_of(old(self).board()),
        ensures
            final(self).board() == board_swap(
                old(self).board(),
                a.0 as int,
                a.1 as int,
                b.0 as int,
                b.1 as int,
            ),
            final(self).wf(),
            final(self).board().len() == old(self).board().len(),
            cols_of(final(self).board()) == cols_of(old(self).board()),
    {
        let (x1, y1) = a;
        let (x2, y2) = b;
        let tmp = self.get(x1, y1);
        let other = self.get(x2, y2);
        self.set(x1, y1, other);
        self.set(x2, y2, tmp);
    }

    /// Finds the maximal run of gems matching the root cell's kind along
    /// its row and along its column. Returns (y_start, x_start, y_end,
    /// x_end): the inclusive bounds of the row run (y_start..y_end, in the
    /// root's row) and of the column run (x_start..x_end, in the root's
    /// column).
    pub fn match_border_from_point(&self, root_x: usize, root_y: usize) -> (r: (u8, u8, u8, u8))
        requires
            self.wf(),
            root_x < self.board().len(),
            root_y < cols_of(self.board()),
        ensures
            r.0 as int == run_start(self.board()[root_x as int], root_y as int),
            r.1 as int == run_start(col_seq(self.board(), root_y as int), root_x as int),
            r.2 as int == run_end(self.board()[root_x as int], root_y as int),
            r.3 as int == run_end(col_seq(self.board(), root_y as int), root_x as int),
    {
        let ghost row: Seq<Gem> = self.board()[root_x as int];
        let ghost col: Seq<Gem> = col_seq(self.board(), root_y as int);
        let gem = self.get(root_x, root_y);

        let mut ys: usize = root_y;
        while ys > 0 && self.get(root_x, ys - 1) == gem
            invariant
                self.wf(),
                root_x < self.board().len(),
                root_y < cols_of(self.board()),
                row == self.board()[root_x as int],
                ys <= root_y,
                row[ys as int] == gem,
                run_start(row, root_y as int) == run_start(row, ys as int),
            decreases ys,
        {
            ys -= 1;
        }

        let mut ye: usize = root_y;
        let w = self.cols();
        while ye + 1 < w && self.get(root_x, ye + 1) == gem
            invariant
                self.wf(),
                root_x < self.board().len(),
                root_y < cols_of(self.board()),
                w == cols_of(self.board()),
                row == self.board()[root_x as int],
                root_y <= ye < w,
                row[ye as int] == gem,
                run_end(row, root_y as int) == run_end(row, ye as int),
            decreases w - ye,
        {
            ye += 1;
        }

        let mut xs: usize = root_x;
        while xs > 0 && self.get(xs - 1, root_y) == gem
            invariant
                self.wf(),
                root_x < self.board().len(),
                root_y < cols_of(self.board()),
                col == col_seq(self.board(), root_y as int),
                xs <= root_x,
                col[xs as int] == gem,
                run_start(col, root_x as int) == run_start(col, xs as int),
            decreases xs,
        {
            xs -= 1;
        }

        let mut xe: usize = root_x;
        let h = self.lines();
        while xe + 1 < h && self.get(xe + 1, root_y) == gem
            invariant
                self.wf(),
                root_x < self.board().len(),
                root_y < cols_of(self.board()),
                h == self.board().len(),
                col == col_seq(self.board(), root_y as int),
                root_x <= xe < h,
                col[xe as int] == gem,
                run_end(col, root_x as int) == run_end(col, xe as int),
            decreases h - xe,
        {
            xe += 1;
        }

        (ys as u8, xs as u8, ye as u8, xe as u8)
    }

    /// Whether either of the two cells, just exchanged by the caller, now
    /// anchors a run of at least NUMBER_TO_MATCH along its row or its
    /// column. This is the acceptance test for a player's move.
    pub fn check_matches(&self, a: (usize, usize), b: (usize, usize)) -> (r: bool)
        requires
            self.wf(),
            a.0 < self.board().len(),
            a.1 < cols_of(self.board()),
            b.0 < self.board().len(),
            b.1 < cols_of(self.board()),
        ensures
            r == (cell_matched(self.board(), a.0 as int, a.1 as int) || cell_matched(
                self.board(),
                b.0 as int,
                b.1 as int,
            )),
    {
        let (y1s, x1s, y1e, x1e) = self.match_border_from_point(a.0, a.1);
        let (y2s, x2s, y2e, x2e) = self.match_border_from_point(b.0, b.1);
        proof {
            lemma_run_start_bounds(self.board()[a.0 as int], a.1 as int);
            lemma_run_end_bounds(self.board()[a.0 as int], a.1 as int);
            lemma_run_start_bounds(col_seq(self.board(), a.1 as int), a.0 as int);
            lemma_run_end_bounds(col_seq(self.board(), a.1 as int), a.0 as int);
            lemma_run_start_bounds(self.board()[b.0 as int], b.1 as int);
            lemma_run_end_bounds(self.board()[b.0 as int], b.1 as int);
            lemma_run_start_bounds(col_seq(self.board(), b.1 as int), b.0 as int);
            lemma_run_end_bounds(col_seq(self.board(), b.1 as int), b.0 as int);
        }
        x1e - x1s + 1 >= NUMBER_TO_MATCH || y1e - y1s + 1 >= NUMBER_TO_MATCH || x2e - x2s + 1
            >= NUMBER_TO_MATCH || y2e - y2s + 1 >= NUMBER_TO_MATCH
    }

    /// Appends to `ms` the matches of row x, left to right: one (kind,
    /// length) entry for each maximal run of at least NUMBER_TO_MATCH.
    fn scan_row(&self, x: usize, ms: &mut Vec<(Gem, u8)>)
        requires
            self.wf(),
            x < self.board().len(),
        ensures
            final(ms)@ == old(ms)@ + seg_matches(self.board()[x as int], 0),
    {
        let ghost row: Seq<Gem> = self.board()[x as int];
        let w = self.cols();
        let mut y: usize = 0;
        while y < w
            invariant
                self.wf(),
                x < self.board().len(),
                w == cols_of(self.board()),
                row == self.board()[x as int],
                y <= w,
                ms@ + seg_matches(row, y as int) == old(ms)@ + seg_matches(row, 0),
            decreases w - y,
        {
            let gem = self.get(x, y);
            let mut e: usize = y;
            while e + 1 < w && self.get(x, e + 1) == gem
                invariant
                    self.wf(),
                    x < self.board().len(),
                    w == cols_of(self.board()),
                    row == self.board()[x as int],
                    y <= e < w,
                    row[e as int] == gem,
                    run_end(row, y as int) == run_end(row, e as int),
                decreases w - e,
            {
                e += 1;
            }
            assert(e as int == run_end(row, y as int));
            if e - y + 1 >= NUMBER_TO_MATCH as usize {
                ms.push((gem, (e - y + 1) as u8));
                proof {
                    assert(ms@ + seg_matches(row, e + 1) =~= old(ms)@ + seg_matches(row, 0));
                }
            } else {
                proof {
                    assert(ms@ + seg_matches(row, e + 1) =~= old(ms)@ + seg_matches(row, 0));
                }
            }
            y = e + 1;
        }
        proof {
            assert(ms@ =~= ms@ + seg_matches(row, w as int));
            assert(ms@ =~= old(ms)@ + seg_matches(row, 0));
        }
    }

    /// Appends to `ms` the matches of column y, top to bottom.
    fn scan_col(&self, y: usize, ms: &mut Vec<(Gem, u8)>)
        requires
            self.wf(),
            y < cols_of(self.board()),
        ensures
            final(ms)@ == old(ms)@ + seg_matches(col_seq(self.board(), y as int), 0),
    {
        let ghost col: Seq<Gem> = col_seq(self.board(), y as int);
        let h = self.lines();
        let mut x: usize = 0;
        while x < h
            invariant
                self.wf(),
                y < cols_of(self.board()),
                h == self.board().len(),
                col == col_seq(self.board(), y as int),
                x <= h,
                ms@ + seg_matches(col, x as int) == old(ms)@ + seg_matches(col, 0),
            decreases h - x,
        {
            let gem = self.get(x, y);
            let mut e: usize = x;
            while e + 1 < h && self.get(e + 1, y) == gem
                invariant
                    self.wf(),
                    y < cols_of(self.board()),
                    h == self.board().len(),
                    col == col_seq(self.board(), y as int),
                    x <= e < h,
                    col[e as int] == gem,
                    run_end(col, x as int) == run_end(col, e as int),
                decreases h - e,
            {
                e += 1;
            }
            assert(e as int == run_end(col, x as int));
            if e - x + 1 >= NUMBER_TO_MATCH as usize {
                ms.push((gem, (e - x + 1) as u8));
                proof {
                    assert(ms@ + seg_matches(col, e + 1) =~= old(ms)@ + seg_matches(col, 0));
                }
            } else {
                proof {
                    assert(ms@ + seg_matches(col, e + 1) =~= old(ms)@ + seg_matches(col, 0));
                }
            }
            x = e + 1;
        }
        proof {
            assert(ms@ =~= ms@ + seg_matches(col, h as int));
            assert(ms@ =~= old(ms)@ + seg_matches(col, 0));
        }
    }

    /// Probes the whole board and returns:
    /// - the cells lying in some match, each exactly once, sorted by (row,
    ///   column), all in bounds — the set to feed to `destroy_gems`;
    /// - every match (kind, length): all horizontal ones row by row, then
    ///   all vertical ones column by column, duplicates kept.
    /// Both are empty exactly when the board holds no run of
    /// NUMBER_TO_MATCH or more.
    pub fn get_all_matches(&self) -> (r: (Vec<(u8, u8)>, Vec<(Gem, u8)>))
        requires
            self.wf(),
        ensures
            r.1@ == all_matches(self.board()),
            forall|k: int, l: int| 0 <= k < l < r.0@.len() ==> pt_lt(r.0@[k], r.0@[l]),
            forall|k: int, l: int| 0 <= k < l < r.0@.len() ==> r.0@[k] != r.0@[l],
            forall|k: int|
                0 <= k < r.0@.len() ==> in_board(
                    self.board(),
                    r.0@[k].0 as int,
                    r.0@[k].1 as int,
                ) && cell_matched(self.board(), r.0@[k].0 as int, r.0@[k].1 as int),
            forall|x: int, y: int|
                in_board(self.board(), x, y) && cell_matched(self.board(), x, y)
                    ==> r.0@.contains((x as u8, y as u8)),
    {
        let ghost b: Board = self.board();
        let h = self.lines();
        let w = self.cols();

        let mut points: Vec<(u8, u8)> = Vec::new();
        let mut x: usize = 0;
        while x < h
            invariant
                self.wf(),
                b == self.board(),
                h == b.len(),
                w == cols_of(b),
                x <= h,
                forall|k: int|
                    0 <= k < points@.len() ==> (#[trigger] points@[k]).0 < x as int,
                forall|k: int, l: int|
                    0 <= k < l < points@.len() ==> pt_lt(points@[k], points@[l]),
                forall|k: int|
                    0 <= k < points@.len() ==> in_board(
                        b,
                        (#[trigger] points@[k]).0 as int,
                        points@[k].1 as int,
                    ) && cell_matched(b, points@[k].0 as int, points@[k].1 as int),
                forall|a: int, c: int|
                    in_board(b, a, c) && a < x as int && cell_matched(b, a, c)
                        ==> points@.contains((a as u8, c as u8)),
            decreases h - x,
        {
            let mut y: usize = 0;
            while y < w
                invariant
                    self.wf(),
                    b == self.board(),
                    h == b.len(),
                    w == cols_of(b),
                    x < h,
                    y <= w,
                    forall|k: int|
                        0 <= k < points@.len() ==> (#[trigger] points@[k]).0 < x as int || (
                        points@[k].0 == x as int && points@[k].1 < y as int),
                    forall|k: int, l: int|
                        0 <= k < l < points@.len() ==> pt_lt(points@[k], points@[l]),
                    forall|k: int|
                        0 <= k < points@.len() ==> in_board(
                            b,
                            (#[trigger] points@[k]).0 as int,
                            points@[k].1 as int,
                        ) && cell_matched(b, points@[k].0 as int, points@[k].1 as int),
                    forall|a: int, c: int|
                        in_board(b, a, c) && (a < x as int || (a == x as int && c < y as int))
                            && cell_matched(b, a, c) ==> points@.contains((a as u8, c as u8)),
                decreases w - y,
            {
                let (ys, xs, ye, xe) = self.match_border_from_point(x, y);
                proof {
                    lemma_run_start_bounds(b[x as int], y as int);
                    lemma_run_end_bounds(b[x as int], y as int);
                    lemma_run_start_bounds(col_seq(b, y as int), x as int);
                    lemma_run_end_bounds(col_seq(b, y as int), x as int);
                }
                if ye - ys + 1 >= NUMBER_TO_MATCH || xe - xs + 1 >= NUMBER_TO_MATCH {
                    let ghost before = points@;
                    points.push((x as u8, y as u8));
                    proof {
                        assert(points@ == before.push((x as u8, y as u8)));
                        assert forall|p: (u8, u8)| before.contains(p) implies #[trigger] points@
                            .contains(p) by {
                            let i = choose|i: int| 0 <= i < before.len() && before[i] == p;
                            assert(points@[i] == p);
                        }
                        assert(points@[points@.len() - 1] == (x as u8, y as u8));
                        assert(points@.contains((x as u8, y as u8)));
                    }
                }
                y += 1;
            }
            x += 1;
        }

        let mut ms: Vec<(Gem, u8)> = Vec::new();
        let mut x: usize = 0;
        while x < h
            invariant
                self.wf(),
                b == self.board(),
                h == b.len(),
                w == cols_of(b),
                x <= h,
                ms@ + rows_matches_from(b, x as int) == rows_matches_from(b, 0),
            decreases h - x,
        {
            let ghost before = ms@;
            self.scan_row(x, &mut ms);
            proof {
                assert(ms@ + rows_matches_from(b, x as int + 1) =~= rows_matches_from(b, 0));
            }
            x += 1;
        }
        proof {
            assert(ms@ =~= ms@ + rows_matches_from(b, h as int));
            assert(ms@ =~= rows_matches_from(b, 0));
        }

        let mut y: usize = 0;
        while y < w
            invariant
                self.wf(),
                b == self.board(),
                h == b.len(),
                w == cols_of(b),
                y <= w,
                ms@ + cols_matches_from(b, y as int) == rows_matches_from(b, 0)
                    + cols_matches_from(b, 0),
            decreases w - y,
        {
            self.scan_col(y, &mut ms);
            proof {
                assert(ms@ + cols_matches_from(b, y as int + 1) =~= rows_matches_from(b, 0)
                    + cols_matches_from(b, 0));
            }
            y += 1;
        }
        proof {
            assert(ms@ =~= ms@ + cols_matches_from(b, w as int));
            assert(ms@ =~= all_matches(b));
            assert forall|k: int, l: int| 0 <= k < l < points@.len() implies points@[k]
                != points@[l] by {
                assert(pt_lt(points@[k], points@[l]));
            }
        }

        (points, ms)
    }

    /// Destroys the listed cells in order: for each one, every gem above it
    /// in its column falls one row down and a fresh random gem enters at
    /// the top. Dimensions never change and every cell stays populated; a
    /// column may appear several times and each shift works on the board
    /// as the previous shifts left it.
    pub fn destroy_gems(&mut self, to_destroy: &Vec<(u8, u8)>)
        requires
            old(self).wf(),
            forall|k: int|
                0 <= k < to_destroy@.len() ==> in_board(
                    old(self).board(),
                    (#[trigger] to_destroy@[k]).0 as int,
                    to_destroy@[k].1 as int,
                ),
        ensures
            final(self).wf(),
            final(self).board().len() == old(self).board().len(),
            cols_of(final(self).board()) == cols_of(old(self).board()),
            exists|fresh: Seq<Gem>|
                fresh.len() == to_destroy@.len() && final(self).board() == board_destroy(
                    old(self).board(),
                    to_destroy@,
                    fresh,
                ),
    {
        let ghost b0: Board = self.board();
        let ghost mut fresh: Seq<Gem> = Seq::empty();
        let n = to_destroy.len();
        let mut k: usize = 0;
        while k < n
            invariant
                self.wf(),
                n == to_destroy@.len(),
                forall|k2: int|
                    0 <= k2 < to_destroy@.len() ==> in_board(
                        b0,
                        (#[trigger] to_destroy@[k2]).0 as int,
                        to_destroy@[k2].1 as int,
                    ),
                self.board().len() == b0.len(),
                cols_of(self.board()) == cols_of(b0),
                board_wf(b0),
                k <= n,
                fresh.len() == k,
                self.board() == board_destroy(b0, to_destroy@.take(k as int), fresh),
            decreases n - k,
        {
            let (x8, y8) = to_destroy[k];
            let x = x8 as usize;
            let y = y8 as usize;
            let ghost bk: Board = self.board();

            let mut i: usize = x;
            while i >= 1
                invariant
                    self.wf(),
                    bk.len() == self.board().len(),
                    cols_of(bk) == cols_of(self.board()),
                    board_wf(bk),
                    i <= x,
                    x < self.board().len(),
                    y < cols_of(self.board()),
                    forall|j: int|
                        i < j <= x ==> self.board()[j][y as int] == bk[j - 1][y as int],
                    forall|j: int|
                        0 <= j <= i ==> self.board()[j][y as int] == bk[j][y as int],
                    forall|j: int|
                        x < j < bk.len() ==> self.board()[j][y as int] == bk[j][y as int],
                    forall|j: int, c: int|
                        0 <= j < bk.len() && 0 <= c < cols_of(bk) && c != y ==> self.board()[j][c]
                            == bk[j][c],
                decreases i,
            {
                let gm = self.get(i - 1, y);
                self.set(i, y, gm);
                i -= 1;
            }
            let new_gem = Gem::from_u8(random_u8());
            self.set(0, y, new_gem);
            proof {
                assert(self.board() =~~= board_remove_at(bk, x as int, y as int, new_gem));
                lemma_board_destroy_snoc(b0, to_destroy@.take(k as int), fresh, (x8, y8), new_gem);
                assert(to_destroy@.take(k as int).push(to_destroy@[k as int]) =~= to_destroy@.take(
                    k as int + 1,
                ));
                fresh = fresh.push(new_gem);
            }
            k += 1;
        }
        proof {
            assert(to_destroy@.take(n as int) =~= to_destroy@);
        }
    }
}

} // verus!
