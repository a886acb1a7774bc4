//! Laws of the engine, proved once and for all: a board without long runs
//! scans to nothing; the scan's removal set is determined by the board
//! alone; and on a clean board the move-acceptance probe at the two swapped
//! cells agrees with the full-board scan.

use vstd::prelude::*;

verus! {

use crate::gem::Gem;
use crate::runs::Board;
use crate::runs::NUMBER_TO_MATCH;
use crate::runs::all_matches;
use crate::runs::board_swap;
use crate::runs::board_wf;
use crate::runs::cell_in_col_match;
use crate::runs::cell_in_row_match;
use crate::runs::cell_matched;
use crate::runs::col_seq;
use crate::runs::cols_matches_from;
use crate::runs::cols_of;
use crate::runs::in_board;
use crate::runs::lemma_equal_interval_in_run;
use crate::runs::lemma_run_end_bounds;
use crate::runs::lemma_run_start_bounds;
use crate::runs::lemma_same_run;
use crate::runs::pt_lt;
use crate::runs::rows_matches_from;
use crate::runs::run_end;
use crate::runs::run_len;
use crate::runs::run_start;
use crate::runs::seg_matches;

proof fn lemma_seg_matches_empty(line: Seq<Gem>, y: int)
    requires
        forall|j: int| 0 <= j < line.len() ==> run_len(line, j) < NUMBER_TO_MATCH as int,
    ensures
        seg_matches(line, y) == Seq::<(Gem, u8)>::empty(),
    decreases line.len() - y,
{
    if 0 <= y < line.len() {
        let e = run_end(line, y);
        lemma_run_end_bounds(line, y);
        lemma_run_start_bounds(line, y);
        assert(e - y + 1 <= run_len(line, y));
        lemma_seg_matches_empty(line, e + 1);
    }
}

proof fn lemma_rows_matches_empty(b: Board, x: int)
    requires
        board_wf(b),
        forall|x2: int, y2: int| in_board(b, x2, y2) ==> !cell_matched(b, x2, y2),
    ensures
        rows_matches_from(b, x) == Seq::<(Gem, u8)>::empty(),
    decreases b.len() - x,
{
    if 0 <= x < b.len() {
        assert forall|j: int| 0 <= j < b[x].len() implies run_len(b[x], j) < NUMBER_TO_MATCH
            as int by {
            assert(in_board(b, x, j));
            assert(!cell_in_row_match(b, x, j));
        }
        lemma_seg_matches_empty(b[x], 0);
        lemma_rows_matches_empty(b, x + 1);
        assert(rows_matches_from(b, x) =~= Seq::<(Gem, u8)>::empty());
    }
}

proof fn lemma_cols_matches_empty(b: Board, y: int)
    requires
        board_wf(b),
        forall|x2: int, y2: int| in_board(b, x2, y2) ==> !cell_matched(b, x2, y2),
    ensures
        cols_matches_from(b, y) == Seq::<(Gem, u8)>::empty(),
    decreases cols_of(b) - y,
{
    if 0 <= y < cols_of(b) {
        assert forall|j: int| 0 <= j < col_seq(b, y).len() implies run_len(col_seq(b, y), j)
            < NUMBER_TO_MATCH as int by {
            assert(in_board(b, j, y));
            assert(!cell_in_col_match(b, j, y));
        }
        lemma_seg_matches_empty(col_seq(b, y), 0);
        lemma_cols_matches_empty(b, y + 1);
        assert(cols_matches_from(b, y) =~= Seq::<(Gem, u8)>::empty());
    }
}

/// A board with no run of NUMBER_TO_MATCH or more in any row or column
/// scans to nothing: no cell is due for removal — that is already what
/// `cell_matched` says — and the list of matches is empty.
pub proof fn lemma_no_runs_scan_empty(b: Board)
    requires
        board_wf(b),
        forall|x: int, y: int| in_board(b, x, y) ==> !cell_matched(b, x, y),
    ensures
        all_matches(b) == Seq::<(Gem, u8)>::empty(),
{
    lemma_rows_matches_empty(b, 0);
    lemma_cols_matches_empty(b, 0);
    assert(all_matches(b) =~= Seq::<(Gem, u8)>::empty());
}

/// Two strictly sorted coordinate lists with the same members are the same
/// list. The scan's contract pins its removal set down to exactly such a
/// list, so scanning an unchanged board twice yields the very same cells —
/// never a larger set.
pub proof fn lemma_sorted_points_unique(s1: Seq<(u8, u8)>, s2: Seq<(u8, u8)>)
    requires
        forall|k: int, l: int| 0 <= k < l < s1.len() ==> pt_lt(s1[k], s1[l]),
        forall|k: int, l: int| 0 <= k < l < s2.len() ==> pt_lt(s2[k], s2[l]),
        forall|p: (u8, u8)| s1.contains(p) <==> s2.contains(p),
    ensures
        s1 == s2,
    decreases s1.len(),
{
    if s1.len() == 0 {
        if s2.len() > 0 {
            assert(s2.contains(s2[0]));
            assert(s1.contains(s2[0]));
        }
        assert(s1 =~= s2);
    } else if s2.len() == 0 {
        assert(s1.contains(s1[0]));
        assert(s2.contains(s1[0]));
    } else {
        assert(s1.contains(s1[0]));
        assert(s2.contains(s2[0]));
        let i = choose|i: int| 0 <= i < s2.len() && s2[i] == s1[0];
        let j = choose|j: int| 0 <= j < s1.len() && s1[j] == s2[0];
        if i > 0 && j > 0 {
            assert(pt_lt(s2[0], s2[i]));
            assert(pt_lt(s1[0], s1[j]));
            assert(false);
        }
        assert(s1[0] == s2[0]);

        let t1 = s1.drop_first();
        let t2 = s2.drop_first();
        assert forall|k: int, l: int| 0 <= k < l < t1.len() implies pt_lt(t1[k], t1[l]) by {
            assert(t1[k] == s1[k + 1]);
            assert(t1[l] == s1[l + 1]);
        }
        assert forall|k: int, l: int| 0 <= k < l < t2.len() implies pt_lt(t2[k], t2[l]) by {
            assert(t2[k] == s2[k + 1]);
            assert(t2[l] == s2[l + 1]);
        }
        assert forall|p: (u8, u8)| t1.contains(p) implies t2.contains(p) by {
            let k = choose|k: int| 0 <= k < t1.len() && t1[k] == p;
            assert(s1[k + 1] == p);
            assert(s1.contains(p));
            assert(pt_lt(s1[0], s1[k + 1]));
            assert(s2.contains(p));
            let m = choose|m: int| 0 <= m < s2.len() && s2[m] == p;
            assert(m > 0);
            assert(t2[m - 1] == p);
        }
        assert forall|p: (u8, u8)| t2.contains(p) implies t1.contains(p) by {
            let k = choose|k: int| 0 <= k < t2.len() && t2[k] == p;
            assert(s2[k + 1] == p);
            assert(s2.contains(p));
            assert(pt_lt(s2[0], s2[k + 1]));
            assert(s1.contains(p));
            let m = choose|m: int| 0 <= m < s1.len() && s1[m] == p;
            assert(m > 0);
            assert(t1[m - 1] == p);
        }
        lemma_sorted_points_unique(t1, t2);
        assert forall|k: int| 0 <= k < s1.len() implies s1[k] == s2[k] by {
            if k > 0 {
                assert(s1[k] == t1[k - 1]);
                assert(s2[k] == t2[k - 1]);
            }
        }
        assert(s1 =~= s2);
    }
}

/// If a line holds no long run, and a second line of the same length
/// differs from it at positions p1 and p2 at most, then any long run of
/// the second line passes through p1 or p2.
proof fn lemma_new_run_hits_change(line0: Seq<Gem>, line1: Seq<Gem>, p1: int, p2: int, y: int)
    requires
        line0.len() == line1.len(),
        0 <= y < line1.len(),
        forall|j: int| 0 <= j < line0.len() ==> run_len(line0, j) < NUMBER_TO_MATCH as int,
        forall|j: int| 0 <= j < line0.len() && j != p1 && j != p2 ==> line0[j] == line1[j],
        run_len(line1, y) >= NUMBER_TO_MATCH as int,
    ensures
        (run_start(line1, y) <= p1 <= run_end(line1, y)) || (run_start(line1, y) <= p2 <= run_end(
            line1,
            y,
        )),
{
    let a = run_start(line1, y);
    let e = run_end(line1, y);
    lemma_run_start_bounds(line1, y);
    lemma_run_end_bounds(line1, y);
    if !(a <= p1 <= e) && !(a <= p2 <= e) {
        assert forall|j: int| a <= j <= e implies line0[j] == line0[a] by {
            assert(line1[j] == line1[y]);
            assert(line1[a] == line1[y]);
        }
        lemma_equal_interval_in_run(line0, a, a, e);
        assert(run_len(line0, a) >= e - a + 1);
        assert(false);
    }
}

/// On a board without matches, after the gems at (x1, y1) and (x2, y2) are
/// exchanged, the two swapped cells anchor a match if and only if the
/// swapped board holds a match anywhere: the move-acceptance probe at the
/// swapped cells agrees exactly with the full-board scan.
pub proof fn lemma_swap_probe_agrees_with_scan(b0: Board, x1: int, y1: int, x2: int, y2: int)
    requires
        board_wf(b0),
        in_board(b0, x1, y1),
        in_board(b0, x2, y2),
        forall|x: int, y: int| in_board(b0, x, y) ==> !cell_matched(b0, x, y),
    ensures
        (cell_matched(board_swap(b0, x1, y1, x2, y2), x1, y1) || cell_matched(
            board_swap(b0, x1, y1, x2, y2),
            x2,
            y2,
        )) <==> exists|x: int, y: int|
            in_board(board_swap(b0, x1, y1, x2, y2), x, y) && cell_matched(
                board_swap(b0, x1, y1, x2, y2),
                x,
                y,
            ),
{
    let b1 = board_swap(b0, x1, y1, x2, y2);
    assert(b1.len() == b0.len());
    assert forall|i: int| 0 <= i < b1.len() implies (#[trigger] b1[i]).len() == cols_of(b0) by {
        assert(b0[i].len() == cols_of(b0));
    }
    assert(cols_of(b1) == cols_of(b0));

    if cell_matched(b1, x1, y1) || cell_matched(b1, x2, y2) {
        if cell_matched(b1, x1, y1) {
            assert(in_board(b1, x1, y1) && cell_matched(b1, x1, y1));
        } else {
            assert(in_board(b1, x2, y2) && cell_matched(b1, x2, y2));
        }
    }
    if exists|x: int, y: int| in_board(b1, x, y) && cell_matched(b1, x, y) {
        let (x, y) = choose|x: int, y: int| in_board(b1, x, y) && cell_matched(b1, x, y);
        lemma_swap_matched_cell_probes(b0, x1, y1, x2, y2, x, y);
    }
}

/// On a clean board, any cell matched after the swap traces back to a run
/// through one of the two swapped cells.
proof fn lemma_swap_matched_cell_probes(b0: Board, x1: int, y1: int, x2: int, y2: int, x: int, y: int)
    requires
        board_wf(b0),
        in_board(b0, x1, y1),
        in_board(b0, x2, y2),
        forall|x3: int, y3: int| in_board(b0, x3, y3) ==> !cell_matched(b0, x3, y3),
        in_board(board_swap(b0, x1, y1, x2, y2), x, y),
        cell_matched(board_swap(b0, x1, y1, x2, y2), x, y),
    ensures
        cell_matched(board_swap(b0, x1, y1, x2, y2), x1, y1) || cell_matched(
            board_swap(b0, x1, y1, x2, y2),
            x2,
            y2,
        ),
{
    let b1 = board_swap(b0, x1, y1, x2, y2);
    assert(b1.len() == b0.len());
    assert forall|i: int| 0 <= i < b1.len() implies (#[trigger] b1[i]).len() == cols_of(b0) by {
        assert(b0[i].len() == cols_of(b0));
    }
    assert(cols_of(b1) == cols_of(b0));
    assert forall|i: int, j: int|
        in_board(b0, i, j) && !(i == x1 && j == y1) && !(i == x2 && j == y2) implies b1[i][j]
        == b0[i][j] by {}

    if cell_in_row_match(b1, x, y) {
        let line0 = b0[x];
        let line1 = b1[x];
        let p1: int = if x == x1 {
            y1
        } else {
            -1
        };
        let p2: int = if x == x2 {
            y2
        } else {
            -1
        };
        assert forall|j: int| 0 <= j < line0.len() implies run_len(line0, j) < NUMBER_TO_MATCH
            as int by {
            assert(in_board(b0, x, j));
            assert(!cell_in_row_match(b0, x, j));
        }
        lemma_new_run_hits_change(line0, line1, p1, p2, y);
        if run_start(line1, y) <= p1 <= run_end(line1, y) {
            lemma_same_run(line1, y, p1);
            lemma_run_start_bounds(line1, y);
            lemma_run_end_bounds(line1, y);
            assert(run_len(line1, y1) >= NUMBER_TO_MATCH as int);
            assert(cell_in_row_match(b1, x1, y1));
        } else {
            lemma_same_run(line1, y, p2);
            lemma_run_start_bounds(line1, y);
            lemma_run_end_bounds(line1, y);
            assert(run_len(line1, y2) >= NUMBER_TO_MATCH as int);
            assert(cell_in_row_match(b1, x2, y2));
        }
    } else {
        let line0 = col_seq(b0, y);
        let line1 = col_seq(b1, y);
        assert(line0.len() == b0.len() && line1.len() == b1.len());
        let p1: int = if y == y1 {
            x1
        } else {
            -1
        };
        let p2: int = if y == y2 {
            x2
        } else {
            -1
        };
        assert forall|j: int| 0 <= j < line0.len() implies run_len(line0, j) < NUMBER_TO_MATCH
            as int by {
            assert(in_board(b0, j, y));
            assert(!cell_in_col_match(b0, j, y));
        }
        assert(cell_in_col_match(b1, x, y));
        assert forall|j: int| 0 <= j < line0.len() && j != p1 && j != p2 implies line0[j]
            == line1[j] by {
            assert(line0[j] == b0[j][y]);
            assert(line1[j] == b1[j][y]);
        }
        lemma_new_run_hits_change(line0, line1, p1, p2, x);
        if run_start(line1, x) <= p1 <= run_end(line1, x) {
            lemma_same_run(line1, x, p1);
            lemma_run_start_bounds(line1, x);
            lemma_run_end_bounds(line1, x);
            assert(run_len(line1, x1) >= NUMBER_TO_MATCH as int);
            assert(cell_in_col_match(b1, x1, y1));
        } else {
            lemma_same_run(line1, x, p2);
            lemma_run_start_bounds(line1, x);
            lemma_run_end_bounds(line1, x);
            assert(run_len(line1, x2) >= NUMBER_TO_MATCH as int);
            assert(cell_in_col_match(b1, x2, y2));
        }
    }
}

} // verus!
