//! Game-level pieces of the engine: the board configuration and the
//! setup step that rids a fresh random board of spontaneous matches.

use vstd::prelude::*;

verus! {

use crate::grid::Grid;
use crate::runs::cell_matched;
use crate::runs::cols_of;
use crate::runs::in_board;

/// The dimensions a game board is created with.
#[derive(Clone, Copy, Debug)]
pub struct Config {
    pub width: u8,
    pub height: u8,
}

impl Default for Config {
    fn default() -> (c: Config)
        ensures
            c.width == 7,
            c.height == 7,
    {
        Config { width: 7, height: 7 }
    }
}

/// Scans and destroys repeatedly until the board holds no match, giving up
/// after `max_passes` passes. Returns whether the board came out clean; a
/// clean board holds no run of three or more anywhere. Each pass refills
/// at random, so success within the bound cannot be promised.
pub fn clean_board(grid: &mut Grid, max_passes: u8) -> (clean: bool)
    requires
        old(grid).wf(),
    ensures
        final(grid).wf(),
        final(grid).board().len() == old(grid).board().len(),
        cols_of(final(grid).board()) == cols_of(old(grid).board()),
        clean ==> forall|x: int, y: int|
            in_board(final(grid).board(), x, y) ==> !cell_matched(final(grid).board(), x, y),
        max_passes > 0 && (forall|x: int, y: int|
            in_board(old(grid).board(), x, y) ==> !cell_matched(old(grid).board(), x, y))
            ==> clean && final(grid).board() == old(grid).board(),
{
    let ghost b0 = grid.board();
    let mut p: u8 = 0;
    while p < max_passes
        invariant
            grid.wf(),
            b0 == old(grid).board(),
            grid.board().len() == b0.len(),
            cols_of(grid.board()) == cols_of(b0),
            p <= max_passes,
            p == 0 ==> grid.board() == b0,
            p > 0 ==> exists|x: int, y: int| in_board(b0, x, y) && cell_matched(b0, x, y),
        decreases max_passes - p,
    {
        let (v, _m) = grid.get_all_matches();
        if v.len() == 0 {
            proof {
                assert forall|x: int, y: int|
                    in_board(grid.board(), x, y) implies !cell_matched(grid.board(), x, y) by {
                    if cell_matched(grid.board(), x, y) {
                        assert(v@.contains((x as u8, y as u8)));
                    }
                }
            }
            return true;
        }
        proof {
            if p == 0 {
                let c = v@[0];
                assert(in_board(b0, c.0 as int, c.1 as int) && cell_matched(
                    b0,
                    c.0 as int,
                    c.1 as int,
                ));
            }
        }
        grid.destroy_gems(&v);
        p += 1;
    }
    false
}

} // verus!
