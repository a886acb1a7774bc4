use match_three::game::clean_board;
use match_three::game::Config;
use match_three::gem::Gem;
use match_three::gem::Gem::{Green, Red, Yellow, Blue, White, Pink, Cyan};
use match_three::grid::Grid;

fn board_of(rows: &[&[Gem]]) -> Grid {
    let lines = rows.len() as u8;
    let cols = rows[0].len() as u8;
    let mut g = Grid::new_from(lines, cols, Gem::Green).unwrap();
    for (x, row) in rows.iter().enumerate() {
        assert_eq!(row.len() as u8, cols);
        for (y, gem) in row.iter().enumerate() {
            g.set(x, y, *gem);
        }
    }
    g
}

#[test]
fn gem_of_byte_exact_values() {
    assert_eq!(Gem::from_u8(0), Green);
    assert_eq!(Gem::from_u8(1), Red);
    assert_eq!(Gem::from_u8(2), Yellow);
    assert_eq!(Gem::from_u8(3), Blue);
    assert_eq!(Gem::from_u8(4), White);
    assert_eq!(Gem::from_u8(5), Pink);
    assert_eq!(Gem::from_u8(6), Cyan);
    assert_eq!(Gem::from_u8(7), Green);
    assert_eq!(Gem::from_u8(255), Blue);
    assert_eq!(Gem::default(), Green);
}

#[test]
fn default_config() {
    let c = Config::default();
    assert_eq!(c.width, 7);
    assert_eq!(c.height, 7);
}

// A 4x6 board whose row 0 starts with three Reds then three Blues, and
// whose row 2 is Yellow except its last two cells: the scan reports the
// Red, Blue and Yellow runs, and the removal set holds each covered cell
// exactly once, in order.
#[test]
fn scan_reports_every_run() {
    let g = board_of(&[
        &[Red, Red, Red, Blue, Blue, Blue],
        &[Green, White, Green, White, Green, White],
        &[Yellow, Yellow, Yellow, Yellow, Pink, Cyan],
        &[White, Green, White, Green, White, Green],
    ]);
    let (cells, matches) = g.get_all_matches();
    assert_eq!(matches, vec![(Red, 3), (Blue, 3), (Yellow, 4)]);
    assert_eq!(
        cells,
        vec![
            (0, 0),
            (0, 1),
            (0, 2),
            (0, 3),
            (0, 4),
            (0, 5),
            (2, 0),
            (2, 1),
            (2, 2),
            (2, 3),
        ]
    );
    // no duplicates, all in bounds
    for (i, &(x, y)) in cells.iter().enumerate() {
        assert!((x as usize) < g.lines() && (y as usize) < g.cols());
        for &other in &cells[i + 1..] {
            assert_ne!((x, y), other);
        }
    }
}

// A 3x5 board with no three consecutive equal cells in any row or column
// scans to nothing.
#[test]
fn scan_of_runless_board_is_empty() {
    let g = board_of(&[
        &[Red, Blue, Red, Blue, Red],
        &[Blue, Red, Blue, Red, Blue],
        &[Red, Blue, Red, Blue, Red],
    ]);
    let (cells, matches) = g.get_all_matches();
    assert!(cells.is_empty());
    assert!(matches.is_empty());
}

// Scanning the same unchanged board twice gives the very same removal set
// and the very same matches: the scan is a function of the board alone.
#[test]
fn scan_unchanged_board_is_stable() {
    let g = board_of(&[
        &[Red, Red, Red, Blue, Blue, Blue],
        &[Green, White, Green, White, Green, White],
        &[Yellow, Yellow, Yellow, Yellow, Pink, Cyan],
        &[White, Green, White, Green, White, Green],
    ]);
    let (cells1, matches1) = g.get_all_matches();
    let (cells2, matches2) = g.get_all_matches();
    assert_eq!(cells1, cells2);
    assert_eq!(matches1, matches2);
}

// A swap that creates a 3-run: the probe at the swapped cells accepts the
// move, the scan agrees, and destroying the removal set drops the cells
// above each hole by one row, keeping their relative order, with the rows
// below and the other columns untouched.
#[test]
fn swap_destroy_and_drop() {
    let mut g = board_of(&[
        &[White, Cyan, White, Cyan, Blue],
        &[Cyan, Pink, Blue, Pink, Cyan],
        &[Yellow, Yellow, Blue, Green, White],
        &[Pink, Green, Yellow, White, Cyan],
    ]);
    // the board is clean before the move
    let (cells0, _) = g.get_all_matches();
    assert!(cells0.is_empty());

    g.permute((2, 2), (3, 2));
    assert!(g.check_matches((2, 2), (3, 2)));

    let (cells, matches) = g.get_all_matches();
    assert_eq!(matches, vec![(Yellow, 3)]);
    assert_eq!(cells, vec![(2, 0), (2, 1), (2, 2)]);

    g.destroy_gems(&cells);
    assert_eq!(g.lines(), 4);
    assert_eq!(g.cols(), 5);
    // in each affected column, the two cells that were above the hole
    // dropped one row and kept their order
    assert_eq!(g.get(1, 0), White);
    assert_eq!(g.get(2, 0), Cyan);
    assert_eq!(g.get(1, 1), Cyan);
    assert_eq!(g.get(2, 1), Pink);
    assert_eq!(g.get(1, 2), White);
    assert_eq!(g.get(2, 2), Blue);
    // the row below the destroyed run is untouched
    assert_eq!(g.get(3, 0), Pink);
    assert_eq!(g.get(3, 1), Green);
    assert_eq!(g.get(3, 2), Blue);
    // the other columns are untouched
    for x in 0..4 {
        assert_eq!(g.get(x, 3), [Cyan, Pink, Green, White][x]);
        assert_eq!(g.get(x, 4), [Blue, Cyan, White, Cyan][x]);
    }
}

// A swap that creates no run on a clean board: the probe rejects the move
// and the full scan of the swapped board finds nothing either.
#[test]
fn rejected_swap_agrees_with_scan() {
    let mut g = board_of(&[
        &[Red, Blue, Green, Red, Blue],
        &[Green, Red, Blue, Green, Red],
        &[Blue, Green, Red, Blue, Green],
    ]);
    g.permute((1, 1), (1, 2));
    assert!(!g.check_matches((1, 1), (1, 2)));
    let (cells, matches) = g.get_all_matches();
    assert!(cells.is_empty());
    assert!(matches.is_empty());
}

// Construction fails below the 2x2 minimum and fills every cell otherwise.
#[test]
fn construction_minimum() {
    assert!(Grid::new_from(1, 5, Green).is_none());
    assert!(Grid::new_from(5, 1, Green).is_none());
    assert!(Grid::new_from(0, 0, Green).is_none());
    assert!(Grid::new_rand(1, 5).is_none());

    let g = Grid::new_from(2, 2, Green).unwrap();
    assert_eq!(g.get(0, 0), Green);
    assert_eq!(g.get(0, 1), Green);
    assert_eq!(g.get(1, 0), Green);
    assert_eq!(g.get(1, 1), Green);

    let g = Grid::new_rand(6, 9).unwrap();
    assert_eq!(g.lines(), 6);
    assert_eq!(g.cols(), 9);
}

// Setting one cell changes that cell and nothing else.
#[test]
fn set_changes_one_cell() {
    let mut g = Grid::new_from(3, 3, Green).unwrap();
    g.set(1, 2, Red);
    for x in 0..3 {
        for y in 0..3 {
            if (x, y) == (1, 2) {
                assert_eq!(g.get(x, y), Red);
            } else {
                assert_eq!(g.get(x, y), Green);
            }
        }
    }
}

// An already clean board is reported clean at once; a board with matches
// that comes out clean scans to nothing afterwards.
#[test]
fn cleaning_the_board() {
    let mut g = board_of(&[
        &[Red, Blue, Red, Blue, Red],
        &[Blue, Red, Blue, Red, Blue],
        &[Red, Blue, Red, Blue, Red],
    ]);
    assert!(clean_board(&mut g, 64));

    let mut g = board_of(&[
        &[Red, Red, Red, Blue, Blue, Blue],
        &[Green, White, Green, White, Green, White],
        &[Yellow, Yellow, Yellow, Yellow, Pink, Cyan],
        &[White, Green, White, Green, White, Green],
    ]);
    let clean = clean_board(&mut g, 64);
    assert_eq!(g.lines(), 4);
    assert_eq!(g.cols(), 6);
    if clean {
        let (cells, matches) = g.get_all_matches();
        assert!(cells.is_empty());
        assert!(matches.is_empty());
    }
}
