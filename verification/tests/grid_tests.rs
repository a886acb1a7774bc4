use match_three::gem::Gem;
use match_three::gem::Gem::{Blue, Green, Red, Yellow};
use match_three::grid::Grid;

#[test]
fn gems() {
    let mut gems = [
        Gem::Green,
        Gem::Red,
        Gem::Yellow,
        Gem::Blue,
        Gem::White,
        Gem::Pink,
        Gem::Cyan,
    ]
    .iter()
    .cycle();
    for i in 0..u8::MAX {
        assert_eq!(Some(Gem::from_u8(i)).as_ref(), gems.next());
    }
}

#[test]
fn basic_grid() {
    let g = Grid::new_from(5, 6, Gem::Green).unwrap();
    assert_eq!((g.lines(), g.cols()), (5, 6));
    assert_eq!(g.lines(), 5);
    assert_eq!(g.cols(), 6);
    let g = Grid::new_from(13, 2, Gem::Green).unwrap();
    assert_eq!((g.lines(), g.cols()), (13, 2));
    assert_eq!(g.lines(), 13);
    assert_eq!(g.cols(), 2);

    for size in 3..10u8 {
        let mut g = Grid::new_from(size, size, Gem::Green).unwrap();

        g.set((size / 2).into(), (size / 2).into(), Gem::Red);
        let t = g.match_border_from_point((size / 2) as usize, (size / 2) as usize);
        assert_eq!(t, (size / 2, size / 2, size / 2, size / 2));

        let g = Grid::new_from(size, size, Gem::Blue).unwrap();
        let _t = g.match_border_from_point(0, 0);
    }

    for lines in (3..9u8).chain(std::iter::once(30)) {
        for cols in (3..9u8).chain(std::iter::once(30)) {
            let g = Grid::new_from(lines, cols, Gem::Yellow).unwrap();

            for i in (0..(lines - 1)).map(|a| a as usize) {
                for j in (0..(cols - 1)).map(|a| a as usize) {
                    let t = g.match_border_from_point(i, j);
                    assert_eq!(t, (0, 0, cols - 1, lines - 1));
                }
            }
        }
    }
}

fn grid_of(rows: &[&[Gem]]) -> Grid {
    let lines = rows.len() as u8;
    let cols = rows[0].len() as u8;
    let mut g = Grid::new_from(lines, cols, Gem::Green).unwrap();
    for (x, row) in rows.iter().enumerate() {
        assert_eq!(row.len() as u8, cols);
        for (y, gem) in row.iter().enumerate() {
            g.set(x, y, *gem);
        }
    }
    g
}

#[test]
fn matches() {
    let g = grid_of(&[
        &[Red, Red, Red, Blue, Blue, Blue],
        &[Green, Green, Yellow, Yellow, Red, Blue],
        &[Yellow, Yellow, Yellow, Yellow, Yellow, Blue],
        &[Red, Yellow, Yellow, Yellow, Yellow, Yellow],
    ]);

    let (vec, matches) = g.get_all_matches();
    println!("{:?}\n{:?}", vec, matches);
    for tuple in &[
        (Red, 3),
        (Blue, 3),
        (Yellow, 5),
        (Yellow, 5),
        (Yellow, 3),
        (Yellow, 3),
        (Blue, 3),
    ] {
        assert!(matches.contains(tuple));
    }

    let g = grid_of(&[
        &[Red, Green, Green, Blue, Blue],
        &[Red, Red, Green, Yellow, Blue],
        &[Yellow, Green, Blue, Blue, Yellow],
    ]);
    let (vec, matches) = g.get_all_matches();
    assert!(vec.is_empty());
    assert!(matches.is_empty());
}
