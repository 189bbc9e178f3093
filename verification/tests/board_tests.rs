use game_of_life::board::Board;
use game_of_life::board::BoardError;

fn board(w: usize, h: usize) -> Board {
    Board::new(w, h).unwrap()
}

fn live_cells(b: &Board) -> Vec<(usize, usize)> {
    let mut out = Vec::new();
    for i in 0..b.height() {
        for j in 0..b.width() {
            if b.cell(i, j).unwrap() {
                out.push((i, j));
            }
        }
    }
    out
}

#[test]
fn new_rejects_small_dimensions() {
    assert_eq!(Board::new(1, 5).err(), Some(BoardError::InvalidSize));
    assert_eq!(Board::new(5, 0).err(), Some(BoardError::InvalidSize));
    assert!(Board::new(2, 2).is_ok());
}

#[test]
fn new_builds_all_dead_grid() {
    let b = board(4, 3);
    assert_eq!(b.width(), 4);
    assert_eq!(b.height(), 3);
    assert!(live_cells(&b).is_empty());
}

#[test]
fn set_cell_reports_out_of_bounds() {
    let mut b = board(3, 3);
    assert_eq!(b.set_cell(3, 0, true), Err(BoardError::OutOfBounds));
    assert_eq!(b.set_cell(0, 3, true), Err(BoardError::OutOfBounds));
    assert_eq!(b.set_cell(2, 2, true), Ok(()));
    assert_eq!(b.cell(2, 2), Some(true));
    assert_eq!(b.cell(3, 0), None);
}

#[test]
fn lines_render_glyphs_with_trailing_spaces() {
    let mut b = board(2, 2);
    b.set_cell(0, 0, true).unwrap();
    let lines = b.lines();
    assert_eq!(lines.len(), 2);
    assert_eq!(lines[0], "\u{25a0} \u{25a1} ");
    assert_eq!(lines[1], "\u{25a1} \u{25a1} ");
}

#[test]
fn dead_grid_is_stable_on_first_advance() {
    let mut b = board(4, 4);
    assert!(!b.next());
    assert_eq!(b.width(), 4);
    assert_eq!(b.height(), 4);
    assert!(live_cells(&b).is_empty());
}

#[test]
fn builder_thresholds_drive_rule_predicates() {
    let b = board(2, 2)
        .with_min_to_born(2)
        .with_max_to_born(4)
        .with_min_to_stay_alive(1)
        .with_max_to_stay_alive(5);
    assert!(!b.will_born(1));
    assert!(b.will_born(2));
    assert!(b.will_born(4));
    assert!(!b.will_born(5));
    assert!(!b.will_stay_alive(0));
    assert!(b.will_stay_alive(1));
    assert!(b.will_stay_alive(5));
    assert!(!b.will_stay_alive(6));
}

#[test]
fn inverted_range_never_fires() {
    let b = board(2, 2).with_min_to_born(5).with_max_to_born(3);
    for n in 0..9 {
        assert!(!b.will_born(n));
    }
}

#[test]
fn blinker_oscillates_with_period_two() {
    // A 3-cell horizontal row in the middle of a 7x7 grid.
    let mut b = board(7, 7);
    for j in 2..5 {
        b.set_cell(3, j, true).unwrap();
    }
    let horizontal = vec![(3, 2), (3, 3), (3, 4)];
    let vertical = vec![(2, 3), (3, 3), (4, 3)];
    assert_eq!(live_cells(&b), horizontal);

    assert!(b.next());
    assert_eq!(live_cells(&b), vertical);
    assert_eq!((b.width(), b.height()), (7, 7), "activity away from edges must not grow the grid");

    assert!(b.next());
    assert_eq!(live_cells(&b), horizontal);
    assert_eq!((b.width(), b.height()), (7, 7));
}

#[test]
fn glider_translates_diagonally_every_four_generations() {
    let mut b = board(10, 10);
    // Standard glider, top-left of its bounding box at (2, 2).
    let shape = [(0, 1), (1, 2), (2, 0), (2, 1), (2, 2)];
    for (di, dj) in shape {
        b.set_cell(2 + di, 2 + dj, true).unwrap();
    }
    for _ in 0..4 {
        assert!(b.next());
    }
    // Offset by one cell diagonally, same shape.
    let mut expected: Vec<(usize, usize)> = shape.iter().map(|&(di, dj)| (3 + di, 3 + dj)).collect();
    expected.sort();
    assert_eq!(live_cells(&b), expected);
    assert_eq!((b.width(), b.height()), (10, 10));
}

#[test]
fn growth_adds_dead_ring_next_to_live_edges() {
    // A vertical blinker against the left edge: after one advance the first
    // column holds live cells, so an unbounded board grows a column on the
    // left (and nothing else).
    let mut b = board(5, 5);
    for i in 1..4 {
        b.set_cell(i, 0, true).unwrap();
    }
    assert!(b.next());
    assert_eq!(b.width(), 6, "a live first column grows one dead column on the left");
    assert_eq!(b.height(), 5);
    // The pattern shifted right with the new dead column in front.
    assert_eq!(live_cells(&b), vec![(2, 1), (2, 2)]);
}

#[test]
fn growth_stops_exactly_at_width_bound() {
    let mut b = board(5, 5).with_max_width(5).with_max_height(5);
    for i in 1..4 {
        b.set_cell(i, 0, true).unwrap();
    }
    assert!(b.next());
    assert_eq!(b.width(), 5, "a width bound equal to the width suppresses column growth");
    assert_eq!(b.height(), 5);
    assert_eq!(live_cells(&b), vec![(2, 0), (2, 1)]);
}

#[test]
fn max_size_bounds_both_axes() {
    // A live top row steps to a block touching the top edge: an unbounded
    // board grows a row, a board at its bound does not.
    let mut bounded = board(4, 4).with_max_size(4);
    let mut unbounded = board(4, 4);
    for k in 0..4 {
        bounded.set_cell(0, k, true).unwrap();
        unbounded.set_cell(0, k, true).unwrap();
    }
    assert!(bounded.next());
    assert_eq!((bounded.width(), bounded.height()), (4, 4));
    assert!(unbounded.next());
    assert_eq!((unbounded.width(), unbounded.height()), (4, 5));
}

#[test]
fn growth_is_monotonic_over_many_generations() {
    let mut b = board(6, 6);
    // An R-pentomino, a long-lived active pattern.
    for (i, j) in [(2, 3), (2, 4), (3, 2), (3, 3), (4, 3)] {
        b.set_cell(i, j, true).unwrap();
    }
    let mut w = b.width();
    let mut h = b.height();
    for _ in 0..20 {
        if !b.next() {
            break;
        }
        assert!(b.width() >= w && b.height() >= h, "dimensions never decrease");
        w = b.width();
        h = b.height();
    }
}

#[test]
fn with_random_extremes_fill_or_clear() {
    let b = board(5, 4).with_random(0);
    assert_eq!((b.width(), b.height()), (5, 4));
    assert!(live_cells(&b).is_empty());

    let b = board(5, 4).with_random(100);
    assert_eq!(live_cells(&b).len(), 20);

    let b = board(5, 4).with_random(-7);
    assert!(live_cells(&b).is_empty());
}
