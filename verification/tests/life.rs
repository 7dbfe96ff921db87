use game_of_life::cell::Cell;
use game_of_life::life::Life;
use game_of_life::life_basic::Basic;
use game_of_life::monoid::Monoid;
use game_of_life::next_value::NextValue;
use game_of_life::random_init::RandomInit;
use game_of_life::render::{Render, Rgba8};

fn board_of(rows: i32, cols: i32, live: &[(i32, i32)]) -> Life<Basic> {
    let n = (rows * cols) as usize;
    let mut board: Vec<Cell<Basic>> = Vec::with_capacity(n);
    for i in 0..n {
        let x = (i as i32) % cols;
        let y = (i as i32) / cols;
        let alive = live.iter().any(|&(lx, ly)| lx == x && ly == y);
        board.push(Cell {
            value: if alive { 1 } else { 0 },
        });
    }
    let next_board = vec![Cell { value: 0 }; n];
    Life {
        board,
        next_board,
        rows,
        cols,
    }
}

fn values(l: &Life<Basic>) -> Vec<i32> {
    l.board.iter().map(|c| c.value).collect()
}

/// A reference tick that materialises the whole next board from the
/// pre-tick board before anything is replaced.
fn reference_tick(l: &Life<Basic>) -> Vec<i32> {
    let mut out = Vec::new();
    for y in 0..l.rows {
        for x in 0..l.cols {
            let mut count: i32 = 0;
            for dx in -1..=1 {
                for dy in -1..=1 {
                    if dx == 0 && dy == 0 {
                        continue;
                    }
                    let nx = x + dx;
                    let ny = y + dy;
                    if nx < 0 || ny < 0 || nx >= l.cols || ny >= l.rows {
                        continue;
                    }
                    count += l.board[(nx + ny * l.cols) as usize].value;
                }
            }
            let me = l.board[(x + y * l.cols) as usize].value;
            let next = if (me == 1 && (count == 2 || count == 3)) || (me == 0 && count == 3) {
                1
            } else {
                0
            };
            out.push(next);
        }
    }
    out
}

#[test]
fn next_value_table() {
    assert_eq!(1i32.next_value(0), 0);
    assert_eq!(1i32.next_value(1), 0);
    assert_eq!(1i32.next_value(2), 1);
    assert_eq!(1i32.next_value(3), 1);
    assert_eq!(1i32.next_value(4), 0);
    assert_eq!(0i32.next_value(2), 0);
    assert_eq!(0i32.next_value(3), 1);
    assert_eq!(0i32.next_value(4), 0);
}

#[test]
fn append_folds_to_neighbor_count() {
    // all 8 neighbors alive: the accumulator reaches exactly 8
    let mut acc: Basic = <Basic as Monoid<Basic>>::empty();
    for _ in 0..8 {
        acc = acc.append(1);
    }
    assert_eq!(acc, 8);
    // a corner cell has 3 in-bounds neighbors: all alive gives exactly 3
    let mut corner: Basic = <Basic as Monoid<Basic>>::empty();
    for _ in 0..3 {
        corner = corner.append(1);
    }
    assert_eq!(corner, 3);
}

#[test]
fn full_neighborhood_dies_corners_survive() {
    // 3x3 board with every cell alive: the center has 8 live neighbors and
    // dies, each corner has 3 and survives, each edge cell has 5 and dies.
    let mut l = board_of(
        3,
        3,
        &[
            (0, 0),
            (1, 0),
            (2, 0),
            (0, 1),
            (1, 1),
            (2, 1),
            (0, 2),
            (1, 2),
            (2, 2),
        ],
    );
    l.advance();
    assert_eq!(values(&l), vec![1, 0, 1, 0, 0, 0, 1, 0, 1]);
}

#[test]
fn block_is_a_still_life() {
    let mut l = board_of(4, 4, &[(1, 1), (2, 1), (1, 2), (2, 2)]);
    let before = values(&l);
    l.advance();
    assert_eq!(values(&l), before);
    l.advance();
    assert_eq!(values(&l), before);
}

#[test]
fn blinker_has_period_two() {
    let horizontal = &[(1, 2), (2, 2), (3, 2)];
    let vertical = &[(2, 1), (2, 2), (2, 3)];
    let mut l = board_of(5, 5, horizontal);
    let start = values(&l);
    l.advance();
    assert_eq!(values(&l), values(&board_of(5, 5, vertical)));
    l.advance();
    assert_eq!(values(&l), start);
}

#[test]
fn no_wraparound_at_the_side_edges() {
    // a full live column at the right edge must not reach across to the
    // left edge: no cell in column 0 is born
    let mut l = board_of(3, 3, &[(2, 0), (2, 1), (2, 2)]);
    l.advance();
    assert_eq!(l.board[(0 + 1 * 3) as usize].value, 0);
    assert_eq!(l.board[(1 + 1 * 3) as usize].value, 1);
    // and the mirror image: a live column at the left edge
    let mut r = board_of(3, 3, &[(0, 0), (0, 1), (0, 2)]);
    r.advance();
    assert_eq!(r.board[(2 + 1 * 3) as usize].value, 0);
    assert_eq!(r.board[(1 + 1 * 3) as usize].value, 1);
}

#[test]
fn advance_swaps_the_boards_without_copying_cells() {
    let mut l = board_of(4, 4, &[(1, 1), (2, 1), (1, 2), (2, 2)]);
    let before = values(&l);
    l.advance();
    // the pre-tick board is now the scratch board, bit for bit
    let scratch: Vec<i32> = l.next_board.iter().map(|c| c.value).collect();
    assert_eq!(scratch, before);
}

#[test]
fn advance_matches_a_fully_materialised_reference() {
    // an r-pentomino, the busiest small pattern: four ticks against a
    // reference that computes the whole next board before swapping
    let mut l = board_of(6, 6, &[(2, 1), (3, 1), (1, 2), (2, 2), (2, 3)]);
    for _ in 0..4 {
        let expected = reference_tick(&l);
        l.advance();
        assert_eq!(values(&l), expected);
    }
}

#[test]
fn new_builds_full_random_boards() {
    let l = Life::<Basic>::new(3, 4).unwrap();
    assert_eq!(l.rows, 3);
    assert_eq!(l.cols, 4);
    assert_eq!(l.board.len(), 12);
    assert_eq!(l.next_board.len(), 12);
    for c in &l.board {
        assert!(c.value == 0 || c.value == 1);
    }
}

#[test]
fn new_rejects_bad_extents() {
    assert!(Life::<Basic>::new(0, 3).is_none());
    assert!(Life::<Basic>::new(3, 0).is_none());
    assert!(Life::<Basic>::new(-2, 5).is_none());
    assert!(Life::<Basic>::new(65536, 65536).is_none());
}

#[test]
fn random_values_are_zero_or_one() {
    for _ in 0..200 {
        let v = <Basic as RandomInit<Basic>>::random();
        assert!(v == 0 || v == 1);
        let c = <Cell<Basic> as RandomInit<Cell<Basic>>>::random();
        assert!(c.value == 0 || c.value == 1);
    }
}

#[test]
fn colors_are_white_for_live_and_black_for_dead() {
    let white = Rgba8 {
        red: 255,
        green: 255,
        blue: 255,
        alpha: 255,
    };
    let black = Rgba8 {
        red: 0,
        green: 0,
        blue: 0,
        alpha: 255,
    };
    assert_eq!(1i32.color(), white);
    assert_eq!(0i32.color(), black);
    assert_eq!(Cell { value: 1i32 }.color(), white);
    assert_eq!(Cell { value: 0i32 }.color(), black);
}

#[test]
fn cell_operations_forward_to_the_value() {
    let a = Cell { value: 1i32 };
    let b = Cell { value: 1i32 };
    assert_eq!(a.append(b).value, 2);
    let z = <Cell<Basic> as Monoid<Cell<Basic>>>::empty();
    assert_eq!(z.value, 0);
    assert_eq!(z.append(a).value, 1);
}
