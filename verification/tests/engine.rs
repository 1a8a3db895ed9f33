use life_grid::cell::{comes_before, Cell};
use life_grid::matrix::Matrix;
use life_grid::order::position;
use life_grid::rule::{aim, favours, lives_on};
use life_grid::tally::Tally;

fn grid(rows: usize, cols: usize, live: &[Cell]) -> Matrix {
    let mut m = Matrix::new((rows, cols, 1));
    for c in live {
        m.change_state(c.0, c.1);
    }
    m
}

fn live(m: &Matrix) -> Vec<Cell> {
    m.live_cells().clone()
}

fn count_at(t: &Tally, c: Cell) -> u8 {
    match t.cells.iter().position(|x| *x == c) {
        Some(i) => t.counts[i],
        None => 0,
    }
}

#[test]
fn new_grid_is_empty() {
    let m = Matrix::new((7, 9, 12));
    assert_eq!(m.size(), (7, 9));
    assert_eq!(m.rows(), 7);
    assert_eq!(m.cols(), 9);
    assert_eq!(m.scale(), 12);
    assert!(m.live_cells().is_empty());
}

#[test]
fn toggle_inserts_then_removes() {
    let mut m = Matrix::new((10, 10, 1));
    m.change_state(3, 4);
    assert_eq!(live(&m), vec![(3, 4)]);
    m.change_state(3, 4);
    assert_eq!(live(&m), Vec::<Cell>::new());
}

#[test]
fn toggle_twice_restores_the_live_set() {
    let start = [(0, 0), (2, 7), (9, 9), (4, 4)];
    let mut m = grid(10, 10, &start);
    let before = live(&m);
    for c in [(2, 7), (5, 5), (0, 9), (9, 0)] {
        m.change_state(c.0, c.1);
        assert_ne!(live(&m), before);
        m.change_state(c.0, c.1);
        assert_eq!(live(&m), before);
    }
}

#[test]
fn out_of_range_toggle_is_passed_over() {
    let mut m = Matrix::new((10, 10, 1));
    m.change_state(10, 0);
    assert!(m.live_cells().is_empty());
    m.change_state(0, 10);
    m.change_state(usize::MAX, usize::MAX);
    assert!(m.live_cells().is_empty());
    m.change_state(9, 9);
    m.change_state(10, 9);
    assert_eq!(live(&m), vec![(9, 9)]);
}

#[test]
fn toggle_on_a_grid_without_cells() {
    let mut m = Matrix::new((0, 5, 1));
    m.change_state(0, 0);
    assert!(m.live_cells().is_empty());
    let mut m = Matrix::new((5, 0, 1));
    m.change_state(0, 0);
    assert!(m.live_cells().is_empty());
}

#[test]
fn live_cells_come_in_row_major_order_without_repeats() {
    let m = grid(10, 10, &[(9, 0), (0, 9), (3, 3), (0, 1), (3, 2), (3, 3), (3, 3)]);
    assert_eq!(live(&m), vec![(0, 1), (0, 9), (3, 2), (3, 3), (9, 0)]);
}

#[test]
fn every_live_cell_is_inside_the_grid() {
    let mut m = Matrix::new((4, 6, 1));
    for r in 0..8 {
        for c in 0..8 {
            m.change_state(r, c);
        }
    }
    assert_eq!(m.live_cells().len(), 24);
    for c in m.live_cells() {
        assert!(c.0 < 4 && c.1 < 6);
    }
}

#[test]
fn blinker_without_favourable_draws() {
    let mut m = grid(10, 10, &[(5, 4), (5, 5), (5, 6)]);
    m.advance_with(&vec![], &vec![]);
    assert_eq!(live(&m), vec![(4, 5), (6, 5)]);
    let mut m = grid(10, 10, &[(5, 4), (5, 5), (5, 6)]);
    m.advance_with(&vec![3, 9, 14, 255, 7], &vec![]);
    assert_eq!(live(&m), vec![(4, 5), (6, 5)]);
}

#[test]
fn blinker_flips_where_the_centre_draws_well() {
    let mut m = grid(10, 10, &[(5, 4), (5, 5), (5, 6)]);
    assert_eq!(m.pending(), vec![(4, 4), (4, 6), (5, 5), (6, 4), (6, 6)]);
    m.advance_with(&vec![9, 9, 0, 9, 9], &vec![]);
    assert_eq!(live(&m), vec![(4, 5), (5, 5), (6, 5)]);
}

#[test]
fn blinker_with_every_draw_favourable() {
    let mut m = grid(10, 10, &[(5, 4), (5, 5), (5, 6)]);
    m.advance_with(&vec![0, 1, 2, 10, 252], &vec![]);
    assert_eq!(live(&m), vec![(4, 4), (4, 5), (4, 6), (5, 5), (6, 4), (6, 5), (6, 6)]);
}

#[test]
fn a_pending_cell_without_a_draw_stays_dead() {
    let mut m = grid(10, 10, &[(5, 4), (5, 5), (5, 6)]);
    m.advance_with(&vec![0, 0], &vec![]);
    assert_eq!(live(&m), vec![(4, 4), (4, 5), (4, 6), (6, 5)]);
}

#[test]
fn spare_draws_are_not_read() {
    let mut a = grid(10, 10, &[(5, 4), (5, 5), (5, 6)]);
    let mut b = grid(10, 10, &[(5, 4), (5, 5), (5, 6)]);
    a.advance_with(&vec![9, 0, 9, 0, 9], &vec![]);
    b.advance_with(&vec![9, 0, 9, 0, 9, 0, 0, 0], &vec![]);
    assert_eq!(live(&a), vec![(4, 5), (4, 6), (6, 4), (6, 5)]);
    assert_eq!(live(&a), live(&b));
}

#[test]
fn block_persists() {
    let block = [(2, 2), (2, 3), (3, 2), (3, 3)];
    let mut m = grid(10, 10, &block);
    m.advance_with(&vec![], &vec![]);
    assert_eq!(live(&m), block.to_vec());
    m.advance_with(&vec![], &vec![]);
    assert_eq!(live(&m), block.to_vec());
}

#[test]
fn lone_cell_dies() {
    let mut m = grid(10, 10, &[(0, 0)]);
    m.advance_with(&vec![], &vec![]);
    assert!(m.live_cells().is_empty());
}

#[test]
fn the_prior_state_of_a_cell_does_not_count() {
    // (1, 1) is dead and has three live neighbours; (0, 0) is live with one.
    let mut m = grid(3, 3, &[(0, 0), (0, 1), (1, 0), (2, 2)]);
    m.advance_with(&vec![], &vec![]);
    // (0,0): neighbours (0,1), (1,0) -> two, no draw: dead.
    // (1,1): neighbours (0,0), (0,1), (1,0), (2,2) -> four: dead.
    // (0,1): neighbours (0,0), (1,0) -> two: dead.  (1,0): two: dead.
    // (1,2): neighbours (0,1), (2,2) -> two.  (2,1): neighbours (1,0), (2,2) -> two.
    assert!(m.live_cells().is_empty());
    let mut m = grid(3, 3, &[(0, 0), (0, 1), (1, 0)]);
    m.advance_with(&vec![], &vec![]);
    assert_eq!(live(&m), vec![(1, 1)]);
}

#[test]
fn same_input_same_generation() {
    let start = [(1, 1), (1, 2), (2, 1), (4, 4), (4, 5), (5, 5), (7, 0)];
    let draws: Vec<u8> = vec![0, 7, 11, 3, 252, 9, 1, 30, 5, 2, 2, 2, 8, 0, 1, 9, 9, 0];
    let picks: Vec<Cell> = vec![(17, 4), (3, 3), (usize::MAX, usize::MAX), (6, 1)];
    let mut a = grid(8, 8, &start);
    let mut b = grid(8, 8, &[(7, 0), (5, 5), (4, 5), (4, 4), (2, 1), (1, 2), (1, 1)]);
    for _ in 0..5 {
        a.advance_with(&draws, &picks);
        b.advance_with(&draws, &picks);
        assert_eq!(live(&a), live(&b));
    }
}

#[test]
fn perturbation_toggles_the_cells_picked() {
    let mut m = Matrix::new((10, 10, 1));
    m.advance_with(&vec![], &vec![(12, 7), (3, 4), (25, 2), (12, 7), (0, 0)]);
    assert_eq!(live(&m), vec![(0, 0), (3, 1), (5, 2)]);
}

#[test]
fn perturbation_stays_in_the_three_left_columns() {
    let picks: Vec<Cell> = vec![(1, 3), (22, 40), (313, 5), (4, 99), (usize::MAX, usize::MAX - 1)];
    let mut m = Matrix::new((10, 10, 1));
    for _ in 0..20 {
        let before = live(&m);
        m.advance_with(&vec![], &picks);
        for c in m.live_cells() {
            if c.1 >= 3 {
                assert!(before.iter().any(|b| {
                    let dr = if b.0 > c.0 { b.0 - c.0 } else { c.0 - b.0 };
                    let dc = if b.1 > c.1 { b.1 - c.1 } else { c.1 - b.1 };
                    dr <= 1 && dc <= 1
                }));
            }
        }
    }
    let mut m = Matrix::new((10, 10, 1));
    m.advance_with(&vec![], &picks);
    for c in m.live_cells() {
        assert!(c.1 < 3);
    }
    assert_eq!(m.live_cells().len(), 5);
}

#[test]
fn perturbation_on_a_narrow_grid() {
    let mut m = Matrix::new((5, 2, 1));
    m.advance_with(&vec![], &vec![(1, 2), (2, 5), (3, 1), (4, 0)]);
    assert_eq!(live(&m), vec![(3, 1), (4, 0)]);
}

#[test]
fn perturbation_on_a_grid_without_rows() {
    let mut m = Matrix::new((0, 10, 1));
    m.advance_with(&vec![0, 0], &vec![(1, 2), (2, 5)]);
    assert!(m.live_cells().is_empty());
    m.update();
    assert!(m.live_cells().is_empty());
}

#[test]
fn counts_on_a_full_grid() {
    let mut cells = Vec::new();
    for r in 0..3 {
        for c in 0..3 {
            cells.push((r, c));
        }
    }
    let m = grid(3, 3, &cells);
    let t = m.neighbour_counts();
    assert_eq!(t.cells, cells);
    assert_eq!(t.counts, vec![3, 5, 3, 5, 8, 5, 3, 5, 3]);
}

#[test]
fn counts_do_not_wrap_around() {
    let m = grid(4, 4, &[(0, 0), (3, 3)]);
    let t = m.neighbour_counts();
    assert_eq!(t.cells, vec![(0, 1), (1, 0), (1, 1), (2, 2), (2, 3), (3, 2)]);
    assert_eq!(t.counts, vec![1, 1, 1, 1, 1, 1]);
    assert_eq!(count_at(&t, (0, 3)), 0);
    assert_eq!(count_at(&t, (3, 0)), 0);
    assert_eq!(count_at(&t, (0, 0)), 0);
}

#[test]
fn counts_at_corner_and_edge() {
    let m = grid(5, 5, &[(0, 1), (1, 0), (1, 1), (0, 3), (1, 2), (1, 3), (1, 4), (0, 4)]);
    let t = m.neighbour_counts();
    assert_eq!(count_at(&t, (0, 0)), 3);
    assert_eq!(count_at(&t, (0, 2)), 5);
    assert_eq!(count_at(&t, (4, 4)), 0);
    for n in &t.counts {
        assert!(1 <= *n && *n <= 8);
    }
}

#[test]
fn pending_cells_have_two_live_neighbours() {
    let m = grid(10, 10, &[(2, 2), (2, 3), (3, 2), (3, 3)]);
    assert_eq!(
        m.pending(),
        vec![(1, 2), (1, 3), (2, 1), (2, 4), (3, 1), (3, 4), (4, 2), (4, 3)]
    );
    assert!(Matrix::new((10, 10, 1)).pending().is_empty());
}

#[test]
fn update_keeps_the_rule_right_of_the_perturbation() {
    for _ in 0..50 {
        let mut m = grid(10, 10, &[(5, 5), (5, 6), (5, 7)]);
        m.update();
        assert_eq!(m.size(), (10, 10));
        let now = live(&m);
        assert!(now.contains(&(4, 6)));
        assert!(now.contains(&(6, 6)));
        let may = [(4, 5), (4, 7), (5, 6), (6, 5), (6, 7)];
        for c in &now {
            assert!(c.0 < 10 && c.1 < 10);
            if c.1 >= 3 {
                assert!(*c == (4, 6) || *c == (6, 6) || may.contains(c));
            }
        }
        for w in now.windows(2) {
            assert!(comes_before(w[0], w[1]));
        }
    }
}

#[test]
fn update_on_an_empty_grid_seeds_the_left_edge_only() {
    let mut seen = false;
    for _ in 0..50 {
        let mut m = Matrix::new((10, 10, 1));
        m.update();
        for c in m.live_cells() {
            assert!(c.0 < 10 && c.1 < 3);
            seen = true;
        }
    }
    assert!(seen);
}

#[test]
fn favourable_draws_are_three_residues_in_ten() {
    for d in [0u8, 1, 2, 10, 11, 12, 250, 251, 252] {
        assert!(favours(d));
    }
    for d in [3u8, 4, 5, 6, 7, 8, 9, 13, 19, 253, 254, 255] {
        assert!(!favours(d));
    }
    let n = (0..=255u8).filter(|d| favours(*d)).count();
    assert_eq!(n, 78);
}

#[test]
fn rule_for_one_cell() {
    for d in [None, Some(0u8), Some(9u8)] {
        assert!(lives_on(3, d));
        for n in [0u8, 1, 4, 5, 6, 7, 8] {
            assert!(!lives_on(n, d));
        }
    }
    assert!(lives_on(2, Some(2)));
    assert!(lives_on(2, Some(20)));
    assert!(!lives_on(2, Some(3)));
    assert!(!lives_on(2, None));
}

#[test]
fn aim_reduces_both_draws() {
    assert_eq!(aim(10, (12, 7)), (2, 1));
    assert_eq!(aim(10, (9, 2)), (9, 2));
    assert_eq!(aim(1, (usize::MAX, 3)), (0, 0));
    assert_eq!(aim(7, (usize::MAX, usize::MAX)), (usize::MAX % 7, usize::MAX % 3));
}

#[test]
fn row_major_order_of_cells() {
    assert!(comes_before((0, 9), (1, 0)));
    assert!(comes_before((1, 0), (1, 1)));
    assert!(!comes_before((1, 1), (1, 1)));
    assert!(!comes_before((1, 0), (0, 9)));
    assert!(!comes_before((2, 3), (2, 2)));
}

#[test]
fn position_is_the_place_in_row_major_order() {
    let cells: Vec<Cell> = vec![(0, 1), (0, 9), (3, 2), (3, 3), (9, 0)];
    assert_eq!(position(&cells, (0, 0)), 0);
    assert_eq!(position(&cells, (0, 1)), 0);
    assert_eq!(position(&cells, (0, 2)), 1);
    assert_eq!(position(&cells, (3, 3)), 3);
    assert_eq!(position(&cells, (3, 4)), 4);
    assert_eq!(position(&cells, (9, 0)), 4);
    assert_eq!(position(&cells, (9, 1)), 5);
    assert_eq!(position(&Vec::new(), (4, 4)), 0);
}

#[test]
fn tally_counts_each_bump() {
    let mut t = Tally::new();
    assert!(t.cells.is_empty());
    t.bump((2, 2));
    t.bump((1, 5));
    t.bump((2, 2));
    t.bump((0, 0));
    t.bump((2, 2));
    assert_eq!(t.cells, vec![(0, 0), (1, 5), (2, 2)]);
    assert_eq!(t.counts, vec![1, 1, 3]);
    t.bump((1, 5));
    assert_eq!(t.pending(), vec![(1, 5)]);
}

#[test]
fn tally_bumps_the_neighbours_inside_the_grid() {
    let mut t = Tally::new();
    t.bump_around(3, 3, (0, 0));
    assert_eq!(t.cells, vec![(0, 1), (1, 0), (1, 1)]);
    assert_eq!(t.counts, vec![1, 1, 1]);
    t.bump_around(3, 3, (1, 1));
    assert_eq!(
        t.cells,
        vec![(0, 0), (0, 1), (0, 2), (1, 0), (1, 1), (1, 2), (2, 0), (2, 1), (2, 2)]
    );
    assert_eq!(t.counts, vec![1, 2, 1, 2, 1, 1, 1, 1, 1]);
    let mut t = Tally::new();
    t.bump_around(1, 1, (0, 0));
    assert!(t.cells.is_empty());
}
