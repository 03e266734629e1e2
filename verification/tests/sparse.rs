use rust_game_of_life::cell_patterns::CellPattern;
use rust_game_of_life::universe::{Bounds, Universe};
use rust_game_of_life::utils::{Position, SizeInt};

fn cells(pairs: &[(i32, i32)]) -> Vec<Position> {
    pairs.iter().map(|&(x, y)| Position::new(x, y)).collect()
}

fn universe(pairs: &[(i32, i32)]) -> Universe {
    Universe::new(cells(pairs))
}

fn sorted(universe: &Universe) -> Vec<(i32, i32)> {
    let mut live: Vec<(i32, i32)> = universe.live_cells().iter().map(|p| (p.x, p.y)).collect();
    live.sort();
    live
}

fn conway() -> (Vec<u8>, Vec<u8>) {
    (vec![2, 3], vec![3])
}

#[test]
fn it_works() {
    let result = 2 + 2;
    assert_eq!(result, 4);
}

#[test]
fn position_new_keeps_its_coordinates() {
    let p = Position::new(3, -4);
    assert_eq!(p.x, 3);
    assert_eq!(p.y, -4);
    assert_eq!(p, Position { x: 3, y: -4 });
}

#[test]
fn size_new_keeps_width_and_height() {
    let s = SizeInt::new(7, -2);
    assert_eq!(s.width, 7);
    assert_eq!(s.height, -2);
}

#[test]
fn neighbors_come_row_by_row() {
    let around = Position::new(5, -3).neighbors();
    assert_eq!(
        around,
        cells(&[(4, -4), (5, -4), (6, -4), (4, -3), (6, -3), (4, -2), (5, -2), (6, -2)])
    );
}

#[test]
fn neighbors_leave_out_what_lies_past_the_last_coordinate() {
    let max = i32::MAX;
    let around = Position::new(max, max).neighbors();
    assert_eq!(around, cells(&[(max - 1, max - 1), (max, max - 1), (max - 1, max)]));
    let min = i32::MIN;
    let around = Position::new(min, 0).neighbors();
    assert_eq!(around, cells(&[(min, -1), (min + 1, -1), (min + 1, 0), (min, 1), (min + 1, 1)]));
}

#[test]
fn new_universe_holds_each_cell_once() {
    let u = universe(&[(1, 2), (-3, 4), (1, 2)]);
    assert_eq!(sorted(&u), vec![(-3, 4), (1, 2)]);
    assert!(u.is_alive(Position::new(1, 2)));
    assert!(u.is_alive(Position::new(-3, 4)));
    assert!(!u.is_alive(Position::new(2, 1)));
    assert!(!u.is_alive(Position::new(4, -3)));
}

#[test]
fn far_corners_are_told_apart() {
    let u = universe(&[(i32::MIN, i32::MAX), (i32::MAX, i32::MIN), (-1, 0)]);
    assert!(u.is_alive(Position::new(i32::MIN, i32::MAX)));
    assert!(u.is_alive(Position::new(i32::MAX, i32::MIN)));
    assert!(u.is_alive(Position::new(-1, 0)));
    assert!(!u.is_alive(Position::new(i32::MAX, i32::MAX)));
    assert!(!u.is_alive(Position::new(i32::MIN, i32::MIN)));
    assert!(!u.is_alive(Position::new(0, -1)));
    assert_eq!(sorted(&u), vec![(i32::MIN, i32::MAX), (-1, 0), (i32::MAX, i32::MIN)]);
}

#[test]
fn default_universe_is_empty() {
    let u = Universe::default();
    assert!(u.live_cells().is_empty());
}

#[test]
fn clone_holds_the_same_cells() {
    let u = universe(&[(0, 0), (5, 5), (-7, 2)]);
    let mut copy = u.clone();
    assert_eq!(sorted(&copy), sorted(&u));
    copy.toggle_cells_at(cells(&[(0, 0)]));
    assert!(u.is_alive(Position::new(0, 0)));
    assert!(!copy.is_alive(Position::new(0, 0)));
}

#[test]
fn live_neighbor_count_counts_the_eight_around() {
    let u = universe(&[(0, 0), (1, 0), (2, 0), (1, 1), (5, 5)]);
    assert_eq!(u.live_neighbor_count(Position::new(1, 0)), 3);
    assert_eq!(u.live_neighbor_count(Position::new(0, 0)), 2);
    assert_eq!(u.live_neighbor_count(Position::new(1, 1)), 3);
    assert_eq!(u.live_neighbor_count(Position::new(1, -1)), 3);
    assert_eq!(u.live_neighbor_count(Position::new(5, 5)), 0);
    assert_eq!(u.live_neighbor_count(Position::new(4, 4)), 1);
    assert_eq!(u.live_neighbor_count(Position::new(-2, 0)), 0);
}

#[test]
fn live_neighbor_count_reaches_eight() {
    let u = universe(&[(-1, -1), (0, -1), (1, -1), (-1, 0), (0, 0), (1, 0), (-1, 1), (0, 1), (1, 1)]);
    assert_eq!(u.live_neighbor_count(Position::new(0, 0)), 8);
    assert_eq!(u.live_neighbor_count(Position::new(1, 1)), 3);
}

#[test]
fn live_neighbor_count_stays_between_zero_and_eight() {
    let mut list = Vec::new();
    for x in -3..4 {
        for y in -3..4 {
            if (x * 7 + y * 3) % 4 != 0 {
                list.push((x, y));
            }
        }
    }
    let u = universe(&list);
    for x in -5..6 {
        for y in -5..6 {
            assert!(u.live_neighbor_count(Position::new(x, y)) <= 8);
        }
    }
    for &p in &[(i32::MAX, i32::MAX), (i32::MIN, i32::MIN), (i32::MAX, 0), (0, i32::MIN)] {
        assert!(u.live_neighbor_count(Position::new(p.0, p.1)) <= 8);
    }
}

#[test]
fn the_unbounded_universe_does_not_wrap() {
    let u = universe(&[(i32::MAX, 0), (i32::MIN, 0), (0, i32::MAX), (0, i32::MIN)]);
    assert_eq!(u.live_neighbor_count(Position::new(i32::MAX, 0)), 0);
    assert_eq!(u.live_neighbor_count(Position::new(i32::MIN, 0)), 0);
    assert_eq!(u.live_neighbor_count(Position::new(0, i32::MAX)), 0);
    assert_eq!(u.live_neighbor_count(Position::new(i32::MAX - 1, 1)), 1);
    assert_eq!(u.live_neighbor_count(Position::new(i32::MIN + 1, -1)), 1);
}

#[test]
fn toggle_flips_dead_and_alive() {
    let mut u = universe(&[(0, 0), (1, 1)]);
    u.toggle_cells_at(cells(&[(0, 0), (2, 2)]));
    assert_eq!(sorted(&u), vec![(1, 1), (2, 2)]);
}

#[test]
fn toggle_twice_restores_the_universe() {
    let mut u = universe(&[(0, 0), (1, 1), (-4, 9)]);
    let before = sorted(&u);
    u.toggle_cells_at(cells(&[(1, 1)]));
    assert_ne!(sorted(&u), before);
    u.toggle_cells_at(cells(&[(1, 1)]));
    assert_eq!(sorted(&u), before);
    let list = [(0, 0), (3, 3), (3, 3), (7, -7), (1, 1), (3, 3)];
    u.toggle_cells_at(cells(&list));
    assert_eq!(sorted(&u), vec![(-4, 9), (3, 3), (7, -7)]);
    u.toggle_cells_at(cells(&list));
    assert_eq!(sorted(&u), before);
}

#[test]
fn toggle_of_a_cell_named_twice_changes_nothing() {
    let mut u = universe(&[(0, 0)]);
    u.toggle_cells_at(cells(&[(4, 4), (4, 4), (0, 0), (0, 0)]));
    assert_eq!(sorted(&u), vec![(0, 0)]);
}

#[test]
fn tick_is_the_same_for_the_same_cells_and_rules() {
    let list = [(0, 0), (1, 0), (2, 0), (2, 1), (1, 2), (10, 10), (10, 11), (11, 10)];
    let mut backwards = list;
    backwards.reverse();
    let mut a = universe(&list);
    let mut b = universe(&backwards);
    let mut c = Universe::default();
    c.toggle_cells_at(cells(&backwards));
    for _ in 0..12 {
        a.tick(&vec![2, 3], &vec![3]);
        b.tick(&vec![3, 2, 3], &vec![3, 3]);
        c.tick(&vec![3, 2], &vec![3]);
        assert_eq!(sorted(&a), sorted(&b));
        assert_eq!(sorted(&a), sorted(&c));
    }
}

#[test]
fn empty_universe_stays_empty() {
    let mut u = Universe::default();
    for _ in 0..10 {
        u.tick(&vec![2, 3], &vec![3]);
        assert!(u.live_cells().is_empty());
    }
    let every_count: Vec<u8> = (0..=8).collect();
    for _ in 0..10 {
        u.tick(&every_count, &every_count);
        assert!(u.live_cells().is_empty());
    }
}

#[test]
fn block_is_a_still_life() {
    let (allowed, birth) = conway();
    let block = [(0, 0), (0, 1), (1, 0), (1, 1)];
    let mut u = universe(&block);
    for p in &block {
        assert_eq!(u.live_neighbor_count(Position::new(p.0, p.1)), 3);
    }
    for x in -1..3 {
        for y in -1..3 {
            let p = Position::new(x, y);
            if !u.is_alive(p) {
                assert!(u.live_neighbor_count(p) <= 2);
            }
        }
    }
    for _ in 0..5 {
        u.tick(&allowed, &birth);
        assert_eq!(sorted(&u), vec![(0, 0), (0, 1), (1, 0), (1, 1)]);
    }
}

#[test]
fn blinker_turns_and_returns() {
    let (allowed, birth) = conway();
    let mut u = universe(&[(0, 0), (1, 0), (2, 0)]);
    u.tick(&allowed, &birth);
    assert_eq!(sorted(&u), vec![(1, -1), (1, 0), (1, 1)]);
    u.tick(&allowed, &birth);
    assert_eq!(sorted(&u), vec![(0, 0), (1, 0), (2, 0)]);
    u.tick(&allowed, &birth);
    assert_eq!(sorted(&u), vec![(1, -1), (1, 0), (1, 1)]);
}

#[test]
fn glider_moves_one_cell_up_and_right_in_four_ticks() {
    let (allowed, birth) = conway();
    let mut u = Universe::default();
    u.apply_pattern(&CellPattern::glider(), Position::new(0, 0));
    assert_eq!(sorted(&u), vec![(0, 0), (1, 1), (1, 2), (2, 0), (2, 1)]);
    u.tick(&allowed, &birth);
    assert_eq!(sorted(&u), vec![(0, 1), (1, 2), (2, 0), (2, 1), (2, 2)]);
    u.tick(&allowed, &birth);
    assert_eq!(sorted(&u), vec![(1, 0), (1, 2), (2, 1), (2, 2), (3, 1)]);
    u.tick(&allowed, &birth);
    assert_eq!(sorted(&u), vec![(1, 2), (2, 0), (2, 2), (3, 1), (3, 2)]);
    u.tick(&allowed, &birth);
    assert_eq!(sorted(&u), vec![(1, 1), (2, 2), (2, 3), (3, 1), (3, 2)]);
    let mut moved = Universe::default();
    moved.apply_pattern(&CellPattern::glider(), Position::new(1, 1));
    assert_eq!(sorted(&u), sorted(&moved));
}

#[test]
fn a_lonely_cell_dies() {
    let (allowed, birth) = conway();
    let mut u = universe(&[(3, 3)]);
    u.tick(&allowed, &birth);
    assert!(u.live_cells().is_empty());
}

#[test]
fn a_crowded_cell_dies() {
    let (allowed, birth) = conway();
    let mut u = universe(&[(0, 0), (1, 0), (-1, 0), (0, 1), (0, -1)]);
    assert_eq!(u.live_neighbor_count(Position::new(0, 0)), 4);
    u.tick(&allowed, &birth);
    assert!(!u.is_alive(Position::new(0, 0)));
    assert_eq!(
        sorted(&u),
        vec![(-1, -1), (-1, 0), (-1, 1), (0, -1), (0, 1), (1, -1), (1, 0), (1, 1)]
    );
}

#[test]
fn tick_follows_the_rules_it_is_given() {
    let mut u = universe(&[(0, 0)]);
    u.tick(&vec![0], &vec![1]);
    assert_eq!(
        sorted(&u),
        vec![(-1, -1), (-1, 0), (-1, 1), (0, -1), (0, 0), (0, 1), (1, -1), (1, 0), (1, 1)]
    );
    let mut u = universe(&[(0, 0), (1, 0)]);
    u.tick(&vec![], &vec![]);
    assert!(u.live_cells().is_empty());
}

#[test]
fn no_cell_is_born_far_from_every_live_cell() {
    let mut u = universe(&[(0, 0)]);
    u.tick(&vec![0], &vec![0]);
    assert_eq!(sorted(&u), vec![(0, 0)]);
}

#[test]
fn tick_at_the_last_coordinate_neither_wraps_nor_fails() {
    let max = i32::MAX;
    let (allowed, birth) = conway();
    let mut u = universe(&[(max, max), (max, max - 1), (max, max - 2)]);
    u.tick(&allowed, &birth);
    assert_eq!(sorted(&u), vec![(max - 1, max - 1), (max, max - 1)]);
}

#[test]
fn bounds_of_an_empty_universe_are_zero() {
    let u = Universe::default();
    assert_eq!(u.bounds(), Bounds { top: 0, right: 0, bottom: 0, left: 0 });
}

#[test]
fn bounds_reach_the_outermost_cells() {
    let u = universe(&[(7, -2)]);
    assert_eq!(u.bounds(), Bounds { top: -2, right: 7, bottom: -2, left: 7 });
    let u = universe(&[(0, 0), (-3, 5), (4, -6), (2, 2)]);
    assert_eq!(u.bounds(), Bounds { top: 5, right: 4, bottom: -6, left: -3 });
    let u = universe(&[(i32::MIN, i32::MIN), (i32::MAX, i32::MAX)]);
    assert_eq!(
        u.bounds(),
        Bounds { top: i32::MAX, right: i32::MAX, bottom: i32::MIN, left: i32::MIN }
    );
}

#[test]
fn padding_moves_every_edge_outwards() {
    let b = Bounds { top: 5, right: 4, bottom: -6, left: -3 };
    assert_eq!(b.with_padding(5), Bounds { top: 10, right: 9, bottom: -11, left: -8 });
    assert_eq!(b.with_padding(0), b);
    assert_eq!(b.with_padding(-1), Bounds { top: 4, right: 3, bottom: -5, left: -2 });
}

#[test]
fn size_is_the_distance_between_the_edges() {
    let b = Bounds { top: 5, right: 4, bottom: -6, left: -3 };
    assert_eq!(b.size(), SizeInt::new(7, 11));
    let inverted = Bounds { top: -6, right: -3, bottom: 5, left: 4 };
    assert_eq!(inverted.size(), SizeInt::new(7, 11));
    let point = Bounds { top: 0, right: 0, bottom: 0, left: 0 };
    assert_eq!(point.size(), SizeInt::new(0, 0));
}

#[test]
fn pattern_is_laid_down_at_the_anchor() {
    let mut u = universe(&[(10, 10), (-4, 6)]);
    u.apply_pattern(&CellPattern::glider(), Position::new(-5, 4));
    assert_eq!(
        sorted(&u),
        vec![(-5, 4), (-4, 5), (-4, 6), (-3, 4), (-3, 5), (10, 10)]
    );
}

#[test]
fn pattern_cells_past_the_last_coordinate_are_dropped() {
    let mut u = Universe::default();
    u.apply_pattern(&CellPattern::glider(), Position::new(i32::MAX - 1, i32::MAX - 1));
    assert_eq!(
        sorted(&u),
        vec![(i32::MAX - 1, i32::MAX - 1), (i32::MAX, i32::MAX)]
    );
}

#[test]
fn glider_has_its_five_cells() {
    let glider = CellPattern::glider();
    assert_eq!(glider.cells, cells(&[(0, 0), (1, 1), (1, 2), (2, 0), (2, 1)]));
    let own = CellPattern::new(cells(&[(9, 9), (0, -1)]));
    assert_eq!(own.cells, cells(&[(9, 9), (0, -1)]));
}

#[test]
fn render_draws_the_rows_from_the_top() {
    let mut u = Universe::default();
    assert_eq!(u.render(), "");
    u.apply_pattern(&CellPattern::glider(), Position::new(0, 0));
    assert_eq!(
        u.render(),
        "\n\u{25FB}\u{25FC}\u{25FB}\n\u{25FB}\u{25FC}\u{25FC}\n\u{25FC}\u{25FB}\u{25FC}"
    );
    let u = universe(&[(-2, 7)]);
    assert_eq!(u.render(), "\n\u{25FC}");
}
