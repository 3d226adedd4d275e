use sand::dot::Dot;
use sand::grid::Grid;

const STENCIL: [(i8, i8); 6] = [(0, 1), (1, 1), (1, 0), (0, -1), (-1, -1), (-1, 0)];

fn sand() -> Dot {
    Dot::Sand { temp: 0 }
}

fn water(salinity: u16) -> Dot {
    Dot::Water { temp: 0, salinity }
}

fn empty() -> Dot {
    Dot::Empty { temp: 0 }
}

#[test]
fn new_grid_is_blank() {
    let grid = Grid::new(4, 3);
    assert_eq!(grid.width(), 4);
    assert_eq!(grid.height(), 3);
    for y in 0..3 {
        for x in 0..4 {
            assert_eq!(grid.get((x, y)), Dot::Empty { temp: 0 });
        }
    }
}

#[test]
fn grids_without_cells_keep_their_size() {
    let flat = Grid::new(5, 0);
    assert_eq!((flat.width(), flat.height()), (5, 0));
    let thin = Grid::new(0, 7);
    assert_eq!((thin.width(), thin.height()), (0, 7));
    let none = Grid::new(0, 0);
    assert_eq!((none.width(), none.height()), (0, 0));
    assert_eq!(flat.lookup((0, 0)), None);
    assert_eq!(thin.lookup((0, 0)), None);
}

#[test]
fn set_changes_one_cell() {
    let mut grid = Grid::new(3, 2);
    grid.set((2, 1), sand());
    for y in 0..2 {
        for x in 0..3 {
            let want = if (x, y) == (2, 1) { sand() } else { empty() };
            assert_eq!(grid.get((x, y)), want);
        }
    }
    grid.set((2, 1), Dot::Iron { temp: 8 });
    assert_eq!(grid.get((2, 1)), Dot::Iron { temp: 8 });
}

#[test]
fn cells_are_addressed_by_column_then_row() {
    let mut grid = Grid::new(3, 2);
    grid.set((2, 0), sand());
    grid.set((0, 1), water(5));
    let mut frame = vec![0u8; 3 * 2 * 4];
    grid.draw(&mut frame);
    assert_eq!(&frame[8..12], &sand().color());
    assert_eq!(&frame[12..16], &water(5).color());
}

#[test]
fn lookup_is_none_outside() {
    let mut grid = Grid::new(2, 2);
    grid.set((1, 1), sand());
    assert_eq!(grid.lookup((1, 1)), Some(sand()));
    assert_eq!(grid.lookup((0, 0)), Some(empty()));
    assert_eq!(grid.lookup((2, 0)), None);
    assert_eq!(grid.lookup((0, 2)), None);
    assert_eq!(grid.lookup((usize::MAX, usize::MAX)), None);
}

#[test]
fn neighbor_stays_in_the_grid() {
    let grid = Grid::new(3, 3);
    assert_eq!(grid.neighbor((1, 1), (0, 1)), Some((1, 2)));
    assert_eq!(grid.neighbor((1, 1), (-1, -1)), Some((0, 0)));
    assert_eq!(grid.neighbor((0, 0), (-1, 0)), None);
    assert_eq!(grid.neighbor((0, 0), (0, -1)), None);
    assert_eq!(grid.neighbor((2, 2), (1, 0)), None);
    assert_eq!(grid.neighbor((2, 2), (0, 1)), None);
    assert_eq!(grid.neighbor((2, 2), (-1, -1)), Some((1, 1)));
    assert_eq!(grid.neighbor((1, 1), (2, 0)), None);
    assert_eq!(grid.neighbor((1, 1), (-2, 0)), None);
    assert_eq!(grid.neighbor((1, 1), (i8::MIN, 0)), None);
    assert_eq!(grid.neighbor((1, 1), (i8::MAX, 0)), None);
}

#[test]
fn neighbor_of_a_far_position_is_none() {
    let grid = Grid::new(3, 3);
    assert_eq!(grid.neighbor((usize::MAX, 0), (1, 0)), None);
    assert_eq!(grid.neighbor((3, 0), (0, 0)), None);
    assert_eq!(grid.neighbor((3, 0), (-1, 0)), Some((2, 0)));
}

#[test]
fn stencil_of_an_inner_cell_has_six_neighbours() {
    let grid = Grid::new(3, 3);
    let got = grid.neighbors_along((1, 1), &STENCIL.to_vec());
    assert_eq!(got, vec![(1, 2), (2, 2), (2, 1), (1, 0), (0, 0), (0, 1)]);
}

#[test]
fn stencil_of_the_corners() {
    let grid = Grid::new(3, 3);
    let offsets = STENCIL.to_vec();
    assert_eq!(grid.neighbors_along((0, 0), &offsets), vec![(0, 1), (1, 1), (1, 0)]);
    assert_eq!(grid.neighbors_along((2, 0), &offsets), vec![(2, 1), (1, 0)]);
    assert_eq!(grid.neighbors_along((0, 2), &offsets), vec![(1, 2), (0, 1)]);
    assert_eq!(grid.neighbors_along((2, 2), &offsets), vec![(2, 1), (1, 1), (1, 2)]);
}

#[test]
fn a_single_cell_has_no_neighbours() {
    let grid = Grid::new(1, 1);
    assert_eq!(grid.neighbors_along((0, 0), &STENCIL.to_vec()), vec![]);
    assert_eq!(grid.place((0, 0)), Some((0, 0)));
    for candidate in Grid::fall_candidates((0, 0), true) {
        assert_eq!(grid.place(candidate), None);
    }
    for candidate in Grid::flow_candidates((0, 0), false) {
        assert_eq!(grid.place(candidate), None);
    }
}

#[test]
fn fall_candidates_go_down_then_diagonal() {
    assert_eq!(Grid::fall_candidates((1, 0), true), vec![(1, 1), (0, 1), (2, 1)]);
    assert_eq!(Grid::fall_candidates((1, 0), false), vec![(1, 1), (2, 1), (0, 1)]);
    assert_eq!(Grid::fall_candidates((7, 4), true), vec![(7, 5), (6, 5), (8, 5)]);
}

#[test]
fn fall_candidates_are_three_at_every_position() {
    // the left edge, and in a grid of three rows the bottom row: the places
    // off the grid are named all the same
    assert_eq!(Grid::fall_candidates((0, 1), true), vec![(0, 2), (-1, 2), (1, 2)]);
    assert_eq!(Grid::fall_candidates((0, 1), false), vec![(0, 2), (1, 2), (-1, 2)]);
    assert_eq!(Grid::fall_candidates((2, 2), true), vec![(2, 3), (1, 3), (3, 3)]);
    assert_eq!(Grid::fall_candidates((0, 0), false), vec![(0, 1), (1, 1), (-1, 1)]);
}

#[test]
fn fall_candidates_of_the_farthest_position() {
    let far = usize::MAX as i128;
    assert_eq!(
        Grid::fall_candidates((usize::MAX, usize::MAX), true),
        vec![(far, far + 1), (far - 1, far + 1), (far + 1, far + 1)]
    );
}

#[test]
fn flow_candidates_are_left_and_right() {
    assert_eq!(Grid::flow_candidates((1, 1), true), vec![(0, 1), (2, 1)]);
    assert_eq!(Grid::flow_candidates((1, 1), false), vec![(2, 1), (0, 1)]);
}

#[test]
fn flow_candidates_are_two_at_every_position() {
    assert_eq!(Grid::flow_candidates((0, 1), true), vec![(-1, 1), (1, 1)]);
    assert_eq!(Grid::flow_candidates((0, 1), false), vec![(1, 1), (-1, 1)]);
    assert_eq!(Grid::flow_candidates((0, 0), true), vec![(-1, 0), (1, 0)]);
    let far = usize::MAX as i128;
    assert_eq!(Grid::flow_candidates((usize::MAX, 3), false), vec![(far + 1, 3), (far - 1, 3)]);
}

#[test]
fn place_names_the_positions_of_the_grid() {
    let grid = Grid::new(3, 2);
    assert_eq!(grid.place((0, 0)), Some((0, 0)));
    assert_eq!(grid.place((2, 1)), Some((2, 1)));
    assert_eq!(grid.place((-1, 0)), None);
    assert_eq!(grid.place((0, -1)), None);
    assert_eq!(grid.place((3, 0)), None);
    assert_eq!(grid.place((0, 2)), None);
    assert_eq!(grid.place((i128::MIN, 0)), None);
    assert_eq!(grid.place((0, i128::MAX)), None);
    assert_eq!(grid.place((usize::MAX as i128 + 1, 0)), None);
}

#[test]
fn sand_on_the_bottom_row_tries_three_places_and_stays() {
    let mut grid = Grid::new(3, 2);
    grid.set((1, 1), sand());
    let candidates = Grid::fall_candidates((1, 1), true);
    assert_eq!(candidates.len(), 3);
    assert!(!grid.try_move((1, 1), &candidates));
    assert_eq!(grid.get((1, 1)), sand());
}

#[test]
fn sand_at_the_left_edge_passes_over_the_place_off_the_grid() {
    let mut grid = Grid::new(2, 2);
    grid.set((0, 0), sand());
    grid.set((0, 1), Dot::Iron { temp: 0 });
    let candidates = Grid::fall_candidates((0, 0), true);
    assert_eq!(candidates, vec![(0, 1), (-1, 1), (1, 1)]);
    assert!(grid.try_move((0, 0), &candidates));
    assert_eq!(grid.get((1, 1)), sand());
    assert_eq!(grid.get((0, 0)), empty());
}

#[test]
fn sand_moves_into_the_empty_cell_below() {
    let mut grid = Grid::new(3, 3);
    grid.set((1, 0), Dot::Sand { temp: 6 });
    grid.set((1, 1), Dot::Empty { temp: -2 });
    let candidates = Grid::fall_candidates((1, 0), true);
    assert!(grid.try_move((1, 0), &candidates));
    assert_eq!(grid.get((1, 1)), Dot::Sand { temp: 6 });
    assert_eq!(grid.get((1, 0)), Dot::Empty { temp: -2 });
}

#[test]
fn sand_changes_places_with_water() {
    let mut grid = Grid::new(1, 2);
    grid.set((0, 0), sand());
    grid.set((0, 1), water(40));
    let candidates = Grid::fall_candidates((0, 0), false);
    assert!(grid.try_move((0, 0), &candidates));
    assert_eq!(grid.get((0, 0)), water(40));
    assert_eq!(grid.get((0, 1)), sand());
}

#[test]
fn blocked_sand_takes_the_first_free_diagonal() {
    let mut grid = Grid::new(3, 2);
    grid.set((1, 0), sand());
    grid.set((1, 1), Dot::Dirt { temp: 0 });
    let mut left = Grid::new(3, 2);
    left.set((1, 0), sand());
    left.set((1, 1), Dot::Dirt { temp: 0 });
    let candidates = Grid::fall_candidates((1, 0), false);
    assert!(grid.try_move((1, 0), &candidates));
    assert_eq!(grid.get((2, 1)), sand());
    assert_eq!(grid.get((0, 1)), empty());
    let candidates = Grid::fall_candidates((1, 0), true);
    assert!(left.try_move((1, 0), &candidates));
    assert_eq!(left.get((0, 1)), sand());
    assert_eq!(left.get((2, 1)), empty());
}

#[test]
fn nothing_moves_when_no_candidate_gives_way() {
    let mut grid = Grid::new(3, 2);
    grid.set((1, 0), sand());
    grid.set((0, 1), Dot::Iron { temp: 0 });
    grid.set((1, 1), Dot::Salt { temp: 0 });
    grid.set((2, 1), Dot::Dirt { temp: 0 });
    let candidates = Grid::fall_candidates((1, 0), true);
    assert!(!grid.try_move((1, 0), &candidates));
    assert_eq!(grid.get((1, 0)), sand());
    assert_eq!(grid.get((0, 1)), Dot::Iron { temp: 0 });
    assert_eq!(grid.get((1, 1)), Dot::Salt { temp: 0 });
    assert_eq!(grid.get((2, 1)), Dot::Dirt { temp: 0 });
}

#[test]
fn water_does_not_sink_into_water() {
    let mut grid = Grid::new(1, 2);
    grid.set((0, 0), water(10));
    grid.set((0, 1), water(90));
    let candidates = Grid::fall_candidates((0, 0), true);
    assert!(!grid.try_move((0, 0), &candidates));
    assert_eq!(grid.get((0, 0)), water(10));
    assert_eq!(grid.get((0, 1)), water(90));
}

#[test]
fn candidates_outside_the_grid_are_passed_over() {
    let mut grid = Grid::new(2, 2);
    grid.set((0, 0), sand());
    let candidates = vec![(5, 5), (-1, 1), (1, -1), (0, 2), (2, 0), (i128::MAX, 0), (1, 1), (0, 1)];
    assert!(grid.try_move((0, 0), &candidates));
    assert_eq!(grid.get((1, 1)), sand());
    assert_eq!(grid.get((0, 1)), empty());
    assert_eq!(grid.get((0, 0)), empty());
}

#[test]
fn no_candidates_no_move() {
    let mut grid = Grid::new(2, 2);
    grid.set((0, 0), sand());
    assert!(!grid.try_move((0, 0), &vec![]));
    assert_eq!(grid.get((0, 0)), sand());
}

#[test]
fn salt_dissolves_into_water_of_at_most_100() {
    for s in [0u16, 1, 30, 99, 100] {
        let mut grid = Grid::new(2, 1);
        grid.set((0, 0), Dot::Salt { temp: 4 });
        grid.set((1, 0), Dot::Water { temp: -7, salinity: s });
        grid.exchange(Dot::Salt { temp: 4 }, (0, 0), (1, 0));
        assert_eq!(grid.get((0, 0)), Dot::Empty { temp: 4 });
        assert_eq!(grid.get((1, 0)), Dot::Water { temp: -7, salinity: s + 100 });
    }
}

#[test]
fn salt_keeps_out_of_water_above_100() {
    for s in [101u16, 150, 200, u16::MAX] {
        let mut grid = Grid::new(2, 1);
        grid.set((0, 0), Dot::Salt { temp: 4 });
        grid.set((1, 0), Dot::Water { temp: -7, salinity: s });
        grid.exchange(Dot::Salt { temp: 4 }, (0, 0), (1, 0));
        assert_eq!(grid.get((0, 0)), Dot::Salt { temp: 4 });
        assert_eq!(grid.get((1, 0)), Dot::Water { temp: -7, salinity: s });
    }
}

#[test]
fn water_levels_with_water() {
    let mut grid = Grid::new(2, 1);
    grid.set((0, 0), Dot::Water { temp: 1, salinity: 40 });
    grid.set((1, 0), Dot::Water { temp: 2, salinity: 60 });
    grid.exchange(Dot::Water { temp: 1, salinity: 40 }, (0, 0), (1, 0));
    assert_eq!(grid.get((0, 0)), Dot::Water { temp: 1, salinity: 50 });
    assert_eq!(grid.get((1, 0)), Dot::Water { temp: 2, salinity: 50 });
}

#[test]
fn the_mean_is_rounded_down() {
    let mut grid = Grid::new(2, 1);
    grid.set((0, 0), water(3));
    grid.set((1, 0), water(4));
    grid.exchange(water(3), (0, 0), (1, 0));
    assert_eq!(grid.get((0, 0)), water(3));
    assert_eq!(grid.get((1, 0)), water(3));
}

#[test]
fn a_mean_of_zero_changes_nothing() {
    let mut grid = Grid::new(2, 1);
    grid.set((0, 0), water(1));
    grid.set((1, 0), water(0));
    grid.exchange(water(1), (0, 0), (1, 0));
    assert_eq!(grid.get((0, 0)), water(1));
    assert_eq!(grid.get((1, 0)), water(0));
}

#[test]
fn the_mean_of_large_salinities_does_not_wrap() {
    let mut grid = Grid::new(2, 1);
    grid.set((0, 0), water(u16::MAX));
    grid.set((1, 0), water(u16::MAX - 1));
    grid.exchange(water(u16::MAX), (0, 0), (1, 0));
    assert_eq!(grid.get((0, 0)), water(u16::MAX - 1));
    assert_eq!(grid.get((1, 0)), water(u16::MAX - 1));
}

#[test]
fn other_pairs_do_not_exchange() {
    let kinds = [
        Dot::Empty { temp: 0 },
        Dot::Sand { temp: 0 },
        Dot::Dirt { temp: 0 },
        Dot::Water { temp: 0, salinity: 50 },
        Dot::Salt { temp: 0 },
        Dot::Iron { temp: 0 },
    ];
    for here in kinds {
        for there in kinds {
            let rule = matches!(
                (here, there),
                (Dot::Salt { .. }, Dot::Water { .. }) | (Dot::Water { .. }, Dot::Water { .. })
            );
            if rule {
                continue;
            }
            let mut grid = Grid::new(2, 1);
            grid.set((0, 0), here);
            grid.set((1, 0), there);
            grid.exchange(here, (0, 0), (1, 0));
            assert_eq!(grid.get((0, 0)), here);
            assert_eq!(grid.get((1, 0)), there);
        }
    }
}

#[test]
fn a_position_outside_is_no_neighbour() {
    let mut grid = Grid::new(2, 1);
    grid.set((0, 0), Dot::Salt { temp: 0 });
    grid.set((1, 0), water(0));
    grid.exchange(Dot::Salt { temp: 0 }, (0, 0), (2, 0));
    grid.exchange(Dot::Salt { temp: 0 }, (0, 0), (0, 1));
    assert_eq!(grid.get((0, 0)), Dot::Salt { temp: 0 });
    assert_eq!(grid.get((1, 0)), water(0));
}

#[test]
fn a_turn_goes_by_what_the_cell_held_when_it_began() {
    let mut grid = Grid::new(3, 1);
    grid.set((0, 0), water(10));
    grid.set((1, 0), water(40));
    grid.set((2, 0), water(60));
    grid.diffuse((1, 0), &vec![(2, 0), (0, 0)]);
    // first 40 with 60 gives 50 and 50, then 40 with 10 gives 25 and 25
    assert_eq!(grid.get((2, 0)), water(50));
    assert_eq!(grid.get((0, 0)), water(25));
    assert_eq!(grid.get((1, 0)), water(25));
}

#[test]
fn a_turn_depends_on_the_order() {
    let mut grid = Grid::new(3, 1);
    grid.set((0, 0), water(10));
    grid.set((1, 0), water(40));
    grid.set((2, 0), water(60));
    grid.diffuse((1, 0), &vec![(0, 0), (2, 0)]);
    assert_eq!(grid.get((0, 0)), water(25));
    assert_eq!(grid.get((2, 0)), water(50));
    assert_eq!(grid.get((1, 0)), water(50));
}

#[test]
fn salt_is_used_up_by_its_first_dissolve() {
    let mut grid = Grid::new(3, 1);
    grid.set((0, 0), water(0));
    grid.set((1, 0), Dot::Salt { temp: 3 });
    grid.set((2, 0), water(0));
    assert_eq!(grid.diffuse((1, 0), &vec![(0, 0), (2, 0)]), 1);
    assert_eq!(grid.get((0, 0)), water(100));
    assert_eq!(grid.get((1, 0)), Dot::Empty { temp: 3 });
    assert_eq!(grid.get((2, 0)), water(0));
}

#[test]
fn the_order_decides_which_water_takes_the_salt() {
    let mut grid = Grid::new(3, 1);
    grid.set((0, 0), water(0));
    grid.set((1, 0), Dot::Salt { temp: 3 });
    grid.set((2, 0), water(0));
    assert_eq!(grid.diffuse((1, 0), &vec![(2, 0), (0, 0)]), 1);
    assert_eq!(grid.get((0, 0)), water(0));
    assert_eq!(grid.get((1, 0)), Dot::Empty { temp: 3 });
    assert_eq!(grid.get((2, 0)), water(100));
}

#[test]
fn salt_passes_over_water_that_is_too_salty() {
    let mut grid = Grid::new(3, 1);
    grid.set((0, 0), water(101));
    grid.set((1, 0), Dot::Salt { temp: 3 });
    grid.set((2, 0), water(100));
    assert_eq!(grid.diffuse((1, 0), &vec![(0, 0), (2, 0)]), 1);
    assert_eq!(grid.get((0, 0)), water(101));
    assert_eq!(grid.get((1, 0)), Dot::Empty { temp: 3 });
    assert_eq!(grid.get((2, 0)), water(200));
}

#[test]
fn salt_among_salty_water_stays() {
    let mut grid = Grid::new(3, 1);
    grid.set((0, 0), water(101));
    grid.set((1, 0), Dot::Salt { temp: 3 });
    grid.set((2, 0), water(150));
    assert_eq!(grid.diffuse((1, 0), &vec![(0, 0), (2, 0)]), 0);
    assert_eq!(grid.get((0, 0)), water(101));
    assert_eq!(grid.get((1, 0)), Dot::Salt { temp: 3 });
    assert_eq!(grid.get((2, 0)), water(150));
}

#[test]
fn salt_that_is_gone_dissolves_no_more() {
    let mut grid = Grid::new(2, 1);
    grid.set((0, 0), Dot::Empty { temp: 3 });
    grid.set((1, 0), water(0));
    assert!(!grid.exchange(Dot::Salt { temp: 3 }, (0, 0), (1, 0)));
    assert_eq!(grid.get((0, 0)), Dot::Empty { temp: 3 });
    assert_eq!(grid.get((1, 0)), water(0));
}

#[test]
fn exchange_tells_the_dissolve_events() {
    let mut grid = Grid::new(2, 1);
    grid.set((0, 0), Dot::Salt { temp: 0 });
    grid.set((1, 0), water(100));
    assert!(grid.exchange(Dot::Salt { temp: 0 }, (0, 0), (1, 0)));
    assert_eq!(grid.get((1, 0)), water(200));
    let mut grid = Grid::new(2, 1);
    grid.set((0, 0), Dot::Salt { temp: 0 });
    grid.set((1, 0), water(101));
    assert!(!grid.exchange(Dot::Salt { temp: 0 }, (0, 0), (1, 0)));
    let mut grid = Grid::new(2, 1);
    grid.set((0, 0), water(40));
    grid.set((1, 0), water(60));
    assert!(!grid.exchange(water(40), (0, 0), (1, 0)));
    assert_eq!(grid.get((0, 0)), water(50));
}

#[test]
fn a_turn_of_water_has_no_dissolve_event() {
    let mut grid = Grid::new(3, 1);
    grid.set((0, 0), Dot::Salt { temp: 0 });
    grid.set((1, 0), water(40));
    grid.set((2, 0), water(60));
    assert_eq!(grid.diffuse((1, 0), &vec![(0, 0), (2, 0)]), 0);
    assert_eq!(grid.get((0, 0)), Dot::Salt { temp: 0 });
    assert_eq!(grid.get((1, 0)), water(50));
    assert_eq!(grid.get((2, 0)), water(50));
}

#[test]
fn a_turn_without_neighbours_changes_nothing() {
    let mut grid = Grid::new(2, 1);
    grid.set((0, 0), Dot::Salt { temp: 0 });
    grid.set((1, 0), water(0));
    assert_eq!(grid.diffuse((0, 0), &vec![]), 0);
    assert_eq!(grid.get((0, 0)), Dot::Salt { temp: 0 });
    assert_eq!(grid.get((1, 0)), water(0));
}

#[test]
fn draw_writes_a_quad_per_cell_row_by_row() {
    let mut grid = Grid::new(2, 2);
    grid.set((0, 0), sand());
    grid.set((1, 0), Dot::Iron { temp: 0 });
    grid.set((0, 1), water(55));
    let mut frame = vec![7u8; 16];
    grid.draw(&mut frame);
    let want: Vec<u8> = vec![
        0xED, 0xC9, 0xAF, 0xFF, 0xCC, 0xCC, 0xCC, 0xFF, 0x00, 200, 0xFF, 0xFF, 0x00, 0x00, 0x00, 0xFF,
    ];
    assert_eq!(frame, want);
}

#[test]
fn draw_of_a_grid_without_cells_writes_nothing() {
    let grid = Grid::new(0, 3);
    let mut frame: Vec<u8> = vec![];
    grid.draw(&mut frame);
    assert!(frame.is_empty());
}

#[test]
fn covers_tells_points_of_the_grid() {
    let grid = Grid::new(3, 2);
    assert!(grid.covers(&vec![]));
    assert!(grid.covers(&vec![(0, 0), (2, 1), (1, 1)]));
    assert!(!grid.covers(&vec![(0, 0), (3, 0)]));
    assert!(!grid.covers(&vec![(0, 2)]));
    assert!(!grid.covers(&vec![(-1, 0)]));
    assert!(!grid.covers(&vec![(0, -1)]));
    assert!(!grid.covers(&vec![(isize::MIN, isize::MAX)]));
}

#[test]
fn paint_puts_the_dot_at_each_point() {
    let mut grid = Grid::new(3, 2);
    grid.paint(&vec![(0, 0), (2, 1), (0, 0)], sand());
    for y in 0..2 {
        for x in 0..3 {
            let want = if (x, y) == (0, 0) || (x, y) == (2, 1) { sand() } else { empty() };
            assert_eq!(grid.get((x, y)), want);
        }
    }
}

#[test]
fn paint_line_follows_bresenham() {
    let mut grid = Grid::new(6, 7);
    assert!(grid.paint_line((0, 0), (5, 6), sand()));
    let line = [(0, 0), (0, 1), (1, 2), (2, 3), (3, 4), (4, 5), (5, 6)];
    for y in 0..7 {
        for x in 0..6 {
            let want = if line.contains(&(x, y)) { sand() } else { empty() };
            assert_eq!(grid.get((x, y)), want, "at {:?}", (x, y));
        }
    }
}

#[test]
fn paint_line_of_one_point() {
    let mut grid = Grid::new(3, 3);
    assert!(grid.paint_line((1, 2), (1, 2), water(0)));
    assert_eq!(grid.get((1, 2)), water(0));
    assert_eq!(grid.get((1, 1)), empty());
}

#[test]
fn paint_line_backwards_and_level() {
    let mut grid = Grid::new(4, 2);
    assert!(grid.paint_line((3, 1), (0, 1), sand()));
    for x in 0..4 {
        assert_eq!(grid.get((x, 1)), sand());
        assert_eq!(grid.get((x, 0)), empty());
    }
}

#[test]
fn paint_line_that_leaves_the_grid_paints_nothing() {
    let mut grid = Grid::new(3, 3);
    assert!(!grid.paint_line((0, 0), (3, 0), sand()));
    assert!(!grid.paint_line((-1, 1), (2, 1), sand()));
    assert!(!grid.paint_line((1, 1), (1, 3), sand()));
    for y in 0..3 {
        for x in 0..3 {
            assert_eq!(grid.get((x, y)), empty());
        }
    }
}

#[test]
fn paint_line_beyond_reach_paints_nothing() {
    let mut grid = Grid::new(3, 3);
    assert!(!grid.paint_line((0, 0), (isize::MAX, 0), sand()));
    assert!(!grid.paint_line((isize::MIN, isize::MIN), (0, 0), sand()));
    assert!(!grid.paint_line((0, 0x1000_0001), (0, 0), sand()));
    assert_eq!(grid.get((0, 0)), empty());
}
