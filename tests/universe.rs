use game_of_life::rules::Cell;
use game_of_life::universe::{transition, Universe};

fn alive_count(u: &Universe) -> usize {
    u.cells().iter().filter(|c| **c == Cell::Alive).count()
}

fn alive_indices(u: &Universe) -> Vec<usize> {
    u.cells()
        .iter()
        .enumerate()
        .filter(|(_, c)| **c == Cell::Alive)
        .map(|(i, _)| i)
        .collect()
}

#[test]
fn wierd_mirroring_thing_doesnt_happen() {
    let mut u = Universe::new(60, 120);
    u.activate_cell(0, 0);
    u.activate_cell(25, 45);
    let x = u
        .cells()
        .iter()
        .filter_map(|cell| if *cell == Cell::Alive { Some(true) } else { None })
        .collect::<Vec<bool>>()
        .len();
    assert_eq!(2, x);
}

#[test]
fn runs_for_a_few_ticks() {
    let mut universe = Universe::new(10, 20);
    universe.tick();
    universe.tick();
    universe.set_infinite(true);
    universe.tick();
    universe.tick();
    universe.tick();
    universe.set_infinite(false);
    universe.tick();
    universe.tick();
    universe.tick();
}

#[test]
fn new_grid_is_all_dead() {
    let u = Universe::new(3, 7);
    assert_eq!(u.cells().len(), 21);
    assert_eq!(u.width(), 7);
    assert_eq!(u.height(), 3);
    assert_eq!(alive_count(&u), 0);
}

#[test]
fn try_new_rejects_zero_dimensions() {
    assert!(Universe::try_new(0, 5).is_none());
    assert!(Universe::try_new(5, 0).is_none());
    assert!(Universe::try_new(0, 0).is_none());
}

#[test]
fn try_new_rejects_oversized_grid() {
    assert!(Universe::try_new(65536, 65536).is_none());
    assert!(Universe::try_new(65537, 65536).is_none());
}

#[test]
fn try_new_accepts_valid_dimensions() {
    let u = Universe::try_new(4, 6).unwrap();
    assert_eq!(u.cells().len(), 24);
    assert_eq!(alive_count(&u), 0);
}

#[test]
fn get_index_is_row_major() {
    let u = Universe::new(60, 120);
    assert_eq!(u.get_index(0, 0), 0);
    assert_eq!(u.get_index(25, 45), 25 * 120 + 45);
    assert_eq!(u.get_index(59, 119), 7199);
}

#[test]
fn repeated_activation_counts_once() {
    let mut u = Universe::new(5, 5);
    u.activate_cell(1, 2);
    u.activate_cell(1, 2);
    u.activate_cell(4, 4);
    u.activate_cell(0, 0);
    u.activate_cell(4, 4);
    assert_eq!(alive_count(&u), 3);
    assert_eq!(alive_indices(&u), vec![0, 7, 24]);
}

#[test]
fn corner_sees_far_edges_as_neighbors() {
    let (h, w) = (6u32, 8u32);
    let mut u = Universe::new(h, w);
    for (r, c) in [(h - 1, w - 1), (h - 1, 0), (h - 1, 1), (0, w - 1), (0, 1), (1, w - 1), (1, 0), (1, 1)] {
        u.activate_cell(r, c);
    }
    assert_eq!(u.live_neighbor_count(0, 0), 8);
    // Cells that are not neighbours of the corner do not count.
    let mut v = Universe::new(h, w);
    v.activate_cell(2, 2);
    v.activate_cell(h - 2, w - 2);
    v.activate_cell(0, 0);
    assert_eq!(v.live_neighbor_count(0, 0), 0);
}

fn signed_count(u: &Universe, row: u32, col: u32) -> u8 {
    let h = u.height() as i64;
    let w = u.width() as i64;
    let mut n = 0u8;
    for dr in -1i64..=1 {
        for dc in -1i64..=1 {
            if dr == 0 && dc == 0 {
                continue;
            }
            let r = (row as i64 + dr).rem_euclid(h) as u32;
            let c = (col as i64 + dc).rem_euclid(w) as u32;
            if u.cells()[u.get_index(r, c)] == Cell::Alive {
                n += 1;
            }
        }
    }
    n
}

#[test]
fn border_counts_match_signed_reference() {
    let (h, w) = (7u32, 9u32);
    let mut u = Universe::new(h, w);
    for r in 0..h {
        for c in 0..w {
            if (r * 5 + c * 3) % 4 == 0 || (r + c) % 7 == 1 {
                u.activate_cell(r, c);
            }
        }
    }
    for r in 0..h {
        for c in 0..w {
            assert_eq!(u.live_neighbor_count(r, c), signed_count(&u, r, c), "cell ({}, {})", r, c);
        }
    }
}

#[test]
fn lone_corner_cell_is_not_its_own_neighbor() {
    let mut u = Universe::new(4, 4);
    u.activate_cell(0, 0);
    assert_eq!(u.live_neighbor_count(0, 0), 0);
    assert_eq!(u.live_neighbor_count(3, 3), 1);
    assert_eq!(u.live_neighbor_count(0, 3), 1);
    assert_eq!(u.live_neighbor_count(2, 2), 0);
}

#[test]
fn transition_follows_conway_table() {
    for n in 0u8..=8 {
        let survive = if n == 2 || n == 3 { Cell::Alive } else { Cell::Dead };
        let born = if n == 3 { Cell::Alive } else { Cell::Dead };
        assert_eq!(transition(Cell::Alive, n), survive);
        assert_eq!(transition(Cell::Dead, n), born);
    }
}

#[test]
fn block_is_still_life() {
    let mut u = Universe::new(6, 6);
    u.activate_cell(2, 2);
    u.activate_cell(2, 3);
    u.activate_cell(3, 2);
    u.activate_cell(3, 3);
    let start = u.cells().to_vec();
    for _ in 0..10 {
        u.tick();
        assert_eq!(u.cells(), &start[..]);
    }
}

#[test]
fn block_across_the_seam_is_still_life() {
    let mut u = Universe::new(5, 4);
    u.activate_cell(4, 3);
    u.activate_cell(4, 0);
    u.activate_cell(0, 3);
    u.activate_cell(0, 0);
    let start = u.cells().to_vec();
    for _ in 0..5 {
        u.tick();
        assert_eq!(u.cells(), &start[..]);
    }
}

#[test]
fn blinker_has_period_two() {
    let mut u = Universe::new(5, 5);
    u.activate_cell(2, 1);
    u.activate_cell(2, 2);
    u.activate_cell(2, 3);
    let start = u.cells().to_vec();
    u.tick();
    assert_eq!(alive_indices(&u), vec![7, 12, 17]);
    assert_ne!(u.cells(), &start[..]);
    u.tick();
    assert_eq!(u.cells(), &start[..]);
}

#[test]
fn lone_cell_dies() {
    let mut u = Universe::new(5, 5);
    u.activate_cell(2, 2);
    u.tick();
    assert_eq!(alive_count(&u), 0);
}

#[test]
fn tick_with_forces_the_picked_cell() {
    let mut u = Universe::new(4, 4);
    u.set_infinite(true);
    u.tick_with(7);
    assert_eq!(alive_indices(&u), vec![7]);
    // With sustain off the pick is ignored.
    let mut v = Universe::new(4, 4);
    v.tick_with(7);
    assert_eq!(alive_count(&v), 0);
}

#[test]
fn next_cells_leaves_grid_unchanged() {
    let mut u = Universe::new(5, 5);
    u.activate_cell(2, 1);
    u.activate_cell(2, 2);
    u.activate_cell(2, 3);
    let before = u.cells().to_vec();
    let next = u.next_cells();
    assert_eq!(u.cells(), &before[..]);
    let alive: Vec<usize> =
        next.iter().enumerate().filter(|(_, c)| **c == Cell::Alive).map(|(i, _)| i).collect();
    assert_eq!(alive, vec![7, 12, 17]);
}

#[test]
fn sustain_keeps_one_cell_alive_each_step() {
    let mut u = Universe::new(10, 20);
    u.set_infinite(true);
    for _ in 0..50 {
        u.tick();
        assert!(alive_count(&u) >= 1);
    }
}

#[test]
fn sustain_on_dead_grid_forces_exactly_one() {
    let mut u = Universe::new(10, 20);
    u.set_infinite(true);
    u.tick();
    assert_eq!(alive_count(&u), 1);
}

#[test]
fn sustain_on_single_cell_grid() {
    let mut u = Universe::new(1, 1);
    u.set_infinite(true);
    u.tick();
    assert_eq!(u.cells(), &[Cell::Alive][..]);
}

#[test]
fn many_ticks_keep_buffer_size() {
    let mut u = Universe::new(12, 17);
    u.activate_cell(0, 0);
    u.activate_cell(0, 1);
    u.activate_cell(1, 0);
    u.activate_cell(5, 5);
    u.activate_cell(5, 6);
    u.activate_cell(5, 7);
    u.set_infinite(true);
    for _ in 0..150 {
        u.tick();
        assert_eq!(u.cells().len(), 12 * 17);
    }
    u.set_infinite(false);
    for _ in 0..50 {
        u.tick();
        assert_eq!(u.cells().len(), 12 * 17);
    }
}
