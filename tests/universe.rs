use wasm_game_of_life::universe::{is_random_mode, next_cell_state, Universe, INITIAL_SIDE};

const SIZE: usize = 64 * 64;

fn all_dead() -> Universe {
    Universe::new("random", &vec![true; SIZE])
}

fn alive_positions(u: &Universe) -> Vec<usize> {
    let n = (u.width() * u.height()) as usize;
    (0..n).filter(|&i| u.cells().contains(i)).collect()
}

#[test]
fn default_seeding_follows_pattern() {
    let u = Universe::new("default", &vec![]);
    assert_eq!(u.width(), 64);
    assert_eq!(u.height(), 64);
    assert_eq!(INITIAL_SIDE, 64);
    assert_eq!(u.cells().len(), SIZE);
    for i in 0..SIZE {
        assert_eq!(u.cells().contains(i), i % 2 == 0 || i % 7 == 0, "cell {}", i);
    }
}

#[test]
fn other_modes_use_default_seeding() {
    let a = Universe::new("Random", &vec![]);
    let b = Universe::new("", &vec![]);
    assert!(a.cells().contains(0));
    assert!(!a.cells().contains(1));
    assert!(a.cells().contains(7));
    assert_eq!(a.cells(), b.cells());
}

#[test]
fn random_seeding_kills_cells_below_threshold() {
    let below: Vec<bool> = (0..SIZE).map(|i| i % 3 == 0).collect();
    let u = Universe::new("random", &below);
    for i in 0..SIZE {
        assert_eq!(u.cells().contains(i), i % 3 != 0, "cell {}", i);
    }
    assert!(alive_positions(&all_dead()).is_empty());
}

#[test]
fn random_mode_is_recognised_exactly() {
    assert!(is_random_mode("random"));
    assert!(!is_random_mode("randon"));
    assert!(!is_random_mode("randoms"));
    assert!(!is_random_mode("default"));
    assert!(!is_random_mode(""));
}

#[test]
fn get_index_is_row_major() {
    let u = all_dead();
    assert_eq!(u.get_index(0, 0), 0);
    assert_eq!(u.get_index(2, 3), 131);
    assert_eq!(u.get_index(63, 63), 4095);
}

#[test]
fn repeated_ticks_are_deterministic() {
    let mut a = Universe::new("default", &vec![]);
    let mut b = Universe::new("default", &vec![]);
    for _ in 0..5 {
        a.tick();
        b.tick();
        assert_eq!(a.cells(), b.cells());
    }
    let c = Universe::new("default", &vec![]);
    assert_ne!(a.cells(), c.cells());
}

#[test]
fn corners_count_each_other_across_edges() {
    let mut u = all_dead();
    u.toggle_cell(0, 0);
    assert_eq!(u.live_neighbor_count(63, 63), 1);
    assert_eq!(u.live_neighbor_count(63, 0), 1);
    assert_eq!(u.live_neighbor_count(0, 63), 1);
    assert_eq!(u.live_neighbor_count(0, 0), 0);
    assert_eq!(u.live_neighbor_count(62, 62), 0);

    let mut v = all_dead();
    v.toggle_cell(63, 63);
    assert_eq!(v.live_neighbor_count(0, 0), 1);
    assert_eq!(v.live_neighbor_count(63, 0), 1);
    assert_eq!(v.live_neighbor_count(0, 63), 1);
}

#[test]
fn neighbor_count_reaches_eight() {
    let mut u = all_dead();
    for (r, c) in [(9, 9), (9, 10), (9, 11), (10, 9), (10, 11), (11, 9), (11, 10), (11, 11)] {
        u.toggle_cell(r, c);
    }
    assert_eq!(u.live_neighbor_count(10, 10), 8);
    assert_eq!(u.live_neighbor_count(9, 9), 2);
}

#[test]
fn rule_table_for_every_count() {
    for n in 0..=8u8 {
        assert_eq!(next_cell_state(true, n), n == 2 || n == 3, "alive with {}", n);
        assert_eq!(next_cell_state(false, n), n == 3, "dead with {}", n);
    }
    assert!(!next_cell_state(true, 1));
    assert!(next_cell_state(true, 2));
    assert!(next_cell_state(true, 3));
    assert!(!next_cell_state(true, 4));
    assert!(next_cell_state(false, 3));
    assert!(!next_cell_state(false, 2));
}

#[test]
fn blinker_oscillates() {
    let mut u = all_dead();
    u.toggle_cell(10, 9);
    u.toggle_cell(10, 10);
    u.toggle_cell(10, 11);
    u.tick();
    assert_eq!(alive_positions(&u), vec![9 * 64 + 10, 10 * 64 + 10, 11 * 64 + 10]);
    u.tick();
    assert_eq!(alive_positions(&u), vec![10 * 64 + 9, 10 * 64 + 10, 10 * 64 + 11]);
}

#[test]
fn blinker_wraps_around_the_edge() {
    let mut u = all_dead();
    u.toggle_cell(0, 63);
    u.toggle_cell(0, 0);
    u.toggle_cell(0, 1);
    u.tick();
    assert_eq!(alive_positions(&u), vec![0, 64, 63 * 64]);
}

#[test]
fn lone_cell_dies_in_one_generation() {
    let mut u = all_dead();
    u.toggle_cell(1, 1);
    assert_eq!(alive_positions(&u), vec![65]);
    u.tick();
    assert!(alive_positions(&u).is_empty());
}

#[test]
fn toggle_flips_one_cell() {
    let mut u = Universe::new("default", &vec![]);
    assert!(u.cells().contains(0));
    u.toggle_cell(0, 0);
    assert!(!u.cells().contains(0));
    assert!(!u.cells().contains(1));
    assert!(u.cells().contains(2));
    u.toggle_cell(0, 0);
    assert!(u.cells().contains(0));
}

#[test]
fn growing_width_keeps_toggled_cell() {
    let mut u = Universe::new("default", &vec![]);
    let idx = 2 * 64 + 3;
    let before = u.cells().contains(idx);
    u.toggle_cell(2, 3);
    assert_eq!(u.cells().contains(idx), !before);
    u.set_width(70);
    assert_eq!(u.width(), 70);
    assert_eq!(u.height(), 64);
    assert_eq!(u.cells().len(), 70 * 64);
    assert_eq!(u.cells().contains(idx), !before);
    for i in 0..SIZE {
        if i != idx {
            assert_eq!(u.cells().contains(i), i % 2 == 0 || i % 7 == 0);
        }
    }
}

#[test]
fn growing_height_keeps_cells() {
    let mut u = Universe::new("default", &vec![]);
    u.toggle_cell(5, 5);
    let idx = 5 * 64 + 5;
    let value = u.cells().contains(idx);
    u.set_height(80);
    assert_eq!(u.height(), 80);
    assert_eq!(u.width(), 64);
    assert_eq!(u.cells().len(), 64 * 80);
    assert_eq!(u.cells().contains(idx), value);
}

#[test]
fn resized_universe_still_ticks() {
    let mut u = all_dead();
    u.set_width(100);
    u.set_height(70);
    // Added cells have no particular state: clear them by toggling.
    for r in 0..70 {
        for c in 0..100 {
            if u.cells().contains(u.get_index(r, c)) {
                u.toggle_cell(r, c);
            }
        }
    }
    u.toggle_cell(69, 98);
    u.toggle_cell(69, 99);
    u.toggle_cell(69, 0);
    assert_eq!(u.live_neighbor_count(0, 99), 3);
    u.tick();
    assert_eq!(alive_positions(&u), vec![99, 68 * 100 + 99, 69 * 100 + 99]);
}

#[test]
fn glider_moves_one_cell_diagonally_in_four_ticks() {
    let mut u = all_dead();
    u.add_glider(10);
    let before = alive_positions(&u);
    assert_eq!(before, vec![64 + 12, 2 * 64 + 13, 3 * 64 + 11, 3 * 64 + 12, 3 * 64 + 13]);
    for _ in 0..4 {
        u.tick();
    }
    let shifted: Vec<usize> = before.iter().map(|i| i + 64 + 1).collect();
    assert_eq!(alive_positions(&u), shifted);
}

#[test]
fn glider_clears_its_block() {
    let mut u = Universe::new("default", &vec![]);
    u.add_glider(0);
    let alive = [64 + 2, 2 * 64 + 3, 3 * 64 + 1, 3 * 64 + 2, 3 * 64 + 3];
    for r in 0..5 {
        for c in 0..5 {
            let i = r * 64 + c;
            assert_eq!(u.cells().contains(i), alive.contains(&i), "cell {}", i);
        }
    }
    assert_eq!(u.cells().contains(5), false);
    assert_eq!(u.cells().contains(6), true);
}

#[test]
fn glider_block_runs_into_next_row() {
    let mut u = Universe::new("default", &vec![]);
    u.add_glider(62);
    for r in 0..5 {
        for k in 0..5 {
            let i = r * 64 + 62 + k;
            let alive = (r == 1 && k == 2) || (r == 2 && k == 3) || (r == 3 && (1..4).contains(&k));
            assert_eq!(u.cells().contains(i), alive, "cell {}", i);
        }
    }
}

#[test]
fn glider_at_sets_five_cells() {
    let mut u = all_dead();
    u.add_glider_at(5, 7);
    let w = 64;
    assert_eq!(
        alive_positions(&u),
        vec![4 * w + 7, 5 * w + 8, 6 * w + 6, 6 * w + 7, 6 * w + 8]
    );
}

#[test]
fn glider_at_clears_block_and_leaves_the_rest() {
    let mut u = Universe::new("default", &vec![]);
    u.add_glider_at(10, 11);
    let alive = [587, 652, 714, 715, 716];
    let block: Vec<usize> = (9..12).flat_map(|r| (10..13).map(move |c| r * 64 + c)).collect();
    assert_eq!(block.iter().filter(|&&i| u.cells().contains(i)).count(), 5);
    for i in 0..SIZE {
        let expected = if alive.contains(&i) {
            true
        } else if block.contains(&i) {
            false
        } else {
            i % 2 == 0 || i % 7 == 0
        };
        assert_eq!(u.cells().contains(i), expected, "cell {}", i);
    }
    assert!(!u.cells().contains(779));
}

#[test]
fn glider_at_fits_in_the_last_block() {
    let mut u = all_dead();
    u.add_glider_at(62, 62);
    assert_eq!(
        alive_positions(&u),
        vec![61 * 64 + 62, 62 * 64 + 63, 63 * 64 + 61, 63 * 64 + 62, 63 * 64 + 63]
    );
}

#[test]
fn glider_at_twice_is_glider_at_once() {
    let mut a = Universe::new("default", &vec![]);
    a.add_glider_at(3, 4);
    let once = a.cells().clone();
    a.add_glider_at(3, 4);
    assert_eq!(a.cells(), &once);
}

#[test]
fn glider_at_moves_down_right() {
    let mut u = all_dead();
    u.add_glider_at(5, 5);
    let before = alive_positions(&u);
    for _ in 0..4 {
        u.tick();
    }
    let shifted: Vec<usize> = before.iter().map(|i| i + 64 + 1).collect();
    assert_eq!(alive_positions(&u), shifted);
}
