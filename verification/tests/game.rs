use wavegrid::grid::{Grid, Node};
use wavegrid::system::{Game, System};
use wavegrid::tile::{encode, Tile, WfcError};

fn cell(game: &Game, x: usize, y: usize) -> Vec<usize> {
    let h = game.system.grid.height;
    game.system.grid.cells[x * h + y].data.clone()
}

#[test]
fn test_force_water_scenario() {
    // Forcing Water at (1, 1) on a fresh 10 by 10 grid collapses that cell
    // and narrows each of its four neighbors to water-or-sand.
    let system = System::default(10, 10);
    let mut game = Game::new(system);
    game.run(&encode(Tile::Water), 1, 1);
    assert_eq!(cell(&game, 1, 1), vec![1, 0, 0, 0, 0]);
    assert_eq!(cell(&game, 2, 1), vec![1, 1, 0, 0, 0]);
    assert_eq!(cell(&game, 0, 1), vec![1, 1, 0, 0, 0]);
    assert_eq!(cell(&game, 1, 2), vec![1, 1, 0, 0, 0]);
    assert_eq!(cell(&game, 1, 0), vec![1, 1, 0, 0, 0]);
    // A cell two steps away is untouched.
    assert_eq!(cell(&game, 3, 1), vec![1, 1, 1, 1, 1]);
    assert_eq!(game.round, 1);

    // Then forcing Sand at (1, 2) collapses it, leaves the already collapsed
    // (1, 1) untouched, and narrows its open neighbors per the sand row.
    game.run(&encode(Tile::Sand), 1, 2);
    assert_eq!(cell(&game, 1, 2), vec![0, 1, 0, 0, 0]);
    assert_eq!(cell(&game, 1, 1), vec![1, 0, 0, 0, 0]);
    assert_eq!(cell(&game, 2, 2), vec![1, 1, 1, 0, 0]);
    assert_eq!(cell(&game, 0, 2), vec![1, 1, 1, 0, 0]);
    assert_eq!(cell(&game, 1, 3), vec![1, 1, 1, 0, 0]);
    assert_eq!(game.round, 2);
}

#[test]
fn test_direct_trigger_idempotent() {
    // Propagating the same trigger twice at the same coordinates gives the
    // same grid as propagating it once.
    let system = System::default(6, 6);
    let mut game = Game::new(system);
    game.run(&encode(Tile::Grass), 2, 3);
    let after_once: Vec<Vec<usize>> = (0..36).map(|i| game.system.grid.cells[i].data.clone()).collect();
    game.run(&encode(Tile::Grass), 2, 3);
    let after_twice: Vec<Vec<usize>> = (0..36).map(|i| game.system.grid.cells[i].data.clone()).collect();
    assert_eq!(after_once, after_twice);
}

#[test]
fn test_entropy_monotone_over_rounds() {
    let system = System::default(8, 8);
    let mut game = Game::new(system);
    let mut entropies: Vec<usize> = (0..64).map(|i| game.system.grid.cells[i].get_entropy()).collect();
    for _ in 0..20 {
        if game.next_round().is_none() {
            break;
        }
        let now: Vec<usize> = (0..64).map(|i| game.system.grid.cells[i].get_entropy()).collect();
        for i in 0..64 {
            assert!(now[i] <= entropies[i]);
        }
        entropies = now;
    }
}

#[test]
fn test_selection_tie_break() {
    // Two cells at the minimum entropy 2, at (0, 0) and (3, 3): a round must
    // pick (0, 0), the row-major minimum, whichever arose first.
    let rules = wavegrid::rules::default_rules();
    let mut cells: Vec<Node> = Vec::new();
    for i in 0..16 {
        if i == 0 || i == 15 {
            cells.push(Node { data: vec![1, 1, 0, 0, 0] });
        } else {
            cells.push(Node { data: vec![1, 1, 1, 1, 1] });
        }
    }
    let grid = Grid { width: 4, height: 4, feature_width: 5, cells };
    let system = System { rules, grid };
    let mut game = Game::new(system);
    assert!(game.next_round().is_some());
    assert_eq!(game.system.grid.cells[0].get_entropy(), 1);
    assert_eq!(game.system.grid.cells[15].get_entropy(), 2);
}

#[test]
fn test_simulation_completes_within_grid_size() {
    // A full run terminates, taking at most one round per cell, and leaves
    // no cell undetermined.
    let system = System::default(5, 5);
    let mut game = Game::new(system);
    let mut rounds: u32 = 0;
    while game.next_round().is_some() {
        rounds += 1;
        assert!(rounds <= 25);
    }
    for i in 0..25 {
        assert!(game.system.grid.cells[i].get_entropy() <= 1);
    }
    assert_eq!(game.round, rounds);
}

#[test]
fn test_show_tokens() {
    let rules = wavegrid::rules::default_rules();
    let cells = vec![
        Node { data: vec![1, 0, 0, 0, 0] },
        Node { data: vec![1, 1, 0, 0, 0] },
        Node { data: vec![0, 0, 0, 0, 0] },
        Node { data: vec![0, 0, 0, 1, 0] },
    ];
    let grid = Grid { width: 2, height: 2, feature_width: 5, cells };
    let system = System { rules, grid };
    assert_eq!(system.show(), "WaterS2\nXXTree");
}

#[test]
fn test_show_fresh_grid() {
    let system = System::default(2, 3);
    assert_eq!(system.show(), "S5S5S5\nS5S5S5");
}

#[test]
fn test_show_two_digit_entropy() {
    // A wider tile set renders superposition entropies of two digits.
    let mut rows: Vec<Vec<usize>> = Vec::new();
    for _ in 0..12 {
        rows.push(vec![1; 12]);
    }
    let rules = wavegrid::rules::RuleTable::new(rows).unwrap();
    let cells = vec![Node { data: vec![1; 12] }];
    let grid = Grid { width: 1, height: 1, feature_width: 12, cells };
    let system = System { rules, grid };
    assert_eq!(system.show(), "S12");
}

#[test]
fn test_check_consistent() {
    let system = System::default(3, 3);
    assert!(system.check_consistent().is_ok());

    let rules = wavegrid::rules::default_rules();
    let cells = vec![
        Node { data: vec![1, 1, 1, 1, 1] },
        Node { data: vec![0, 0, 0, 0, 0] },
    ];
    let grid = Grid { width: 1, height: 2, feature_width: 5, cells };
    let broken = System { rules, grid };
    assert_eq!(broken.check_consistent(), Err(WfcError::Contradiction));
}

#[test]
fn test_with_rules_width_mismatch() {
    let two_wide = wavegrid::rules::RuleTable::new(vec![vec![1, 0], vec![0, 1]]).unwrap();
    assert_eq!(
        System::with_rules(two_wide, 3, 3).err(),
        Some(WfcError::ConfigMismatch)
    );
    let five_wide = wavegrid::rules::default_rules();
    assert!(System::with_rules(five_wide, 3, 3).is_ok());
}

#[test]
fn test_bench_completes() {
    wavegrid::system::bench();
}
