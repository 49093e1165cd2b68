use lbm_flow::grid::{cell_in_obstacle, wrap_step, ConfigError, Grid, RunConfig};
use lbm_flow::lattice::{dir_x, dir_y, opposite, weight_36, Q, WEIGHT_DENOM};
use lbm_flow::partition::row_blocks;

#[test]
fn weights_sum_to_one() {
    let total: u32 = (0..Q).map(|i| weight_36(i) as u32).sum();
    assert_eq!(total, WEIGHT_DENOM as u32);
    assert_eq!(weight_36(0), 16);
    assert_eq!(weight_36(3), 4);
    assert_eq!(weight_36(7), 1);
}

#[test]
fn opposite_is_involution_and_negates() {
    for i in 0..Q {
        let o = opposite(i);
        assert_eq!(opposite(o), i);
        assert_eq!(dir_x(o), -dir_x(i));
        assert_eq!(dir_y(o), -dir_y(i));
    }
    assert_eq!((dir_x(0), dir_y(0)), (0, 0));
    assert_eq!(opposite(1), 3);
    assert_eq!(opposite(5), 7);
    assert_eq!((dir_x(8), dir_y(8)), (1, -1));
}

#[test]
fn config_errors() {
    assert_eq!(RunConfig::new(0, 10, 10, 5), Err(ConfigError::ZeroWorkers));
    assert_eq!(RunConfig::new(2, 0, 10, 5), Err(ConfigError::ZeroWidth));
    assert_eq!(RunConfig::new(2, 10, 0, 5), Err(ConfigError::ZeroHeight));
    assert_eq!(RunConfig::new(2, usize::MAX, 2, 5), Err(ConfigError::TooLarge));
    assert_eq!(RunConfig::new(1, usize::MAX / 9, 2, 5), Err(ConfigError::TooLarge));
}

#[test]
fn config_ok() {
    let c = RunConfig::new(4, 400, 100, 1000).unwrap();
    assert_eq!(c.grid, Grid { width: 400, height: 100 });
    assert_eq!(c.workers, 4);
    assert_eq!(c.iterations, 1000);
    assert!(!c.is_sequential());
    assert!(RunConfig::new(1, 3, 3, 0).unwrap().is_sequential());
}

#[test]
fn wrap_step_is_periodic() {
    assert_eq!(wrap_step(0, -1, 5), 4);
    assert_eq!(wrap_step(4, 1, 5), 0);
    assert_eq!(wrap_step(2, 1, 5), 3);
    assert_eq!(wrap_step(2, -1, 5), 1);
    assert_eq!(wrap_step(2, 0, 5), 2);
    assert_eq!(wrap_step(0, 1, 1), 0);
}

#[test]
fn neighbor_wraps_both_axes() {
    let g = Grid { width: 4, height: 3 };
    assert_eq!(g.cells(), 12);
    assert_eq!(g.slots(), 108);
    // cell 0 is (0, 0); one step left and down wraps to (3, 2)
    assert_eq!(g.neighbor(0, -1, -1), 11);
    assert_eq!(g.neighbor(11, 1, 1), 0);
    assert_eq!(g.neighbor(5, 1, 0), 6);
    assert_eq!(g.row_start(2), 72);
}

#[test]
fn obstacle_mask_scenario_grid() {
    let g = Grid { width: 20, height: 10 };
    let mask = g.obstacle_mask();
    assert_eq!(mask.len(), 200);
    let solid: Vec<(usize, usize)> = (0..200).filter(|&c| mask[c]).map(|c| (c % 20, c / 20)).collect();
    assert_eq!(solid, vec![(5, 4), (4, 5), (5, 5), (6, 5), (5, 6)]);
    assert!(cell_in_obstacle(20, 10, 5, 5));
    assert!(!cell_in_obstacle(20, 10, 6, 6));
}

#[test]
fn obstacle_mask_default_grid() {
    let g = Grid { width: 400, height: 100 };
    let mask = g.obstacle_mask();
    // centre (100, 50), radius 10
    assert!(mask[50 * 400 + 100]);
    assert!(mask[50 * 400 + 110]);
    assert!(!mask[50 * 400 + 111]);
    assert!(mask[40 * 400 + 100]);
    assert!(!mask[39 * 400 + 100]);
    assert!(!mask[43 * 400 + 92]);
    assert!(mask[43 * 400 + 93]);
    assert!(mask[42 * 400 + 94]);
}

#[test]
fn tiny_grid_has_obstacle_at_origin() {
    // radius 0: only the centre cell (0, 0) is solid
    let g = Grid { width: 1, height: 1 };
    assert_eq!(g.obstacle_mask(), vec![true]);
}

#[test]
fn row_blocks_balanced() {
    assert_eq!(row_blocks(10, 4), vec![(0, 3), (3, 6), (6, 8), (8, 10)]);
    assert_eq!(row_blocks(10, 1), vec![(0, 10)]);
    assert_eq!(row_blocks(3, 8), vec![(0, 1), (1, 2), (2, 3)]);
    assert_eq!(row_blocks(9, 3), vec![(0, 3), (3, 6), (6, 9)]);
}
