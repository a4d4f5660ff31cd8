use game_of_life::CellState;
use game_of_life::Dimension;
use game_of_life::GameRule;
use game_of_life::World;

/// A dead world with the given cells set alive.
fn world_with_live_cells(width: i32, height: i32, live: &[(i32, i32)]) -> World {
    let mut w = World::create_dead_world(Dimension::new(width, height));
    for &(x, y) in live {
        w = w.with_cell_state(x, y, CellState::ALIVE);
    }
    w
}

/// The live cells of `w`, in row-major order.
fn live_cells(w: &World, width: i32, height: i32) -> Vec<(i32, i32)> {
    let mut live = Vec::new();
    for y in 0..height {
        for x in 0..width {
            if w.is_alive(x, y) {
                live.push((x, y));
            }
        }
    }
    live
}

#[test]
fn lone_center_cell_dies() {
    // A single live cell at the center of a 3x3 grid: the center has 0 live
    // neighbors (not in {2,3}) and each neighbor sees exactly 1 (not 3).
    let w = world_with_live_cells(3, 3, &[(1, 1)]);
    let next = w.populate();
    assert!(live_cells(&next, 3, 3).is_empty());
}

#[test]
fn block_still_life_is_stable() {
    // A 2x2 block in the interior of a 4x4 grid: every live cell has exactly
    // 3 live neighbors, and no dead cell sees 3.
    let block = [(1, 1), (2, 1), (1, 2), (2, 2)];
    let w = world_with_live_cells(4, 4, &block);
    let next = w.populate();
    assert_eq!(live_cells(&next, 4, 4), block.to_vec());
    let again = next.populate();
    assert_eq!(live_cells(&again, 4, 4), block.to_vec());
}

#[test]
fn blinker_oscillates_with_period_two() {
    // A horizontal 3-cell row centered in a 5x5 grid becomes a vertical
    // column on the same midpoint, then returns to the row.
    let horizontal = [(1, 2), (2, 2), (3, 2)];
    let vertical = [(2, 1), (2, 2), (2, 3)];
    let w = world_with_live_cells(5, 5, &horizontal);
    let first = w.populate();
    assert_eq!(live_cells(&first, 5, 5), vertical.to_vec());
    let second = first.populate();
    assert_eq!(live_cells(&second, 5, 5), horizontal.to_vec());
}

#[test]
fn corner_cell_counts_only_in_range_neighbors() {
    // A block in the corner of the grid: the cell at (0, 0) has exactly its
    // 3 in-range neighbors alive, so it survives; nothing off-grid counts.
    let block = [(0, 0), (1, 0), (0, 1), (1, 1)];
    let w = world_with_live_cells(3, 3, &block);
    let next = w.populate();
    assert_eq!(live_cells(&next, 3, 3), block.to_vec());
}

#[test]
fn lone_corner_cell_dies_quietly() {
    let w = world_with_live_cells(4, 4, &[(0, 0)]);
    let next = w.populate();
    assert!(live_cells(&next, 4, 4).is_empty());
}

#[test]
fn stepping_is_deterministic() {
    let w = World::create_glider_world(Dimension::new(8, 8));
    let a = w.populate();
    let b = w.populate();
    assert_eq!(live_cells(&a, 8, 8), live_cells(&b, 8, 8));
    assert_eq!(a.render(), b.render());
}

#[test]
fn stepping_keeps_the_coordinate_set() {
    let w = World::create_glider_world(Dimension::new(8, 8));
    let next = w.populate();
    // Same extent: every in-range coordinate is present (queryable), every
    // out-of-range one is dead, and the rendering has the same shape.
    assert_eq!(next.render().len(), w.render().len());
    assert!(!next.is_alive(8, 0));
    assert!(!next.is_alive(0, 8));
}

#[test]
fn replaced_rule_governs_the_next_step() {
    // With surviving = {} and born = {0}, a dead 3x3 world births every cell
    // (each dead cell has 0 live neighbors), and the next step kills them
    // all (no count is in the surviving list).
    let mut w = World::create_dead_world(Dimension::new(3, 3));
    w.set_rule(GameRule::new(vec![], vec![0]));
    let all_alive = w.populate();
    let mut expected = Vec::new();
    for y in 0..3 {
        for x in 0..3 {
            expected.push((x, y));
        }
    }
    assert_eq!(live_cells(&all_alive, 3, 3), expected);
    let all_dead = all_alive.populate();
    assert!(live_cells(&all_dead, 3, 3).is_empty());
}
