use game_of_life::CellState;
use game_of_life::Dimension;
use game_of_life::GameRule;
use game_of_life::Position;
use game_of_life::World;

/// Whether `(x, y)` lies in some copy of `shape` translated by one of
/// `offsets` (the expected content of a shape-seeded world).
fn expected_alive(shape: &[(i32, i32)], offsets: &[(i32, i32)], x: i32, y: i32) -> bool {
    offsets.iter().any(|&(ox, oy)| shape.iter().any(|&(sx, sy)| (sx + ox, sy + oy) == (x, y)))
}

#[test]
fn position_shift_adds_componentwise() {
    let p = Position { x: 1, y: 2 };
    let q = p.shift(&Position { x: 3, y: -4 });
    assert_eq!(q.x, 4);
    assert_eq!(q.y, -2);
}

#[test]
fn dimension_new_keeps_fields() {
    let d = Dimension::new(40, 20);
    assert_eq!(d.width, 40);
    assert_eq!(d.height, 20);
}

#[test]
fn default_rule_is_survive_2_3_born_3() {
    let r = GameRule::default_rule();
    assert_eq!(r.surviving_cell_rule, vec![2, 3]);
    assert_eq!(r.born_cell_rule, vec![3]);
}

#[test]
fn rule_new_keeps_lists() {
    let r = GameRule::new(vec![1, 4], vec![0, 8]);
    assert_eq!(r.surviving_cell_rule, vec![1, 4]);
    assert_eq!(r.born_cell_rule, vec![0, 8]);
}

#[test]
fn dead_world_has_every_cell_dead() {
    let w = World::create_dead_world(Dimension::new(4, 3));
    for y in 0..3 {
        for x in 0..4 {
            assert!(!w.is_alive(x, y));
        }
    }
}

#[test]
fn out_of_range_queries_report_dead() {
    let w = World::create_dead_world(Dimension::new(3, 3)).with_cell_state(
        0,
        0,
        CellState::ALIVE,
    );
    assert!(w.is_alive(0, 0));
    assert!(!w.is_alive(-1, 0));
    assert!(!w.is_alive(0, -1));
    assert!(!w.is_alive(3, 0));
    assert!(!w.is_alive(0, 3));
}

#[test]
fn with_cell_state_sets_and_clears_one_cell() {
    let w = World::create_dead_world(Dimension::new(3, 3)).with_cell_state(
        1,
        2,
        CellState::ALIVE,
    );
    assert!(w.is_alive(1, 2));
    assert!(!w.is_alive(2, 1));
    let w = w.with_cell_state(1, 2, CellState::DEAD);
    assert!(!w.is_alive(1, 2));
}

#[test]
fn glider_world_first_tile_holds_exactly_the_glider() {
    // In an 8x8 grid only the tile with origin (0, 2) lands inside; relative
    // to that origin the five glider cells (0,1),(1,2),(2,0),(2,1),(2,2) are
    // alive and no other cell of the grid is.
    let w = World::create_glider_world(Dimension::new(8, 8));
    let live = [(0, 3), (1, 4), (2, 2), (2, 3), (2, 4)];
    for y in 0..8 {
        for x in 0..8 {
            assert_eq!(w.is_alive(x, y), live.contains(&(x, y)), "cell ({}, {})", x, y);
        }
    }
}

#[test]
fn glider_world_replicates_at_every_tile_origin() {
    let shape = [(0, 1), (1, 2), (2, 0), (2, 1), (2, 2)];
    let offsets = [(0, 8), (0, 2), (8, 8), (8, 2), (15, 8), (15, 2), (22, 8), (22, 2)];
    let w = World::create_glider_world(Dimension::new(30, 12));
    for y in 0..12 {
        for x in 0..30 {
            assert_eq!(
                w.is_alive(x, y),
                expected_alive(&shape, &offsets, x, y),
                "cell ({}, {})",
                x,
                y
            );
        }
    }
}

#[test]
fn spaceship_world_replicates_at_every_tile_origin() {
    let shape = [
        (1, 0),
        (2, 0),
        (3, 0),
        (4, 0),
        (0, 1),
        (4, 1),
        (4, 2),
        (0, 3),
        (3, 3),
    ];
    let offsets = [(0, 8), (0, 2), (8, 8), (8, 2)];
    let w = World::create_spaceship_world(Dimension::new(16, 12));
    for y in 0..12 {
        for x in 0..16 {
            assert_eq!(
                w.is_alive(x, y),
                expected_alive(&shape, &offsets, x, y),
                "cell ({}, {})",
                x,
                y
            );
        }
    }
}

#[test]
fn big_crunch_world_is_centered() {
    let shape = [
        (0, 0),
        (1, 0),
        (2, 0),
        (0, 1),
        (0, 2),
        (2, 1),
        (2, 2),
        (0, 6),
        (1, 6),
        (2, 6),
        (0, 4),
        (0, 5),
        (2, 4),
        (2, 5),
    ];
    // width 10, height 12: the single offset is (10/2 - 2, 12/2 - 3) = (3, 3).
    let offsets = [(3, 3)];
    let w = World::create_big_crunch_world(Dimension::new(10, 12));
    for y in 0..12 {
        for x in 0..10 {
            assert_eq!(
                w.is_alive(x, y),
                expected_alive(&shape, &offsets, x, y),
                "cell ({}, {})",
                x,
                y
            );
        }
    }
}

#[test]
fn random_world_has_the_requested_extent() {
    let w = World::create_random_world(Dimension::new(5, 4));
    // One glyph per cell plus the frame: each line is width + 3 characters,
    // and there are height + 2 lines.
    assert_eq!(w.render().len(), (5 + 3) * (4 + 2));
    assert!(!w.is_alive(5, 0));
    assert!(!w.is_alive(0, 4));
}
