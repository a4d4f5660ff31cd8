use game_of_life::CellState;
use game_of_life::Dimension;
use game_of_life::World;
use game_of_life::simulate_game_of_life;

#[test]
fn dead_world_renders_framed_blanks() {
    let w = World::create_dead_world(Dimension::new(3, 2));
    assert_eq!(w.render(), "|---|\n|   |\n|   |\n|---|\n");
}

#[test]
fn live_cells_render_as_x() {
    let w = World::create_dead_world(Dimension::new(2, 1)).with_cell_state(
        0,
        0,
        CellState::ALIVE,
    );
    assert_eq!(w.render(), "|--|\n|x |\n|--|\n");
}

#[test]
fn glider_world_renders_the_tile() {
    let w = World::create_glider_world(Dimension::new(8, 8));
    let expected = "|--------|\n|        |\n|        |\n|  x     |\n|x x     |\n| xx     |\n|        |\n|        |\n|        |\n|--------|\n";
    assert_eq!(w.render(), expected);
}

#[test]
fn simulation_retains_every_generation() {
    let worlds = simulate_game_of_life(Dimension::new(5, 4), 6);
    assert_eq!(worlds.len(), 6);
    for w in worlds.iter() {
        assert_eq!(w.render().len(), (5 + 3) * (4 + 2));
    }
    // Each retained snapshot is the step of the one before it.
    for i in 1..worlds.len() {
        assert_eq!(worlds[i].render(), worlds[i - 1].populate().render());
    }
}

#[test]
fn simulation_with_no_iterations_keeps_the_initial_world() {
    let worlds = simulate_game_of_life(Dimension::new(4, 4), 0);
    assert_eq!(worlds.len(), 1);
}
