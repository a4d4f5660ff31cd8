//! A bounded-grid two-dimensional cellular automaton (a generalized Game of
//! Life). A [`World`] is a dense rectangular grid of cells together with a
//! configurable survival/birth [`GameRule`]; [`World::populate`] derives the
//! next generation under closed-boundary semantics (off-grid neighbors are
//! permanently dead), and a library of pattern generators seeds recognizable
//! initial structures (glider, spaceship, big crunch, random, dead).

mod geom;
mod laws;
mod patterns;
mod rule;
mod sim;
mod world;

pub use geom::Dimension;
pub use geom::Position;
pub use laws::coord_set;
pub use laws::has_default_rule;
pub use laws::is_block_world;
pub use laws::is_horizontal_blinker;
pub use laws::is_vertical_blinker;
pub use laws::lemma_blinker_horizontal_step;
pub use laws::lemma_blinker_period_two;
pub use laws::lemma_blinker_vertical_step;
pub use laws::lemma_block_still_life;
pub use laws::lemma_corner_neighbors;
pub use laws::is_lone_cell_world;
pub use laws::lemma_default_rule_allows;
pub use laws::lemma_lone_cell_dies;
pub use laws::lemma_step_deterministic;
pub use laws::lemma_step_preserves_coords;
pub use patterns::StateGenerator;
pub use rule::GameRule;
pub use sim::simulate_game_of_life;
pub use world::Cell;
pub use world::CellState;
pub use world::World;
