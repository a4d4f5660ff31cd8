use vstd::prelude::*;

use crate::geom::Dimension;
use crate::rule::GameRule;
use crate::world::World;

verus! {

/// Runs the simulation: seeds a random world of the given extent, attaches
/// the default rule, and advances it generation by generation, retaining
/// every snapshot. The result holds the initial world followed by its
/// successors; each later entry is the step of the one before it.
pub fn simulate_game_of_life(dimension: Dimension, num_iterations: usize) -> (r: Vec<World>)
    requires
        1 <= dimension.width,
        1 <= dimension.height,
        dimension.width * dimension.height <= usize::MAX,
    ensures
        r@.len() == if num_iterations == 0 {
            1int
        } else {
            num_iterations as int
        },
        r@[0].wf(),
        r@[0].dim() == dimension,
        r@[0].rule().surviving_cell_rule@ == seq![2i32, 3i32],
        r@[0].rule().born_cell_rule@ == seq![3i32],
        forall|i: int| 0 <= i < r@.len() ==> (#[trigger] r@[i]).wf(),
        forall|i: int| 1 <= i < r@.len() ==> (#[trigger] r@[i]).is_step_of(r@[i - 1]),
{
    let mut initial_world = World::create_random_world(dimension);
    initial_world.set_rule(GameRule::default_rule());
    let mut worlds: Vec<World> = Vec::with_capacity(if num_iterations == 0 {
        1
    } else {
        num_iterations
    });
    worlds.push(initial_world);
    let mut x: usize = 1;
    while x < num_iterations
        invariant
            1 <= x as int,
            num_iterations == 0 ==> x == 1,
            num_iterations >= 1 ==> x as int <= num_iterations as int,
            worlds@.len() == x as int,
            worlds@[0].wf(),
            worlds@[0].dim() == dimension,
            worlds@[0].rule().surviving_cell_rule@ == seq![2i32, 3i32],
            worlds@[0].rule().born_cell_rule@ == seq![3i32],
            forall|i: int| 0 <= i < x as int ==> (#[trigger] worlds@[i]).wf(),
            forall|i: int| 1 <= i < x as int ==> (#[trigger] worlds@[i]).is_step_of(
                worlds@[i - 1],
            ),
        decreases num_iterations as int - x as int,
    {
        let populated_world = worlds[x - 1].populate();
        worlds.push(populated_world);
        x += 1;
    }
    worlds
}

} // verus!
