use vstd::prelude::*;
use vstd::seq_lib::lemma_seq_contains_after_push;
use vstd::string::StringExecFns;

use crate::geom::Dimension;
use crate::geom::Position;
use crate::patterns::StateGenerator;
use crate::patterns::generator_alive;
use crate::patterns::glider_offsets;
use crate::patterns::glider_shape;
use crate::patterns::big_crunch_offset;
use crate::patterns::big_crunch_shape;
use crate::patterns::in_shape_at;
use crate::patterns::in_translated_shapes;
use crate::patterns::lemma_translated_take_step;
use crate::patterns::spaceship_offsets;
use crate::patterns::spaceship_shape;
use crate::rule::GameRule;
use crate::rule::contains_count;
use crate::rule::rule_allows;
use crate::rule::same_rule;

verus! {

/// The two states a grid cell can be in.
#[derive(Copy, Clone, PartialEq, Eq, Structural, Debug)]
pub enum CellState {
    ALIVE,
    DEAD,
}

/// A cell of the grid; it has no identity beyond its state and its owning
/// coordinate.
#[derive(Copy, Clone, PartialEq, Eq, Structural, Debug)]
pub struct Cell {
    pub state: CellState,
}

/// A generation snapshot: one cell for every coordinate of a rectangular
/// grid, the grid's extent, and the active rule. A world is immutable after
/// construction (apart from replacing the rule); [`World::populate`] returns
/// a brand-new successor world and never mutates in place.
///
/// The grid is stored as a dense row-major vector: the cell at `(x, y)` is
/// entry `y * width + x`. This makes the dense-mapping invariant (exactly one
/// cell per in-range coordinate) structural.
pub struct World {
    cells: Vec<Cell>,
    dimension: Dimension,
    rule: GameRule,
}

impl World {
    /// The grid extent.
    pub closed spec fn dim(self) -> Dimension {
        self.dimension
    }

    /// The dense row-major grid: entry `y * width + x` holds the cell at
    /// `(x, y)`.
    pub closed spec fn grid(self) -> Seq<Cell> {
        self.cells@
    }

    /// The active survival/birth rule.
    pub closed spec fn rule(self) -> GameRule {
        self.rule
    }

    /// The number of grid coordinates.
    pub open spec fn area(self) -> int {
        self.dim().width * self.dim().height
    }

    /// Whether `(x, y)` lies inside the grid.
    pub open spec fn in_range(self, x: int, y: int) -> bool {
        0 <= x < self.dim().width && 0 <= y < self.dim().height
    }

    /// Well-formedness: a positive extent and exactly one stored cell per
    /// in-range coordinate.
    pub open spec fn wf(self) -> bool {
        &&& 1 <= self.dim().width
        &&& 1 <= self.dim().height
        &&& self.grid().len() == self.area()
    }

    /// Whether the cell at `(x, y)` is alive. Coordinates outside the grid
    /// are never stored and are permanently dead when queried (closed
    /// boundary, no wraparound).
    pub open spec fn spec_alive(self, x: int, y: int) -> bool {
        self.in_range(x, y) && self.grid()[y * self.dim().width + x].state is ALIVE
    }

    /// 1 if the cell at `(x, y)` is alive, else 0.
    pub open spec fn live_at(self, x: int, y: int) -> int {
        if self.spec_alive(x, y) {
            1
        } else {
            0
        }
    }

    /// The number of live cells among the 8 neighbors of `(x, y)`; off-grid
    /// neighbors contribute zero.
    pub open spec fn neighbor_count(self, x: int, y: int) -> int {
        self.live_at(x - 1, y - 1) + self.live_at(x, y - 1) + self.live_at(x + 1, y - 1)
            + self.live_at(x - 1, y) + self.live_at(x + 1, y) + self.live_at(x - 1, y + 1)
            + self.live_at(x, y + 1) + self.live_at(x + 1, y + 1)
    }

    /// `self` is the generation that follows `prev`: same extent, same rule,
    /// and each cell's new state is the rule applied to its old state and its
    /// old live-neighbor count.
    pub open spec fn is_step_of(self, prev: World) -> bool {
        &&& self.wf()
        &&& self.dim() == prev.dim()
        &&& same_rule(self.rule(), prev.rule())
        &&& forall|x: int, y: int|
            prev.in_range(x, y) ==> #[trigger] self.spec_alive(x, y) == rule_allows(
                prev.rule(),
                prev.spec_alive(x, y),
                prev.neighbor_count(x, y),
            )
    }

    /// A world seeded by `state_generator`: one cell per in-range coordinate,
    /// generated in row-major order, with the default rule attached. For
    /// every generator but the random one the seeded content is exactly what
    /// the generator's pattern dictates.
    pub fn create_initial_world(dimension: Dimension, state_generator: &StateGenerator) -> (r:
        World)
        requires
            1 <= dimension.width,
            1 <= dimension.height,
            dimension.width * dimension.height <= usize::MAX,
        ensures
            r.wf(),
            r.dim() == dimension,
            r.rule().surviving_cell_rule@ == seq![2i32, 3i32],
            r.rule().born_cell_rule@ == seq![3i32],
            !(state_generator is Random) ==> forall|x: int, y: int|
                r.in_range(x, y) ==> #[trigger] r.spec_alive(x, y) == generator_alive(
                    *state_generator,
                    dimension,
                    x,
                    y,
                ),
    {
        let width = dimension.width;
        let height = dimension.height;
        let mut cells: Vec<Cell> = Vec::new();
        let mut y: i32 = 0;
        while y < height
            invariant
                1 <= width == dimension.width,
                1 <= height == dimension.height,
                0 <= y <= height,
                cells@.len() == y * width,
                !(state_generator is Random) ==> forall|xx: int, yy: int|
                    0 <= xx < width && 0 <= yy < y ==> (#[trigger] cells@[yy * width
                        + xx].state is ALIVE) == generator_alive(
                        *state_generator,
                        dimension,
                        xx,
                        yy,
                    ),
            decreases height - y,
        {
            let mut x: i32 = 0;
            while x < width
                invariant
                    1 <= width == dimension.width,
                    1 <= height == dimension.height,
                    0 <= y < height,
                    0 <= x <= width,
                    cells@.len() == y * width + x,
                    !(state_generator is Random) ==> forall|xx: int, yy: int|
                        0 <= xx < width && 0 <= yy < y ==> (#[trigger] cells@[yy * width
                            + xx].state is ALIVE) == generator_alive(
                            *state_generator,
                            dimension,
                            xx,
                            yy,
                        ),
                    !(state_generator is Random) ==> forall|xx: int|
                        0 <= xx < x ==> (#[trigger] cells@[y * width + xx].state is ALIVE)
                            == generator_alive(*state_generator, dimension, xx, y as int),
                decreases width - x,
            {
                let position = Position { x, y };
                let state = World::generate_cell_state(&dimension, state_generator, &position);
                let ghost pre = cells@;
                cells.push(Cell { state });
                proof {
                    if !(state_generator is Random) {
                        assert forall|xx: int, yy: int|
                            0 <= xx < width && 0 <= yy < y implies (#[trigger] cells@[yy * width
                            + xx].state is ALIVE) == generator_alive(
                            *state_generator,
                            dimension,
                            xx,
                            yy,
                        ) by {
                            lemma_row_major_order(width as int, xx, yy, x as int, y as int);
                            assert(cells@[yy * width + xx] == pre[yy * width + xx]);
                        };
                    }
                }
                x += 1;
            }
            proof {
                assert((y + 1) * width == y * width + width) by (nonlinear_arith);
            }
            y += 1;
        }
        let r = World { cells, dimension, rule: GameRule::default_rule() };
        proof {
            assert(r.grid().len() == r.area()) by {
                assert(height * width == width * height) by (nonlinear_arith);
            };
            if !(state_generator is Random) {
                assert forall|x: int, y: int| r.in_range(x, y) implies #[trigger] r.spec_alive(
                    x,
                    y,
                ) == generator_alive(*state_generator, dimension, x, y) by {
                    lemma_row_major_index(width as int, height as int, x, y);
                };
            }
        }
        r
    }

    /// Replaces the active rule; this affects only subsequent calls to
    /// `populate`, never the current generation's content.
    pub fn set_rule(&mut self, rule: GameRule)
        ensures
            final(self).rule() == rule,
            final(self).dim() == old(self).dim(),
            final(self).grid() == old(self).grid(),
    {
        self.rule = rule;
    }

    /// A world of the given extent in which every cell is dead.
    pub fn create_dead_world(dimension: Dimension) -> (r: World)
        requires
            1 <= dimension.width,
            1 <= dimension.height,
            dimension.width * dimension.height <= usize::MAX,
        ensures
            r.wf(),
            r.dim() == dimension,
            r.rule().surviving_cell_rule@ == seq![2i32, 3i32],
            r.rule().born_cell_rule@ == seq![3i32],
            forall|x: int, y: int| r.in_range(x, y) ==> !#[trigger] r.spec_alive(x, y),
    {
        World::create_initial_world(dimension, &StateGenerator::Dead)
    }

    /// A world of the given extent in which each cell was seeded by an
    /// independent unbiased coin flip; nothing is promised of the content.
    pub fn create_random_world(dimension: Dimension) -> (r: World)
        requires
            1 <= dimension.width,
            1 <= dimension.height,
            dimension.width * dimension.height <= usize::MAX,
        ensures
            r.wf(),
            r.dim() == dimension,
            r.rule().surviving_cell_rule@ == seq![2i32, 3i32],
            r.rule().born_cell_rule@ == seq![3i32],
    {
        World::create_initial_world(dimension, &StateGenerator::Random)
    }

    /// A world seeded with the glider shape replicated at its fixed tile
    /// origins: a cell is alive iff it lies in one of the translated copies.
    pub fn create_glider_world(dimension: Dimension) -> (r: World)
        requires
            1 <= dimension.width,
            1 <= dimension.height,
            dimension.width * dimension.height <= usize::MAX,
        ensures
            r.wf(),
            r.dim() == dimension,
            r.rule().surviving_cell_rule@ == seq![2i32, 3i32],
            r.rule().born_cell_rule@ == seq![3i32],
            forall|x: int, y: int|
                r.in_range(x, y) ==> #[trigger] r.spec_alive(x, y) == in_translated_shapes(
                    glider_shape(),
                    glider_offsets(),
                    x,
                    y,
                ),
    {
        World::create_initial_world(dimension, &StateGenerator::Glider)
    }

    /// A world seeded with the lightweight-spaceship shape replicated at its
    /// fixed tile origins.
    pub fn create_spaceship_world(dimension: Dimension) -> (r: World)
        requires
            1 <= dimension.width,
            1 <= dimension.height,
            dimension.width * dimension.height <= usize::MAX,
        ensures
            r.wf(),
            r.dim() == dimension,
            r.rule().surviving_cell_rule@ == seq![2i32, 3i32],
            r.rule().born_cell_rule@ == seq![3i32],
            forall|x: int, y: int|
                r.in_range(x, y) ==> #[trigger] r.spec_alive(x, y) == in_translated_shapes(
                    spaceship_shape(),
                    spaceship_offsets(),
                    x,
                    y,
                ),
    {
        World::create_initial_world(dimension, &StateGenerator::Spaceship)
    }

    /// A world seeded with the big-crunch rings translated by a single
    /// offset computed from the grid's center, so the pattern is centered
    /// regardless of grid size.
    pub fn create_big_crunch_world(dimension: Dimension) -> (r: World)
        requires
            1 <= dimension.width,
            1 <= dimension.height,
            dimension.width * dimension.height <= usize::MAX,
        ensures
            r.wf(),
            r.dim() == dimension,
            r.rule().surviving_cell_rule@ == seq![2i32, 3i32],
            r.rule().born_cell_rule@ == seq![3i32],
            forall|x: int, y: int|
                r.in_range(x, y) ==> #[trigger] r.spec_alive(x, y) == in_translated_shapes(
                    big_crunch_shape(),
                    seq![big_crunch_offset(dimension)],
                    x,
                    y,
                ),
    {
        World::create_initial_world(dimension, &StateGenerator::BigCrunch)
    }

    /// The state `state_generator` assigns to `grid_position`; exact for
    /// every generator but the random one.
    fn generate_cell_state(
        dimension: &Dimension,
        state_generator: &StateGenerator,
        grid_position: &Position,
    ) -> (r: CellState)
        requires
            1 <= dimension.width,
            1 <= dimension.height,
        ensures
            !(*state_generator is Random) ==> (r is ALIVE == generator_alive(
                *state_generator,
                *dimension,
                grid_position.x as int,
                grid_position.y as int,
            )),
    {
        match state_generator {
            StateGenerator::Dead => World::dead_world_state_generator(dimension, grid_position),
            StateGenerator::Random => World::random_world_state_generator(
                dimension,
                grid_position,
            ),
            StateGenerator::Glider => World::glider_world_state_generator(
                dimension,
                grid_position,
            ),
            StateGenerator::Spaceship => World::spaceship_world_state_generator(
                dimension,
                grid_position,
            ),
            StateGenerator::BigCrunch => World::big_crunch_world_state_generator(
                dimension,
                grid_position,
            ),
        }
    }

    /// Every cell is dead.
    fn dead_world_state_generator(_dimension: &Dimension, _grid_position: &Position) -> (r:
        CellState)
        ensures
            r is DEAD,
    {
        CellState::DEAD
    }

    /// An independent unbiased coin flip per coordinate; nothing is promised
    /// of the outcome.
    fn random_world_state_generator(
        _dimension: &Dimension,
        _grid_position: &Position,
    ) -> CellState {
        if random_bool() {
            CellState::ALIVE
        } else {
            CellState::DEAD
        }
    }

    /// Alive exactly on the union of the glider copies.
    fn glider_world_state_generator(_dimension: &Dimension, grid_position: &Position) -> (r:
        CellState)
        ensures
            r is ALIVE == in_translated_shapes(
                glider_shape(),
                glider_offsets(),
                grid_position.x as int,
                grid_position.y as int,
            ),
    {
        let glider: Vec<Position> = vec![
            Position { x: 0, y: 1 },
            Position { x: 1, y: 2 },
            Position { x: 2, y: 0 },
            Position { x: 2, y: 1 },
            Position { x: 2, y: 2 },
        ];
        let offsets: Vec<Position> = vec![
            Position { x: 0, y: 8 },
            Position { x: 0, y: 2 },
            Position { x: 8, y: 8 },
            Position { x: 8, y: 2 },
            Position { x: 15, y: 8 },
            Position { x: 15, y: 2 },
            Position { x: 22, y: 8 },
            Position { x: 22, y: 2 },
        ];
        proof {
            assert(glider@ =~= glider_shape());
            assert(offsets@ =~= glider_offsets());
        }
        let all_gliders = World::apply_offsets_to_shape(&glider, &offsets);
        World::get_cell_state_in_vector(&all_gliders, grid_position)
    }

    /// Alive exactly on the union of the spaceship copies.
    fn spaceship_world_state_generator(_dimension: &Dimension, grid_position: &Position) -> (r:
        CellState)
        ensures
            r is ALIVE == in_translated_shapes(
                spaceship_shape(),
                spaceship_offsets(),
                grid_position.x as int,
                grid_position.y as int,
            ),
    {
        let spaceship: Vec<Position> = vec![
            Position { x: 1, y: 0 },
            Position { x: 2, y: 0 },
            Position { x: 3, y: 0 },
            Position { x: 4, y: 0 },
            Position { x: 0, y: 1 },
            Position { x: 4, y: 1 },
            Position { x: 4, y: 2 },
            Position { x: 0, y: 3 },
            Position { x: 3, y: 3 },
        ];
        let offsets: Vec<Position> = vec![
            Position { x: 0, y: 8 },
            Position { x: 0, y: 2 },
            Position { x: 8, y: 8 },
            Position { x: 8, y: 2 },
        ];
        proof {
            assert(spaceship@ =~= spaceship_shape());
            assert(offsets@ =~= spaceship_offsets());
        }
        let all_spaceships = World::apply_offsets_to_shape(&spaceship, &offsets);
        World::get_cell_state_in_vector(&all_spaceships, grid_position)
    }

    /// Alive exactly on the big-crunch rings translated to the grid's
    /// center.
    fn big_crunch_world_state_generator(dimension: &Dimension, grid_position: &Position) -> (r:
        CellState)
        requires
            1 <= dimension.width,
            1 <= dimension.height,
        ensures
            r is ALIVE == in_translated_shapes(
                big_crunch_shape(),
                seq![big_crunch_offset(*dimension)],
                grid_position.x as int,
                grid_position.y as int,
            ),
    {
        let big_crunch_initial_state: Vec<Position> = vec![
            Position { x: 0, y: 0 },
            Position { x: 1, y: 0 },
            Position { x: 2, y: 0 },
            Position { x: 0, y: 1 },
            Position { x: 0, y: 2 },
            Position { x: 2, y: 1 },
            Position { x: 2, y: 2 },
            Position { x: 0, y: 6 },
            Position { x: 1, y: 6 },
            Position { x: 2, y: 6 },
            Position { x: 0, y: 4 },
            Position { x: 0, y: 5 },
            Position { x: 2, y: 4 },
            Position { x: 2, y: 5 },
        ];
        let offset = Position { x: dimension.width / 2 - 2, y: dimension.height / 2 - 3 };
        let offsets: Vec<Position> = vec![offset];
        proof {
            assert(big_crunch_initial_state@ =~= big_crunch_shape());
            assert(offset == big_crunch_offset(*dimension));
            assert(offsets@ =~= seq![big_crunch_offset(*dimension)]);
        }
        let translated = World::apply_offsets_to_shape(&big_crunch_initial_state, &offsets);
        World::get_cell_state_in_vector(&translated, grid_position)
    }

    /// ALIVE iff `position` occurs in `vector`.
    fn get_cell_state_in_vector(vector: &Vec<Position>, position: &Position) -> (r: CellState)
        ensures
            r is ALIVE == vector@.contains(*position),
    {
        let mut k: usize = 0;
        while k < vector.len()
            invariant
                0 <= k <= vector@.len(),
                forall|i: int| 0 <= i < k ==> vector@[i] != *position,
            decreases vector@.len() - k,
        {
            if vector[k] == *position {
                proof {
                    assert(vector@[k as int] == *position);
                }
                return CellState::ALIVE;
            }
            k += 1;
        }
        CellState::DEAD
    }

    /// The union of all copies of `shape`, one translated by each position
    /// in `offsets`: a position occurs in the result iff it lies in some
    /// translated copy.
    fn apply_offsets_to_shape(shape: &Vec<Position>, offsets: &Vec<Position>) -> (r: Vec<Position>)
        requires
            forall|i: int, j: int|
                #![trigger shape@[i], offsets@[j]]
                0 <= i < shape@.len() && 0 <= j < offsets@.len() ==> i32::MIN <= shape@[i].x
                    + offsets@[j].x <= i32::MAX && i32::MIN <= shape@[i].y + offsets@[j].y
                    <= i32::MAX,
        ensures
            forall|p: Position| #[trigger]
                r@.contains(p) <==> in_translated_shapes(
                    shape@,
                    offsets@,
                    p.x as int,
                    p.y as int,
                ),
    {
        broadcast use lemma_seq_contains_after_push;

        let mut positions: Vec<Position> = Vec::new();
        let mut j: usize = 0;
        while j < offsets.len()
            invariant
                0 <= j <= offsets@.len(),
                forall|i: int, jj: int|
                    #![trigger shape@[i], offsets@[jj]]
                    0 <= i < shape@.len() && 0 <= jj < offsets@.len() ==> i32::MIN <= shape@[i].x
                        + offsets@[jj].x <= i32::MAX && i32::MIN <= shape@[i].y + offsets@[jj].y
                        <= i32::MAX,
                forall|p: Position| #[trigger]
                    positions@.contains(p) <==> in_translated_shapes(
                        shape@,
                        offsets@.take(j as int),
                        p.x as int,
                        p.y as int,
                    ),
            decreases offsets@.len() - j,
        {
            let offset = offsets[j];
            let mut i: usize = 0;
            while i < shape.len()
                invariant
                    0 <= i <= shape@.len(),
                    0 <= j < offsets@.len(),
                    offset == offsets@[j as int],
                    forall|ii: int, jj: int|
                        #![trigger shape@[ii], offsets@[jj]]
                        0 <= ii < shape@.len() && 0 <= jj < offsets@.len() ==> i32::MIN
                            <= shape@[ii].x + offsets@[jj].x <= i32::MAX && i32::MIN
                            <= shape@[ii].y + offsets@[jj].y <= i32::MAX,
                    forall|p: Position| #[trigger]
                        positions@.contains(p) <==> (in_translated_shapes(
                            shape@,
                            offsets@.take(j as int),
                            p.x as int,
                            p.y as int,
                        ) || in_shape_at(
                            shape@.take(i as int),
                            offset,
                            p.x as int,
                            p.y as int,
                        )),
                decreases shape@.len() - i,
            {
                let q = shape[i].shift(&offset);
                let ghost pre = positions@;
                positions.push(q);
                proof {
                    let si = shape@.take(i as int);
                    let si1 = shape@.take(i + 1);
                    assert(si1[i as int] == shape@[i as int]);
                    assert(positions@ == pre.push(q));
                    assert forall|p: Position| #[trigger]
                        positions@.contains(p) <==> (in_translated_shapes(
                            shape@,
                            offsets@.take(j as int),
                            p.x as int,
                            p.y as int,
                        ) || in_shape_at(si1, offset, p.x as int, p.y as int)) by {
                        lemma_seq_contains_after_push(pre, q, p);
                        assert(positions@.contains(p) <==> (p == q || pre.contains(p)));
                        if positions@.contains(p) {
                            if p == q {
                                assert(q.x == si1[i as int].x + offset.x);
                                assert(q.y == si1[i as int].y + offset.y);
                                assert(in_shape_at(si1, offset, p.x as int, p.y as int));
                            } else {
                                if in_shape_at(si, offset, p.x as int, p.y as int) {
                                    let ii = choose|ii: int|
                                        0 <= ii < si.len() && p.x == si[ii].x + offset.x && p.y
                                            == si[ii].y + offset.y;
                                    assert(si1[ii] == si[ii]);
                                    assert(in_shape_at(si1, offset, p.x as int, p.y as int));
                                }
                            }
                        } else {
                            if in_shape_at(si1, offset, p.x as int, p.y as int) {
                                let ii = choose|ii: int|
                                    0 <= ii < si1.len() && p.x == si1[ii].x + offset.x && p.y
                                        == si1[ii].y + offset.y;
                                if ii < i {
                                    assert(si[ii] == si1[ii]);
                                    assert(in_shape_at(si, offset, p.x as int, p.y as int));
                                    assert(pre.contains(p));
                                    assert(false);
                                } else {
                                    assert(si1[ii] == shape@[i as int]);
                                    assert(p.x == q.x && p.y == q.y);
                                    assert(p == q);
                                    assert(false);
                                }
                            }
                        }
                    };
                }
                i += 1;
            }
            proof {
                assert(shape@.take(shape@.len() as int) =~= shape@);
                assert forall|p: Position| #[trigger]
                    positions@.contains(p) <==> in_translated_shapes(
                        shape@,
                        offsets@.take(j + 1),
                        p.x as int,
                        p.y as int,
                    ) by {
                    lemma_translated_take_step(
                        shape@,
                        offsets@,
                        j as int,
                        p.x as int,
                        p.y as int,
                    );
                    assert(in_shape_at(shape@, offsets@[j as int], p.x as int, p.y as int)
                        == in_shape_at(shape@, offset, p.x as int, p.y as int));
                };
            }
            j += 1;
        }
        proof {
            assert(offsets@.take(offsets@.len() as int) =~= offsets@);
        }
        positions
    }

    /// Whether the cell at `(x, y)` is alive; coordinates outside the grid
    /// report dead.
    pub fn is_alive(&self, x: i32, y: i32) -> (r: bool)
        requires
            self.wf(),
        ensures
            r == self.spec_alive(x as int, y as int),
    {
        match self.get_cell_in_world(&Position { x, y }) {
            Some(cell) => match cell.state {
                CellState::ALIVE => true,
                CellState::DEAD => false,
            },
            None => false,
        }
    }

    /// This world with the cell at `(x, y)` set to `state`; every other
    /// cell, the extent and the rule are unchanged.
    pub fn with_cell_state(self, x: i32, y: i32, state: CellState) -> (r: World)
        requires
            self.wf(),
            self.in_range(x as int, y as int),
        ensures
            r.wf(),
            r.dim() == self.dim(),
            r.rule() == self.rule(),
            forall|a: int, b: int|
                r.in_range(a, b) ==> #[trigger] r.spec_alive(a, b) == (if a == x && b == y {
                    state is ALIVE
                } else {
                    self.spec_alive(a, b)
                }),
    {
        let mut w = self;
        let n = w.cells.len();
        proof {
            lemma_row_major_index(w.dim().width as int, w.dim().height as int, x as int, y as int);
            assert(y * w.dim().width + x < n);
        }
        let idx: usize = (y as usize) * (w.dimension.width as usize) + (x as usize);
        w.cells.set(idx, Cell { state });
        proof {
            let width = w.dim().width as int;
            let height = w.dim().height as int;
            assert forall|a: int, b: int| w.in_range(a, b) implies #[trigger] w.spec_alive(a, b)
                == (if a == x && b == y {
                state is ALIVE
            } else {
                self.spec_alive(a, b)
            }) by {
                lemma_row_major_index(width, height, a, b);
                if !(a == x && b == y) {
                    if b * width + a == y * width + x {
                        lemma_row_major_injective(width, a, b, x as int, y as int);
                        assert(false);
                    }
                }
            };
        }
        w
    }

    /// The glyphs of row `y` for columns `0..n`: one character per cell.
    pub open spec fn row_cells(self, y: int, n: int) -> Seq<char>
        decreases n,
    {
        if n <= 0 {
            Seq::empty()
        } else {
            self.row_cells(y, n - 1).push(cell_char(self.spec_alive(n - 1, y)))
        }
    }

    /// One rendered row: framed by `|` on both sides, ending in a newline.
    pub open spec fn row_line(self, y: int) -> Seq<char> {
        seq!['|'] + self.row_cells(y, self.dim().width as int) + seq!['|', '\n']
    }

    /// The first `n` rendered rows, top to bottom.
    pub open spec fn rows_upto(self, n: int) -> Seq<char>
        decreases n,
    {
        if n <= 0 {
            Seq::empty()
        } else {
            self.rows_upto(n - 1) + self.row_line(n - 1)
        }
    }

    /// The full text rendering: a frame line matching the grid width, each
    /// row top to bottom, and a closing frame line identical to the top. No
    /// trailing metadata.
    pub open spec fn render_spec(self) -> Seq<char> {
        bar_line(self.dim().width as int) + self.rows_upto(self.dim().height as int) + bar_line(
            self.dim().width as int,
        )
    }

    /// The textual rendering of this generation, exactly as `render_spec`
    /// lays it out.
    pub fn render(&self) -> (r: String)
        requires
            self.wf(),
        ensures
            r@ == self.render_spec(),
    {
        let mut s = String::new();
        World::push_bar(&mut s, self.dimension.width);
        proof {
            assert(s@ =~= bar_line(self.dim().width as int) + self.rows_upto(0));
        }
        let mut y: i32 = 0;
        while y < self.dimension.height
            invariant
                self.wf(),
                0 <= y <= self.dim().height,
                s@ == bar_line(self.dim().width as int) + self.rows_upto(y as int),
            decreases self.dim().height - y,
        {
            self.push_row(&mut s, y);
            proof {
                assert(s@ =~= bar_line(self.dim().width as int) + self.rows_upto(y + 1));
            }
            y += 1;
        }
        World::push_bar(&mut s, self.dimension.width);
        proof {
            assert(s@ =~= self.render_spec());
        }
        s
    }

    /// Appends one frame line: `|`, `width` dashes, `|`, newline.
    fn push_bar(s: &mut String, width: i32)
        requires
            width >= 0,
        ensures
            final(s)@ == old(s)@ + bar_line(width as int),
    {
        proof {
            reveal_strlit("|");
            reveal_strlit("-");
            reveal_strlit("|\n");
        }
        s.append("|");
        proof {
            assert(s@ =~= old(s)@ + seq!['|'] + dashes(0));
        }
        let mut i: i32 = 0;
        while i < width
            invariant
                0 <= i <= width,
                s@ == old(s)@ + seq!['|'] + dashes(i as int),
            decreases width - i,
        {
            s.append("-");
            proof {
                reveal_strlit("-");
                assert(s@ =~= old(s)@ + seq!['|'] + dashes(i + 1));
            }
            i += 1;
        }
        s.append("|\n");
        proof {
            assert(s@ =~= old(s)@ + bar_line(width as int));
        }
    }

    /// Appends the rendered row `y`: `|`, one glyph per column, `|`,
    /// newline.
    fn push_row(&self, s: &mut String, y: i32)
        requires
            self.wf(),
            0 <= y < self.dim().height,
        ensures
            final(s)@ == old(s)@ + self.row_line(y as int),
    {
        proof {
            reveal_strlit("|");
            reveal_strlit("x");
            reveal_strlit(" ");
            reveal_strlit("|\n");
        }
        s.append("|");
        proof {
            assert(s@ =~= old(s)@ + seq!['|'] + self.row_cells(y as int, 0));
        }
        let mut x: i32 = 0;
        while x < self.dimension.width
            invariant
                self.wf(),
                0 <= y < self.dim().height,
                0 <= x <= self.dim().width,
                s@ == old(s)@ + seq!['|'] + self.row_cells(y as int, x as int),
            decreases self.dim().width - x,
        {
            if self.is_alive(x, y) {
                s.append("x");
            } else {
                s.append(" ");
            }
            proof {
                reveal_strlit("x");
                reveal_strlit(" ");
                assert(s@ =~= old(s)@ + seq!['|'] + self.row_cells(y as int, x + 1));
            }
            x += 1;
        }
        s.append("|\n");
        proof {
            assert(s@ =~= old(s)@ + self.row_line(y as int));
        }
    }

    /// The stored cell at `position`, or `None` for a coordinate outside the
    /// grid.
    fn get_cell_in_world(&self, position: &Position) -> (r: Option<Cell>)
        requires
            self.wf(),
        ensures
            r is Some <==> self.in_range(position.x as int, position.y as int),
            r matches Some(c) ==> c == self.grid()[position.y * self.dim().width + position.x],
    {
        if 0 <= position.x && position.x < self.dimension.width && 0 <= position.y && position.y
            < self.dimension.height {
            let n = self.cells.len();
            proof {
                lemma_row_major_index(
                    self.dim().width as int,
                    self.dim().height as int,
                    position.x as int,
                    position.y as int,
                );
                assert(position.y * self.dim().width + position.x < n);
            }
            let idx: usize = (position.y as usize) * (self.dimension.width as usize) + (
            position.x as usize);
            Some(self.cells[idx])
        } else {
            None
        }
    }

    /// The contribution of the cell at `position` to a neighbor count: 1 if
    /// it is stored and alive, 0 if it is dead or off the grid.
    fn get_neighbor_count(&self, position: &Position) -> (r: i32)
        requires
            self.wf(),
        ensures
            r == self.live_at(position.x as int, position.y as int),
    {
        let found_cell = self.get_cell_in_world(position);
        match found_cell {
            Some(cell) => {
                match cell.state {
                    CellState::ALIVE => 1,
                    CellState::DEAD => 0,
                }
            },
            None => 0,
        }
    }

    /// The live count over the 3x3 neighborhood of `position`, excluding the
    /// center.
    fn get_num_neigbors_for_cell(&self, position: &Position) -> (r: i32)
        requires
            self.wf(),
            self.in_range(position.x as int, position.y as int),
        ensures
            r == self.neighbor_count(position.x as int, position.y as int),
    {
        let x = position.x;
        let y = position.y;
        let mut num_neigbors: i32 = 0;
        num_neigbors += self.get_neighbor_count(&Position { x: x - 1, y: y - 1 });
        num_neigbors += self.get_neighbor_count(&Position { x, y: y - 1 });
        num_neigbors += self.get_neighbor_count(&Position { x: x + 1, y: y - 1 });
        num_neigbors += self.get_neighbor_count(&Position { x: x - 1, y });
        num_neigbors += self.get_neighbor_count(&Position { x: x + 1, y });
        num_neigbors += self.get_neighbor_count(&Position { x: x - 1, y: y + 1 });
        num_neigbors += self.get_neighbor_count(&Position { x, y: y + 1 });
        num_neigbors += self.get_neighbor_count(&Position { x: x + 1, y: y + 1 });
        num_neigbors
    }

    /// The state the cell at `position`, currently `cell`, takes in the next
    /// generation: alive exactly when the rule allows it for the cell's old
    /// state and live-neighbor count.
    fn get_new_cell_state(&self, cell: &Cell, position: &Position) -> (r: CellState)
        requires
            self.wf(),
            self.in_range(position.x as int, position.y as int),
        ensures
            r is ALIVE == rule_allows(
                self.rule(),
                cell.state is ALIVE,
                self.neighbor_count(position.x as int, position.y as int),
            ),
    {
        let num_neigbors = self.get_num_neigbors_for_cell(position);
        match cell.state {
            CellState::ALIVE => {
                if contains_count(&self.rule.surviving_cell_rule, num_neigbors) {
                    CellState::ALIVE
                } else {
                    CellState::DEAD
                }
            },
            CellState::DEAD => {
                if contains_count(&self.rule.born_cell_rule, num_neigbors) {
                    CellState::ALIVE
                } else {
                    CellState::DEAD
                }
            },
        }
    }

    /// The next generation: a brand-new world over the same extent and rule,
    /// each cell alive exactly when the rule allows it for that cell's old
    /// state and old live-neighbor count.
    pub fn populate(&self) -> (r: World)
        requires
            self.wf(),
        ensures
            r.is_step_of(*self),
    {
        let width = self.dimension.width;
        let height = self.dimension.height;
        let mut new_cells: Vec<Cell> = Vec::new();
        let mut y: i32 = 0;
        while y < height
            invariant
                self.wf(),
                width == self.dim().width,
                height == self.dim().height,
                0 <= y <= height,
                new_cells@.len() == y * width,
                forall|xx: int, yy: int|
                    0 <= xx < width && 0 <= yy < y ==> (#[trigger] new_cells@[yy * width
                        + xx].state is ALIVE) == rule_allows(
                        self.rule(),
                        self.spec_alive(xx, yy),
                        self.neighbor_count(xx, yy),
                    ),
            decreases height - y,
        {
            let mut x: i32 = 0;
            while x < width
                invariant
                    self.wf(),
                    width == self.dim().width,
                    height == self.dim().height,
                    0 <= y < height,
                    0 <= x <= width,
                    new_cells@.len() == y * width + x,
                    forall|xx: int, yy: int|
                        0 <= xx < width && 0 <= yy < y ==> (#[trigger] new_cells@[yy * width
                            + xx].state is ALIVE) == rule_allows(
                            self.rule(),
                            self.spec_alive(xx, yy),
                            self.neighbor_count(xx, yy),
                        ),
                    forall|xx: int|
                        0 <= xx < x ==> (#[trigger] new_cells@[y * width + xx].state is ALIVE)
                            == rule_allows(
                            self.rule(),
                            self.spec_alive(xx, y as int),
                            self.neighbor_count(xx, y as int),
                        ),
                decreases width - x,
            {
                proof {
                    lemma_row_major_index(width as int, height as int, x as int, y as int);
                }
                let position = Position { x, y };
                let cell = self.get_cell_in_world(&position).unwrap();
                let new_cell = Cell { state: self.get_new_cell_state(&cell, &position) };
                let ghost pre = new_cells@;
                new_cells.push(new_cell);
                proof {
                    assert(cell.state is ALIVE == self.spec_alive(x as int, y as int));
                    assert forall|xx: int, yy: int|
                        0 <= xx < width && 0 <= yy < y implies (#[trigger] new_cells@[yy * width
                        + xx].state is ALIVE) == rule_allows(
                        self.rule(),
                        self.spec_alive(xx, yy),
                        self.neighbor_count(xx, yy),
                    ) by {
                        lemma_row_major_order(width as int, xx, yy, x as int, y as int);
                        assert(new_cells@[yy * width + xx] == pre[yy * width + xx]);
                    };
                }
                x += 1;
            }
            proof {
                assert((y + 1) * width == y * width + width) by (nonlinear_arith);
            }
            y += 1;
        }
        let r = World {
            cells: new_cells,
            dimension: self.dimension,
            rule: self.rule.duplicate(),
        };
        proof {
            assert(r.grid().len() == r.area()) by {
                assert(height * width == width * height) by (nonlinear_arith);
            };
            assert forall|x: int, y: int| self.in_range(x, y) implies #[trigger] r.spec_alive(x, y)
                == rule_allows(self.rule(), self.spec_alive(x, y), self.neighbor_count(x, y)) by {
                lemma_row_major_index(
                    self.dim().width as int,
                    self.dim().height as int,
                    x,
                    y,
                );
            };
        }
        r
    }
}

/// For `0 <= x < w` and `0 <= y < h`, the row-major index `y * w + x` lies in
/// `[0, w * h)`, and the terms around it stay in bounds.
pub(crate) proof fn lemma_row_major_index(w: int, h: int, x: int, y: int)
    requires
        0 <= x < w,
        0 <= y < h,
    ensures
        0 <= y * w,
        y * w + x < w * h,
{
    assert(0 <= y * w && y * w + x < w * h) by (nonlinear_arith)
        requires
            0 <= x < w,
            0 <= y < h,
    ;
}

/// The characters of `n` dashes.
pub open spec fn dashes(n: int) -> Seq<char>
    decreases n,
{
    if n <= 0 {
        Seq::empty()
    } else {
        dashes(n - 1).push('-')
    }
}

/// The horizontal frame line of a rendering: `|`, `width` dashes, `|`,
/// newline.
pub open spec fn bar_line(width: int) -> Seq<char> {
    seq!['|'] + dashes(width) + seq!['|', '\n']
}

/// The glyph a rendering shows for a cell: `x` alive, space dead.
pub open spec fn cell_char(alive: bool) -> char {
    if alive {
        'x'
    } else {
        ' '
    }
}

/// Relies on `rand::random::<bool>`: one independent draw from the
/// thread-local uniform generator, each outcome equally likely. Nothing can
/// be promised of the value, so no contract is stated.
#[verifier::external_body]
fn random_bool() -> bool {
    rand::random::<bool>()
}

/// Row-major indexing is injective: distinct in-range coordinates have
/// distinct indices.
pub(crate) proof fn lemma_row_major_injective(w: int, x1: int, y1: int, x2: int, y2: int)
    requires
        0 <= x1 < w,
        0 <= x2 < w,
        0 <= y1,
        0 <= y2,
        y1 * w + x1 == y2 * w + x2,
    ensures
        x1 == x2,
        y1 == y2,
{
    assert(x1 == x2 && y1 == y2) by (nonlinear_arith)
        requires
            0 <= x1 < w,
            0 <= x2 < w,
            0 <= y1,
            0 <= y2,
            y1 * w + x1 == y2 * w + x2,
    ;
}

/// Row-major indices respect the row order: an entry of an earlier row comes
/// before any entry of a later row.
pub(crate) proof fn lemma_row_major_order(w: int, x1: int, y1: int, x2: int, y2: int)
    requires
        0 <= x1 < w,
        0 <= x2,
        y1 < y2,
    ensures
        y1 * w + x1 < y2 * w + x2,
{
    assert(y1 * w + x1 < y2 * w + x2) by (nonlinear_arith)
        requires
            0 <= x1 < w,
            0 <= x2,
            y1 < y2,
    ;
}

} // verus!
