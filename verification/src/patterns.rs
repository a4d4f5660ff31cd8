use vstd::prelude::*;

use crate::geom::Dimension;
use crate::geom::Position;

verus! {

/// The built-in initial-pattern generators. Each one is a pure function of
/// the grid dimensions and a coordinate, applied once per coordinate at
/// world-creation time; only [`StateGenerator::Random`] draws from a random
/// source.
#[derive(Copy, Clone, PartialEq, Eq, Structural, Debug)]
pub enum StateGenerator {
    Dead,
    Random,
    Glider,
    Spaceship,
    BigCrunch,
}

/// Whether `(x, y)` lies in the union of all copies of `shape`, one copy
/// translated by each position in `offsets`.
pub open spec fn in_translated_shapes(
    shape: Seq<Position>,
    offsets: Seq<Position>,
    x: int,
    y: int,
) -> bool {
    exists|i: int, j: int|
        0 <= i < shape.len() && 0 <= j < offsets.len() && x == shape[i].x + offsets[j].x && y
            == shape[i].y + offsets[j].y
}

/// Whether `(x, y)` lies in the single copy of `shape` translated by
/// `offset`.
pub open spec fn in_shape_at(shape: Seq<Position>, offset: Position, x: int, y: int) -> bool {
    exists|i: int|
        0 <= i < shape.len() && x == shape[i].x + offset.x && y == shape[i].y + offset.y
}

/// Extending the offset list by one more offset adds exactly the cells of
/// one more translated copy of the shape.
pub proof fn lemma_translated_take_step(
    shape: Seq<Position>,
    offsets: Seq<Position>,
    j: int,
    x: int,
    y: int,
)
    requires
        0 <= j < offsets.len(),
    ensures
        in_translated_shapes(shape, offsets.take(j + 1), x, y) <==> (in_translated_shapes(
            shape,
            offsets.take(j),
            x,
            y,
        ) || in_shape_at(shape, offsets[j], x, y)),
{
    let s1 = offsets.take(j + 1);
    let s0 = offsets.take(j);
    if in_translated_shapes(shape, s1, x, y) {
        let (i, jj) = choose|i: int, jj: int|
            0 <= i < shape.len() && 0 <= jj < s1.len() && x == shape[i].x + s1[jj].x && y
                == shape[i].y + s1[jj].y;
        if jj < j {
            assert(s0[jj] == offsets[jj]);
            assert(in_translated_shapes(shape, s0, x, y));
        } else {
            assert(s1[jj] == offsets[j]);
            assert(in_shape_at(shape, offsets[j], x, y));
        }
    }
    if in_translated_shapes(shape, s0, x, y) {
        let (i, jj) = choose|i: int, jj: int|
            0 <= i < shape.len() && 0 <= jj < s0.len() && x == shape[i].x + s0[jj].x && y
                == shape[i].y + s0[jj].y;
        assert(s1[jj] == s0[jj]);
        assert(in_translated_shapes(shape, s1, x, y));
    }
    if in_shape_at(shape, offsets[j], x, y) {
        let i = choose|i: int|
            0 <= i < shape.len() && x == shape[i].x + offsets[j].x && y == shape[i].y
                + offsets[j].y;
        assert(s1[j] == offsets[j]);
        assert(in_translated_shapes(shape, s1, x, y));
    }
}

/// The 5-cell glider shape, as offsets from its tile origin.
pub open spec fn glider_shape() -> Seq<Position> {
    seq![
        Position { x: 0, y: 1 },
        Position { x: 1, y: 2 },
        Position { x: 2, y: 0 },
        Position { x: 2, y: 1 },
        Position { x: 2, y: 2 },
    ]
}

/// The tile origins at which the glider shape is replicated.
pub open spec fn glider_offsets() -> Seq<Position> {
    seq![
        Position { x: 0, y: 8 },
        Position { x: 0, y: 2 },
        Position { x: 8, y: 8 },
        Position { x: 8, y: 2 },
        Position { x: 15, y: 8 },
        Position { x: 15, y: 2 },
        Position { x: 22, y: 8 },
        Position { x: 22, y: 2 },
    ]
}

/// The 9-cell lightweight-spaceship shape, as offsets from its tile origin.
pub open spec fn spaceship_shape() -> Seq<Position> {
    seq![
        Position { x: 1, y: 0 },
        Position { x: 2, y: 0 },
        Position { x: 3, y: 0 },
        Position { x: 4, y: 0 },
        Position { x: 0, y: 1 },
        Position { x: 4, y: 1 },
        Position { x: 4, y: 2 },
        Position { x: 0, y: 3 },
        Position { x: 3, y: 3 },
    ]
}

/// The tile origins at which the spaceship shape is replicated.
pub open spec fn spaceship_offsets() -> Seq<Position> {
    seq![
        Position { x: 0, y: 8 },
        Position { x: 0, y: 2 },
        Position { x: 8, y: 8 },
        Position { x: 8, y: 2 },
    ]
}

/// The two 7-cell rings of the big-crunch pattern, as offsets from the
/// pattern's origin.
pub open spec fn big_crunch_shape() -> Seq<Position> {
    seq![
        Position { x: 0, y: 0 },
        Position { x: 1, y: 0 },
        Position { x: 2, y: 0 },
        Position { x: 0, y: 1 },
        Position { x: 0, y: 2 },
        Position { x: 2, y: 1 },
        Position { x: 2, y: 2 },
        Position { x: 0, y: 6 },
        Position { x: 1, y: 6 },
        Position { x: 2, y: 6 },
        Position { x: 0, y: 4 },
        Position { x: 0, y: 5 },
        Position { x: 2, y: 4 },
        Position { x: 2, y: 5 },
    ]
}

/// The single offset that centers the big-crunch pattern on the grid.
pub open spec fn big_crunch_offset(dim: Dimension) -> Position {
    Position { x: (dim.width / 2 - 2) as i32, y: (dim.height / 2 - 3) as i32 }
}

/// Whether the generator `g`, applied over grid `dim`, makes the cell at
/// `(x, y)` alive. [`StateGenerator::Random`] is not characterized here (its
/// outcome is a fresh coin flip per coordinate); this function is never
/// applied to it.
pub open spec fn generator_alive(g: StateGenerator, dim: Dimension, x: int, y: int) -> bool {
    match g {
        StateGenerator::Dead => false,
        StateGenerator::Random => false,
        StateGenerator::Glider => in_translated_shapes(glider_shape(), glider_offsets(), x, y),
        StateGenerator::Spaceship => in_translated_shapes(
            spaceship_shape(),
            spaceship_offsets(),
            x,
            y,
        ),
        StateGenerator::BigCrunch => in_translated_shapes(
            big_crunch_shape(),
            seq![big_crunch_offset(dim)],
            x,
            y,
        ),
    }
}

} // verus!
