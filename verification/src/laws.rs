use vstd::prelude::*;
use vstd::arithmetic::div_mod::lemma_fundamental_div_mod;
use vstd::arithmetic::div_mod::lemma_mod_bound;
use vstd::arithmetic::mul::lemma_mul_inequality;

use crate::geom::Position;
use crate::rule::GameRule;
use crate::rule::has_count;
use crate::rule::rule_allows;
use crate::world::Cell;
use crate::world::World;

verus! {

/// A world governed by the canonical rule: survive on 2 or 3 live
/// neighbors, be born on 3.
pub open spec fn has_default_rule(w: World) -> bool {
    w.rule().surviving_cell_rule@ == seq![2i32, 3i32] && w.rule().born_cell_rule@ == seq![3i32]
}

/// The canonical rule in closed form: a live cell survives iff it has 2 or
/// 3 live neighbors, a dead cell is born iff it has exactly 3.
pub proof fn lemma_default_rule_allows(rule: GameRule, alive: bool, n: int)
    requires
        rule.surviving_cell_rule@ == seq![2i32, 3i32],
        rule.born_cell_rule@ == seq![3i32],
    ensures
        rule_allows(rule, alive, n) <==> if alive {
            n == 2 || n == 3
        } else {
            n == 3
        },
{
    let s = rule.surviving_cell_rule@;
    let b = rule.born_cell_rule@;
    assert(s.len() == 2 && s[0] == 2i32 && s[1] == 3i32);
    assert(b.len() == 1 && b[0] == 3i32);
    if has_count(s, n) {
        let k = choose|k: int| 0 <= k < s.len() && s[k] == n;
        assert(k == 0 || k == 1);
    }
    if has_count(b, n) {
        let k = choose|k: int| 0 <= k < b.len() && b[k] == n;
        assert(k == 0);
    }
    if n == 2 {
        assert(has_count(s, 2));
    }
    if n == 3 {
        assert(has_count(s, 3));
        assert(has_count(b, 3));
    }
}

/// The set of coordinates a world stores a cell for: exactly the in-range
/// ones, by the dense-mapping invariant.
pub open spec fn coord_set(w: World) -> Set<Position> {
    Set::new(|p: Position| w.in_range(p.x as int, p.y as int))
}

/// A step preserves the coordinate set: the successor stores a cell for
/// exactly the same coordinates as its predecessor, and as many of them.
pub proof fn lemma_step_preserves_coords(prev: World, next: World)
    requires
        prev.wf(),
        next.is_step_of(prev),
    ensures
        coord_set(next) == coord_set(prev),
        next.grid().len() == prev.grid().len(),
{
    assert(coord_set(next) =~= coord_set(prev));
}

/// The new state of the cell at `(x, y)` that a step of `prev` dictates.
pub open spec fn rule_applied(prev: World, x: int, y: int) -> bool {
    rule_allows(prev.rule(), prev.spec_alive(x, y), prev.neighbor_count(x, y))
}

/// Stepping is deterministic: two worlds that both step from the same
/// predecessor agree cell for cell, and their grids are identical.
pub proof fn lemma_step_deterministic(prev: World, a: World, b: World)
    requires
        a.is_step_of(prev),
        b.is_step_of(prev),
    ensures
        forall|x: int, y: int| #[trigger] a.spec_alive(x, y) == b.spec_alive(x, y),
        a.grid() == b.grid(),
{
    assert forall|x: int, y: int| #[trigger] a.spec_alive(x, y) == b.spec_alive(x, y) by {
        if prev.in_range(x, y) {
            assert(a.spec_alive(x, y) == rule_applied(prev, x, y));
            assert(b.spec_alive(x, y) == rule_applied(prev, x, y));
        }
    };
    let w = prev.dim().width as int;
    let h = prev.dim().height as int;
    assert forall|k: int| 0 <= k < a.grid().len() implies a.grid()[k] == b.grid()[k] by {
        lemma_fundamental_div_mod(k, w);
        lemma_mod_bound(k, w);
        let y = k / w;
        let x = k % w;
        if y < 0 {
            lemma_mul_inequality(y, -1, w);
            assert(false);
        }
        if y >= h {
            lemma_mul_inequality(h, y, w);
            assert(false);
        }
        assert(k == y * w + x);
        assert(a.spec_alive(x, y) == b.spec_alive(x, y));
        assert(a.grid()[k].state == b.grid()[k].state);
        assert(a.grid()[k] == Cell { state: a.grid()[k].state });
        assert(b.grid()[k] == Cell { state: b.grid()[k].state });
    };
    assert(a.grid() =~= b.grid());
}

/// `w` holds exactly a 2x2 block of live cells whose top-left corner is
/// `(i, j)`.
pub open spec fn is_block_world(w: World, i: int, j: int) -> bool {
    forall|x: int, y: int|
        #[trigger] w.spec_alive(x, y) <==> ((x == i || x == i + 1) && (y == j || y == j + 1))
}

/// Block still life: under the canonical rule, a world holding exactly a
/// 2x2 live block reproduces exactly the same live cells after one step
/// (each block cell has 3 live neighbors and survives; no dead cell sees 3,
/// so none is spuriously born).
pub proof fn lemma_block_still_life(w: World, next: World, i: int, j: int)
    requires
        w.wf(),
        has_default_rule(w),
        0 <= i,
        i + 1 < w.dim().width,
        0 <= j,
        j + 1 < w.dim().height,
        is_block_world(w, i, j),
        next.is_step_of(w),
    ensures
        forall|x: int, y: int| #[trigger] next.spec_alive(x, y) == w.spec_alive(x, y),
        is_block_world(next, i, j),
{
    assert forall|x: int, y: int| #[trigger] next.spec_alive(x, y) == w.spec_alive(x, y) by {
        if w.in_range(x, y) {
            let n = w.neighbor_count(x, y);
            lemma_default_rule_allows(w.rule(), w.spec_alive(x, y), n);
            assert(next.spec_alive(x, y) == rule_allows(w.rule(), w.spec_alive(x, y), n));
            if (x == i || x == i + 1) && (y == j || y == j + 1) {
                assert(n == 3);
            } else {
                assert(n <= 2);
            }
        } else {
            assert(!next.spec_alive(x, y));
            assert(!w.spec_alive(x, y));
        }
    };
}

/// `w` holds exactly one live cell, at `(i, j)`.
pub open spec fn is_lone_cell_world(w: World, i: int, j: int) -> bool {
    forall|x: int, y: int| #[trigger] w.spec_alive(x, y) <==> (x == i && y == j)
}

/// The lone cell dies: under the canonical rule, a world holding a single
/// live cell steps to an entirely dead world (the live cell has 0 live
/// neighbors, and every dead cell sees at most 1).
pub proof fn lemma_lone_cell_dies(w: World, next: World, i: int, j: int)
    requires
        w.wf(),
        has_default_rule(w),
        is_lone_cell_world(w, i, j),
        next.is_step_of(w),
    ensures
        forall|x: int, y: int| !#[trigger] next.spec_alive(x, y),
{
    assert forall|x: int, y: int| !#[trigger] next.spec_alive(x, y) by {
        if w.in_range(x, y) {
            let n = w.neighbor_count(x, y);
            lemma_default_rule_allows(w.rule(), w.spec_alive(x, y), n);
            assert(next.spec_alive(x, y) == rule_allows(w.rule(), w.spec_alive(x, y), n));
            assert(n <= 1);
        }
    };
}

/// `w` holds exactly three live cells in a horizontal row centered on
/// `(cx, cy)`.
pub open spec fn is_horizontal_blinker(w: World, cx: int, cy: int) -> bool {
    forall|x: int, y: int|
        #[trigger] w.spec_alive(x, y) <==> (y == cy && (x == cx - 1 || x == cx || x == cx + 1))
}

/// `w` holds exactly three live cells in a vertical column centered on
/// `(cx, cy)`.
pub open spec fn is_vertical_blinker(w: World, cx: int, cy: int) -> bool {
    forall|x: int, y: int|
        #[trigger] w.spec_alive(x, y) <==> (x == cx && (y == cy - 1 || y == cy || y == cy + 1))
}

/// Blinker, first half-period: under the canonical rule, a horizontal
/// blinker whose center keeps one cell of margin on every side becomes the
/// vertical blinker on the same midpoint after one step.
pub proof fn lemma_blinker_horizontal_step(w: World, next: World, cx: int, cy: int)
    requires
        w.wf(),
        has_default_rule(w),
        1 <= cx,
        cx + 1 < w.dim().width,
        1 <= cy,
        cy + 1 < w.dim().height,
        is_horizontal_blinker(w, cx, cy),
        next.is_step_of(w),
    ensures
        is_vertical_blinker(next, cx, cy),
{
    assert forall|x: int, y: int|
        #[trigger] next.spec_alive(x, y) <==> (x == cx && (y == cy - 1 || y == cy || y
            == cy + 1)) by {
        if w.in_range(x, y) {
            let n = w.neighbor_count(x, y);
            lemma_default_rule_allows(w.rule(), w.spec_alive(x, y), n);
            assert(next.spec_alive(x, y) == rule_allows(w.rule(), w.spec_alive(x, y), n));
            if x == cx && (y == cy - 1 || y == cy + 1) {
                assert(n == 3);
            } else if x == cx && y == cy {
                assert(n == 2);
            } else if y == cy && (x == cx - 1 || x == cx + 1) {
                assert(n <= 2);
            } else {
                assert(n <= 2);
            }
        } else {
            assert(!next.spec_alive(x, y));
        }
    };
}

/// Blinker, second half-period: the vertical blinker turns back into the
/// horizontal one.
pub proof fn lemma_blinker_vertical_step(w: World, next: World, cx: int, cy: int)
    requires
        w.wf(),
        has_default_rule(w),
        1 <= cx,
        cx + 1 < w.dim().width,
        1 <= cy,
        cy + 1 < w.dim().height,
        is_vertical_blinker(w, cx, cy),
        next.is_step_of(w),
    ensures
        is_horizontal_blinker(next, cx, cy),
{
    assert forall|x: int, y: int|
        #[trigger] next.spec_alive(x, y) <==> (y == cy && (x == cx - 1 || x == cx || x
            == cx + 1)) by {
        if w.in_range(x, y) {
            let n = w.neighbor_count(x, y);
            lemma_default_rule_allows(w.rule(), w.spec_alive(x, y), n);
            assert(next.spec_alive(x, y) == rule_allows(w.rule(), w.spec_alive(x, y), n));
            if y == cy && (x == cx - 1 || x == cx + 1) {
                assert(n == 3);
            } else if x == cx && y == cy {
                assert(n == 2);
            } else {
                assert(n <= 2);
            }
        } else {
            assert(!next.spec_alive(x, y));
        }
    };
}

/// Blinker oscillation, period 2: one step turns the horizontal blinker
/// vertical, and a second step restores the original horizontal row.
pub proof fn lemma_blinker_period_two(w: World, mid: World, back: World, cx: int, cy: int)
    requires
        w.wf(),
        has_default_rule(w),
        1 <= cx,
        cx + 1 < w.dim().width,
        1 <= cy,
        cy + 1 < w.dim().height,
        is_horizontal_blinker(w, cx, cy),
        mid.is_step_of(w),
        back.is_step_of(mid),
    ensures
        is_vertical_blinker(mid, cx, cy),
        is_horizontal_blinker(back, cx, cy),
{
    lemma_blinker_horizontal_step(w, mid, cx, cy);
    lemma_blinker_vertical_step(mid, back, cx, cy);
}

/// A cell in the grid's corner counts only its in-range neighbors: the
/// neighbor count at `(0, 0)` comes from `(1, 0)`, `(0, 1)` and `(1, 1)`
/// alone; the coordinates at `(-1, *)` and `(*, -1)` contribute nothing.
pub proof fn lemma_corner_neighbors(w: World)
    requires
        w.wf(),
    ensures
        w.neighbor_count(0, 0) == w.live_at(1, 0) + w.live_at(0, 1) + w.live_at(1, 1),
{
    assert(!w.spec_alive(-1, -1));
    assert(!w.spec_alive(0, -1));
    assert(!w.spec_alive(1, -1));
    assert(!w.spec_alive(-1, 0));
    assert(!w.spec_alive(-1, 1));
}

} // verus!
