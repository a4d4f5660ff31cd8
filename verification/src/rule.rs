use vstd::prelude::*;

verus! {

/// Whether the neighbor count `n` occurs in the list `s`.
pub open spec fn has_count(s: Seq<i32>, n: int) -> bool {
    exists|k: int| 0 <= k < s.len() && s[k] == n
}

/// A survival/birth rule: a live cell with exactly one of the
/// `surviving_cell_rule` counts of live neighbors survives, a dead cell with
/// exactly one of the `born_cell_rule` counts is born, and every other cell
/// dies or stays dead. The lists are not validated: counts outside `[0, 8]`
/// are accepted and simply never match.
#[derive(Clone, Debug)]
pub struct GameRule {
    pub surviving_cell_rule: Vec<i32>,
    pub born_cell_rule: Vec<i32>,
}

/// The new state, as a boolean, of a cell whose old state is `alive` and
/// whose live-neighbor count is `n`, under `rule`.
pub open spec fn rule_allows(rule: GameRule, alive: bool, n: int) -> bool {
    if alive {
        has_count(rule.surviving_cell_rule@, n)
    } else {
        has_count(rule.born_cell_rule@, n)
    }
}

/// Both rule lists of `a` hold the same counts, in the same order, as those
/// of `b`.
pub open spec fn same_rule(a: GameRule, b: GameRule) -> bool {
    a.surviving_cell_rule@ == b.surviving_cell_rule@ && a.born_cell_rule@ == b.born_cell_rule@
}

impl GameRule {
    pub fn new(surviving_cell_rule: Vec<i32>, born_cell_rule: Vec<i32>) -> (r: GameRule)
        ensures
            r.surviving_cell_rule@ == surviving_cell_rule@,
            r.born_cell_rule@ == born_cell_rule@,
    {
        GameRule { surviving_cell_rule, born_cell_rule }
    }

    /// The canonical rule: survive on 2 or 3 live neighbors, be born on 3.
    pub fn default_rule() -> (r: GameRule)
        ensures
            r.surviving_cell_rule@ == seq![2i32, 3i32],
            r.born_cell_rule@ == seq![3i32],
    {
        let r = GameRule::new(vec![2, 3], vec![3]);
        proof {
            assert(r.surviving_cell_rule@ =~= seq![2i32, 3i32]);
            assert(r.born_cell_rule@ =~= seq![3i32]);
        }
        r
    }

    /// A duplicate whose rule lists hold the same counts as `self`'s.
    pub fn duplicate(&self) -> (r: GameRule)
        ensures
            same_rule(r, *self),
    {
        let r = GameRule {
            surviving_cell_rule: self.surviving_cell_rule.clone(),
            born_cell_rule: self.born_cell_rule.clone(),
        };
        proof {
            assert(r.surviving_cell_rule@ =~= self.surviving_cell_rule@);
            assert(r.born_cell_rule@ =~= self.born_cell_rule@);
        }
        r
    }
}

/// Whether `n` occurs in `counts`; the executable membership test behind
/// `rule_allows`.
pub(crate) fn contains_count(counts: &Vec<i32>, n: i32) -> (r: bool)
    ensures
        r == has_count(counts@, n as int),
{
    let mut k: usize = 0;
    while k < counts.len()
        invariant
            0 <= k <= counts@.len(),
            forall|j: int| 0 <= j < k ==> counts@[j] != n,
        decreases counts@.len() - k,
    {
        if counts[k] == n {
            return true;
        }
        k += 1;
    }
    false
}

} // verus!
