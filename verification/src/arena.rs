//! The arena model: one generated level's full state — dimensions, the
//! sparse placed-module list, the active rule set, resolved environment
//! values and generation metadata — together with its read and write
//! surface.
//!
//! Cell lookup scans the module list and returns the first record at a
//! coordinate; duplicate records per cell are representable and tolerated,
//! exactly as the audit layer expects.

use vstd::prelude::*;

use crate::catalog::Rule;
use crate::counting::{
    count_where, lemma_count_where_nonneg, lemma_count_where_pos, lemma_count_where_take_all,
    lemma_count_where_take_step,
};
use crate::ids::{Direction, EnvVarId, ModuleId, RuleId};
use crate::params::Params;
use vstd::pervasive::VecAdditionalExecFns;

verus! {

/// One placed module: position, type, optional parameters and reserved
/// directional connections.
#[derive(Debug, Clone)]
pub struct ArenaCell {
    pub x: i32,
    pub y: i32,
    pub module_id: ModuleId,
    pub module_params: Option<Params>,
    pub connections: Vec<Direction>,
}

/// How a generated arena came to be.
#[derive(Debug, Clone)]
pub struct GenerationMetadata {
    pub seed: u64,
    pub generation_time_ms: u64,
    pub algorithm_version: String,
    pub constraints_applied: Vec<String>,
}

/// One generated level.
#[derive(Debug, Clone)]
pub struct Arena {
    pub id: u128,
    pub width: u32,
    pub height: u32,
    pub modules: Vec<ArenaCell>,
    pub active_rules: Vec<Rule>,
    pub env_variables: Vec<(EnvVarId, i64)>,
    pub generation_metadata: GenerationMetadata,
}

/// Aggregate counts over a finished arena, with fixed-point ratios in
/// thousandths of the total cell count.
#[derive(Debug, Clone, Copy, PartialEq, Eq, Structural)]
pub struct ArenaStatistics {
    pub total_cells: u64,
    pub filled_cells: u64,
    pub empty_cells: u64,
    pub walkable_cells: u64,
    pub hazard_cells: u64,
    pub energy_orbs: u64,
    pub interactive_elements: u64,
    pub fill_ratio_permille: u64,
    pub hazard_density_permille: u64,
    pub walkable_ratio_permille: u64,
}

/// Whether some record occupies `(x, y)`.
pub open spec fn occupied_at(s: Seq<ArenaCell>, x: int, y: int) -> bool {
    exists|i: int| 0 <= i < s.len() && s[i].x == x && s[i].y == y
}

/// The first record at `(x, y)`, if any: the one cell lookup returns.
pub open spec fn spec_cell_at(s: Seq<ArenaCell>, x: int, y: int) -> Option<ArenaCell>
    decreases s.len(),
{
    if s.len() == 0 {
        None
    } else if s[0].x == x && s[0].y == y {
        Some(s[0])
    } else {
        spec_cell_at(s.skip(1), x, y)
    }
}

/// How many records carry the given module type.
pub open spec fn spec_count_type(s: Seq<ArenaCell>, m: ModuleId) -> int {
    count_where(s, |c: ArenaCell| c.module_id == m)
}

/// How many records carry a walkable type (generator's notion).
pub open spec fn spec_count_walkable(s: Seq<ArenaCell>) -> int {
    count_where(s, |c: ArenaCell| c.module_id.spec_is_walkable())
}

/// How many records carry a hazard type.
pub open spec fn spec_count_hazard(s: Seq<ArenaCell>) -> int {
    count_where(s, |c: ArenaCell| c.module_id.spec_is_hazard())
}

/// How many records carry an interactive type.
pub open spec fn spec_count_interactive(s: Seq<ArenaCell>) -> int {
    count_where(s, |c: ArenaCell| c.module_id.spec_is_interactive())
}

/// The counts lie between zero and the record count.
pub proof fn lemma_count_type_bound(s: Seq<ArenaCell>, m: ModuleId)
    ensures
        0 <= spec_count_type(s, m) <= s.len(),
{
    lemma_count_where_nonneg(s, |c: ArenaCell| c.module_id == m);
}

pub proof fn lemma_count_walkable_bound(s: Seq<ArenaCell>)
    ensures
        0 <= spec_count_walkable(s) <= s.len(),
{
    lemma_count_where_nonneg(s, |c: ArenaCell| c.module_id.spec_is_walkable());
}

pub proof fn lemma_count_hazard_bound(s: Seq<ArenaCell>)
    ensures
        0 <= spec_count_hazard(s) <= s.len(),
{
    lemma_count_where_nonneg(s, |c: ArenaCell| c.module_id.spec_is_hazard());
}

pub proof fn lemma_count_interactive_bound(s: Seq<ArenaCell>)
    ensures
        0 <= spec_count_interactive(s) <= s.len(),
{
    lemma_count_where_nonneg(s, |c: ArenaCell| c.module_id.spec_is_interactive());
}

/// A positive type count is the same as a record of that type existing.
pub proof fn lemma_count_type_pos(s: Seq<ArenaCell>, m: ModuleId)
    ensures
        spec_count_type(s, m) > 0 <==> exists|i: int|
            0 <= i < s.len() && (#[trigger] s[i]).module_id == m,
{
    lemma_count_where_pos(s, |c: ArenaCell| c.module_id == m);
    if spec_count_type(s, m) > 0 {
        let f = |c: ArenaCell| c.module_id == m;
        let i = choose|i: int| 0 <= i < s.len() && f(s[i]);
        assert(s[i].module_id == m);
    }
    if exists|i: int| 0 <= i < s.len() && (#[trigger] s[i]).module_id == m {
        let f = |c: ArenaCell| c.module_id == m;
        let i = choose|i: int| 0 <= i < s.len() && (#[trigger] s[i]).module_id == m;
        assert(f(s[i]));
    }
}

/// The value recorded for an environment variable: first entry wins.
pub open spec fn env_lookup(s: Seq<(EnvVarId, i64)>, k: EnvVarId) -> Option<i64>
    decreases s.len(),
{
    if s.len() == 0 {
        None
    } else if s[0].0 == k {
        Some(s[0].1)
    } else {
        env_lookup(s.skip(1), k)
    }
}

/// `spec_cell_at` returns a record of the list, at the queried coordinate,
/// and returns `None` exactly when the coordinate is unoccupied.
pub proof fn lemma_cell_at_props(s: Seq<ArenaCell>, x: int, y: int)
    ensures
        match spec_cell_at(s, x, y) {
            Some(c) => c.x == x && c.y == y && exists|i: int| 0 <= i < s.len() && s[i] == c,
            None => !occupied_at(s, x, y),
        },
    decreases s.len(),
{
    if s.len() > 0 {
        if !(s[0].x == x && s[0].y == y) {
            lemma_cell_at_props(s.skip(1), x, y);
            match spec_cell_at(s.skip(1), x, y) {
                Some(c) => {
                    let i = choose|i: int|
                        0 <= i < s.skip(1).len() && s.skip(1)[i] == c;
                    assert(s[i + 1] == c);
                },
                None => {
                    assert forall|i: int|
                        0 <= i < s.len() implies !(s[i].x == x && s[i].y == y) by {
                        if i > 0 {
                            assert(s.skip(1)[i - 1] == s[i]);
                        }
                    }
                },
            }
        }
    }
}

/// If nothing before index `i` matches and `s[i]` does, lookup returns
/// `s[i]`.
pub proof fn lemma_cell_at_first(s: Seq<ArenaCell>, x: int, y: int, i: int)
    requires
        0 <= i < s.len(),
        s[i].x == x && s[i].y == y,
        forall|j: int| 0 <= j < i ==> !(s[j].x == x && s[j].y == y),
    ensures
        spec_cell_at(s, x, y) == Some(s[i]),
    decreases i,
{
    if i == 0 {
    } else {
        assert(!(s[0].x == x && s[0].y == y));
        assert(s.skip(1)[i - 1] == s[i]);
        assert forall|j: int| 0 <= j < i - 1 implies !(s.skip(1)[j].x == x && s.skip(1)[j].y
            == y) by {
            assert(s.skip(1)[j] == s[j + 1]);
        }
        lemma_cell_at_first(s.skip(1), x, y, i - 1);
    }
}

/// Appending a record at a fresh coordinate leaves every other lookup
/// unchanged; lookup at its coordinate keeps returning the first record.
pub proof fn lemma_cell_at_push(s: Seq<ArenaCell>, c: ArenaCell, x: int, y: int)
    ensures
        spec_cell_at(s.push(c), x, y) == if spec_cell_at(s, x, y) is Some {
            spec_cell_at(s, x, y)
        } else if c.x == x && c.y == y {
            Some(c)
        } else {
            None
        },
    decreases s.len(),
{
    if s.len() == 0 {
        assert(s.push(c).skip(1) =~= Seq::<ArenaCell>::empty());
        assert(spec_cell_at(Seq::<ArenaCell>::empty(), x, y) is None);
    } else {
        assert(s.push(c).skip(1) =~= s.skip(1).push(c));
        lemma_cell_at_push(s.skip(1), c, x, y);
    }
}

/// First-entry lookup for environment values, mirrored for updates at the
/// first occurrence and for appends.
pub proof fn lemma_env_lookup_first(s: Seq<(EnvVarId, i64)>, k: EnvVarId, i: int)
    requires
        0 <= i < s.len(),
        s[i].0 == k,
        forall|j: int| 0 <= j < i ==> s[j].0 != k,
    ensures
        env_lookup(s, k) == Some(s[i].1),
    decreases i,
{
    if i > 0 {
        assert(s.skip(1)[i - 1] == s[i]);
        assert forall|j: int| 0 <= j < i - 1 implies s.skip(1)[j].0 != k by {
            assert(s.skip(1)[j] == s[j + 1]);
        }
        lemma_env_lookup_first(s.skip(1), k, i - 1);
    }
}

pub proof fn lemma_env_lookup_none(s: Seq<(EnvVarId, i64)>, k: EnvVarId)
    requires
        forall|j: int| 0 <= j < s.len() ==> s[j].0 != k,
    ensures
        env_lookup(s, k) is None,
    decreases s.len(),
{
    if s.len() > 0 {
        assert forall|j: int| 0 <= j < s.skip(1).len() implies s.skip(1)[j].0 != k by {
            assert(s.skip(1)[j] == s[j + 1]);
        }
        lemma_env_lookup_none(s.skip(1), k);
    }
}

pub proof fn lemma_env_lookup_update(s: Seq<(EnvVarId, i64)>, i: int, v: i64, k: EnvVarId)
    requires
        0 <= i < s.len(),
        forall|j: int| 0 <= j < i ==> s[j].0 != s[i].0,
    ensures
        env_lookup(s.update(i, (s[i].0, v)), s[i].0) == Some(v),
        k != s[i].0 ==> env_lookup(s.update(i, (s[i].0, v)), k) == env_lookup(s, k),
    decreases i,
{
    let t = s.update(i, (s[i].0, v));
    if i == 0 {
        if k != s[i].0 {
            assert(t.skip(1) =~= s.skip(1));
        }
    } else {
        assert(t.skip(1) =~= s.skip(1).update(i - 1, (s.skip(1)[i - 1].0, v)));
        assert forall|j: int| 0 <= j < i - 1 implies (#[trigger] s.skip(1)[j]).0 != s.skip(
            1,
        )[i - 1].0 by {
            assert(s.skip(1)[j] == s[j + 1]);
        }
        lemma_env_lookup_update(s.skip(1), i - 1, v, k);
        assert(t[0] == s[0]);
    }
}

pub proof fn lemma_env_lookup_push(s: Seq<(EnvVarId, i64)>, item: (EnvVarId, i64), k: EnvVarId)
    ensures
        env_lookup(s.push(item), k) == if env_lookup(s, k) is Some {
            env_lookup(s, k)
        } else if item.0 == k {
            Some(item.1)
        } else {
            None
        },
    decreases s.len(),
{
    if s.len() == 0 {
        assert(s.push(item).skip(1) =~= Seq::<(EnvVarId, i64)>::empty());
        assert(env_lookup(Seq::<(EnvVarId, i64)>::empty(), k) is None);
    } else {
        assert(s.push(item).skip(1) =~= s.skip(1).push(item));
        lemma_env_lookup_push(s.skip(1), item, k);
    }
}

/// Relies on `uuid::Uuid::new_v4` for a freshly drawn random identifier;
/// nothing is promised of the value.
#[verifier::external_body]
fn fresh_arena_id() -> u128 {
    uuid::Uuid::new_v4().as_u128()
}

impl Arena {
    /// Dimensions small enough that every coordinate and cell count stays
    /// comfortably within the machine integer types.
    pub open spec fn wf(self) -> bool {
        self.width <= 65535 && self.height <= 65535
    }

    pub open spec fn spec_total_cells(self) -> int {
        self.width * self.height
    }

    pub open spec fn spec_in_bounds(self, x: int, y: int) -> bool {
        0 <= x < self.width && 0 <= y < self.height
    }

    /// The value resolved for an environment variable, if any.
    pub open spec fn spec_env_value(self, k: EnvVarId) -> Option<i64> {
        env_lookup(self.env_variables@, k)
    }

    /// A fresh, empty arena.
    pub fn new(width: u32, height: u32, seed: u64) -> (arena: Arena)
        requires
            width <= 65535,
            height <= 65535,
        ensures
            arena.wf(),
            arena.width == width,
            arena.height == height,
            arena.modules@.len() == 0,
            arena.active_rules@.len() == 0,
            arena.env_variables@.len() == 0,
            arena.generation_metadata.seed == seed,
            arena.generation_metadata.generation_time_ms == 0,
            arena.generation_metadata.algorithm_version@ == "1.0.0"@,
            arena.generation_metadata.constraints_applied@.len() == 0,
    {
        Arena {
            id: fresh_arena_id(),
            width,
            height,
            modules: Vec::new(),
            active_rules: Vec::new(),
            env_variables: Vec::new(),
            generation_metadata: GenerationMetadata {
                seed,
                generation_time_ms: 0,
                algorithm_version: "1.0.0".to_owned(),
                constraints_applied: Vec::new(),
            },
        }
    }

    /// The first placed record at `(x, y)`, if any.
    pub fn get_cell(&self, x: i32, y: i32) -> (r: Option<&ArenaCell>)
        ensures
            match r {
                Some(c) => spec_cell_at(self.modules@, x as int, y as int) == Some(*c),
                None => spec_cell_at(self.modules@, x as int, y as int) is None,
            },
    {
        let mut i: usize = 0;
        while i < self.modules.len()
            invariant
                i <= self.modules@.len(),
                forall|j: int|
                    0 <= j < i ==> !((#[trigger] self.modules@[j]).x == x && self.modules@[j].y
                        == y),
            decreases self.modules@.len() - i,
        {
            if self.modules[i].x == x && self.modules[i].y == y {
                proof {
                    lemma_cell_at_first(self.modules@, x as int, y as int, i as int);
                }
                return Some(&self.modules[i]);
            }
            i = i + 1;
        }
        proof {
            lemma_cell_at_props(self.modules@, x as int, y as int);
            if spec_cell_at(self.modules@, x as int, y as int) is Some {
                let c = spec_cell_at(self.modules@, x as int, y as int)->Some_0;
                let j = choose|j: int|
                    0 <= j < self.modules@.len() && self.modules@[j] == c;
                assert(!(self.modules@[j].x == x && self.modules@[j].y == y));
            }
        }
        None
    }

    /// How many placed records carry the given type.
    pub fn count_modules_by_type(&self, module_type: &ModuleId) -> (r: usize)
        ensures
            r == spec_count_type(self.modules@, *module_type),
    {
        let ghost f = |c: ArenaCell| c.module_id == *module_type;
        let mut count: usize = 0;
        let mut i: usize = 0;
        while i < self.modules.len()
            invariant
                i <= self.modules@.len(),
                count == count_where(self.modules@.take(i as int), f),
                count <= i,
            decreases self.modules@.len() - i,
        {
            proof {
                lemma_count_where_take_step(self.modules@, f, i as int);
            }
            if self.modules[i].module_id == *module_type {
                count = count + 1;
            }
            i = i + 1;
        }
        proof {
            lemma_count_where_take_all(self.modules@, f);
        }
        count
    }

    /// How many placed records carry a walkable type.
    pub fn count_walkable_cells(&self) -> (r: usize)
        ensures
            r == spec_count_walkable(self.modules@),
    {
        let ghost f = |c: ArenaCell| c.module_id.spec_is_walkable();
        let mut count: usize = 0;
        let mut i: usize = 0;
        while i < self.modules.len()
            invariant
                i <= self.modules@.len(),
                count == count_where(self.modules@.take(i as int), f),
                count <= i,
            decreases self.modules@.len() - i,
        {
            proof {
                lemma_count_where_take_step(self.modules@, f, i as int);
            }
            if self.modules[i].module_id.is_walkable() {
                count = count + 1;
            }
            i = i + 1;
        }
        proof {
            lemma_count_where_take_all(self.modules@, f);
        }
        count
    }

    /// How many placed records carry a hazard type.
    pub fn count_hazard_cells(&self) -> (r: usize)
        ensures
            r == spec_count_hazard(self.modules@),
    {
        let ghost f = |c: ArenaCell| c.module_id.spec_is_hazard();
        let mut count: usize = 0;
        let mut i: usize = 0;
        while i < self.modules.len()
            invariant
                i <= self.modules@.len(),
                count == count_where(self.modules@.take(i as int), f),
                count <= i,
            decreases self.modules@.len() - i,
        {
            proof {
                lemma_count_where_take_step(self.modules@, f, i as int);
            }
            if self.modules[i].module_id.is_hazard() {
                count = count + 1;
            }
            i = i + 1;
        }
        proof {
            lemma_count_where_take_all(self.modules@, f);
        }
        count
    }

    /// How many placed records carry an interactive type.
    pub fn count_interactive_elements(&self) -> (r: usize)
        ensures
            r == spec_count_interactive(self.modules@),
    {
        let ghost f = |c: ArenaCell| c.module_id.spec_is_interactive();
        let mut count: usize = 0;
        let mut i: usize = 0;
        while i < self.modules.len()
            invariant
                i <= self.modules@.len(),
                count == count_where(self.modules@.take(i as int), f),
                count <= i,
            decreases self.modules@.len() - i,
        {
            proof {
                lemma_count_where_take_step(self.modules@, f, i as int);
            }
            if self.modules[i].module_id.is_interactive() {
                count = count + 1;
            }
            i = i + 1;
        }
        proof {
            lemma_count_where_take_all(self.modules@, f);
        }
        count
    }

    /// Place a module at `(x, y)`. Appends a record; never displaces one.
    pub fn add_module(&mut self, x: i32, y: i32, module_id: ModuleId, params: Option<Params>)
        ensures
            final(self).modules@.len() == old(self).modules@.len() + 1,
            final(self).modules@.drop_last() == old(self).modules@,
            final(self).modules@.last().x == x,
            final(self).modules@.last().y == y,
            final(self).modules@.last().module_id == module_id,
            final(self).modules@.last().module_params == params,
            final(self).modules@.last().connections@.len() == 0,
            final(self).width == old(self).width,
            final(self).height == old(self).height,
            final(self).id == old(self).id,
            final(self).active_rules@ == old(self).active_rules@,
            final(self).env_variables@ == old(self).env_variables@,
            final(self).generation_metadata == old(self).generation_metadata,
    {
        let cell = ArenaCell { x, y, module_id, module_params: params, connections: Vec::new() };
        self.modules.push(cell);
        proof {
            assert(final(self).modules@.drop_last() =~= old(self).modules@);
        }
    }

    /// Remove every record of the given type, keeping the order of the rest.
    pub fn remove_modules_of_type(&mut self, module_type: &ModuleId)
        ensures
            final(self).modules@ == old(self).modules@.filter(
                |c: ArenaCell| c.module_id != *module_type,
            ),
            final(self).width == old(self).width,
            final(self).height == old(self).height,
            final(self).id == old(self).id,
            final(self).active_rules@ == old(self).active_rules@,
            final(self).env_variables@ == old(self).env_variables@,
            final(self).generation_metadata == old(self).generation_metadata,
    {
        let ghost m0 = old(self).modules@;
        let ghost keep = |c: ArenaCell| c.module_id != *module_type;
        let mut kept: Vec<ArenaCell> = Vec::new();
        proof {
            reveal(Seq::filter);
            assert(m0.take(0).filter(keep) =~= Seq::<ArenaCell>::empty());
            assert(self.modules@ =~= m0.skip(0));
        }
        while self.modules.len() > 0
            invariant
                self.modules@ == m0.skip(m0.len() - self.modules@.len()),
                kept@ == m0.take(m0.len() - self.modules@.len()).filter(keep),
                self.modules@.len() <= m0.len(),
                self.width == old(self).width,
                self.height == old(self).height,
                self.id == old(self).id,
                self.active_rules@ == old(self).active_rules@,
                self.env_variables@ == old(self).env_variables@,
                self.generation_metadata == old(self).generation_metadata,
            decreases self.modules@.len(),
        {
            let ghost j = m0.len() - self.modules@.len();
            let c = self.modules.remove(0);
            proof {
                assert(c == m0[j]);
                assert(self.modules@ =~= m0.skip(j + 1));
                reveal(Seq::filter);
                assert(m0.take(j + 1).drop_last() =~= m0.take(j));
                assert(m0.take(j + 1).last() == m0[j]);
            }
            if !(c.module_id == *module_type) {
                kept.push(c);
            }
        }
        proof {
            assert(m0.take(m0.len() as int) =~= m0);
        }
        self.modules = kept;
    }

    /// Rewrite every record of type `from` into type `to`, in place.
    pub fn transform_modules(&mut self, from: &ModuleId, to: &ModuleId)
        ensures
            final(self).modules@.len() == old(self).modules@.len(),
            forall|i: int|
                0 <= i < old(self).modules@.len() ==> final(self).modules@[i] == if old(self).modules@[i].module_id == *from {
                    ArenaCell { module_id: *to, ..old(self).modules@[i] }
                } else {
                    old(self).modules@[i]
                },
            final(self).width == old(self).width,
            final(self).height == old(self).height,
            final(self).id == old(self).id,
            final(self).active_rules@ == old(self).active_rules@,
            final(self).env_variables@ == old(self).env_variables@,
            final(self).generation_metadata == old(self).generation_metadata,
    {
        let mut i: usize = 0;
        while i < self.modules.len()
            invariant
                i <= self.modules@.len(),
                self.modules@.len() == old(self).modules@.len(),
                forall|j: int|
                    0 <= j < i ==> self.modules@[j] == if old(self).modules@[j].module_id
                        == *from {
                        ArenaCell { module_id: *to, ..old(self).modules@[j] }
                    } else {
                        old(self).modules@[j]
                    },
                forall|j: int|
                    i <= j < self.modules@.len() ==> self.modules@[j] == old(self).modules@[j],
                self.width == old(self).width,
                self.height == old(self).height,
                self.id == old(self).id,
                self.active_rules@ == old(self).active_rules@,
                self.env_variables@ == old(self).env_variables@,
                self.generation_metadata == old(self).generation_metadata,
            decreases self.modules@.len() - i,
        {
            if self.modules[i].module_id == *from {
                let mut moved = ArenaCell {
                    x: 0,
                    y: 0,
                    module_id: *to,
                    module_params: None,
                    connections: Vec::new(),
                };
                self.modules.set_and_swap(i, &mut moved);
                moved.module_id = *to;
                self.modules.set_and_swap(i, &mut moved);
            }
            i = i + 1;
        }
    }

    /// Record (or override) the resolved value of an environment variable.
    pub fn set_env_variable(&mut self, id: EnvVarId, value_milli: i64)
        ensures
            final(self).spec_env_value(id) == Some(value_milli),
            forall|k: EnvVarId|
                k != id ==> #[trigger] final(self).spec_env_value(k) == old(self).spec_env_value(
                    k,
                ),
            final(self).modules@ == old(self).modules@,
            final(self).width == old(self).width,
            final(self).height == old(self).height,
            final(self).id == old(self).id,
            final(self).active_rules@ == old(self).active_rules@,
            final(self).generation_metadata == old(self).generation_metadata,
    {
        let mut i: usize = 0;
        while i < self.env_variables.len()
            invariant
                i <= self.env_variables@.len(),
                self.env_variables@ == old(self).env_variables@,
                self.modules@ == old(self).modules@,
                self.width == old(self).width,
                self.height == old(self).height,
                self.id == old(self).id,
                self.active_rules@ == old(self).active_rules@,
                self.generation_metadata == old(self).generation_metadata,
                forall|j: int| 0 <= j < i ==> (#[trigger] self.env_variables@[j]).0 != id,
            decreases self.env_variables@.len() - i,
        {
            if self.env_variables[i].0 == id {
                self.env_variables.set(i, (id, value_milli));
                proof {
                    lemma_env_lookup_update(old(self).env_variables@, i as int, value_milli, id);
                    assert forall|k: EnvVarId| k != id implies #[trigger] final(self).spec_env_value(k) == old(self).spec_env_value(k) by {
                        lemma_env_lookup_update(
                            old(self).env_variables@,
                            i as int,
                            value_milli,
                            k,
                        );
                    }
                }
                return ;
            }
            i = i + 1;
        }
        self.env_variables.push((id, value_milli));
        proof {
            lemma_env_lookup_none(old(self).env_variables@, id);
            lemma_env_lookup_push(old(self).env_variables@, (id, value_milli), id);
            assert forall|k: EnvVarId| k != id implies #[trigger] final(self).spec_env_value(k)
                == old(self).spec_env_value(k) by {
                lemma_env_lookup_push(old(self).env_variables@, (id, value_milli), k);
            }
        }
    }

    /// The resolved value of an environment variable, if one was recorded.
    pub fn get_env_variable(&self, id: &EnvVarId) -> (r: Option<i64>)
        ensures
            r == self.spec_env_value(*id),
    {
        let mut i: usize = 0;
        while i < self.env_variables.len()
            invariant
                i <= self.env_variables@.len(),
                forall|j: int| 0 <= j < i ==> (#[trigger] self.env_variables@[j]).0 != *id,
            decreases self.env_variables@.len() - i,
        {
            if self.env_variables[i].0 == *id {
                proof {
                    lemma_env_lookup_first(self.env_variables@, *id, i as int);
                }
                return Some(self.env_variables[i].1);
            }
            i = i + 1;
        }
        proof {
            lemma_env_lookup_none(self.env_variables@, *id);
        }
        None
    }

    /// Activate a rule.
    pub fn add_rule(&mut self, rule: Rule)
        ensures
            final(self).active_rules@.len() == old(self).active_rules@.len() + 1,
            final(self).active_rules@.drop_last() == old(self).active_rules@,
            final(self).active_rules@.last() == rule,
            final(self).modules@ == old(self).modules@,
            final(self).width == old(self).width,
            final(self).height == old(self).height,
            final(self).id == old(self).id,
            final(self).env_variables@ == old(self).env_variables@,
            final(self).generation_metadata == old(self).generation_metadata,
    {
        self.active_rules.push(rule);
        proof {
            assert(final(self).active_rules@.drop_last() =~= old(self).active_rules@);
        }
    }

    /// Deactivate every rule carrying the given identifier.
    pub fn remove_rule(&mut self, id: &RuleId)
        ensures
            final(self).active_rules@ == old(self).active_rules@.filter(
                |r: Rule| r.id != *id,
            ),
            final(self).modules@ == old(self).modules@,
            final(self).width == old(self).width,
            final(self).height == old(self).height,
            final(self).id == old(self).id,
            final(self).env_variables@ == old(self).env_variables@,
            final(self).generation_metadata == old(self).generation_metadata,
    {
        let ghost r0 = old(self).active_rules@;
        let ghost keep = |r: Rule| r.id != *id;
        let mut kept: Vec<Rule> = Vec::new();
        proof {
            reveal(Seq::filter);
            assert(r0.take(0).filter(keep) =~= Seq::<Rule>::empty());
            assert(self.active_rules@ =~= r0.skip(0));
        }
        while self.active_rules.len() > 0
            invariant
                self.active_rules@ == r0.skip(r0.len() - self.active_rules@.len()),
                kept@ == r0.take(r0.len() - self.active_rules@.len()).filter(keep),
                self.active_rules@.len() <= r0.len(),
                self.modules@ == old(self).modules@,
                self.width == old(self).width,
                self.height == old(self).height,
                self.id == old(self).id,
                self.env_variables@ == old(self).env_variables@,
                self.generation_metadata == old(self).generation_metadata,
            decreases self.active_rules@.len(),
        {
            let ghost j = r0.len() - self.active_rules@.len();
            let r = self.active_rules.remove(0);
            proof {
                assert(r == r0[j]);
                assert(self.active_rules@ =~= r0.skip(j + 1));
                reveal(Seq::filter);
                assert(r0.take(j + 1).drop_last() =~= r0.take(j));
                assert(r0.take(j + 1).last() == r0[j]);
            }
            if !(r.id == *id) {
                kept.push(r);
            }
        }
        proof {
            assert(r0.take(r0.len() as int) =~= r0);
        }
        self.active_rules = kept;
    }

    /// Every placed record of the given type, in placement order.
    pub fn get_modules_by_type(&self, module_type: &ModuleId) -> (r: Vec<&ArenaCell>)
        ensures
            r@.map_values(|c: &ArenaCell| *c) == self.modules@.filter(
                |c: ArenaCell| c.module_id == *module_type,
            ),
            forall|k: int|
                0 <= k < r@.len() ==> (#[trigger] r@[k]).module_id == *module_type,
    {
        let ghost keep = |c: ArenaCell| c.module_id == *module_type;
        let ghost deref = |c: &ArenaCell| *c;
        let mut out: Vec<&ArenaCell> = Vec::new();
        proof {
            reveal(Seq::filter);
            assert(self.modules@.take(0).filter(keep) =~= Seq::<ArenaCell>::empty());
            assert(out@.map_values(deref) =~= Seq::<ArenaCell>::empty());
        }
        let mut i: usize = 0;
        while i < self.modules.len()
            invariant
                i <= self.modules@.len(),
                out@.map_values(deref) == self.modules@.take(i as int).filter(keep),
                forall|k: int|
                    0 <= k < out@.len() ==> (#[trigger] out@[k]).module_id == *module_type,
            decreases self.modules@.len() - i,
        {
            proof {
                reveal(Seq::filter);
                assert(self.modules@.take(i + 1).drop_last() =~= self.modules@.take(i as int));
                assert(self.modules@.take(i + 1).last() == self.modules@[i as int]);
            }
            if self.modules[i].module_id == *module_type {
                out.push(&self.modules[i]);
                proof {
                    assert(out@.map_values(deref) =~= out@.drop_last().map_values(deref).push(
                        self.modules@[i as int],
                    ));
                }
            }
            i = i + 1;
        }
        proof {
            assert(self.modules@.take(self.modules@.len() as int) =~= self.modules@);
        }
        out
    }

    /// The position of the first player-spawn record, if any.
    pub fn get_player_position(&self) -> (r: Option<(i32, i32)>)
        ensures
            match r {
                Some(p) => spec_first_of_type(self.modules@, ModuleId::Player) matches Some(c)
                    && c.x == p.0 && c.y == p.1,
                None => spec_first_of_type(self.modules@, ModuleId::Player) is None,
            },
    {
        let mut i: usize = 0;
        while i < self.modules.len()
            invariant
                i <= self.modules@.len(),
                forall|j: int|
                    0 <= j < i ==> (#[trigger] self.modules@[j]).module_id != ModuleId::Player,
            decreases self.modules@.len() - i,
        {
            if matches!(self.modules[i].module_id, ModuleId::Player) {
                proof {
                    lemma_first_of_type_at(self.modules@, ModuleId::Player, i as int);
                }
                return Some((self.modules[i].x, self.modules[i].y));
            }
            i = i + 1;
        }
        proof {
            lemma_first_of_type_props(self.modules@, ModuleId::Player);
            if spec_first_of_type(self.modules@, ModuleId::Player) is Some {
                let c = spec_first_of_type(self.modules@, ModuleId::Player)->Some_0;
                let j = choose|j: int| 0 <= j < self.modules@.len() && self.modules@[j] == c;
                assert(self.modules@[j].module_id != ModuleId::Player);
            }
        }
        None
    }

    /// Whether `(x, y)` lies within the arena bounds.
    pub fn is_valid_position(&self, x: i32, y: i32) -> (r: bool)
        requires
            self.wf(),
        ensures
            r == self.spec_in_bounds(x as int, y as int),
    {
        x >= 0 && y >= 0 && x < self.width as i32 && y < self.height as i32
    }

    /// The in-bounds 4-neighbourhood of `(x, y)`.
    pub fn get_adjacent_positions(&self, x: i32, y: i32) -> (r: Vec<(i32, i32)>)
        requires
            self.wf(),
        ensures
            r@.len() <= 4,
            r@.no_duplicates(),
            forall|k: int|
                0 <= k < r@.len() ==> self.spec_in_bounds(
                    (#[trigger] r@[k]).0 as int,
                    r@[k].1 as int,
                ) && spec_is_adjacent(x as int, y as int, r@[k].0 as int, r@[k].1 as int),
            self.spec_in_bounds(x as int + 1, y as int) ==> r@.contains(
                ((x as int + 1) as i32, y),
            ),
            self.spec_in_bounds(x as int - 1, y as int) ==> r@.contains(
                ((x as int - 1) as i32, y),
            ),
            self.spec_in_bounds(x as int, y as int + 1) ==> r@.contains(
                (x, (y as int + 1) as i32),
            ),
            self.spec_in_bounds(x as int, y as int - 1) ==> r@.contains(
                (x, (y as int - 1) as i32),
            ),
    {
        proof {
            broadcast use vstd::seq_lib::lemma_seq_contains_after_push;
        }
        let mut out: Vec<(i32, i32)> = Vec::new();
        let xs: i64 = x as i64;
        let ys: i64 = y as i64;
        let w: i64 = self.width as i64;
        let h: i64 = self.height as i64;
        if xs + 1 < w && ys >= 0 && ys < h && xs + 1 >= 0 {
            out.push(((xs + 1) as i32, y));
        }
        if xs - 1 >= 0 && ys >= 0 && ys < h && xs - 1 < w {
            out.push(((xs - 1) as i32, y));
        }
        if ys + 1 < h && xs >= 0 && xs < w && ys + 1 >= 0 {
            out.push((x, (ys + 1) as i32));
        }
        if ys - 1 >= 0 && xs >= 0 && xs < w && ys - 1 < h {
            out.push((x, (ys - 1) as i32));
        }
        out
    }

    /// How many placed records of one type there are per thousand cells.
    pub fn calculate_module_density(&self, module_type: &ModuleId) -> (r: u64)
        requires
            self.modules@.len() <= 0xffff_ffff,
        ensures
            self.spec_total_cells() == 0 ==> r == 0,
            self.spec_total_cells() > 0 ==> r == spec_count_type(self.modules@, *module_type)
                * 1000 / self.spec_total_cells(),
    {
        proof {
            assert((self.width as int) * (self.height as int) <= 0xffff_ffff * 0xffff_ffff)
                by (nonlinear_arith)
                requires
                    self.width as int <= 0xffff_ffff,
                    self.height as int <= 0xffff_ffff,
            ;
        }
        let total: u64 = (self.width as u64) * (self.height as u64);
        let count: u64 = self.count_modules_by_type(module_type) as u64;
        proof {
            lemma_count_where_nonneg(self.modules@, |c: ArenaCell| c.module_id == *module_type);
        }
        if total == 0 {
            0
        } else {
            count * 1000 / total
        }
    }

    /// Aggregate counts and fixed-point ratios for a finished arena.
    pub fn get_statistics(&self) -> (stats: ArenaStatistics)
        requires
            self.modules@.len() <= 0xffff_ffff,
        ensures
            stats.total_cells == self.spec_total_cells(),
            stats.filled_cells == self.modules@.len(),
            stats.empty_cells == if self.modules@.len() <= self.spec_total_cells() {
                self.spec_total_cells() - self.modules@.len()
            } else {
                0
            },
            stats.walkable_cells == spec_count_walkable(self.modules@),
            stats.hazard_cells == spec_count_hazard(self.modules@),
            stats.energy_orbs == spec_count_type(self.modules@, ModuleId::OrbEnergy),
            stats.interactive_elements == spec_count_interactive(self.modules@),
            stats.fill_ratio_permille == if self.spec_total_cells() > 0 {
                self.modules@.len() as int * 1000 / self.spec_total_cells()
            } else {
                0
            },
            stats.hazard_density_permille == if self.spec_total_cells() > 0 {
                spec_count_hazard(self.modules@) * 1000 / self.spec_total_cells()
            } else {
                0
            },
            stats.walkable_ratio_permille == if self.spec_total_cells() > 0 {
                spec_count_walkable(self.modules@) * 1000 / self.spec_total_cells()
            } else {
                0
            },
    {
        proof {
            assert((self.width as int) * (self.height as int) <= 0xffff_ffff * 0xffff_ffff)
                by (nonlinear_arith)
                requires
                    self.width as int <= 0xffff_ffff,
                    self.height as int <= 0xffff_ffff,
            ;
        }
        let total: u64 = (self.width as u64) * (self.height as u64);
        let filled: u64 = self.modules.len() as u64;
        let walkable: u64 = self.count_walkable_cells() as u64;
        let hazard: u64 = self.count_hazard_cells() as u64;
        let orbs: u64 = self.count_modules_by_type(&ModuleId::OrbEnergy) as u64;
        let interactive: u64 = self.count_interactive_elements() as u64;
        proof {
            lemma_count_where_nonneg(self.modules@, |c: ArenaCell| c.module_id.spec_is_walkable());
            lemma_count_where_nonneg(self.modules@, |c: ArenaCell| c.module_id.spec_is_hazard());
            lemma_count_where_nonneg(
                self.modules@,
                |c: ArenaCell| c.module_id == ModuleId::OrbEnergy,
            );
            lemma_count_where_nonneg(
                self.modules@,
                |c: ArenaCell| c.module_id.spec_is_interactive(),
            );
        }
        let empty: u64 = if filled <= total {
            total - filled
        } else {
            0
        };
        ArenaStatistics {
            total_cells: total,
            filled_cells: filled,
            empty_cells: empty,
            walkable_cells: walkable,
            hazard_cells: hazard,
            energy_orbs: orbs,
            interactive_elements: interactive,
            fill_ratio_permille: if total > 0 {
                filled * 1000 / total
            } else {
                0
            },
            hazard_density_permille: if total > 0 {
                hazard * 1000 / total
            } else {
                0
            },
            walkable_ratio_permille: if total > 0 {
                walkable * 1000 / total
            } else {
                0
            },
        }
    }

    /// The arena's quick structural self-check: the issue list is empty
    /// exactly when a player spawn exists, at least three walkable surfaces
    /// stand, and at least one energy orb is placed.
    pub fn validate_structural_integrity(&self) -> (issues: Vec<String>)
        ensures
            issues@.len() == 0 <==> (spec_count_type(self.modules@, ModuleId::Player) > 0
                && spec_count_walkable(self.modules@) >= 3 && spec_count_type(
                self.modules@,
                ModuleId::OrbEnergy,
            ) > 0),
            spec_count_type(self.modules@, ModuleId::Player) == 0 <==> exists|i: int|
                0 <= i < issues@.len() && (#[trigger] issues@[i])@
                    == "No player spawn point found"@,
            spec_count_walkable(self.modules@) < 3 <==> exists|i: int|
                0 <= i < issues@.len() && (#[trigger] issues@[i])@
                    == "Insufficient walkable surfaces"@,
            spec_count_type(self.modules@, ModuleId::OrbEnergy) == 0 <==> exists|i: int|
                0 <= i < issues@.len() && (#[trigger] issues@[i])@ == "No energy orbs found"@,
    {
        let mut issues: Vec<String> = Vec::new();
        let players = self.count_modules_by_type(&ModuleId::Player);
        let walkable = self.count_walkable_cells();
        let orbs = self.count_modules_by_type(&ModuleId::OrbEnergy);
        proof {
            lemma_count_where_nonneg(self.modules@, |c: ArenaCell| c.module_id == ModuleId::Player);
            lemma_count_where_nonneg(self.modules@, |c: ArenaCell| c.module_id.spec_is_walkable());
            lemma_count_where_nonneg(
                self.modules@,
                |c: ArenaCell| c.module_id == ModuleId::OrbEnergy,
            );
            reveal_strlit("No player spawn point found");
            reveal_strlit("Insufficient walkable surfaces");
            reveal_strlit("No energy orbs found");
        }
        if players == 0 {
            issues.push("No player spawn point found".to_owned());
            proof {
                assert(issues@[issues@.len() - 1]@ == "No player spawn point found"@);
            }
        }
        if walkable < 3 {
            issues.push("Insufficient walkable surfaces".to_owned());
            proof {
                assert(issues@[issues@.len() - 1]@ == "Insufficient walkable surfaces"@);
            }
        }
        if orbs == 0 {
            issues.push("No energy orbs found".to_owned());
            proof {
                assert(issues@[issues@.len() - 1]@ == "No energy orbs found"@);
            }
        }
        proof {
            reveal_strlit("No player spawn point found");
            reveal_strlit("Insufficient walkable surfaces");
            reveal_strlit("No energy orbs found");
            assert(forall|i: int|
                0 <= i < issues@.len() ==> (#[trigger] issues@[i])@
                    == "No player spawn point found"@ || issues@[i]@
                    == "Insufficient walkable surfaces"@ || issues@[i]@
                    == "No energy orbs found"@);
            if players == 0 {
                assert(issues@[0]@ == "No player spawn point found"@);
            }
            if walkable < 3 {
                let i: int = if players == 0 {
                    1
                } else {
                    0
                };
                assert(issues@[i]@ == "Insufficient walkable surfaces"@);
            }
            if orbs == 0 {
                let i: int = issues@.len() - 1;
                assert(issues@[i]@ == "No energy orbs found"@);
            }
        }
        issues
    }
}

/// The first record carrying the given type, if any.
pub open spec fn spec_first_of_type(s: Seq<ArenaCell>, m: ModuleId) -> Option<ArenaCell>
    decreases s.len(),
{
    if s.len() == 0 {
        None
    } else if s[0].module_id == m {
        Some(s[0])
    } else {
        spec_first_of_type(s.skip(1), m)
    }
}

/// `spec_first_of_type` finds a record of the type exactly when one exists.
pub proof fn lemma_first_of_type_props(s: Seq<ArenaCell>, m: ModuleId)
    ensures
        match spec_first_of_type(s, m) {
            Some(c) => c.module_id == m && exists|i: int| 0 <= i < s.len() && s[i] == c,
            None => forall|i: int| 0 <= i < s.len() ==> (#[trigger] s[i]).module_id != m,
        },
    decreases s.len(),
{
    if s.len() > 0 {
        if !(s[0].module_id == m) {
            lemma_first_of_type_props(s.skip(1), m);
            match spec_first_of_type(s.skip(1), m) {
                Some(c) => {
                    let i = choose|i: int| 0 <= i < s.skip(1).len() && s.skip(1)[i] == c;
                    assert(s[i + 1] == c);
                },
                None => {
                    assert forall|i: int|
                        0 <= i < s.len() implies (#[trigger] s[i]).module_id != m by {
                        if i > 0 {
                            assert(s.skip(1)[i - 1] == s[i]);
                        }
                    }
                },
            }
        }
    }
}

/// If nothing before index `i` carries the type and `s[i]` does, the first
/// record of the type is `s[i]`.
pub proof fn lemma_first_of_type_at(s: Seq<ArenaCell>, m: ModuleId, i: int)
    requires
        0 <= i < s.len(),
        s[i].module_id == m,
        forall|j: int| 0 <= j < i ==> (#[trigger] s[j]).module_id != m,
    ensures
        spec_first_of_type(s, m) == Some(s[i]),
    decreases i,
{
    if i > 0 {
        assert(s.skip(1)[i - 1] == s[i]);
        assert forall|j: int| 0 <= j < i - 1 implies (#[trigger] s.skip(1)[j]).module_id != m by {
            assert(s.skip(1)[j] == s[j + 1]);
        }
        lemma_first_of_type_at(s.skip(1), m, i - 1);
    }
}

/// Whether `(px, py)` is one of the four orthogonal neighbours of `(x, y)`.
pub open spec fn spec_is_adjacent(x: int, y: int, px: int, py: int) -> bool {
    ||| (px == x + 1 && py == y)
    ||| (px == x - 1 && py == y)
    ||| (px == x && py == y + 1)
    ||| (px == x && py == y - 1)
}

} // verus!
