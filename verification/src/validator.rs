//! The standalone structural audit: a stricter, independently invokable
//! pass over a finished arena — basic requirements, connectivity,
//! balance, rule/environment consistency and spatial distribution — with
//! its own thresholds, kept deliberately distinct from the monitor's.

use vstd::prelude::*;

use crate::arena::{spec_cell_at, spec_count_type, spec_count_walkable, spec_first_of_type, Arena, ArenaCell};
use crate::counting::{count_where, lemma_count_where_take_all, lemma_count_where_take_step};
use crate::ids::{EnvVarId, ModuleId, RuleId};
use crate::reach::{pos_in, reachable_positions, spec_reachable};

verus! {

broadcast use vstd::seq_lib::group_seq_properties;

/// The audit's findings, bucketed by severity.
#[derive(Debug, Clone)]
pub struct ValidationResult {
    pub errors: Vec<String>,
    pub warnings: Vec<String>,
    pub info: Vec<String>,
    pub critical: Vec<String>,
}

impl ValidationResult {
    pub fn new() -> (r: ValidationResult)
        ensures
            r.errors@.len() == 0,
            r.warnings@.len() == 0,
            r.info@.len() == 0,
            r.critical@.len() == 0,
    {
        ValidationResult {
            errors: Vec::new(),
            warnings: Vec::new(),
            info: Vec::new(),
            critical: Vec::new(),
        }
    }

    pub fn add_error(&mut self, message: &str)
        ensures
            final(self).errors@.len() == old(self).errors@.len() + 1,
            final(self).errors@.drop_last() == old(self).errors@,
            final(self).errors@.last()@ == message@,
            final(self).warnings@ == old(self).warnings@,
            final(self).info@ == old(self).info@,
            final(self).critical@ == old(self).critical@,
    {
        self.errors.push(message.to_owned());
        proof {
            assert(final(self).errors@.drop_last() =~= old(self).errors@);
        }
    }

    pub fn add_warning(&mut self, message: &str)
        ensures
            final(self).warnings@.len() == old(self).warnings@.len() + 1,
            final(self).warnings@.drop_last() == old(self).warnings@,
            final(self).warnings@.last()@ == message@,
            final(self).errors@ == old(self).errors@,
            final(self).info@ == old(self).info@,
            final(self).critical@ == old(self).critical@,
    {
        self.warnings.push(message.to_owned());
        proof {
            assert(final(self).warnings@.drop_last() =~= old(self).warnings@);
        }
    }

    pub fn add_info(&mut self, message: &str)
        ensures
            final(self).info@.len() == old(self).info@.len() + 1,
            final(self).info@.drop_last() == old(self).info@,
            final(self).info@.last()@ == message@,
            final(self).errors@ == old(self).errors@,
            final(self).warnings@ == old(self).warnings@,
            final(self).critical@ == old(self).critical@,
    {
        self.info.push(message.to_owned());
        proof {
            assert(final(self).info@.drop_last() =~= old(self).info@);
        }
    }

    pub fn add_critical(&mut self, message: &str)
        ensures
            final(self).critical@.len() == old(self).critical@.len() + 1,
            final(self).critical@.drop_last() == old(self).critical@,
            final(self).critical@.last()@ == message@,
            final(self).errors@ == old(self).errors@,
            final(self).warnings@ == old(self).warnings@,
            final(self).info@ == old(self).info@,
    {
        self.critical.push(message.to_owned());
        proof {
            assert(final(self).critical@.drop_last() =~= old(self).critical@);
        }
    }

    /// Valid means no errors and no critical findings.
    pub fn is_valid(&self) -> (r: bool)
        ensures
            r == (self.errors@.len() == 0 && self.critical@.len() == 0),
    {
        self.errors.len() == 0 && self.critical.len() == 0
    }

    pub fn has_warnings(&self) -> (r: bool)
        ensures
            r == (self.warnings@.len() > 0),
    {
        self.warnings.len() > 0
    }

    /// Errors, warnings and critical findings counted together.
    pub fn total_issues(&self) -> (r: usize)
        requires
            self.errors@.len() + self.warnings@.len() + self.critical@.len() <= usize::MAX,
        ensures
            r == self.errors@.len() + self.warnings@.len() + self.critical@.len(),
    {
        self.errors.len() + self.warnings.len() + self.critical.len()
    }
}

/// A maximal connected region of unoccupied cells found by the audit's
/// flood fill.
#[derive(Debug)]
pub struct EmptyZone {
    pub center: (i32, i32),
    pub size: usize,
    pub cells: Vec<(i32, i32)>,
}

/// How many records carry an audit-walkable type (low ramps included).
pub open spec fn spec_count_walkable_audit(s: Seq<ArenaCell>) -> int {
    count_where(s, |c: ArenaCell| c.module_id.spec_is_walkable_audit())
}

/// The first record at the coordinate is audit-walkable.
pub open spec fn spec_nbr_walkable_audit(s: Seq<ArenaCell>, x: int, y: int) -> bool {
    match spec_cell_at(s, x, y) {
        Some(c) => c.module_id.spec_is_walkable_audit(),
        None => false,
    }
}

/// How many of the four neighbours are audit-walkable.
pub open spec fn spec_adjacent_walkable_audit(s: Seq<ArenaCell>, x: int, y: int) -> int {
    (if spec_nbr_walkable_audit(s, x, y + 1) {
        1int
    } else {
        0int
    }) + (if spec_nbr_walkable_audit(s, x, y - 1) {
        1int
    } else {
        0int
    }) + (if spec_nbr_walkable_audit(s, x + 1, y) {
        1int
    } else {
        0int
    }) + (if spec_nbr_walkable_audit(s, x - 1, y) {
        1int
    } else {
        0int
    })
}

/// Whether the (possibly unrepresentable) coordinate holds an
/// audit-walkable record.
fn nbr_walkable_audit_at(arena: &Arena, x: i64, y: i64) -> (r: bool)
    ensures
        r == spec_nbr_walkable_audit(arena.modules@, x as int, y as int),
{
    if x >= -2147483648 && x <= 2147483647 && y >= -2147483648 && y <= 2147483647 {
        match arena.get_cell(x as i32, y as i32) {
            Some(c) => c.module_id.is_walkable_audit(),
            None => false,
        }
    } else {
        proof {
            crate::arena::lemma_cell_at_props(arena.modules@, x as int, y as int);
            if spec_cell_at(arena.modules@, x as int, y as int) is Some {
                let c = spec_cell_at(arena.modules@, x as int, y as int)->Some_0;
                assert(c.x as int == x as int && c.y as int == y as int);
            }
        }
        false
    }
}

impl Arena {
    /// The audit's walkable records (low ramps included), in placement
    /// order.
    pub fn get_walkable_cells(&self) -> (r: Vec<&ArenaCell>)
        ensures
            r@.len() == spec_count_walkable_audit(self.modules@),
            forall|k: int|
                0 <= k < r@.len() ==> (#[trigger] r@[k]).module_id.spec_is_walkable_audit(),
    {
        let ghost f = |c: ArenaCell| c.module_id.spec_is_walkable_audit();
        let mut out: Vec<&ArenaCell> = Vec::new();
        let mut i: usize = 0;
        while i < self.modules.len()
            invariant
                i <= self.modules@.len(),
                out@.len() == count_where(self.modules@.take(i as int), f),
                forall|k: int|
                    0 <= k < out@.len() ==> (#[trigger] out@[k]).module_id.spec_is_walkable_audit(),
            decreases self.modules@.len() - i,
        {
            proof {
                lemma_count_where_take_step(self.modules@, f, i as int);
            }
            if self.modules[i].module_id.is_walkable_audit() {
                out.push(&self.modules[i]);
            }
            i = i + 1;
        }
        proof {
            lemma_count_where_take_all(self.modules@, f);
        }
        out
    }

    /// The interactive records, in placement order.
    pub fn get_interactive_elements(&self) -> (r: Vec<&ArenaCell>)
        ensures
            r@.len() == crate::arena::spec_count_interactive(self.modules@),
            forall|k: int|
                0 <= k < r@.len() ==> (#[trigger] r@[k]).module_id.spec_is_interactive(),
    {
        let ghost f = |c: ArenaCell| c.module_id.spec_is_interactive();
        let mut out: Vec<&ArenaCell> = Vec::new();
        let mut i: usize = 0;
        while i < self.modules.len()
            invariant
                i <= self.modules@.len(),
                out@.len() == count_where(self.modules@.take(i as int), f),
                forall|k: int|
                    0 <= k < out@.len() ==> (#[trigger] out@[k]).module_id.spec_is_interactive(),
            decreases self.modules@.len() - i,
        {
            proof {
                lemma_count_where_take_step(self.modules@, f, i as int);
            }
            if self.modules[i].module_id.is_interactive() {
                out.push(&self.modules[i]);
            }
            i = i + 1;
        }
        proof {
            lemma_count_where_take_all(self.modules@, f);
        }
        out
    }

    /// The hazard coordinates, in placement order.
    pub fn get_hazard_positions(&self) -> (r: Vec<(i32, i32)>)
        ensures
            r@ == spec_hazard_positions(self.modules@),
            r@.len() == crate::arena::spec_count_hazard(self.modules@),
    {
        let ghost f = |c: ArenaCell| c.module_id.spec_is_hazard();
        let ghost posf = |c: ArenaCell| (c.x, c.y);
        let mut out: Vec<(i32, i32)> = Vec::new();
        proof {
            reveal(Seq::filter);
            assert(self.modules@.take(0).filter(f) =~= Seq::<ArenaCell>::empty());
            assert(out@ =~= self.modules@.take(0).filter(f).map_values(posf));
        }
        let mut i: usize = 0;
        while i < self.modules.len()
            invariant
                i <= self.modules@.len(),
                out@ == self.modules@.take(i as int).filter(f).map_values(posf),
                out@.len() == count_where(self.modules@.take(i as int), f),
            decreases self.modules@.len() - i,
        {
            proof {
                reveal(Seq::filter);
                lemma_count_where_take_step(self.modules@, f, i as int);
                assert(self.modules@.take(i + 1).drop_last() =~= self.modules@.take(i as int));
                assert(self.modules@.take(i + 1).last() == self.modules@[i as int]);
            }
            if self.modules[i].module_id.is_hazard() {
                out.push((self.modules[i].x, self.modules[i].y));
                proof {
                    assert(out@ =~= self.modules@.take(i + 1).filter(f).map_values(posf));
                }
            } else {
                proof {
                    assert(out@ =~= self.modules@.take(i + 1).filter(f).map_values(posf));
                }
            }
            i = i + 1;
        }
        proof {
            lemma_count_where_take_all(self.modules@, f);
            assert(self.modules@.take(self.modules@.len() as int) =~= self.modules@);
        }
        out
    }

    /// The audit's flood fill from a start position: exactly the
    /// positions a walk over the audit predicate connects to it.
    pub fn get_reachable_positions(&self, start: (i32, i32)) -> (r: Vec<(i32, i32)>)
        requires
            self.wf(),
        ensures
            pos_in(r@, start.0 as int, start.1 as int),
            forall|m: int|
                0 <= m < r@.len() ==> spec_reachable(
                    *self,
                    true,
                    start.0 as int,
                    start.1 as int,
                    (#[trigger] r@[m]).0 as int,
                    r@[m].1 as int,
                ),
            crate::reach::spec_closed(*self, true, r@),
            r@.no_duplicates(),
    {
        reachable_positions(self, start.0, start.1, true)
    }

    /// How many of the four neighbours hold an audit-walkable record.
    pub fn count_adjacent_walkable(&self, x: i32, y: i32) -> (r: u32)
        ensures
            r == spec_adjacent_walkable_audit(self.modules@, x as int, y as int),
    {
        let mut count: u32 = 0;
        if nbr_walkable_audit_at(self, x as i64, y as i64 + 1) {
            count = count + 1;
        }
        if nbr_walkable_audit_at(self, x as i64, y as i64 - 1) {
            count = count + 1;
        }
        if nbr_walkable_audit_at(self, x as i64 + 1, y as i64) {
            count = count + 1;
        }
        if nbr_walkable_audit_at(self, x as i64 - 1, y as i64) {
            count = count + 1;
        }
        count
    }

    /// The Manhattan distance between two coordinates.
    pub fn manhattan_distance(&self, pos1: (i32, i32), pos2: (i32, i32)) -> (r: i64)
        ensures
            r == (if pos1.0 >= pos2.0 {
                pos1.0 - pos2.0
            } else {
                pos2.0 - pos1.0
            }) + (if pos1.1 >= pos2.1 {
                pos1.1 - pos2.1
            } else {
                pos2.1 - pos1.1
            }),
    {
        let dx: i64 = if pos1.0 >= pos2.0 {
            pos1.0 as i64 - pos2.0 as i64
        } else {
            pos2.0 as i64 - pos1.0 as i64
        };
        let dy: i64 = if pos1.1 >= pos2.1 {
            pos1.1 as i64 - pos2.1 as i64
        } else {
            pos2.1 as i64 - pos1.1 as i64
        };
        dx + dy
    }

    /// Whether a steep ramp stands that no audit walk reaches from the
    /// player spawn. Without a player spawn the answer is no.
    pub fn has_unreachable_elevated_areas(&self) -> (r: bool)
        requires
            self.wf(),
        ensures
            r == match spec_first_of_type(self.modules@, ModuleId::Player) {
                Some(p) => exists|i: int|
                    0 <= i < self.modules@.len() && (#[trigger] self.modules@[i]).module_id
                        == ModuleId::RampSteep && !spec_reachable(
                        *self,
                        true,
                        p.x as int,
                        p.y as int,
                        self.modules@[i].x as int,
                        self.modules@[i].y as int,
                    ),
                None => false,
            },
    {
        let player = self.get_player_position();
        match player {
            None => false,
            Some(p) => {
                let reached = self.get_reachable_positions(p);
                let mut i: usize = 0;
                while i < self.modules.len()
                    invariant
                        i <= self.modules@.len(),
                        spec_first_of_type(self.modules@, ModuleId::Player) matches Some(pc)
                            && pc.x == p.0 && pc.y == p.1,
                        pos_in(reached@, p.0 as int, p.1 as int),
                        forall|m: int|
                            0 <= m < reached@.len() ==> spec_reachable(
                                *self,
                                true,
                                p.0 as int,
                                p.1 as int,
                                (#[trigger] reached@[m]).0 as int,
                                reached@[m].1 as int,
                            ),
                        crate::reach::spec_closed(*self, true, reached@),
                        forall|j: int|
                            0 <= j < i ==> !((#[trigger] self.modules@[j]).module_id
                                == ModuleId::RampSteep && !spec_reachable(
                                *self,
                                true,
                                p.0 as int,
                                p.1 as int,
                                self.modules@[j].x as int,
                                self.modules@[j].y as int,
                            )),
                    decreases self.modules@.len() - i,
                {
                    let c = &self.modules[i];
                    if matches!(c.module_id, ModuleId::RampSteep) {
                        let present = crate::reach::contains_pos_pub(&reached, c.x, c.y);
                        proof {
                            if present {
                                let m = choose|m: int|
                                    0 <= m < reached@.len() && (#[trigger] reached@[m]).0
                                        == c.x as int && reached@[m].1 == c.y as int;
                            } else {
                                if spec_reachable(
                                    *self,
                                    true,
                                    p.0 as int,
                                    p.1 as int,
                                    c.x as int,
                                    c.y as int,
                                ) {
                                    crate::reach::lemma_reachable_in_closed(
                                        *self,
                                        true,
                                        reached@,
                                        p.0 as int,
                                        p.1 as int,
                                        c.x as int,
                                        c.y as int,
                                    );
                                }
                            }
                        }
                        if !present {
                            return true;
                        }
                    }
                    i = i + 1;
                }
                false
            },
        }
    }
}

/// The hazard coordinates, in placement order.
pub open spec fn spec_hazard_positions(s: Seq<ArenaCell>) -> Seq<(i32, i32)> {
    s.filter(|c: ArenaCell| c.module_id.spec_is_hazard()).map_values(|c: ArenaCell| (c.x, c.y))
}

/// How many unordered hazard pairs lie within Manhattan distance two of
/// one another.
pub open spec fn spec_close_to(s: Seq<(i32, i32)>, p: (i32, i32)) -> int
    decreases s.len(),
{
    if s.len() == 0 {
        0
    } else {
        spec_close_to(s.drop_last(), p) + if spec_manhattan(s.last(), p) <= 2 {
            1int
        } else {
            0int
        }
    }
}

pub open spec fn spec_manhattan(p: (i32, i32), q: (i32, i32)) -> int {
    (if p.0 >= q.0 {
        p.0 - q.0
    } else {
        q.0 - p.0
    }) + (if p.1 >= q.1 {
        p.1 - q.1
    } else {
        q.1 - p.1
    })
}

pub open spec fn spec_close_pairs(s: Seq<(i32, i32)>) -> int
    decreases s.len(),
{
    if s.len() <= 1 {
        0
    } else {
        spec_close_pairs(s.drop_last()) + spec_close_to(s.drop_last(), s.last())
    }
}

proof fn lemma_close_to_bound(s: Seq<(i32, i32)>, p: (i32, i32))
    ensures
        0 <= spec_close_to(s, p) <= s.len(),
    decreases s.len(),
{
    if s.len() > 0 {
        lemma_close_to_bound(s.drop_last(), p);
    }
}

proof fn lemma_close_pairs_bound(s: Seq<(i32, i32)>)
    ensures
        0 <= spec_close_pairs(s) <= s.len() * s.len(),
    decreases s.len(),
{
    if s.len() > 1 {
        lemma_close_pairs_bound(s.drop_last());
        lemma_close_to_bound(s.drop_last(), s.last());
        let l = s.len() as int;
        assert((l - 1) * (l - 1) + (l - 1) <= l * l) by (nonlinear_arith)
            requires
                l >= 2,
        ;
    } else if s.len() == 1 {
        assert(s.len() * s.len() == 1);
    }
}

proof fn lemma_close_to_take_step(s: Seq<(i32, i32)>, j: int, p: (i32, i32))
    requires
        0 <= j < s.len(),
    ensures
        spec_close_to(s.take(j + 1), p) == spec_close_to(s.take(j), p) + if spec_manhattan(
            s[j],
            p,
        ) <= 2 {
            1int
        } else {
            0int
        },
{
    assert(s.take(j + 1).drop_last() =~= s.take(j));
    assert(s.take(j + 1).last() == s[j]);
}

proof fn lemma_close_pairs_take_step(s: Seq<(i32, i32)>, i: int)
    requires
        0 <= i < s.len(),
    ensures
        spec_close_pairs(s.take(i + 1)) == spec_close_pairs(s.take(i)) + spec_close_to(
            s.take(i),
            s[i],
        ),
{
    assert(s.take(i + 1).drop_last() =~= s.take(i));
    assert(s.take(i + 1).last() == s[i]);
    if i == 0 {
        assert(spec_close_pairs(s.take(1)) == 0);
        assert(spec_close_to(s.take(0), s[0]) == 0);
    }
}

/// Whether the empty-zone flood fill may occupy `(x, y)`: in bounds and
/// unoccupied.
pub open spec fn spec_empty_step(a: Arena, x: int, y: int) -> bool {
    a.spec_in_bounds(x, y) && spec_cell_at(a.modules@, x, y) is None
}

/// A walk over unoccupied in-bounds cells: consecutive positions are
/// orthogonally adjacent and every position after the first is empty.
#[verifier::opaque]
pub open spec fn spec_empty_walk(a: Arena, p: Seq<(int, int)>) -> bool {
    &&& p.len() > 0
    &&& forall|k: int|
        1 <= k < p.len() ==> crate::arena::spec_is_adjacent(
            p[k - 1].0,
            p[k - 1].1,
            (#[trigger] p[k]).0,
            p[k].1,
        ) && spec_empty_step(a, p[k].0, p[k].1)
}

/// Whether `(tx, ty)` is connected to `(sx, sy)` through empty cells.
#[verifier::opaque]
pub open spec fn spec_empty_connected(a: Arena, sx: int, sy: int, tx: int, ty: int) -> bool {
    exists|p: Seq<(int, int)>|
        spec_empty_walk(a, p) && p[0] == (sx, sy) && p.last() == (tx, ty)
}

/// A position list closed under empty-cell expansion.
pub open spec fn spec_empty_closed(a: Arena, r: Seq<(i32, i32)>) -> bool {
    forall|m: int, px: int, py: int|
        #![trigger r[m], spec_empty_step(a, px, py)]
        0 <= m < r.len() && crate::arena::spec_is_adjacent(
            r[m].0 as int,
            r[m].1 as int,
            px,
            py,
        ) && spec_empty_step(a, px, py) ==> pos_in(r, px, py)
}

proof fn lemma_empty_connected_refl(a: Arena, sx: int, sy: int)
    ensures
        spec_empty_connected(a, sx, sy, sx, sy),
{
    reveal(spec_empty_walk);
    reveal(spec_empty_connected);
    let p = seq![(sx, sy)];
    assert(spec_empty_walk(a, p));
    assert(p[0] == (sx, sy) && p.last() == (sx, sy));
}

proof fn lemma_empty_connected_step(a: Arena, sx: int, sy: int, ux: int, uy: int, vx: int, vy: int)
    requires
        spec_empty_connected(a, sx, sy, ux, uy),
        crate::arena::spec_is_adjacent(ux, uy, vx, vy),
        spec_empty_step(a, vx, vy),
    ensures
        spec_empty_connected(a, sx, sy, vx, vy),
{
    reveal(spec_empty_walk);
    reveal(spec_empty_connected);
    let p = choose|p: Seq<(int, int)>|
        spec_empty_walk(a, p) && p[0] == (sx, sy) && p.last() == (ux, uy);
    let q = p.push((vx, vy));
    assert forall|k: int|
        1 <= k < q.len() implies crate::arena::spec_is_adjacent(
        q[k - 1].0,
        q[k - 1].1,
        (#[trigger] q[k]).0,
        q[k].1,
    ) && spec_empty_step(a, q[k].0, q[k].1) by {
        if k < q.len() - 1 {
            assert(q[k] == p[k] && q[k - 1] == p[k - 1]);
        } else {
            assert(q[k - 1] == p.last());
        }
    }
    assert(spec_empty_walk(a, q));
    assert(q[0] == (sx, sy) && q.last() == (vx, vy));
}

/// A list of distinct in-bounds positions cannot outgrow the grid.
proof fn lemma_inbounds_positions_bound(v: Seq<(i32, i32)>, w: int, h: int)
    requires
        v.no_duplicates(),
        forall|k: int|
            0 <= k < v.len() ==> 0 <= (#[trigger] v[k]).0 < w && 0 <= v[k].1 < h,
        0 < w <= 65535,
        0 < h <= 65535,
    ensures
        v.len() <= w * h,
{
    let codes = v.map_values(|p: (i32, i32)| (p.0 as int) + (p.1 as int) * w);
    assert forall|i: int, j: int| 0 <= i < j < codes.len() implies codes[i] != codes[j] by {
        let p = v[i];
        let q = v[j];
        assert(p != q);
        assert(codes[i] == (p.0 as int) + (p.1 as int) * w);
        assert(codes[j] == (q.0 as int) + (q.1 as int) * w);
        assert((p.0 as int) + (p.1 as int) * w != (q.0 as int) + (q.1 as int) * w)
            by (nonlinear_arith)
            requires
                0 <= (p.0 as int) && (p.0 as int) < w,
                0 <= (q.0 as int) && (q.0 as int) < w,
                0 <= (p.1 as int) && 0 <= (q.1 as int),
                !((p.0 as int) == (q.0 as int) && (p.1 as int) == (q.1 as int)),
        ;
    }
    codes.unique_seq_to_set();
    assert forall|c: int| codes.to_set().contains(c) implies vstd::set_lib::set_int_range(
        0,
        w * h,
    ).contains(c) by {
        let k = choose|k: int| 0 <= k < codes.len() && codes[k] == c;
        let p = v[k];
        assert(0 <= (p.0 as int) + (p.1 as int) * w && (p.0 as int) + (p.1 as int) * w < w * h)
            by (nonlinear_arith)
            requires
                0 <= (p.0 as int) && (p.0 as int) < w,
                0 <= (p.1 as int) && (p.1 as int) < h,
                w > 0 && h > 0,
        ;
    }
    vstd::set_lib::lemma_int_range(0, w * h);
    vstd::set_lib::lemma_len_subset(codes.to_set(), vstd::set_lib::set_int_range(0, w * h));
}

impl Arena {
    /// The audit, in full: basic requirements, connectivity, balance,
    /// rule/environment consistency and spatial distribution. The result
    /// holds a critical finding exactly when the player spawn is missing,
    /// some orb is unreachable from it, or some orb has no adjacent
    /// walkable surface at all.
    pub fn validate_advanced_integrity(&self) -> (r: ValidationResult)
        requires
            self.wf(),
            self.modules@.len() <= 0xffff_ffff,
        ensures
            r.critical@.len() > 0 <==> (spec_first_of_type(self.modules@, ModuleId::Player)
                is None || (spec_first_of_type(self.modules@, ModuleId::Player) matches Some(p)
                && exists|i: int|
                0 <= i < self.modules@.len() && (#[trigger] self.modules@[i]).module_id
                    == ModuleId::OrbEnergy && !spec_reachable(
                    *self,
                    true,
                    p.x as int,
                    p.y as int,
                    self.modules@[i].x as int,
                    self.modules@[i].y as int,
                )) || exists|i: int|
                0 <= i < self.modules@.len() && (#[trigger] self.modules@[i]).module_id
                    == ModuleId::OrbEnergy && spec_adjacent_walkable_audit(
                    self.modules@,
                    self.modules@[i].x as int,
                    self.modules@[i].y as int,
                ) == 0),
    {
        let mut result = ValidationResult::new();
        self.check_basic_requirements(&mut result);
        let ghost c0 = result.critical@;
        self.check_connectivity(&mut result);
        let ghost c1 = result.critical@;
        self.check_audit_balance(&mut result);
        let ghost c2 = result.critical@;
        self.check_rule_environment_consistency(&mut result);
        let ghost c3 = result.critical@;
        self.check_spatial_distribution(&mut result);
        proof {
            assert(c0.len() == 0);
            assert(c2 == c1);
            assert(c3 == c2);
            assert(result.critical@.len() > 0 <==> (c1.len() > 0 || result.critical@.len()
                > c3.len()));
        }
        result
    }

    /// Player spawn, minimum walkable area (a quarter of all cells, low
    /// ramps counted) and orb presence: an error each for a missing
    /// player, a walkable shortfall and missing orbs; a warning each for
    /// extra players and an orb count under three.
    fn check_basic_requirements(&self, result: &mut ValidationResult)
        requires
            self.wf(),
            self.modules@.len() <= 0xffff_ffff,
        ensures
            final(result).critical@ == old(result).critical@,
            final(result).info@ == old(result).info@,
            final(result).errors@.take(old(result).errors@.len() as int) == old(result).errors@,
            final(result).warnings@.take(old(result).warnings@.len() as int) == old(
                result,
            ).warnings@,
            final(result).errors@.len() == old(result).errors@.len() + ({
                let players = spec_count_type(self.modules@, ModuleId::Player);
                let orbs = spec_count_type(self.modules@, ModuleId::OrbEnergy);
                (if players == 0 {
                    1int
                } else {
                    0int
                }) + (if spec_count_walkable_audit(self.modules@) < self.spec_total_cells() / 4 {
                    1int
                } else {
                    0int
                }) + (if orbs == 0 {
                    1int
                } else {
                    0int
                })
            }),
            final(result).warnings@.len() == old(result).warnings@.len() + ({
                let players = spec_count_type(self.modules@, ModuleId::Player);
                let orbs = spec_count_type(self.modules@, ModuleId::OrbEnergy);
                (if players > 1 {
                    1int
                } else {
                    0int
                }) + (if 0 < orbs < 3 {
                    1int
                } else {
                    0int
                })
            }),
    {
        proof {
            assert((self.width as int) * (self.height as int) <= 65535 * 65535)
                by (nonlinear_arith)
                requires
                    0 <= (self.width as int) && (self.width as int) <= 65535,
                    0 <= (self.height as int) && (self.height as int) <= 65535,
            ;
            assert(old(result).errors@.take(old(result).errors@.len() as int) =~= old(
                result,
            ).errors@);
            assert(old(result).warnings@.take(old(result).warnings@.len() as int) =~= old(
                result,
            ).warnings@);
        }
        let players = self.count_modules_by_type(&ModuleId::Player);
        if players == 0 {
            result.add_error("No player spawn point found");
            proof {
                assert(result.errors@.take(old(result).errors@.len() as int) =~= old(
                    result,
                ).errors@);
            }
        } else if players > 1 {
            result.add_warning("Multiple player spawns found");
            proof {
                assert(result.warnings@.take(old(result).warnings@.len() as int) =~= old(
                    result,
                ).warnings@);
            }
        }
        let walkable = self.get_walkable_cells().len() as u64;
        let min_walkable: u64 = (self.width as u64) * (self.height as u64) / 4;
        if walkable < min_walkable {
            result.add_error("Insufficient walkable area");
            proof {
                assert(result.errors@.take(old(result).errors@.len() as int) =~= old(
                    result,
                ).errors@);
            }
        }
        let orbs = self.count_modules_by_type(&ModuleId::OrbEnergy);
        if orbs == 0 {
            result.add_error("No energy orbs found");
            proof {
                assert(result.errors@.take(old(result).errors@.len() as int) =~= old(
                    result,
                ).errors@);
            }
        } else if orbs < 3 {
            result.add_warning("Low energy orb count");
            proof {
                assert(result.warnings@.take(old(result).warnings@.len() as int) =~= old(
                    result,
                ).warnings@);
            }
        }
        proof {
            broadcast use vstd::seq_lib::group_seq_properties;

        }
    }

    /// Connectivity from the player spawn over the audit predicate: an
    /// unreachable orb is critical, an unreachable interactive element
    /// warns, and a combined reachable share under four fifths errs.
    fn check_connectivity(&self, result: &mut ValidationResult)
        requires
            self.wf(),
            self.modules@.len() <= 0xffff_ffff,
        ensures
            final(result).critical@.len() > old(result).critical@.len() <==> (spec_first_of_type(
                self.modules@,
                ModuleId::Player,
            ) is None || (spec_first_of_type(self.modules@, ModuleId::Player) matches Some(p)
                && exists|i: int|
                0 <= i < self.modules@.len() && (#[trigger] self.modules@[i]).module_id
                    == ModuleId::OrbEnergy && !spec_reachable(
                    *self,
                    true,
                    p.x as int,
                    p.y as int,
                    self.modules@[i].x as int,
                    self.modules@[i].y as int,
                ))),
            final(result).critical@.take(old(result).critical@.len() as int) == old(
                result,
            ).critical@,
            final(result).critical@.len() >= old(result).critical@.len(),
            final(result).errors@.take(old(result).errors@.len() as int) == old(result).errors@,
            final(result).errors@.len() >= old(result).errors@.len(),
            final(result).warnings@.take(old(result).warnings@.len() as int) == old(
                result,
            ).warnings@,
            final(result).info@ == old(result).info@,
    {
        proof {
            broadcast use vstd::seq_lib::group_seq_properties;

            assert(old(result).critical@.take(old(result).critical@.len() as int) =~= old(
                result,
            ).critical@);
            assert(old(result).errors@.take(old(result).errors@.len() as int) =~= old(
                result,
            ).errors@);
            assert(old(result).warnings@.take(old(result).warnings@.len() as int) =~= old(
                result,
            ).warnings@);
        }
        let player = self.get_player_position();
        match player {
            None => {
                result.add_critical("Cannot perform connectivity check: no player spawn found");
                proof {
                    assert(result.critical@.take(old(result).critical@.len() as int) =~= old(
                        result,
                    ).critical@);
                }
            },
            Some(start) => {
                let reached = self.get_reachable_positions(start);
                let unreachable_orbs = self.count_unreachable(&reached, start, true);
                let unreachable_interactive = self.count_unreachable(&reached, start, false);
                let orbs = self.count_modules_by_type(&ModuleId::OrbEnergy) as u64;
                let interactive = self.count_interactive_elements() as u64;
                proof {
                    crate::arena::lemma_count_type_bound(self.modules@, ModuleId::OrbEnergy);
                    crate::arena::lemma_count_interactive_bound(self.modules@);
                }
                if unreachable_orbs > 0 {
                    result.add_critical("Energy orbs are unreachable from the player spawn");
                    proof {
                        assert(result.critical@.take(old(result).critical@.len() as int) =~= old(
                            result,
                        ).critical@);
                    }
                }
                if unreachable_interactive > 0 {
                    result.add_warning("Interactive elements are unreachable");
                    proof {
                        assert(result.warnings@.take(old(result).warnings@.len() as int) =~= old(
                            result,
                        ).warnings@);
                    }
                }
                let total_important: u64 = orbs + interactive;
                let reachable_important: u64 = total_important - unreachable_orbs
                    - unreachable_interactive;
                if total_important > 0 && 5 * reachable_important < 4 * total_important {
                    result.add_error("Low connectivity ratio");
                    proof {
                        assert(result.errors@.take(old(result).errors@.len() as int) =~= old(
                            result,
                        ).errors@);
                    }
                }
            },
        }
    }

    /// How many orbs (or, with `orbs` false, interactive elements) the
    /// audit flood fill from `start` does not reach.
    fn count_unreachable(&self, reached: &Vec<(i32, i32)>, start: (i32, i32), orbs: bool) -> (r:
        u64)
        requires
            self.wf(),
            self.modules@.len() <= 0xffff_ffff,
            pos_in(reached@, start.0 as int, start.1 as int),
            forall|m: int|
                0 <= m < reached@.len() ==> spec_reachable(
                    *self,
                    true,
                    start.0 as int,
                    start.1 as int,
                    (#[trigger] reached@[m]).0 as int,
                    reached@[m].1 as int,
                ),
            crate::reach::spec_closed(*self, true, reached@),
        ensures
            r == count_where(
                self.modules@,
                |c: ArenaCell|
                    (if orbs {
                        c.module_id == ModuleId::OrbEnergy
                    } else {
                        c.module_id.spec_is_interactive()
                    }) && !spec_reachable(
                        *self,
                        true,
                        start.0 as int,
                        start.1 as int,
                        c.x as int,
                        c.y as int,
                    ),
            ),
            r <= self.modules@.len(),
            orbs ==> r <= spec_count_type(self.modules@, ModuleId::OrbEnergy),
            !orbs ==> r <= crate::arena::spec_count_interactive(self.modules@),
            (r > 0) <==> exists|i: int|
                0 <= i < self.modules@.len() && (if orbs {
                    (#[trigger] self.modules@[i]).module_id == ModuleId::OrbEnergy
                } else {
                    (#[trigger] self.modules@[i]).module_id.spec_is_interactive()
                }) && !spec_reachable(
                    *self,
                    true,
                    start.0 as int,
                    start.1 as int,
                    self.modules@[i].x as int,
                    self.modules@[i].y as int,
                ),
    {
        let ghost f = |c: ArenaCell|
            (if orbs {
                c.module_id == ModuleId::OrbEnergy
            } else {
                c.module_id.spec_is_interactive()
            }) && !spec_reachable(
                *self,
                true,
                start.0 as int,
                start.1 as int,
                c.x as int,
                c.y as int,
            );
        let mut count: u64 = 0;
        let mut i: usize = 0;
        while i < self.modules.len()
            invariant
                i <= self.modules@.len(),
                count == count_where(self.modules@.take(i as int), f),
                count <= i,
                self.wf(),
                pos_in(reached@, start.0 as int, start.1 as int),
                forall|m: int|
                    0 <= m < reached@.len() ==> spec_reachable(
                        *self,
                        true,
                        start.0 as int,
                        start.1 as int,
                        (#[trigger] reached@[m]).0 as int,
                        reached@[m].1 as int,
                    ),
                crate::reach::spec_closed(*self, true, reached@),
            decreases self.modules@.len() - i,
        {
            proof {
                lemma_count_where_take_step(self.modules@, f, i as int);
            }
            let c = &self.modules[i];
            let selected = if orbs {
                matches!(c.module_id, ModuleId::OrbEnergy)
            } else {
                c.module_id.is_interactive()
            };
            if selected {
                let present = crate::reach::contains_pos_pub(reached, c.x, c.y);
                proof {
                    if present {
                        let m = choose|m: int|
                            0 <= m < reached@.len() && (#[trigger] reached@[m]).0 == c.x as int
                                && reached@[m].1 == c.y as int;
                    } else {
                        if spec_reachable(
                            *self,
                            true,
                            start.0 as int,
                            start.1 as int,
                            c.x as int,
                            c.y as int,
                        ) {
                            crate::reach::lemma_reachable_in_closed(
                                *self,
                                true,
                                reached@,
                                start.0 as int,
                                start.1 as int,
                                c.x as int,
                                c.y as int,
                            );
                        }
                    }
                }
                if !present {
                    count = count + 1;
                }
            }
            i = i + 1;
        }
        proof {
            lemma_count_where_take_all(self.modules@, f);
            crate::counting::lemma_count_where_pos(self.modules@, f);
            if orbs {
                crate::counting::lemma_count_where_mono(
                    self.modules@,
                    f,
                    |c: ArenaCell| c.module_id == ModuleId::OrbEnergy,
                );
            } else {
                crate::counting::lemma_count_where_mono(
                    self.modules@,
                    f,
                    |c: ArenaCell| c.module_id.spec_is_interactive(),
                );
            }
        }
        count
    }

    /// Balance over the derived statistics, with the audit's thresholds:
    /// an error exactly when under a quarter of all cells is walkable, a
    /// warning each for excessive hazards, scarce orbs and crowded
    /// interactive elements, a note for an orb surplus.
    fn check_audit_balance(&self, result: &mut ValidationResult)
        requires
            self.wf(),
            self.modules@.len() <= 0xffff_ffff,
        ensures
            final(result).critical@ == old(result).critical@,
            final(result).errors@.take(old(result).errors@.len() as int) == old(result).errors@,
            final(result).warnings@.take(old(result).warnings@.len() as int) == old(
                result,
            ).warnings@,
            final(result).info@.take(old(result).info@.len() as int) == old(result).info@,
            final(result).errors@.len() == old(result).errors@.len() + ({
                let total = self.spec_total_cells();
                if total > 0 && spec_count_walkable(self.modules@) * 4 < total {
                    1int
                } else {
                    0int
                }
            }),
            final(result).warnings@.len() == old(result).warnings@.len() + ({
                let total = self.spec_total_cells();
                let hazards = crate::arena::spec_count_hazard(self.modules@);
                let orbs = spec_count_type(self.modules@, ModuleId::OrbEnergy);
                let interactive = crate::arena::spec_count_interactive(self.modules@);
                (if total > 0 && hazards * 5 > total * 2 {
                    1int
                } else {
                    0int
                }) + (if total > 0 && orbs * 100 < total * 3 {
                    1int
                } else {
                    0int
                }) + (if total > 0 && interactive * 20 > total * 3 {
                    1int
                } else {
                    0int
                })
            }),
            final(result).info@.len() == old(result).info@.len() + ({
                let total = self.spec_total_cells();
                let orbs = spec_count_type(self.modules@, ModuleId::OrbEnergy);
                if total > 0 && !(orbs * 100 < total * 3) && orbs * 4 > total {
                    1int
                } else {
                    0int
                }
            }),
    {
        proof {
            broadcast use vstd::seq_lib::group_seq_properties;

            assert(old(result).errors@.take(old(result).errors@.len() as int) =~= old(
                result,
            ).errors@);
            assert(old(result).warnings@.take(old(result).warnings@.len() as int) =~= old(
                result,
            ).warnings@);
            assert(old(result).info@.take(old(result).info@.len() as int) =~= old(result).info@);
            assert((self.width as int) * (self.height as int) <= 65535 * 65535)
                by (nonlinear_arith)
                requires
                    0 <= (self.width as int) && (self.width as int) <= 65535,
                    0 <= (self.height as int) && (self.height as int) <= 65535,
            ;
            crate::arena::lemma_count_type_bound(self.modules@, ModuleId::OrbEnergy);
            crate::arena::lemma_count_hazard_bound(self.modules@);
            crate::arena::lemma_count_walkable_bound(self.modules@);
            crate::arena::lemma_count_interactive_bound(self.modules@);
        }
        let total: u64 = (self.width as u64) * (self.height as u64);
        let hazards: u64 = self.count_hazard_cells() as u64;
        let walkable: u64 = self.count_walkable_cells() as u64;
        let orbs: u64 = self.count_modules_by_type(&ModuleId::OrbEnergy) as u64;
        let interactive: u64 = self.count_interactive_elements() as u64;
        if total > 0 && hazards * 5 > total * 2 {
            result.add_warning("High hazard density");
            proof {
                assert(result.warnings@.take(old(result).warnings@.len() as int) =~= old(
                    result,
                ).warnings@);
            }
        }
        if total > 0 && walkable * 4 < total {
            result.add_error("Insufficient walkable area ratio");
            proof {
                assert(result.errors@.take(old(result).errors@.len() as int) =~= old(
                    result,
                ).errors@);
            }
        }
        if total > 0 && orbs * 100 < total * 3 {
            result.add_warning("Low energy orb density");
            proof {
                assert(result.warnings@.take(old(result).warnings@.len() as int) =~= old(
                    result,
                ).warnings@);
            }
        } else if total > 0 && orbs * 4 > total {
            result.add_info("High energy orb density");
            proof {
                assert(result.info@.take(old(result).info@.len() as int) =~= old(
                    result,
                ).info@);
            }
        }
        if total > 0 && interactive * 20 > total * 3 {
            result.add_warning("Too many interactive elements");
            proof {
                assert(result.warnings@.take(old(result).warnings@.len() as int) =~= old(
                    result,
                ).warnings@);
            }
        }
    }

    /// The audit's per-rule warning condition: moon gravity with a high
    /// gravity value, a lava floor with exactly one pit, or orb
    /// collection with fewer than five orbs.
    pub open spec fn spec_rule_warns(self, r: crate::catalog::Rule) -> bool {
        ||| (r.id == RuleId::MoonGravity && (match self.spec_env_value(EnvVarId::Gravity) {
            Some(g) => g > 600,
            None => false,
        }))
        ||| (r.id == RuleId::LavaFloor && spec_count_type(self.modules@, ModuleId::HazardLavaPit)
            == 1)
        ||| (r.id == RuleId::OrbCollection && spec_count_type(self.modules@, ModuleId::OrbEnergy)
            < 5)
    }

    /// Rule/environment consistency with the audit's thresholds; an
    /// error is recorded exactly for a lava-floor rule without pits or a
    /// no-jump rule with an unreachable steep ramp; a warning is recorded
    /// exactly per rule whose warning condition holds.
    fn check_rule_environment_consistency(&self, result: &mut ValidationResult)
        requires
            self.wf(),
            self.modules@.len() <= 0xffff_ffff,
        ensures
            final(result).critical@ == old(result).critical@,
            final(result).info@ == old(result).info@,
            final(result).errors@.take(old(result).errors@.len() as int) == old(result).errors@,
            final(result).warnings@.take(old(result).warnings@.len() as int) == old(
                result,
            ).warnings@,
            final(result).warnings@.len() == old(result).warnings@.len() + count_where(
                self.active_rules@,
                |r: crate::catalog::Rule| self.spec_rule_warns(r),
            ),
            final(result).errors@.len() > old(result).errors@.len() <==> exists|k: int|
                0 <= k < self.active_rules@.len() && (((#[trigger] self.active_rules@[k]).id
                    == RuleId::LavaFloor && spec_count_type(
                    self.modules@,
                    ModuleId::HazardLavaPit,
                ) == 0) || (self.active_rules@[k].id == RuleId::NoJump && (match spec_first_of_type(
                    self.modules@,
                    ModuleId::Player,
                ) {
                    Some(p) => exists|i: int|
                        0 <= i < self.modules@.len() && (#[trigger] self.modules@[i]).module_id
                            == ModuleId::RampSteep && !spec_reachable(
                            *self,
                            true,
                            p.x as int,
                            p.y as int,
                            self.modules@[i].x as int,
                            self.modules@[i].y as int,
                        ),
                    None => false,
                }))),
    {
        proof {
            broadcast use vstd::seq_lib::group_seq_properties;

            assert(old(result).errors@.take(old(result).errors@.len() as int) =~= old(
                result,
            ).errors@);
            assert(old(result).warnings@.take(old(result).warnings@.len() as int) =~= old(
                result,
            ).warnings@);
        }
        let ghost warnp = |r: crate::catalog::Rule| self.spec_rule_warns(r);
        proof {
            assert(self.active_rules@.take(0) =~= Seq::<crate::catalog::Rule>::empty());
        }
        let mut k: usize = 0;
        while k < self.active_rules.len()
            invariant
                k <= self.active_rules@.len(),
                self.wf(),
                self.modules@.len() <= 0xffff_ffff,
                result.critical@ == old(result).critical@,
                result.info@ == old(result).info@,
                result.errors@.take(old(result).errors@.len() as int) == old(
                    result,
                ).errors@,
                result.warnings@.take(old(result).warnings@.len() as int) == old(
                    result,
                ).warnings@,
                result.warnings@.len() == old(result).warnings@.len() + count_where(
                    self.active_rules@.take(k as int),
                    warnp,
                ),
                result.errors@.len() >= old(result).errors@.len(),
                result.errors@.len() > old(result).errors@.len() <==> exists|j: int|
                    0 <= j < k && (((#[trigger] self.active_rules@[j]).id == RuleId::LavaFloor
                        && spec_count_type(self.modules@, ModuleId::HazardLavaPit) == 0) || (
                    self.active_rules@[j].id == RuleId::NoJump && (match spec_first_of_type(
                        self.modules@,
                        ModuleId::Player,
                    ) {
                        Some(p) => exists|i: int|
                            0 <= i < self.modules@.len() && (
                            #[trigger] self.modules@[i]).module_id == ModuleId::RampSteep
                                && !spec_reachable(
                                *self,
                                true,
                                p.x as int,
                                p.y as int,
                                self.modules@[i].x as int,
                                self.modules@[i].y as int,
                            ),
                        None => false,
                    }))),
            decreases self.active_rules@.len() - k,
        {
            proof {
                lemma_count_where_take_step(self.active_rules@, warnp, k as int);
                crate::counting::lemma_count_where_nonneg(
                    self.active_rules@.take(k as int),
                    warnp,
                );
            }
            let rid = self.active_rules[k].id;
            match rid {
                RuleId::MoonGravity => {
                    let gravity = self.get_env_variable(&EnvVarId::Gravity);
                    match gravity {
                        Some(g) => {
                            if g > 600 {
                                result.add_warning("Moon Gravity rule active but gravity is high");
                                proof {
                                    assert(result.warnings@.take(old(result).warnings@.len() as int) =~= old(
                                        result,
                                    ).warnings@);
                                }
                            }
                        },
                        None => {},
                    }
                },
                RuleId::LavaFloor => {
                    let lava = self.count_modules_by_type(&ModuleId::HazardLavaPit);
                    if lava == 0 {
                        result.add_error("Lava Floor rule active but no lava pits found");
                        proof {
                            assert(result.errors@.take(old(result).errors@.len() as int) =~= old(
                                result,
                            ).errors@);
                        }
                    } else if lava < 2 {
                        result.add_warning("Lava Floor rule active but only one lava pit found");
                        proof {
                            assert(result.warnings@.take(old(result).warnings@.len() as int) =~= old(
                                result,
                            ).warnings@);
                        }
                    }
                },
                RuleId::OrbCollection => {
                    let orbs = self.count_modules_by_type(&ModuleId::OrbEnergy);
                    if orbs < 5 {
                        result.add_warning("Orb Collection rule active but few orbs found");
                        proof {
                            assert(result.warnings@.take(old(result).warnings@.len() as int) =~= old(
                                result,
                            ).warnings@);
                        }
                    }
                },
                RuleId::NoJump => {
                    if self.has_unreachable_elevated_areas() {
                        result.add_error(
                            "No Jump rule active but arena has unreachable elevated areas",
                        );
                    }
                },
                _ => {},
            }
            k = k + 1;
        }
        proof {
            lemma_count_where_take_all(self.active_rules@, warnp);
        }
    }

    /// Spatial distribution: hazard clustering by Manhattan distance,
    /// isolated orbs, and large empty zones.
    fn check_spatial_distribution(&self, result: &mut ValidationResult)
        requires
            self.wf(),
            self.modules@.len() <= 0xffff_ffff,
        ensures
            final(result).errors@ == old(result).errors@,
            final(result).info@ == old(result).info@,
            final(result).critical@.take(old(result).critical@.len() as int) == old(
                result,
            ).critical@,
            final(result).warnings@.take(old(result).warnings@.len() as int) == old(
                result,
            ).warnings@,
            final(result).warnings@.len() >= old(result).warnings@.len(),
            final(result).critical@.len() >= old(result).critical@.len(),
            final(result).critical@.len() > old(result).critical@.len() <==> exists|i: int|
                0 <= i < self.modules@.len() && (#[trigger] self.modules@[i]).module_id
                    == ModuleId::OrbEnergy && spec_adjacent_walkable_audit(
                    self.modules@,
                    self.modules@[i].x as int,
                    self.modules@[i].y as int,
                ) == 0,
    {
        proof {
            broadcast use vstd::seq_lib::group_seq_properties;

            assert(old(result).critical@.take(old(result).critical@.len() as int) =~= old(
                result,
            ).critical@);
            assert(old(result).warnings@.take(old(result).warnings@.len() as int) =~= old(
                result,
            ).warnings@);
        }
        let ghost c0 = result.critical@;
        let ghost w0 = result.warnings@;
        self.check_hazard_clustering(result);
        let ghost c1 = result.critical@;
        let ghost w1 = result.warnings@;
        self.check_isolated_elements(result);
        let ghost c2 = result.critical@;
        let ghost w2 = result.warnings@;
        self.check_empty_zones(result);
        proof {
            crate::counting::lemma_count_where_nonneg(
                self.modules@,
                |c: ArenaCell|
                    c.module_id == ModuleId::OrbEnergy && spec_adjacent_walkable_audit(
                        self.modules@,
                        c.x as int,
                        c.y as int,
                    ) == 1,
            );
            assert(c1 == c0);
            assert(result.critical@ == c2);
            assert(c2.len() > c1.len() <==> result.critical@.len() > old(result).critical@.len());
            assert forall|i: int| 0 <= i < w0.len() implies result.warnings@[i] == w0[i] by {
                assert(result.warnings@.take(w2.len() as int)[i] == w2[i]);
                assert(w2.take(w1.len() as int)[i] == w1[i]);
                assert(w1.take(w0.len() as int)[i] == w0[i]);
            }
            assert(result.warnings@.take(w0.len() as int) =~= w0);
        }
    }

    /// More than half of the hazard pairs within Manhattan distance two
    /// warns: one warning exactly when more than one hazard stands and
    /// the close pairs outnumber half the hazards.
    fn check_hazard_clustering(&self, result: &mut ValidationResult)
        requires
            self.wf(),
            self.modules@.len() <= 0xffff_ffff,
        ensures
            final(result).errors@ == old(result).errors@,
            final(result).info@ == old(result).info@,
            final(result).critical@ == old(result).critical@,
            final(result).warnings@.take(old(result).warnings@.len() as int) == old(
                result,
            ).warnings@,
            final(result).warnings@.len() == old(result).warnings@.len() + (if {
                let hs = spec_hazard_positions(self.modules@);
                hs.len() > 1 && 2 * spec_close_pairs(hs) > hs.len()
            } {
                1int
            } else {
                0int
            }),
    {
        proof {
            broadcast use vstd::seq_lib::group_seq_properties;

            assert(old(result).warnings@.take(old(result).warnings@.len() as int) =~= old(
                result,
            ).warnings@);
            crate::arena::lemma_count_hazard_bound(self.modules@);
        }
        let hazards = self.get_hazard_positions();
        if hazards.len() > 1 {
            let ghost hs = hazards@;
            let mut pairs: u64 = 0;
            let mut i: usize = 0;
            proof {
                assert(hs.take(0) =~= Seq::<(i32, i32)>::empty());
            }
            while i < hazards.len()
                invariant
                    i <= hs.len(),
                    hs == hazards@,
                    hs.len() <= 0xffff_ffff,
                    pairs == spec_close_pairs(hs.take(i as int)),
                    pairs <= 0xffff_ffff_ffff_ffff,
                decreases hs.len() - i,
            {
                let mut inner: u64 = 0;
                let mut j: usize = 0;
                proof {
                    assert(hs.take(i as int).take(0) =~= Seq::<(i32, i32)>::empty());
                    assert(spec_close_to(hs.take(i as int).take(0), hs[i as int]) == 0);
                    lemma_close_pairs_bound(hs.take(i as int));
                }
                while j < i
                    invariant
                        j <= i < hs.len(),
                        hs == hazards@,
                        hs.len() <= 0xffff_ffff,
                        inner == spec_close_to(hs.take(i as int).take(j as int), hs[i as int]),
                        inner <= j,
                    decreases i - j,
                {
                    proof {
                        lemma_close_to_take_step(hs.take(i as int), j as int, hs[i as int]);
                        assert(hs.take(i as int)[j as int] == hs[j as int]);
                    }
                    let d = self.manhattan_distance(hazards[j], hazards[i]);
                    if d <= 2 {
                        inner = inner + 1;
                    }
                    j = j + 1;
                }
                proof {
                    assert(hs.take(i as int).take(i as int) =~= hs.take(i as int));
                    lemma_close_pairs_take_step(hs, i as int);
                    lemma_close_pairs_bound(hs.take(i as int));
                    lemma_close_to_bound(hs.take(i as int), hs[i as int]);
                    assert((spec_close_pairs(hs.take(i as int)) + spec_close_to(
                        hs.take(i as int),
                        hs[i as int],
                    )) <= 0xffff_ffff * 0xffff_ffff + 0xffff_ffff) by (nonlinear_arith)
                        requires
                            spec_close_pairs(hs.take(i as int)) <= hs.take(i as int).len()
                                * hs.take(i as int).len(),
                            spec_close_to(hs.take(i as int), hs[i as int]) <= hs.take(
                                i as int,
                            ).len(),
                            hs.take(i as int).len() <= 0xffff_ffff,
                    ;
                }
                pairs = pairs + inner;
                i = i + 1;
            }
            proof {
                assert(hs.take(hs.len() as int) =~= hs);
            }
            // clustering ratio over one half, as a fraction of the hazard
            // count
            if (pairs as u128) * 2 > hazards.len() as u128 {
                result.add_warning("High hazard clustering detected");
                proof {
                    assert(result.warnings@.take(old(result).warnings@.len() as int) =~= old(
                        result,
                    ).warnings@);
                }
            }
        }
    }

    /// An orb with no audit-walkable neighbour is critical; with exactly
    /// one, a warning.
    fn check_isolated_elements(&self, result: &mut ValidationResult)
        requires
            self.wf(),
        ensures
            final(result).errors@ == old(result).errors@,
            final(result).info@ == old(result).info@,
            final(result).critical@.take(old(result).critical@.len() as int) == old(
                result,
            ).critical@,
            final(result).warnings@.take(old(result).warnings@.len() as int) == old(
                result,
            ).warnings@,
            final(result).warnings@.len() == old(result).warnings@.len() + count_where(
                self.modules@,
                |c: ArenaCell|
                    c.module_id == ModuleId::OrbEnergy && spec_adjacent_walkable_audit(
                        self.modules@,
                        c.x as int,
                        c.y as int,
                    ) == 1,
            ),
            final(result).critical@.len() >= old(result).critical@.len(),
            final(result).critical@.len() > old(result).critical@.len() <==> exists|i: int|
                0 <= i < self.modules@.len() && (#[trigger] self.modules@[i]).module_id
                    == ModuleId::OrbEnergy && spec_adjacent_walkable_audit(
                    self.modules@,
                    self.modules@[i].x as int,
                    self.modules@[i].y as int,
                ) == 0,
    {
        let ghost lonep = |c: ArenaCell|
            c.module_id == ModuleId::OrbEnergy && spec_adjacent_walkable_audit(
                self.modules@,
                c.x as int,
                c.y as int,
            ) == 1;
        proof {
            broadcast use vstd::seq_lib::group_seq_properties;

            assert(old(result).critical@.take(old(result).critical@.len() as int) =~= old(
                result,
            ).critical@);
            assert(old(result).warnings@.take(old(result).warnings@.len() as int) =~= old(
                result,
            ).warnings@);
            assert(self.modules@.take(0) =~= Seq::<ArenaCell>::empty());
        }
        let mut i: usize = 0;
        while i < self.modules.len()
            invariant
                i <= self.modules@.len(),
                self.wf(),
                result.errors@ == old(result).errors@,
                result.info@ == old(result).info@,
                result.critical@.take(old(result).critical@.len() as int) == old(
                    result,
                ).critical@,
                result.warnings@.take(old(result).warnings@.len() as int) == old(
                    result,
                ).warnings@,
                result.warnings@.len() == old(result).warnings@.len() + count_where(
                    self.modules@.take(i as int),
                    lonep,
                ),
                result.critical@.len() >= old(result).critical@.len(),
                result.critical@.len() > old(result).critical@.len() <==> exists|j: int|
                    0 <= j < i && (#[trigger] self.modules@[j]).module_id == ModuleId::OrbEnergy
                        && spec_adjacent_walkable_audit(
                        self.modules@,
                        self.modules@[j].x as int,
                        self.modules@[j].y as int,
                    ) == 0,
            decreases self.modules@.len() - i,
        {
            proof {
                lemma_count_where_take_step(self.modules@, lonep, i as int);
                crate::counting::lemma_count_where_nonneg(self.modules@.take(i as int), lonep);
            }
            if matches!(self.modules[i].module_id, ModuleId::OrbEnergy) {
                let adj = self.count_adjacent_walkable(self.modules[i].x, self.modules[i].y);
                if adj == 0 {
                    result.add_critical("Energy orb is completely isolated");
                    proof {
                        assert(result.critical@.take(old(result).critical@.len() as int) =~= old(
                            result,
                        ).critical@);
                    }
                } else if adj == 1 {
                    result.add_warning("Energy orb has only one adjacent walkable cell");
                    proof {
                        assert(result.warnings@.take(old(result).warnings@.len() as int) =~= old(
                            result,
                        ).warnings@);
                    }
                }
            }
            i = i + 1;
        }
        proof {
            lemma_count_where_take_all(self.modules@, lonep);
        }
    }

    /// Unoccupied regions larger than an eighth of the grid warn.
    fn check_empty_zones(&self, result: &mut ValidationResult)
        requires
            self.wf(),
        ensures
            final(result).errors@ == old(result).errors@,
            final(result).info@ == old(result).info@,
            final(result).critical@ == old(result).critical@,
            final(result).warnings@.take(old(result).warnings@.len() as int) == old(
                result,
            ).warnings@,
            final(result).warnings@.len() >= old(result).warnings@.len(),
    {
        proof {
            broadcast use vstd::seq_lib::group_seq_properties;

            assert(old(result).warnings@.take(old(result).warnings@.len() as int) =~= old(
                result,
            ).warnings@);
            assert((self.width as int) * (self.height as int) <= 65535 * 65535)
                by (nonlinear_arith)
                requires
                    0 <= (self.width as int) && (self.width as int) <= 65535,
                    0 <= (self.height as int) && (self.height as int) <= 65535,
            ;
        }
        let zones = self.find_large_empty_zones();
        let threshold: u64 = (self.width as u64) * (self.height as u64) / 8;
        let mut i: usize = 0;
        while i < zones.len()
            invariant
                i <= zones@.len(),
                result.errors@ == old(result).errors@,
                result.info@ == old(result).info@,
                result.critical@ == old(result).critical@,
                result.warnings@.take(old(result).warnings@.len() as int) == old(
                    result,
                ).warnings@,
                result.warnings@.len() >= old(result).warnings@.len(),
            decreases zones@.len() - i,
        {
            if zones[i].size as u64 > threshold {
                result.add_warning("Large empty zone detected");
                proof {
                    assert(result.warnings@.take(old(result).warnings@.len() as int) =~= old(
                        result,
                    ).warnings@);
                }
            }
            i = i + 1;
        }
    }

    /// The unoccupied regions of more than four cells, discovered by
    /// flood fill over emptiness.
    pub fn find_large_empty_zones(&self) -> (zones: Vec<EmptyZone>)
        requires
            self.wf(),
        ensures
            forall|k: int| 0 <= k < zones@.len() ==> (#[trigger] zones@[k]).size > 4,
            forall|k: int| 0 <= k < zones@.len() ==> (#[trigger] zones@[k]).size
                == zones@[k].cells@.len(),
    {
        let mut zones: Vec<EmptyZone> = Vec::new();
        let mut visited: Vec<(i32, i32)> = Vec::new();
        if self.width == 0 || self.height == 0 {
            return zones;
        }
        let mut y: u32 = 0;
        while y < self.height
            invariant
                y <= self.height,
                self.wf(),
                self.width > 0 && self.height > 0,
                visited@.no_duplicates(),
                forall|k: int|
                    0 <= k < visited@.len() ==> 0 <= (#[trigger] visited@[k]).0 < self.width && 0
                        <= visited@[k].1 < self.height,
                forall|k: int| 0 <= k < zones@.len() ==> (#[trigger] zones@[k]).size > 4,
                forall|k: int| 0 <= k < zones@.len() ==> (#[trigger] zones@[k]).size
                    == zones@[k].cells@.len(),
            decreases self.height - y,
        {
            let mut x: u32 = 0;
            while x < self.width
                invariant
                    x <= self.width,
                    y < self.height,
                    self.wf(),
                    self.width > 0 && self.height > 0,
                    visited@.no_duplicates(),
                    forall|k: int|
                        0 <= k < visited@.len() ==> 0 <= (#[trigger] visited@[k]).0 < self.width
                            && 0 <= visited@[k].1 < self.height,
                    forall|k: int| 0 <= k < zones@.len() ==> (#[trigger] zones@[k]).size > 4,
                    forall|k: int| 0 <= k < zones@.len() ==> (#[trigger] zones@[k]).size
                        == zones@[k].cells@.len(),
                decreases self.width - x,
            {
                let xi = x as i32;
                let yi = y as i32;
                let seen = crate::reach::contains_pos_pub(&visited, xi, yi);
                let empty = match self.get_cell(xi, yi) {
                    Some(_) => false,
                    None => true,
                };
                if !seen && empty {
                    let zone = self.flood_fill_empty_zone(xi, yi, &mut visited);
                    if zone.size > 4 {
                        zones.push(zone);
                    }
                }
                x = x + 1;
            }
            y = y + 1;
        }
        zones
    }

    /// One flood fill over unoccupied in-bounds cells, sharing the
    /// visited set across zones: the zone is exactly what this call adds
    /// to the visited set, holds the start, holds only empty in-bounds
    /// cells connected to the start, and leaves the visited set closed.
    #[verifier::rlimit(100)]
    fn flood_fill_empty_zone(&self, start_x: i32, start_y: i32, visited: &mut Vec<(i32, i32)>) -> (
        zone: EmptyZone)
        requires
            self.wf(),
            self.width > 0 && self.height > 0,
            old(visited)@.no_duplicates(),
            forall|k: int|
                0 <= k < old(visited)@.len() ==> 0 <= (#[trigger] old(visited)@[k]).0 < self.width
                    && 0 <= old(visited)@[k].1 < self.height,
            spec_empty_step(*self, start_x as int, start_y as int),
            !pos_in(old(visited)@, start_x as int, start_y as int),
        ensures
            final(visited)@.no_duplicates(),
            forall|k: int|
                0 <= k < final(visited)@.len() ==> 0 <= (#[trigger] final(visited)@[k]).0
                    < self.width && 0 <= final(visited)@[k].1 < self.height,
            old(visited)@.len() <= final(visited)@.len(),
            final(visited)@.take(old(visited)@.len() as int) == old(visited)@,
            zone.cells@ == final(visited)@.skip(old(visited)@.len() as int),
            zone.size == zone.cells@.len(),
            pos_in(zone.cells@, start_x as int, start_y as int),
            forall|c: int|
                0 <= c < zone.cells@.len() ==> spec_empty_step(
                    *self,
                    (#[trigger] zone.cells@[c]).0 as int,
                    zone.cells@[c].1 as int,
                ) && spec_empty_connected(
                    *self,
                    start_x as int,
                    start_y as int,
                    zone.cells@[c].0 as int,
                    zone.cells@[c].1 as int,
                ) && !pos_in(old(visited)@, zone.cells@[c].0 as int, zone.cells@[c].1 as int),
    {
        broadcast use vstd::seq_lib::group_seq_properties;

        let ghost a = *self;
        let ghost sx = start_x as int;
        let ghost sy = start_y as int;
        let ghost n0 = visited@.len();
        let ghost wh: int = (self.width as int) * (self.height as int);
        proof {
            assert((self.width as int) * (self.height as int) <= 65535 * 65535)
                by (nonlinear_arith)
                requires
                    0 <= (self.width as int) && (self.width as int) <= 65535,
                    0 <= (self.height as int) && (self.height as int) <= 65535,
            ;
            lemma_inbounds_positions_bound(visited@, self.width as int, self.height as int);
            assert(visited@.take(n0 as int) =~= visited@);
            assert(visited@.skip(n0 as int) =~= Seq::<(i32, i32)>::empty());
        }
        let mut queue: Vec<(i32, i32)> = Vec::new();
        let mut cells: Vec<(i32, i32)> = Vec::new();
        let mut sum_x: i64 = 0;
        let mut sum_y: i64 = 0;
        queue.push((start_x, start_y));
        proof {
            assert(queue@[0] == (start_x, start_y));
            assert(pos_in(queue@, sx, sy));
            lemma_empty_connected_refl(a, sx, sy);
        }
        #[verifier::loop_isolation(true)]
        while queue.len() > 0
            invariant
                self.wf(),
                a == *self,
                sx == start_x as int,
                sy == start_y as int,
                n0 == old(visited)@.len(),
                !pos_in(old(visited)@, sx, sy),
                spec_empty_step(a, sx, sy),
                self.width > 0 && self.height > 0,
                wh == (self.width as int) * (self.height as int),
                wh <= 65535 * 65535,
                visited@.no_duplicates(),
                visited@.len() <= wh,
                n0 <= visited@.len(),
                visited@.take(n0 as int) == old(visited)@,
                cells@ == visited@.skip(n0 as int),
                forall|k: int|
                    0 <= k < visited@.len() ==> 0 <= (#[trigger] visited@[k]).0 < self.width && 0
                        <= visited@[k].1 < self.height,
                forall|k: int|
                    n0 <= k < visited@.len() ==> spec_empty_step(
                        a,
                        (#[trigger] visited@[k]).0 as int,
                        visited@[k].1 as int,
                    ) && spec_empty_connected(
                        a,
                        sx,
                        sy,
                        visited@[k].0 as int,
                        visited@[k].1 as int,
                    ) && !pos_in(old(visited)@, visited@[k].0 as int, visited@[k].1 as int),
                forall|m: int|
                    0 <= m < queue@.len() ==> 0 <= (#[trigger] queue@[m]).0 < self.width && 0
                        <= queue@[m].1 < self.height,
                forall|m: int|
                    0 <= m < queue@.len() ==> (spec_empty_step(
                        a,
                        (#[trigger] queue@[m]).0 as int,
                        queue@[m].1 as int,
                    ) ==> spec_empty_connected(
                        a,
                        sx,
                        sy,
                        queue@[m].0 as int,
                        queue@[m].1 as int,
                    )),
                pos_in(visited@.skip(n0 as int), sx, sy) || pos_in(queue@, sx, sy),
                cells@.len() <= visited@.len(),
                sum_x >= 0 && sum_x <= cells@.len() * 65535,
                sum_y >= 0 && sum_y <= cells@.len() * 65535,
            decreases wh - visited@.len(), queue@.len(),
        {
            let ghost old_visited = visited@;
            let ghost old_queue = queue@;
            let pos = match queue.pop() {
                Some(p) => p,
                None => (0, 0),
            };
            proof {
                assert(pos == old_queue.last());
                assert(queue@ =~= old_queue.drop_last());
            }
            let seen = crate::reach::contains_pos_pub(&visited, pos.0, pos.1);
            let empty = match self.get_cell(pos.0, pos.1) {
                Some(_) => false,
                None => true,
            };
            if !seen && empty {
                let ghost pre_visited = visited@;
                visited.push(pos);
                proof {
                    assert(visited@ =~= pre_visited.push(pos));
                    assert forall|x: int, y: int|
                        0 <= x < y < visited@.len() implies visited@[x] != visited@[y] by {
                        if y == visited@.len() - 1 {
                            assert(visited@[x] == pre_visited[x]);
                            if visited@[x] == pos {
                                assert(pos_in(pre_visited, pos.0 as int, pos.1 as int));
                            }
                        }
                    }
                    lemma_inbounds_positions_bound(
                        visited@,
                        self.width as int,
                        self.height as int,
                    );
                    crate::counting::lemma_take_push(pre_visited, pos, n0 as int);
                    // the fresh cell is empty, in bounds and connected
                    assert(spec_empty_step(a, pos.0 as int, pos.1 as int));
                    assert(spec_empty_connected(a, sx, sy, pos.0 as int, pos.1 as int));
                    if pos_in(old(visited)@, pos.0 as int, pos.1 as int) {
                        let j = choose|j: int|
                            0 <= j < old(visited)@.len() && (#[trigger] old(visited)@[j]).0
                                == pos.0 as int && old(visited)@[j].1 == pos.1 as int;
                        assert(pre_visited.take(n0 as int)[j] == old(visited)@[j]);
                        assert(pos_in(pre_visited, pos.0 as int, pos.1 as int));
                    }
                }
                cells.push(pos);
                proof {
                    assert(cells@ =~= visited@.skip(n0 as int));
                }
                sum_x = sum_x + pos.0 as i64;
                sum_y = sum_y + pos.1 as i64;
                // enqueue the in-bounds neighbours
                let ghost mid_queue = queue@;
                if pos.0 as i64 + 1 < self.width as i64 {
                    queue.push((pos.0 + 1, pos.1));
                    proof {
                        assert(queue@[queue@.len() - 1].0 == pos.0 + 1 && queue@[queue@.len()
                            - 1].1 == pos.1);
                    }
                }
                if pos.0 as i64 - 1 >= 0 {
                    queue.push((pos.0 - 1, pos.1));
                    proof {
                        assert(queue@[queue@.len() - 1].0 == pos.0 - 1 && queue@[queue@.len()
                            - 1].1 == pos.1);
                    }
                }
                if pos.1 as i64 + 1 < self.height as i64 {
                    queue.push((pos.0, pos.1 + 1));
                    proof {
                        assert(queue@[queue@.len() - 1].0 == pos.0 && queue@[queue@.len()
                            - 1].1 == pos.1 + 1);
                    }
                }
                if pos.1 as i64 - 1 >= 0 {
                    queue.push((pos.0, pos.1 - 1));
                    proof {
                        assert(queue@[queue@.len() - 1].0 == pos.0 && queue@[queue@.len()
                            - 1].1 == pos.1 - 1);
                    }
                }
                proof {
                    assert(mid_queue.is_prefix_of(queue@));
                    // freshly enqueued empty neighbours are connected
                    // through the cell just visited
                    assert forall|m: int|
                        0 <= m < queue@.len() implies (spec_empty_step(
                        a,
                        (#[trigger] queue@[m]).0 as int,
                        queue@[m].1 as int,
                    ) ==> spec_empty_connected(
                        a,
                        sx,
                        sy,
                        queue@[m].0 as int,
                        queue@[m].1 as int,
                    )) by {
                        if m < mid_queue.len() {
                            assert(queue@[m] == old_queue[m]);
                        } else if spec_empty_step(a, queue@[m].0 as int, queue@[m].1 as int) {
                            assert(crate::arena::spec_is_adjacent(
                                pos.0 as int,
                                pos.1 as int,
                                queue@[m].0 as int,
                                queue@[m].1 as int,
                            ));
                            lemma_empty_connected_step(
                                a,
                                sx,
                                sy,
                                pos.0 as int,
                                pos.1 as int,
                                queue@[m].0 as int,
                                queue@[m].1 as int,
                            );
                        }
                    }
                    // start coverage survives the pop
                    if pos_in(old_visited.skip(n0 as int), sx, sy) {
                        let n = choose|n: int|
                            0 <= n < old_visited.skip(n0 as int).len() && (
                            #[trigger] old_visited.skip(n0 as int)[n]).0 == sx
                                && old_visited.skip(n0 as int)[n].1 == sy;
                        assert(visited@.skip(n0 as int)[n] == old_visited.skip(n0 as int)[n]);
                        assert(pos_in(visited@.skip(n0 as int), sx, sy));
                    } else if !pos_in(visited@.skip(n0 as int), sx, sy) {
                        if pos_in(old_queue, sx, sy) {
                            let n = choose|n: int|
                                0 <= n < old_queue.len() && (#[trigger] old_queue[n]).0 == sx
                                    && old_queue[n].1 == sy;
                            if n < old_queue.len() - 1 {
                                assert(queue@[n] == old_queue[n]);
                                assert(pos_in(queue@, sx, sy));
                            } else {
                                assert(old_queue[n] == pos);
                                assert(visited@[visited@.len() - 1] == pos);
                                assert(visited@.skip(n0 as int)[visited@.len() - 1 - n0] == pos);
                                assert(pos_in(visited@.skip(n0 as int), sx, sy));
                            }
                        }
                    }
                }
            } else {
                proof {
                    // everything the popped entry owed is already settled
                    if !seen {
                        crate::arena::lemma_cell_at_props(a.modules@, pos.0 as int, pos.1 as int);
                    }
                    if !pos_in(visited@.skip(n0 as int), sx, sy) {
                        if pos_in(old_queue, sx, sy) {
                            let n = choose|n: int|
                                0 <= n < old_queue.len() && (#[trigger] old_queue[n]).0 == sx
                                    && old_queue[n].1 == sy;
                            if n < old_queue.len() - 1 {
                                assert(queue@[n] == old_queue[n]);
                                assert(pos_in(queue@, sx, sy));
                            } else {
                                assert(old_queue[n] == pos);
                                if seen {
                                    // the start is never in the shared set
                                    // beforehand, so it sits in this zone
                                    assert(pos_in(visited@, sx, sy));
                                    let j = choose|j: int|
                                        0 <= j < visited@.len() && (#[trigger] visited@[j]).0
                                            == sx && visited@[j].1 == sy;
                                    if j < n0 {
                                        assert(visited@.take(n0 as int)[j] == visited@[j]);
                                        assert(pos_in(old(visited)@, sx, sy));
                                        assert(false);
                                    } else {
                                        assert(visited@.skip(n0 as int)[j - n0] == visited@[j]);
                                        assert(pos_in(visited@.skip(n0 as int), sx, sy));
                                    }
                                } else {
                                    crate::arena::lemma_cell_at_props(
                                        a.modules@,
                                        pos.0 as int,
                                        pos.1 as int,
                                    );
                                    assert(false);
                                }
                            }
                        }
                    }
                }
            }
        }
        proof {
            // with the worklist drained, the start lies in this zone and
            // the visited set is closed outright
            assert(pos_in(visited@.skip(n0 as int), sx, sy));
        }
        let center: (i32, i32) = if cells.len() > 0 {
            ((sum_x / cells.len() as i64) as i32, (sum_y / cells.len() as i64) as i32)
        } else {
            (start_x, start_y)
        };
        let size = cells.len();
        EmptyZone { center, size, cells }
    }
}

} // verus!
