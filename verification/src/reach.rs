//! Reachability: flood fill from a start position over a fixed
//! traversability predicate, 4-directional. The result is characterized
//! exactly: a position is returned if and only if a walk connects it to
//! the start.

use vstd::prelude::*;

use crate::arena::{spec_cell_at, spec_is_adjacent, Arena, ArenaCell};

verus! {

/// Whether the flood fill may expand into `(x, y)`. The audit flavour
/// (`audit == true`) also accepts low ramps and insists the position lies
/// in bounds; the monitor flavour only asks for a traversable record.
pub open spec fn spec_step_ok(a: Arena, audit: bool, x: int, y: int) -> bool {
    match spec_cell_at(a.modules@, x, y) {
        Some(c) => if audit {
            a.spec_in_bounds(x, y) && c.module_id.spec_is_traversable_audit()
        } else {
            c.module_id.spec_is_traversable()
        },
        None => false,
    }
}

/// A walk: consecutive positions are orthogonally adjacent and every
/// position after the first admits expansion.
pub open spec fn spec_is_walk(a: Arena, audit: bool, p: Seq<(int, int)>) -> bool {
    &&& p.len() > 0
    &&& forall|k: int|
        1 <= k < p.len() ==> spec_is_adjacent(p[k - 1].0, p[k - 1].1, (#[trigger] p[k]).0, p[k].1)
            && spec_step_ok(a, audit, p[k].0, p[k].1)
}

/// Whether `(tx, ty)` is connected to `(sx, sy)` by a walk.
pub open spec fn spec_reachable(a: Arena, audit: bool, sx: int, sy: int, tx: int, ty: int) -> bool {
    exists|p: Seq<(int, int)>|
        spec_is_walk(a, audit, p) && p[0] == (sx, sy) && p.last() == (tx, ty)
}

/// Whether `(px, py)` occurs in the position list.
pub open spec fn pos_in(r: Seq<(i32, i32)>, px: int, py: int) -> bool {
    exists|m: int| 0 <= m < r.len() && (#[trigger] r[m]).0 == px && r[m].1 == py
}

/// A position list closed under expansion: no walkable neighbour of a
/// listed position is missing.
pub open spec fn spec_closed(a: Arena, audit: bool, r: Seq<(i32, i32)>) -> bool {
    forall|m: int, px: int, py: int|
        #![trigger r[m], spec_step_ok(a, audit, px, py)]
        0 <= m < r.len() && spec_is_adjacent(r[m].0 as int, r[m].1 as int, px, py) && spec_step_ok(
            a,
            audit,
            px,
            py,
        ) ==> pos_in(r, px, py)
}

/// The four neighbour candidates of a position, by direction index.
pub open spec fn nbr_of(px: int, py: int, k: int) -> (int, int) {
    if k == 0 {
        (px + 1, py)
    } else if k == 1 {
        (px - 1, py)
    } else if k == 2 {
        (px, py + 1)
    } else {
        (px, py - 1)
    }
}

/// Every position reaches itself.
pub proof fn lemma_reachable_refl(a: Arena, audit: bool, sx: int, sy: int)
    ensures
        spec_reachable(a, audit, sx, sy, sx, sy),
{
    let p = seq![(sx, sy)];
    assert(spec_is_walk(a, audit, p));
    assert(p[0] == (sx, sy) && p.last() == (sx, sy));
}

/// A walk extends by one expansion step.
pub proof fn lemma_reachable_step(
    a: Arena,
    audit: bool,
    sx: int,
    sy: int,
    ux: int,
    uy: int,
    vx: int,
    vy: int,
)
    requires
        spec_reachable(a, audit, sx, sy, ux, uy),
        spec_is_adjacent(ux, uy, vx, vy),
        spec_step_ok(a, audit, vx, vy),
    ensures
        spec_reachable(a, audit, sx, sy, vx, vy),
{
    let p = choose|p: Seq<(int, int)>|
        spec_is_walk(a, audit, p) && p[0] == (sx, sy) && p.last() == (ux, uy);
    let q = p.push((vx, vy));
    assert forall|k: int|
        1 <= k < q.len() implies spec_is_adjacent(q[k - 1].0, q[k - 1].1, (#[trigger] q[k]).0,
        q[k].1) && spec_step_ok(a, audit, q[k].0, q[k].1) by {
        if k < q.len() - 1 {
            assert(q[k] == p[k] && q[k - 1] == p[k - 1]);
        } else {
            assert(q[k - 1] == p.last());
        }
    }
    assert(spec_is_walk(a, audit, q));
    assert(q[0] == (sx, sy) && q.last() == (vx, vy));
}

/// A set that holds the start and is closed under expansion holds the end
/// of every walk from the start.
pub proof fn lemma_closed_covers_walk(
    a: Arena,
    audit: bool,
    r: Seq<(i32, i32)>,
    sx: int,
    sy: int,
    p: Seq<(int, int)>,
)
    requires
        pos_in(r, sx, sy),
        spec_closed(a, audit, r),
        spec_is_walk(a, audit, p),
        p[0] == (sx, sy),
    ensures
        pos_in(r, p.last().0, p.last().1),
    decreases p.len(),
{
    if p.len() == 1 {
        assert(p.last() == p[0]);
    } else {
        let q = p.drop_last();
        assert forall|k: int|
            1 <= k < q.len() implies spec_is_adjacent(q[k - 1].0, q[k - 1].1, (#[trigger] q[k]).0,
            q[k].1) && spec_step_ok(a, audit, q[k].0, q[k].1) by {
            assert(q[k] == p[k] && q[k - 1] == p[k - 1]);
        }
        assert(spec_is_walk(a, audit, q));
        lemma_closed_covers_walk(a, audit, r, sx, sy, q);
        let m = choose|m: int|
            0 <= m < r.len() && (#[trigger] r[m]).0 == q.last().0 && r[m].1 == q.last().1;
        let n = p.len() - 1;
        assert(spec_is_adjacent(p[n - 1].0, p[n - 1].1, p[n].0, p[n].1) && spec_step_ok(
            a,
            audit,
            p[n].0,
            p[n].1,
        ));
        assert(p[n - 1] == q.last());
        assert(spec_is_adjacent(r[m].0 as int, r[m].1 as int, p[n].0, p[n].1));
    }
}

/// Everything reachable from the start lies in such a set.
pub proof fn lemma_reachable_in_closed(
    a: Arena,
    audit: bool,
    r: Seq<(i32, i32)>,
    sx: int,
    sy: int,
    tx: int,
    ty: int,
)
    requires
        pos_in(r, sx, sy),
        spec_closed(a, audit, r),
        spec_reachable(a, audit, sx, sy, tx, ty),
    ensures
        pos_in(r, tx, ty),
{
    let p = choose|p: Seq<(int, int)>|
        spec_is_walk(a, audit, p) && p[0] == (sx, sy) && p.last() == (tx, ty);
    lemma_closed_covers_walk(a, audit, r, sx, sy, p);
}

/// Every position a well-formed flood-fill result holds is either the
/// start or a placed record's coordinate, so the result stays small.
proof fn lemma_visited_bound(visited: Seq<(i32, i32)>, a: Arena, sx: i32, sy: i32)
    requires
        visited.no_duplicates(),
        forall|m: int|
            0 <= m < visited.len() ==> (#[trigger] visited[m]) == (sx, sy) || exists|i: int|
                0 <= i < a.modules@.len() && ((#[trigger] a.modules@[i]).x, a.modules@[i].y)
                    == visited[m],
    ensures
        visited.len() <= a.modules@.len() + 1,
{
    broadcast use vstd::seq_lib::group_seq_properties;

    let positions = a.modules@.map_values(|c: ArenaCell| (c.x, c.y));
    let allowed = positions.to_set().insert((sx, sy));
    visited.unique_seq_to_set();
    positions.lemma_cardinality_of_set();
    assert forall|p: (i32, i32)| visited.to_set().contains(p) implies allowed.contains(p) by {
        let m = choose|m: int| 0 <= m < visited.len() && visited[m] == p;
        if p != (sx, sy) {
            let i = choose|i: int|
                0 <= i < a.modules@.len() && ((#[trigger] a.modules@[i]).x, a.modules@[i].y) == p;
            assert(positions[i] == p);
            assert(positions.to_set().contains(p));
        }
    }
    vstd::seq_lib::seq_to_set_is_finite(positions);
    vstd::set_lib::lemma_len_subset(visited.to_set(), allowed);
}

/// Whether the flood fill may expand into `(x, y)`.
fn step_ok_at(arena: &Arena, audit: bool, x: i32, y: i32) -> (r: bool)
    requires
        arena.wf(),
    ensures
        r == spec_step_ok(*arena, audit, x as int, y as int),
{
    let in_bounds = arena.is_valid_position(x, y);
    match arena.get_cell(x, y) {
        Some(c) => {
            if audit {
                in_bounds && c.module_id.is_traversable_audit()
            } else {
                c.module_id.is_traversable()
            }
        },
        None => false,
    }
}

/// Whether `(x, y)` occurs in the list.
fn contains_pos(v: &Vec<(i32, i32)>, x: i32, y: i32) -> (r: bool)
    ensures
        r == pos_in(v@, x as int, y as int),
{
    let mut i: usize = 0;
    while i < v.len()
        invariant
            i <= v@.len(),
            forall|j: int| 0 <= j < i ==> !((#[trigger] v@[j]).0 == x && v@[j].1 == y),
        decreases v@.len() - i,
    {
        if v[i].0 == x && v[i].1 == y {
            assert(pos_in(v@, x as int, y as int));
            return true;
        }
        i = i + 1;
    }
    false
}

/// Whether `(x, y)` occurs in a computed position list.
pub fn contains_pos_pub(v: &Vec<(i32, i32)>, x: i32, y: i32) -> (r: bool)
    ensures
        r == pos_in(v@, x as int, y as int),
{
    contains_pos(v, x, y)
}

/// Flood fill from `(start_x, start_y)`: returns exactly the positions a
/// walk connects to the start, the start itself included, without
/// duplicates.
pub fn reachable_positions(arena: &Arena, start_x: i32, start_y: i32, audit: bool) -> (r: Vec<
    (i32, i32),
>)
    requires
        arena.wf(),
    ensures
        pos_in(r@, start_x as int, start_y as int),
        forall|m: int|
            0 <= m < r@.len() ==> spec_reachable(
                *arena,
                audit,
                start_x as int,
                start_y as int,
                (#[trigger] r@[m]).0 as int,
                r@[m].1 as int,
            ),
        spec_closed(*arena, audit, r@),
        r@.no_duplicates(),
{
    broadcast use vstd::seq_lib::group_seq_properties;

    let ghost a = *arena;
    let ghost sx = start_x as int;
    let ghost sy = start_y as int;
    let ghost bound = arena.modules@.len() + 1;
    let mut visited: Vec<(i32, i32)> = Vec::new();
    let mut stack: Vec<(i32, i32)> = Vec::new();
    stack.push((start_x, start_y));
    proof {
        lemma_reachable_refl(a, audit, sx, sy);
        assert(stack@[0] == (start_x, start_y));
        assert(pos_in(stack@, sx, sy));
    }
    while stack.len() > 0
        invariant
            visited@.no_duplicates(),
            visited@.len() <= bound,
            forall|m: int|
                0 <= m < visited@.len() ==> (#[trigger] visited@[m]) == (start_x, start_y)
                    || exists|i: int|
                    0 <= i < a.modules@.len() && ((#[trigger] a.modules@[i]).x, a.modules@[i].y)
                        == visited@[m],
            forall|m: int|
                0 <= m < visited@.len() ==> spec_reachable(
                    a,
                    audit,
                    sx,
                    sy,
                    (#[trigger] visited@[m]).0 as int,
                    visited@[m].1 as int,
                ),
            forall|m: int|
                0 <= m < stack@.len() ==> spec_reachable(
                    a,
                    audit,
                    sx,
                    sy,
                    (#[trigger] stack@[m]).0 as int,
                    stack@[m].1 as int,
                ),
            forall|m: int|
                0 <= m < stack@.len() ==> (#[trigger] stack@[m]) == (start_x, start_y) || exists|
                    i: int,
                |
                    0 <= i < a.modules@.len() && ((#[trigger] a.modules@[i]).x, a.modules@[i].y)
                        == stack@[m],
            pos_in(visited@, sx, sy) || pos_in(stack@, sx, sy),
            forall|m: int, px: int, py: int|
                #![trigger visited@[m], spec_step_ok(a, audit, px, py)]
                0 <= m < visited@.len() && spec_is_adjacent(
                    visited@[m].0 as int,
                    visited@[m].1 as int,
                    px,
                    py,
                ) && spec_step_ok(a, audit, px, py) ==> pos_in(visited@, px, py) || pos_in(
                    stack@,
                    px,
                    py,
                ),
        decreases bound - visited@.len(), stack@.len(),
    {
        let ghost old_visited = visited@;
        let ghost old_stack = stack@;
        let pos = match stack.pop() {
            Some(p) => p,
            None => (0, 0),
        };
        proof {
            assert(pos == old_stack.last());
            assert(stack@ =~= old_stack.drop_last());
        }
        if !contains_pos(&visited, pos.0, pos.1) {
            visited.push(pos);
            proof {
                assert(visited@ =~= old_visited.push(pos));
                assert forall|i: int, j: int|
                    0 <= i < j < visited@.len() implies visited@[i] != visited@[j] by {
                    if j == visited@.len() - 1 {
                        assert(visited@[i] == old_visited[i]);
                        if visited@[i] == pos {
                            assert(pos_in(old_visited, pos.0 as int, pos.1 as int));
                        }
                    }
                }
                lemma_visited_bound(visited@, a, start_x, start_y);
            }
            let ghost mid_stack = stack@;
            let mut d: usize = 0;
            while d < 4
                invariant
                    visited@ == old_visited.push(pos),
                    visited@.no_duplicates(),
                    visited@.len() <= bound,
                    d <= 4,
                    mid_stack.is_prefix_of(stack@),
                    forall|m: int|
                        0 <= m < stack@.len() ==> spec_reachable(
                            a,
                            audit,
                            sx,
                            sy,
                            (#[trigger] stack@[m]).0 as int,
                            stack@[m].1 as int,
                        ),
                    forall|m: int|
                        0 <= m < stack@.len() ==> (#[trigger] stack@[m]) == (start_x, start_y)
                            || exists|i: int|
                            0 <= i < a.modules@.len() && ((#[trigger] a.modules@[i]).x,
                            a.modules@[i].y) == stack@[m],
                    forall|k: int|
                        #![trigger nbr_of(pos.0 as int, pos.1 as int, k)]
                        0 <= k < d ==> {
                            let nb = nbr_of(pos.0 as int, pos.1 as int, k);
                            !spec_step_ok(a, audit, nb.0, nb.1) || pos_in(visited@, nb.0, nb.1)
                                || pos_in(stack@, nb.0, nb.1)
                        },
                decreases 4 - d,
            {
                let ghost stack_before = stack@;
                let (nxl, nyl): (i64, i64) = if d == 0 {
                    (pos.0 as i64 + 1, pos.1 as i64)
                } else if d == 1 {
                    (pos.0 as i64 - 1, pos.1 as i64)
                } else if d == 2 {
                    (pos.0 as i64, pos.1 as i64 + 1)
                } else {
                    (pos.0 as i64, pos.1 as i64 - 1)
                };
                proof {
                    assert((nxl as int, nyl as int) == nbr_of(pos.0 as int, pos.1 as int, d as int));
                }
                if nxl >= -2147483648 && nxl <= 2147483647 && nyl >= -2147483648 && nyl
                    <= 2147483647 {
                    let nx: i32 = nxl as i32;
                    let ny: i32 = nyl as i32;
                    if step_ok_at(arena, audit, nx, ny) {
                        if !contains_pos(&visited, nx, ny) && !contains_pos(&stack, nx, ny) {
                            proof {
                                lemma_reachable_step(
                                    a,
                                    audit,
                                    sx,
                                    sy,
                                    pos.0 as int,
                                    pos.1 as int,
                                    nx as int,
                                    ny as int,
                                );
                                crate::arena::lemma_cell_at_props(a.modules@, nx as int, ny as int);
                            }
                            let ghost pre = stack@;
                            stack.push((nx, ny));
                            proof {
                                assert(stack@ =~= pre.push((nx, ny)));
                                assert(stack@[stack@.len() - 1] == (nx, ny));
                                assert(pos_in(stack@, nx as int, ny as int));
                            }
                        }
                    }
                } else {
                    proof {
                        // no placed record can carry a coordinate beyond i32
                        let nb = nbr_of(pos.0 as int, pos.1 as int, d as int);
                        crate::arena::lemma_cell_at_props(a.modules@, nb.0, nb.1);
                        assert(!spec_step_ok(a, audit, nb.0, nb.1));
                    }
                }
                proof {
                    assert(stack_before.is_prefix_of(stack@));
                    assert forall|k: int|
                        #![trigger nbr_of(pos.0 as int, pos.1 as int, k)]
                        0 <= k < d + 1 implies {
                        let nb = nbr_of(pos.0 as int, pos.1 as int, k);
                        !spec_step_ok(a, audit, nb.0, nb.1) || pos_in(visited@, nb.0, nb.1)
                            || pos_in(stack@, nb.0, nb.1)
                    } by {
                        let nb = nbr_of(pos.0 as int, pos.1 as int, k);
                        if k < d {
                            if spec_step_ok(a, audit, nb.0, nb.1) && !pos_in(
                                visited@,
                                nb.0,
                                nb.1,
                            ) && pos_in(stack_before, nb.0, nb.1) {
                                let n = choose|n: int|
                                    0 <= n < stack_before.len() && (#[trigger] stack_before[n]).0
                                        == nb.0 && stack_before[n].1 == nb.1;
                                assert(stack@[n] == stack_before[n]);
                                assert(pos_in(stack@, nb.0, nb.1));
                            }
                        }
                    }
                }
                d = d + 1;
            }
            proof {
                // start coverage
                if !pos_in(visited@, sx, sy) {
                    if pos_in(old_visited, sx, sy) {
                        let n = choose|n: int|
                            0 <= n < old_visited.len() && (#[trigger] old_visited[n]).0 == sx
                                && old_visited[n].1 == sy;
                        assert(visited@[n] == old_visited[n]);
                    } else {
                        let n = choose|n: int|
                            0 <= n < old_stack.len() && (#[trigger] old_stack[n]).0 == sx
                                && old_stack[n].1 == sy;
                        if n < old_stack.len() - 1 {
                            assert(mid_stack[n] == old_stack[n]);
                            assert(stack@[n] == old_stack[n]);
                            assert(pos_in(stack@, sx, sy));
                        } else {
                            assert(old_stack[n] == pos);
                            assert(visited@[visited@.len() - 1] == pos);
                            assert(pos_in(visited@, sx, sy));
                        }
                    }
                }
                // closedness of visited against visited-or-stack
                assert forall|m: int, px: int, py: int|
                    #![trigger visited@[m], spec_step_ok(a, audit, px, py)]
                    0 <= m < visited@.len() && spec_is_adjacent(
                        visited@[m].0 as int,
                        visited@[m].1 as int,
                        px,
                        py,
                    ) && spec_step_ok(a, audit, px, py) implies pos_in(visited@, px, py) || pos_in(
                    stack@,
                    px,
                    py,
                ) by {
                    if m < visited@.len() - 1 {
                        assert(old_visited[m] == visited@[m]);
                        if pos_in(old_visited, px, py) {
                            let n = choose|n: int|
                                0 <= n < old_visited.len() && (#[trigger] old_visited[n]).0 == px
                                    && old_visited[n].1 == py;
                            assert(visited@[n] == old_visited[n]);
                            assert(pos_in(visited@, px, py));
                        } else {
                            assert(pos_in(old_stack, px, py));
                            let n = choose|n: int|
                                0 <= n < old_stack.len() && (#[trigger] old_stack[n]).0 == px
                                    && old_stack[n].1 == py;
                            if n < old_stack.len() - 1 {
                                assert(mid_stack[n] == old_stack[n]);
                                assert(stack@[n] == old_stack[n]);
                                assert(pos_in(stack@, px, py));
                            } else {
                                assert(old_stack[n] == pos);
                                assert(visited@[visited@.len() - 1] == pos);
                                assert(pos_in(visited@, px, py));
                            }
                        }
                    } else {
                        assert(visited@[m] == pos);
                        let k: int = if px == pos.0 as int + 1 && py == pos.1 as int {
                            0
                        } else if px == pos.0 as int - 1 && py == pos.1 as int {
                            1
                        } else if px == pos.0 as int && py == pos.1 as int + 1 {
                            2
                        } else {
                            3
                        };
                        assert(nbr_of(pos.0 as int, pos.1 as int, k) == (px, py));
                    }
                }
            }
        } else {
            proof {
                assert forall|m: int, px: int, py: int|
                    #![trigger visited@[m], spec_step_ok(a, audit, px, py)]
                    0 <= m < visited@.len() && spec_is_adjacent(
                        visited@[m].0 as int,
                        visited@[m].1 as int,
                        px,
                        py,
                    ) && spec_step_ok(a, audit, px, py) implies pos_in(visited@, px, py) || pos_in(
                    stack@,
                    px,
                    py,
                ) by {
                    if !pos_in(visited@, px, py) {
                        assert(pos_in(old_stack, px, py));
                        let n = choose|n: int|
                            0 <= n < old_stack.len() && (#[trigger] old_stack[n]).0 == px
                                && old_stack[n].1 == py;
                        if n < old_stack.len() - 1 {
                            assert(stack@[n] == old_stack[n]);
                            assert(pos_in(stack@, px, py));
                        } else {
                            assert(old_stack[n] == pos);
                            assert(pos_in(visited@, pos.0 as int, pos.1 as int));
                        }
                    }
                }
                if !pos_in(visited@, sx, sy) {
                    assert(pos_in(old_stack, sx, sy));
                    let n = choose|n: int|
                        0 <= n < old_stack.len() && (#[trigger] old_stack[n]).0 == sx
                            && old_stack[n].1 == sy;
                    if n < old_stack.len() - 1 {
                        assert(stack@[n] == old_stack[n]);
                        assert(pos_in(stack@, sx, sy));
                    } else {
                        assert(old_stack[n] == pos);
                        assert(pos_in(visited@, sx, sy));
                    }
                }
            }
        }
    }
    proof {
        assert(stack@.len() == 0);
    }
        visited
}

} // verus!
