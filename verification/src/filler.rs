//! The layout filler: populates a fraction of the grid cells with
//! weighted-random module types drawn from a fixed candidate subset, then
//! appends whatever the named minimum-count constraints still demand.
//! Weights are fixed-point thousandths, capped so that totals never
//! overflow.

use vstd::prelude::*;

use crate::counting::{
    count_where, lemma_count_where_nonneg, lemma_count_where_push, lemma_count_where_take_all,
    lemma_count_where_take_step,
};
use crate::ids::ModuleId;
use crate::monitor::{
    lemma_metric_lookup_first, lemma_metric_lookup_none, lemma_metric_lookup_push,
    lemma_metric_lookup_update, metric_lookup,
};
use crate::rng::DetRng;

verus! {

/// The ceiling on a stored weight, in thousandths.
pub open spec fn spec_weight_cap() -> u64 {
    0x0100_0000_0000_0000
}

/// The types the roulette fill may place, plus the two the constraint
/// enforcement may append. The player module is never among them.
pub open spec fn spec_filler_type(m: ModuleId) -> bool {
    ||| m == ModuleId::FloorStd
    ||| m == ModuleId::FloorLarge
    ||| m == ModuleId::RampSteep
    ||| m == ModuleId::HazardLavaPit
    ||| m == ModuleId::HazardLaserEmitterStatic
    ||| m == ModuleId::OrbEnergy
}

/// First-entry lookup in the weight table.
pub open spec fn weight_lookup(s: Seq<(ModuleId, u64)>, k: ModuleId) -> Option<u64>
    decreases s.len(),
{
    if s.len() == 0 {
        None
    } else if s[0].0 == k {
        Some(s[0].1)
    } else {
        weight_lookup(s.skip(1), k)
    }
}

/// The weight used for a candidate, with its fallback.
pub open spec fn spec_weight_or(s: Seq<(ModuleId, u64)>, k: ModuleId, dflt: u64) -> u64 {
    match weight_lookup(s, k) {
        Some(w) => w,
        None => dflt,
    }
}

/// A weight scaled by a fixed-point multiplier and capped.
pub open spec fn spec_scaled(cur: u64, multiplier_milli: u64) -> u64 {
    let raw = cur * multiplier_milli / 1000;
    if raw > spec_weight_cap() {
        spec_weight_cap()
    } else {
        raw as u64
    }
}

/// Which of the five candidates a roulette draw selects: the first whose
/// cumulative weight exceeds the target.
pub open spec fn spec_pick5(w1: u64, w2: u64, w3: u64, w4: u64, w5: u64, t: u64) -> ModuleId {
    if t < w1 {
        ModuleId::FloorStd
    } else if t < w1 + w2 {
        ModuleId::FloorLarge
    } else if t < w1 + w2 + w3 {
        ModuleId::RampSteep
    } else if t < w1 + w2 + w3 + w4 {
        ModuleId::HazardLavaPit
    } else {
        ModuleId::HazardLaserEmitterStatic
    }
}

pub proof fn lemma_weight_lookup_first(s: Seq<(ModuleId, u64)>, k: ModuleId, i: int)
    requires
        0 <= i < s.len(),
        s[i].0 == k,
        forall|j: int| 0 <= j < i ==> (#[trigger] s[j]).0 != k,
    ensures
        weight_lookup(s, k) == Some(s[i].1),
    decreases i,
{
    if i > 0 {
        assert(s.skip(1)[i - 1] == s[i]);
        assert forall|j: int| 0 <= j < i - 1 implies (#[trigger] s.skip(1)[j]).0 != k by {
            assert(s.skip(1)[j] == s[j + 1]);
        }
        lemma_weight_lookup_first(s.skip(1), k, i - 1);
    }
}

pub proof fn lemma_weight_lookup_none(s: Seq<(ModuleId, u64)>, k: ModuleId)
    requires
        forall|j: int| 0 <= j < s.len() ==> (#[trigger] s[j]).0 != k,
    ensures
        weight_lookup(s, k) is None,
    decreases s.len(),
{
    if s.len() > 0 {
        assert forall|j: int| 0 <= j < s.skip(1).len() implies (#[trigger] s.skip(1)[j]).0
            != k by {
            assert(s.skip(1)[j] == s[j + 1]);
        }
        lemma_weight_lookup_none(s.skip(1), k);
    }
}

pub proof fn lemma_weight_lookup_update(s: Seq<(ModuleId, u64)>, i: int, w: u64, k: ModuleId)
    requires
        0 <= i < s.len(),
        forall|j: int| 0 <= j < i ==> (#[trigger] s[j]).0 != s[i].0,
    ensures
        weight_lookup(s.update(i, (s[i].0, w)), s[i].0) == Some(w),
        k != s[i].0 ==> weight_lookup(s.update(i, (s[i].0, w)), k) == weight_lookup(s, k),
    decreases i,
{
    let t = s.update(i, (s[i].0, w));
    if i == 0 {
        if k != s[i].0 {
            assert(t.skip(1) =~= s.skip(1));
        }
    } else {
        assert(t.skip(1) =~= s.skip(1).update(i - 1, (s.skip(1)[i - 1].0, w)));
        assert forall|j: int| 0 <= j < i - 1 implies (#[trigger] s.skip(1)[j]).0 != s.skip(
            1,
        )[i - 1].0 by {
            assert(s.skip(1)[j] == s[j + 1]);
        }
        lemma_weight_lookup_update(s.skip(1), i - 1, w, k);
        assert(t[0] == s[0]);
    }
}

pub proof fn lemma_weight_lookup_push(s: Seq<(ModuleId, u64)>, item: (ModuleId, u64), k: ModuleId)
    ensures
        weight_lookup(s.push(item), k) == if weight_lookup(s, k) is Some {
            weight_lookup(s, k)
        } else if item.0 == k {
            Some(item.1)
        } else {
            None
        },
    decreases s.len(),
{
    if s.len() == 0 {
        assert(s.push(item).skip(1) =~= Seq::<(ModuleId, u64)>::empty());
        assert(weight_lookup(Seq::<(ModuleId, u64)>::empty(), k) is None);
    } else {
        assert(s.push(item).skip(1) =~= s.skip(1).push(item));
        lemma_weight_lookup_push(s.skip(1), item, k);
    }
}

/// A stored weight obeys the table's bound.
pub proof fn lemma_weight_lookup_bounded(s: Seq<(ModuleId, u64)>, k: ModuleId, cap: u64)
    requires
        forall|i: int| 0 <= i < s.len() ==> (#[trigger] s[i]).1 <= cap,
    ensures
        match weight_lookup(s, k) {
            Some(v) => v <= cap,
            None => true,
        },
    decreases s.len(),
{
    if s.len() > 0 && s[0].0 != k {
        assert forall|i: int| 0 <= i < s.skip(1).len() implies (#[trigger] s.skip(1)[i]).1
            <= cap by {
            assert(s.skip(1)[i] == s[i + 1]);
        }
        lemma_weight_lookup_bounded(s.skip(1), k, cap);
    }
}

/// The simplified constraint-fill layout generator.
pub struct LayoutFiller {
    width: u32,
    height: u32,
    module_weights: Vec<(ModuleId, u64)>,
    constraints: Vec<(String, i64)>,
}

impl LayoutFiller {
    pub closed spec fn spec_weights(&self) -> Seq<(ModuleId, u64)> {
        self.module_weights@
    }

    pub closed spec fn spec_constraints(&self) -> Seq<(String, i64)> {
        self.constraints@
    }

    pub closed spec fn spec_width(&self) -> u32 {
        self.width
    }

    pub closed spec fn spec_height(&self) -> u32 {
        self.height
    }

    /// Well-formedness: small dimensions, capped weights and bounded
    /// constraint minima.
    pub open spec fn wf(&self) -> bool {
        &&& self.spec_width() <= 65535
        &&& self.spec_height() <= 65535
        &&& forall|i: int|
            0 <= i < self.spec_weights().len() ==> (#[trigger] self.spec_weights()[i]).1
                <= spec_weight_cap()
        &&& forall|i: int|
            0 <= i < self.spec_constraints().len() ==> (#[trigger] self.spec_constraints()[i]).1 <= 0xffff_ffff
    }

    pub fn new(width: u32, height: u32) -> (r: LayoutFiller)
        requires
            width <= 65535,
            height <= 65535,
        ensures
            r.wf(),
            r.spec_width() == width,
            r.spec_height() == height,
            r.spec_weights().len() == 0,
            r.spec_constraints().len() == 0,
    {
        LayoutFiller { width, height, module_weights: Vec::new(), constraints: Vec::new() }
    }

    /// Store (or overwrite) one weight, capped.
    fn set_weight(&mut self, id: ModuleId, w: u64)
        requires
            old(self).wf(),
            w <= spec_weight_cap(),
        ensures
            final(self).wf(),
            weight_lookup(final(self).spec_weights(), id) == Some(w),
            forall|k: ModuleId|
                k != id ==> #[trigger] weight_lookup(final(self).spec_weights(), k)
                    == weight_lookup(old(self).spec_weights(), k),
            final(self).spec_constraints() == old(self).spec_constraints(),
            final(self).spec_width() == old(self).spec_width(),
            final(self).spec_height() == old(self).spec_height(),
    {
        let mut i: usize = 0;
        while i < self.module_weights.len()
            invariant
                i <= self.module_weights@.len(),
                self.module_weights@ == old(self).module_weights@,
                self.constraints@ == old(self).constraints@,
                self.width == old(self).width,
                self.height == old(self).height,
                forall|j: int| 0 <= j < i ==> (#[trigger] self.module_weights@[j]).0 != id,
            decreases self.module_weights@.len() - i,
        {
            if self.module_weights[i].0 == id {
                self.module_weights.set(i, (id, w));
                proof {
                    lemma_weight_lookup_update(old(self).module_weights@, i as int, w, id);
                    assert forall|k: ModuleId| k != id implies #[trigger] weight_lookup(
                        final(self).spec_weights(),
                        k,
                    ) == weight_lookup(old(self).spec_weights(), k) by {
                        lemma_weight_lookup_update(old(self).module_weights@, i as int, w, k);
                    }
                assert forall|i: int|
                    0 <= i < final(self).spec_constraints().len() implies (#[trigger] final(self).spec_constraints()[i]).1 <= 0xffff_ffff by {
                    assert(final(self).spec_constraints()[i] == old(self).spec_constraints()[i]);
                }
                }
                return ;
            }
            i = i + 1;
        }
        self.module_weights.push((id, w));
        proof {
            lemma_weight_lookup_none(old(self).module_weights@, id);
            lemma_weight_lookup_push(old(self).module_weights@, (id, w), id);
            assert forall|k: ModuleId| k != id implies #[trigger] weight_lookup(
                final(self).spec_weights(),
                k,
            ) == weight_lookup(old(self).spec_weights(), k) by {
                lemma_weight_lookup_push(old(self).module_weights@, (id, w), k);
            }
                assert forall|i: int|
                    0 <= i < final(self).spec_constraints().len() implies (#[trigger] final(self).spec_constraints()[i]).1 <= 0xffff_ffff by {
                    assert(final(self).spec_constraints()[i] == old(self).spec_constraints()[i]);
                }
        }
    }

    /// The stored weight of a module, or the given fallback.
    fn weight_or(&self, id: &ModuleId, dflt: u64) -> (r: u64)
        ensures
            r == spec_weight_or(self.spec_weights(), *id, dflt),
    {
        let mut i: usize = 0;
        while i < self.module_weights.len()
            invariant
                i <= self.module_weights@.len(),
                forall|j: int| 0 <= j < i ==> (#[trigger] self.module_weights@[j]).0 != *id,
            decreases self.module_weights@.len() - i,
        {
            if self.module_weights[i].0 == *id {
                proof {
                    lemma_weight_lookup_first(self.module_weights@, *id, i as int);
                }
                return self.module_weights[i].1;
            }
            i = i + 1;
        }
        proof {
            lemma_weight_lookup_none(self.module_weights@, *id);
        }
        dflt
    }

    /// Seed one module's weight from the catalog (in whole units).
    pub fn add_module_constraint(&mut self, module_id: ModuleId, weight: u32, _tags: &Vec<String>)
        requires
            old(self).wf(),
        ensures
            final(self).wf(),
            weight_lookup(final(self).spec_weights(), module_id) == Some((weight * 1000) as u64),
            forall|k: ModuleId|
                k != module_id ==> #[trigger] weight_lookup(final(self).spec_weights(), k)
                    == weight_lookup(old(self).spec_weights(), k),
            final(self).spec_constraints() == old(self).spec_constraints(),
            final(self).spec_width() == old(self).spec_width(),
            final(self).spec_height() == old(self).spec_height(),
    {
        let w: u64 = (weight as u64) * 1000;
        self.set_weight(module_id, w);
    }

    /// Scale one module's weight up by a fixed-point multiplier.
    pub fn increase_module_weight(&mut self, module_id: &ModuleId, multiplier_milli: u64)
        requires
            old(self).wf(),
        ensures
            final(self).wf(),
            weight_lookup(final(self).spec_weights(), *module_id) == Some(
                spec_scaled(
                    spec_weight_or(old(self).spec_weights(), *module_id, 1000),
                    multiplier_milli,
                ),
            ),
            forall|k: ModuleId|
                k != *module_id ==> #[trigger] weight_lookup(final(self).spec_weights(), k)
                    == weight_lookup(old(self).spec_weights(), k),
            final(self).spec_constraints() == old(self).spec_constraints(),
            final(self).spec_width() == old(self).spec_width(),
            final(self).spec_height() == old(self).spec_height(),
    {
        let cur = self.weight_or(module_id, 1000);
        proof {
            lemma_weight_lookup_bounded(self.spec_weights(), *module_id, spec_weight_cap());
            assert((cur as int) * (multiplier_milli as int) < 0x1_0000_0000_0000_0000
                * 0x1_0000_0000_0000_0000) by (nonlinear_arith)
                requires
                    0 <= (cur as int) && (cur as int) < 0x1_0000_0000_0000_0000,
                    0 <= (multiplier_milli as int) && (multiplier_milli as int)
                        < 0x1_0000_0000_0000_0000,
            ;
        }
        let raw: u128 = (cur as u128) * (multiplier_milli as u128) / 1000;
        let neu: u64 = if raw > 0x0100_0000_0000_0000 {
            0x0100_0000_0000_0000
        } else {
            raw as u64
        };
        self.set_weight(*module_id, neu);
    }

    /// Scale one module's weight down by a fixed-point multiplier; the
    /// arithmetic is the same scaling.
    pub fn decrease_module_weight(&mut self, module_id: &ModuleId, multiplier_milli: u64)
        requires
            old(self).wf(),
        ensures
            final(self).wf(),
            weight_lookup(final(self).spec_weights(), *module_id) == Some(
                spec_scaled(
                    spec_weight_or(old(self).spec_weights(), *module_id, 1000),
                    multiplier_milli,
                ),
            ),
            forall|k: ModuleId|
                k != *module_id ==> #[trigger] weight_lookup(final(self).spec_weights(), k)
                    == weight_lookup(old(self).spec_weights(), k),
            final(self).spec_constraints() == old(self).spec_constraints(),
            final(self).spec_width() == old(self).spec_width(),
            final(self).spec_height() == old(self).spec_height(),
    {
        self.increase_module_weight(module_id, multiplier_milli);
    }

    /// Record (or overwrite) a named lower bound, checked after filling.
    pub fn add_constraint(&mut self, name: &str, value: i64)
        requires
            value <= 0xffff_ffff,
        ensures
            metric_lookup(final(self).spec_constraints(), name@) == Some(value),
            forall|k: Seq<char>|
                k != name@ ==> metric_lookup(final(self).spec_constraints(), k) == metric_lookup(
                    old(self).spec_constraints(),
                    k,
                ),
            final(self).spec_weights() == old(self).spec_weights(),
            final(self).spec_width() == old(self).spec_width(),
            final(self).spec_height() == old(self).spec_height(),
            old(self).wf() ==> final(self).wf(),
    {
        let key: String = name.to_owned();
        let mut i: usize = 0;
        while i < self.constraints.len()
            invariant
                i <= self.constraints@.len(),
                key@ == name@,
                self.constraints@ == old(self).constraints@,
                self.module_weights@ == old(self).module_weights@,
                self.width == old(self).width,
                self.height == old(self).height,
                forall|j: int| 0 <= j < i ==> (#[trigger] self.constraints@[j]).0@ != name@,
            decreases self.constraints@.len() - i,
        {
            if self.constraints[i].0 == key {
                self.constraints.set(i, (key, value));
                proof {
                    lemma_metric_lookup_update(
                        old(self).constraints@,
                        i as int,
                        final(self).constraints@[i as int],
                        name@,
                    );
                    assert forall|k: Seq<char>| k != name@ implies metric_lookup(
                        final(self).spec_constraints(),
                        k,
                    ) == metric_lookup(old(self).spec_constraints(), k) by {
                        lemma_metric_lookup_update(
                            old(self).constraints@,
                            i as int,
                            final(self).constraints@[i as int],
                            k,
                        );
                    }
                    if old(self).wf() {
                        assert forall|n: int|
                            0 <= n < final(self).spec_constraints().len() implies (#[trigger] final(self).spec_constraints()[n]).1 <= 0xffff_ffff by {
                            if n != i as int {
                                assert(final(self).spec_constraints()[n] == old(self).spec_constraints()[n]);
                            }
                        }
                        assert forall|n: int|
                            0 <= n < final(self).spec_weights().len() implies (#[trigger] final(self).spec_weights()[n]).1 <= spec_weight_cap() by {
                            assert(final(self).spec_weights()[n] == old(self).spec_weights()[n]);
                        }
                    }
                }
                return ;
            }
            i = i + 1;
        }
        self.constraints.push((key, value));
        proof {
            lemma_metric_lookup_none(old(self).constraints@, name@);
            lemma_metric_lookup_push(old(self).constraints@, final(self).constraints@.last(), name@);
            assert forall|k: Seq<char>| k != name@ implies metric_lookup(
                final(self).spec_constraints(),
                k,
            ) == metric_lookup(old(self).spec_constraints(), k) by {
                lemma_metric_lookup_push(old(self).constraints@, final(self).constraints@.last(), k);
            }
            if old(self).wf() {
                assert forall|n: int|
                    0 <= n < final(self).spec_constraints().len() implies (#[trigger] final(self).spec_constraints()[n]).1 <= 0xffff_ffff by {
                    if n < final(self).spec_constraints().len() - 1 {
                        assert(final(self).spec_constraints()[n] == old(self).spec_constraints()[n]);
                    }
                }
                assert forall|n: int|
                    0 <= n < final(self).spec_weights().len() implies (#[trigger] final(self).spec_weights()[n]).1 <= spec_weight_cap() by {
                    assert(final(self).spec_weights()[n] == old(self).spec_weights()[n]);
                }
            }
        }
    }

    /// A named lower bound, if one was declared.
    fn get_constraint(&self, name: &str) -> (r: Option<i64>)
        ensures
            r == metric_lookup(self.spec_constraints(), name@),
    {
        let key: String = name.to_owned();
        let mut i: usize = 0;
        while i < self.constraints.len()
            invariant
                i <= self.constraints@.len(),
                key@ == name@,
                forall|j: int| 0 <= j < i ==> (#[trigger] self.constraints@[j]).0@ != name@,
            decreases self.constraints@.len() - i,
        {
            if self.constraints[i].0 == key {
                proof {
                    lemma_metric_lookup_first(self.constraints@, name@, i as int);
                }
                return Some(self.constraints[i].1);
            }
            i = i + 1;
        }
        proof {
            lemma_metric_lookup_none(self.constraints@, name@);
        }
        None
    }

    /// Weighted roulette over the fixed candidate subset. With every
    /// weight zero the fill degenerates to the standard floor; otherwise
    /// the draw walks the cumulative weights exactly.
    fn select_weighted_module(&self, rng: &mut DetRng) -> (r: ModuleId)
        requires
            self.wf(),
        ensures
            spec_filler_type(r),
            r != ModuleId::OrbEnergy,
            ({
                let w1 = spec_weight_or(self.spec_weights(), ModuleId::FloorStd, 10000);
                let w2 = spec_weight_or(self.spec_weights(), ModuleId::FloorLarge, 5000);
                let w3 = spec_weight_or(self.spec_weights(), ModuleId::RampSteep, 3000);
                let w4 = spec_weight_or(self.spec_weights(), ModuleId::HazardLavaPit, 2000);
                let w5 = spec_weight_or(
                    self.spec_weights(),
                    ModuleId::HazardLaserEmitterStatic,
                    1000,
                );
                if w1 + w2 + w3 + w4 + w5 == 0 {
                    r == ModuleId::FloorStd && *final(rng) == *old(rng)
                } else {
                    r == spec_pick5(
                        w1,
                        w2,
                        w3,
                        w4,
                        w5,
                        crate::rng::spec_draw(old(rng).spec_state()) % (w1 + w2 + w3 + w4
                            + w5) as u64,
                    ) && final(rng).spec_state() == crate::rng::spec_next_state(
                        old(rng).spec_state(),
                    )
                }
            }),
    {
        let w1 = self.weight_or(&ModuleId::FloorStd, 10000);
        let w2 = self.weight_or(&ModuleId::FloorLarge, 5000);
        let w3 = self.weight_or(&ModuleId::RampSteep, 3000);
        let w4 = self.weight_or(&ModuleId::HazardLavaPit, 2000);
        let w5 = self.weight_or(&ModuleId::HazardLaserEmitterStatic, 1000);
        proof {
            lemma_weight_lookup_bounded(self.spec_weights(), ModuleId::FloorStd, spec_weight_cap());
            lemma_weight_lookup_bounded(
                self.spec_weights(),
                ModuleId::FloorLarge,
                spec_weight_cap(),
            );
            lemma_weight_lookup_bounded(
                self.spec_weights(),
                ModuleId::RampSteep,
                spec_weight_cap(),
            );
            lemma_weight_lookup_bounded(
                self.spec_weights(),
                ModuleId::HazardLavaPit,
                spec_weight_cap(),
            );
            lemma_weight_lookup_bounded(
                self.spec_weights(),
                ModuleId::HazardLaserEmitterStatic,
                spec_weight_cap(),
            );
        }
        let total: u64 = w1 + w2 + w3 + w4 + w5;
        if total == 0 {
            ModuleId::FloorStd
        } else {
            let t = rng.next_below(total);
            if t < w1 {
                ModuleId::FloorStd
            } else if t < w1 + w2 {
                ModuleId::FloorLarge
            } else if t < w1 + w2 + w3 {
                ModuleId::RampSteep
            } else if t < w1 + w2 + w3 + w4 {
                ModuleId::HazardLavaPit
            } else {
                ModuleId::HazardLaserEmitterStatic
            }
        }
    }

    /// Populate the grid: every cell in row-major order is filled with a
    /// weighted draw at a fixed six-tenths probability; unmet minimum
    /// counts are then appended at random positions without an occupancy
    /// check. Returns `(x, y, module type)` records.
    pub fn generate(&self, rng: &mut DetRng, _monitor: &mut crate::monitor::AnomalyMonitor) -> (out:
        Vec<(i32, i32, ModuleId)>)
        requires
            self.wf(),
        ensures
            *final(_monitor) == *old(_monitor),
            forall|k: int| 0 <= k < out@.len() ==> spec_filler_type((#[trigger] out@[k]).2),
            forall|k: int|
                0 <= k < out@.len() ==> 0 <= (#[trigger] out@[k]).0 < self.spec_width() && 0 <= out@[k].1 < self.spec_height(),
            count_where(out@, |e: (i32, i32, ModuleId)| e.2 == ModuleId::Player) == 0,
            self.spec_width() > 0 && self.spec_height() > 0 ==> {
                &&& match metric_lookup(self.spec_constraints(), "min_lava_pits"@) {
                    Some(v) => count_where(
                        out@,
                        |e: (i32, i32, ModuleId)| e.2 == ModuleId::HazardLavaPit,
                    ) >= v,
                    None => true,
                }
                &&& match metric_lookup(self.spec_constraints(), "min_orbs"@) {
                    Some(v) => count_where(
                        out@,
                        |e: (i32, i32, ModuleId)| e.2 == ModuleId::OrbEnergy,
                    ) >= v,
                    None => true,
                }
            },
            metric_lookup(self.spec_constraints(), "min_orbs"@) is None ==> count_where(
                out@,
                |e: (i32, i32, ModuleId)| e.2 == ModuleId::OrbEnergy,
            ) == 0,
            out@.len() <= self.spec_width() * self.spec_height() + (match metric_lookup(
                self.spec_constraints(),
                "min_lava_pits"@,
            ) {
                Some(v) => if v > 0 {
                    v
                } else {
                    0
                },
                None => 0,
            }) + (match metric_lookup(self.spec_constraints(), "min_orbs"@) {
                Some(v) => if v > 0 {
                    v
                } else {
                    0
                },
                None => 0,
            }),
    {
        let ghost orbp = |e: (i32, i32, ModuleId)| e.2 == ModuleId::OrbEnergy;
        let ghost lavap = |e: (i32, i32, ModuleId)| e.2 == ModuleId::HazardLavaPit;
        let ghost playerp = |e: (i32, i32, ModuleId)| e.2 == ModuleId::Player;
        let mut out: Vec<(i32, i32, ModuleId)> = Vec::new();
        let w = self.width;
        let h = self.height;
        let mut y: u32 = 0;
        while y < h
            invariant
                y <= h,
                forall|k: int| 0 <= k < out@.len() ==> spec_filler_type((#[trigger] out@[k]).2),
                forall|k: int|
                    0 <= k < out@.len() ==> 0 <= (#[trigger] out@[k]).0 < w && 0 <= out@[k].1 < h,
                count_where(out@, orbp) == 0,
                count_where(out@, playerp) == 0,
                out@.len() <= (y as int) * (w as int),
            decreases h - y,
        {
            let mut x: u32 = 0;
            while x < w
                invariant
                    x <= w,
                    y < h,
                    forall|k: int|
                        0 <= k < out@.len() ==> spec_filler_type((#[trigger] out@[k]).2),
                    forall|k: int|
                        0 <= k < out@.len() ==> 0 <= (#[trigger] out@[k]).0 < w && 0 <= out@[k].1
                            < h,
                    count_where(out@, orbp) == 0,
                    count_where(out@, playerp) == 0,
                    out@.len() <= (y as int) * (w as int) + (x as int),
                decreases w - x,
            {
                let roll = rng.next_below(1000);
                if roll < 600 {
                    let m = self.select_weighted_module(rng);
                    let ghost pre = out@;
                    out.push((x as i32, y as i32, m));
                    proof {
                        lemma_count_where_push(pre, orbp, (x as i32, y as i32, m));
                        lemma_count_where_push(pre, playerp, (x as i32, y as i32, m));
                    }
                }
                x = x + 1;
            }
            proof {
                assert((y as int) * (w as int) + (w as int) == ((y as int) + 1) * (w as int))
                    by (nonlinear_arith);
            }
            y = y + 1;
        }
        proof {
            assert(out@.len() <= (h as int) * (w as int));
            assert((h as int) * (w as int) == (w as int) * (h as int)) by (nonlinear_arith);
            assert((w as int) * (h as int) <= 65535 * 65535) by (nonlinear_arith)
                requires
                    0 <= (w as int) && (w as int) <= 65535,
                    0 <= (h as int) && (h as int) <= 65535,
            ;
        }
        self.enforce_constraints(&mut out, rng);
        out
    }

    /// Append whatever the named minimum counts still demand, at uniformly
    /// random positions with no occupancy check.
    #[verifier::rlimit(80)]
    fn enforce_constraints(&self, out: &mut Vec<(i32, i32, ModuleId)>, rng: &mut DetRng)
        requires
            self.wf(),
            old(out)@.len() <= 0xffff_ffff,
            forall|k: int|
                0 <= k < old(out)@.len() ==> spec_filler_type((#[trigger] old(out)@[k]).2),
            forall|k: int|
                0 <= k < old(out)@.len() ==> 0 <= (#[trigger] old(out)@[k]).0 < self.spec_width()
                    && 0 <= old(out)@[k].1 < self.spec_height(),
            count_where(old(out)@, |e: (i32, i32, ModuleId)| e.2 == ModuleId::Player) == 0,
        ensures
            forall|k: int|
                0 <= k < final(out)@.len() ==> spec_filler_type((#[trigger] final(out)@[k]).2),
            forall|k: int|
                0 <= k < final(out)@.len() ==> 0 <= (#[trigger] final(out)@[k]).0
                    < self.spec_width() && 0 <= final(out)@[k].1 < self.spec_height(),
            count_where(final(out)@, |e: (i32, i32, ModuleId)| e.2 == ModuleId::Player) == 0,
            self.spec_width() > 0 && self.spec_height() > 0 ==> {
                &&& match metric_lookup(self.spec_constraints(), "min_lava_pits"@) {
                    Some(v) => count_where(
                        final(out)@,
                        |e: (i32, i32, ModuleId)| e.2 == ModuleId::HazardLavaPit,
                    ) >= v,
                    None => true,
                }
                &&& match metric_lookup(self.spec_constraints(), "min_orbs"@) {
                    Some(v) => count_where(
                        final(out)@,
                        |e: (i32, i32, ModuleId)| e.2 == ModuleId::OrbEnergy,
                    ) >= v,
                    None => true,
                }
            },
            metric_lookup(self.spec_constraints(), "min_orbs"@) is None ==> count_where(
                final(out)@,
                |e: (i32, i32, ModuleId)| e.2 == ModuleId::OrbEnergy,
            ) == count_where(old(out)@, |e: (i32, i32, ModuleId)| e.2 == ModuleId::OrbEnergy),
            final(out)@.len() <= old(out)@.len() + (match metric_lookup(
                self.spec_constraints(),
                "min_lava_pits"@,
            ) {
                Some(v) => if v > 0 {
                    v
                } else {
                    0
                },
                None => 0,
            }) + (match metric_lookup(self.spec_constraints(), "min_orbs"@) {
                Some(v) => if v > 0 {
                    v
                } else {
                    0
                },
                None => 0,
            }),
    {
        let ghost orbp = |e: (i32, i32, ModuleId)| e.2 == ModuleId::OrbEnergy;
        let ghost lavap = |e: (i32, i32, ModuleId)| e.2 == ModuleId::HazardLavaPit;
        let ghost playerp = |e: (i32, i32, ModuleId)| e.2 == ModuleId::Player;
        let w = self.width;
        let h = self.height;
        let min_lava = self.get_constraint("min_lava_pits");
        proof {
            lemma_count_where_nonneg(old(out)@, lavap);
            lemma_count_where_nonneg(old(out)@, orbp);
        }
        match min_lava {
            None => {},
            Some(minv) => {
                if w > 0 && h > 0 {
                    proof {
                        lemma_constraint_bounded(self.spec_constraints(), "min_lava_pits"@);
                    }
                    let ghost base = out@;
                    let mut current: u64 = count_filler_lava(out);
                    while (current as i64) < minv
                        invariant
                            self.wf(),
                            w == self.spec_width() && h == self.spec_height(),
                            w > 0 && h > 0,
                            minv <= 0xffff_ffff,
                            current <= 0x1_0000_0000_0000,
                            current == count_where(out@, lavap),
                            current >= count_where(base, lavap),
                            (current as i64) <= minv || current == count_where(base, lavap),
                            out@.len() == base.len() + current - count_where(base, lavap),
                            count_where(out@, orbp) == count_where(base, orbp),
                            count_where(out@, playerp) == 0,
                            forall|k: int|
                                0 <= k < out@.len() ==> spec_filler_type((#[trigger] out@[k]).2),
                            forall|k: int|
                                0 <= k < out@.len() ==> 0 <= (#[trigger] out@[k]).0 < w
                                    && 0 <= out@[k].1 < h,
                        decreases (if minv > 0 {
                            minv
                        } else {
                            0
                        }) - current,
                    {
                        let x = rng.next_below(w as u64) as u32;
                        let yy = rng.next_below(h as u64) as u32;
                        let ghost pre = out@;
                        out.push((x as i32, yy as i32, ModuleId::HazardLavaPit));
                        proof {
                            lemma_count_where_push(
                                pre,
                                lavap,
                                (x as i32, yy as i32, ModuleId::HazardLavaPit),
                            );
                            lemma_count_where_push(
                                pre,
                                orbp,
                                (x as i32, yy as i32, ModuleId::HazardLavaPit),
                            );
                            lemma_count_where_push(
                                pre,
                                playerp,
                                (x as i32, yy as i32, ModuleId::HazardLavaPit),
                            );
                        }
                        current = current + 1;
                    }
                }
            },
        }
        proof {
            assert(out@.len() <= old(out)@.len() + (match metric_lookup(
                self.spec_constraints(),
                "min_lava_pits"@,
            ) {
                Some(v) => if v > 0 {
                    v as int
                } else {
                    0int
                },
                None => 0int,
            }));
        }
        let min_orbs = self.get_constraint("min_orbs");
        match min_orbs {
            None => {},
            Some(minv) => {
                if w > 0 && h > 0 {
                    proof {
                        lemma_constraint_bounded(self.spec_constraints(), "min_orbs"@);
                        lemma_count_where_nonneg(out@, orbp);
                    }
                    let ghost base = out@;
                    let mut current: u64 = count_filler_orbs(out);
                    while (current as i64) < minv
                        invariant
                            self.wf(),
                            w == self.spec_width() && h == self.spec_height(),
                            w > 0 && h > 0,
                            minv <= 0xffff_ffff,
                            current <= 0x1_0000_0000_0000,
                            current == count_where(out@, orbp),
                            current >= count_where(base, orbp),
                            (current as i64) <= minv || current == count_where(base, orbp),
                            out@.len() == base.len() + current - count_where(base, orbp),
                            count_where(out@, lavap) == count_where(base, lavap),
                            count_where(out@, playerp) == 0,
                            forall|k: int|
                                0 <= k < out@.len() ==> spec_filler_type((#[trigger] out@[k]).2),
                            forall|k: int|
                                0 <= k < out@.len() ==> 0 <= (#[trigger] out@[k]).0 < w
                                    && 0 <= out@[k].1 < h,
                        decreases (if minv > 0 {
                            minv
                        } else {
                            0
                        }) - current,
                    {
                        let x = rng.next_below(w as u64) as u32;
                        let yy = rng.next_below(h as u64) as u32;
                        let ghost pre = out@;
                        out.push((x as i32, yy as i32, ModuleId::OrbEnergy));
                        proof {
                            lemma_count_where_push(
                                pre,
                                lavap,
                                (x as i32, yy as i32, ModuleId::OrbEnergy),
                            );
                            lemma_count_where_push(
                                pre,
                                orbp,
                                (x as i32, yy as i32, ModuleId::OrbEnergy),
                            );
                            lemma_count_where_push(
                                pre,
                                playerp,
                                (x as i32, yy as i32, ModuleId::OrbEnergy),
                            );
                        }
                        current = current + 1;
                    }
                }
            },
        }
    }
}

/// A declared lower bound obeys the table's cap.
pub proof fn lemma_constraint_bounded(s: Seq<(String, i64)>, k: Seq<char>)
    requires
        forall|i: int| 0 <= i < s.len() ==> (#[trigger] s[i]).1 <= 0xffff_ffff,
    ensures
        match metric_lookup(s, k) {
            Some(v) => v <= 0xffff_ffff,
            None => true,
        },
    decreases s.len(),
{
    if s.len() > 0 && s[0].0@ != k {
        assert forall|i: int| 0 <= i < s.skip(1).len() implies (#[trigger] s.skip(1)[i]).1
            <= 0xffff_ffff by {
            assert(s.skip(1)[i] == s[i + 1]);
        }
        lemma_constraint_bounded(s.skip(1), k);
    }
}

/// How many lava records the fill holds so far./// How many lava records the fill holds so far.
fn count_filler_lava(out: &Vec<(i32, i32, ModuleId)>) -> (r: u64)
    requires
        out@.len() <= 0xffff_ffff_ffff,
    ensures
        r == count_where(out@, |e: (i32, i32, ModuleId)| e.2 == ModuleId::HazardLavaPit),
{
    let ghost f = |e: (i32, i32, ModuleId)| e.2 == ModuleId::HazardLavaPit;
    let mut count: u64 = 0;
    let mut i: usize = 0;
    while i < out.len()
        invariant
            i <= out@.len(),
            count == count_where(out@.take(i as int), f),
            count <= i,
        decreases out@.len() - i,
    {
        proof {
            lemma_count_where_take_step(out@, f, i as int);
        }
        if matches!(out[i].2, ModuleId::HazardLavaPit) {
            count = count + 1;
        }
        i = i + 1;
    }
    proof {
        lemma_count_where_take_all(out@, f);
    }
    count
}

/// How many orb records the fill holds so far.
fn count_filler_orbs(out: &Vec<(i32, i32, ModuleId)>) -> (r: u64)
    requires
        out@.len() <= 0xffff_ffff_ffff,
    ensures
        r == count_where(out@, |e: (i32, i32, ModuleId)| e.2 == ModuleId::OrbEnergy),
{
    let ghost f = |e: (i32, i32, ModuleId)| e.2 == ModuleId::OrbEnergy;
    let mut count: u64 = 0;
    let mut i: usize = 0;
    while i < out.len()
        invariant
            i <= out@.len(),
            count == count_where(out@.take(i as int), f),
            count <= i,
        decreases out@.len() - i,
    {
        proof {
            lemma_count_where_take_step(out@, f, i as int);
        }
        if matches!(out[i].2, ModuleId::OrbEnergy) {
            count = count + 1;
        }
        i = i + 1;
    }
    proof {
        lemma_count_where_take_all(out@, f);
    }
    count
}

} // verus!
