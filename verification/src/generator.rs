//! The generator: the six-stage pipeline that turns the catalogs plus a
//! seed into one complete, validated arena — rule selection, environment
//! configuration, base layout, rule-driven edits, interactive placement
//! and balancing — reporting into the monitor throughout, and failing
//! exactly when the post-validation monitor holds a critical finding.

use vstd::prelude::*;

use crate::arena::{
    lemma_count_walkable_bound, occupied_at, spec_count_type, spec_count_walkable, Arena,
};
use crate::catalog::{EnvVarsDatabase, ModulesDatabase, Rule, RulesDatabase};
use crate::counting::{count_where, lemma_count_where_suffix_zero};
use crate::errors::ArenaGenerationError;
use crate::filler::{spec_filler_type, LayoutFiller};
use crate::ids::{EnvVarId, ModuleId, RuleId};
use crate::monitor::{
    anoms_extend, collect_positions, lemma_extend_refl, lemma_extend_trans, lemma_push_shape,
    metric_lookup, spec_has_critical, AnomalyMonitor, AnomalySeverity,
};
use crate::params::ParamValue;
use crate::rng::{entropy_seed, DetRng};

verus! {

broadcast use vstd::seq_lib::group_seq_properties;

/// How many orbs stage five aims to place.
pub open spec fn spec_orb_target(w: int, h: int) -> int {
    if w * h / 20 > 3 {
        w * h / 20
    } else {
        3
    }
}

/// How many interactive elements stage five aims to place.
pub open spec fn spec_interactive_target(w: int, h: int) -> int {
    if w * h / 40 > 1 {
        w * h / 40
    } else {
        1
    }
}

/// No two active rules, in either direction, declare one another
/// incompatible.
pub open spec fn spec_rules_compatible(rules: Seq<Rule>) -> bool {
    forall|a: int, b: int|
        #![trigger rules[a], rules[b]]
        0 <= a < b < rules.len() ==> !rules[a].incompatible_with@.contains(rules[b].id)
            && !rules[b].incompatible_with@.contains(rules[a].id)
}

/// No two active rules share an identifier.
pub open spec fn spec_rule_ids_distinct(rules: Seq<Rule>) -> bool {
    forall|a: int, b: int|
        #![trigger rules[a], rules[b]]
        0 <= a < b < rules.len() ==> rules[a].id != rules[b].id
}

/// Whether a rule with the given identifier is active.
pub open spec fn spec_has_rule(rules: Seq<Rule>, id: RuleId) -> bool {
    exists|k: int| 0 <= k < rules.len() && (#[trigger] rules[k]).id == id
}

/// Whether a selected rule lists the identifier as incompatible.
pub open spec fn spec_rule_excluded_by(sel: Seq<Rule>, id: RuleId) -> bool {
    exists|a: int| 0 <= a < sel.len() && (#[trigger] sel[a]).incompatible_with@.contains(id)
}

/// Every catalog rule is already selected or shut out by a selected
/// rule's incompatibility list: no candidate remains.
pub open spec fn spec_catalog_exhausted(cat: Seq<Rule>, sel: Seq<Rule>) -> bool {
    forall|i: int|
        0 <= i < cat.len() ==> spec_has_rule(sel, (#[trigger] cat[i]).id) || spec_rule_excluded_by(
            sel,
            cat[i].id,
        )
}

/// Every selected rule carries a catalog identifier together with that
/// catalog entry's incompatibility list.
pub open spec fn spec_from_catalog(cat: Seq<Rule>, sel: Seq<Rule>) -> bool {
    forall|a: int|
        0 <= a < sel.len() ==> exists|i: int|
            0 <= i < cat.len() && (#[trigger] sel[a]).id == cat[i].id
                && sel[a].incompatible_with@ == cat[i].incompatible_with@
}

/// The fixed-point selection weight of a candidate rule against the rules
/// already selected: base one, halved per crowded tag family, nudged by
/// the difficulty tags.
pub open spec fn spec_rule_weight(rule: Rule, cur: Seq<Rule>) -> int {
    let movement = count_where(cur, |r: Rule| r.spec_has_tag("movement"@));
    let hazard = count_where(cur, |r: Rule| r.spec_has_tag("hazard"@));
    let w0 = 1000int;
    let w1 = if rule.spec_has_tag("movement"@) && movement > 1 {
        w0 / 2
    } else {
        w0
    };
    let w2 = if rule.spec_has_tag("hazard"@) && hazard > 1 {
        w1 / 2
    } else {
        w1
    };
    if rule.spec_has_tag("difficulty_easy"@) {
        w2 * 1200 / 1000
    } else if rule.spec_has_tag("difficulty_hard"@) {
        w2 * 800 / 1000
    } else {
        w2
    }
}

/// The gravity value stage two resolves from the rng state `s0` at its
/// draw: a moon-gravity override lands in [0.3, 0.5); otherwise the
/// default of one jitters by at most half a tenth of the range. Both lie
/// inside the declared range, so clamping never bites.
pub open spec fn spec_gravity_resolved(rules: Seq<Rule>, s0: u64) -> i64 {
    if spec_has_rule(rules, RuleId::MoonGravity) {
        (300 + crate::rng::spec_draw(s0) % 200) as i64
    } else {
        (860 + crate::rng::spec_draw(s0) % 281) as i64
    }
}

/// The game-speed value stage two resolves from the rng state `s1` at its
/// draw: a speed-up override multiplies the default of one by a factor in
/// [1.2, 1.5); otherwise the default jitters.
pub open spec fn spec_speed_resolved(rules: Seq<Rule>, s1: u64) -> i64 {
    if spec_has_rule(rules, RuleId::SpeedUp) {
        (1200 + crate::rng::spec_draw(s1) % 300) as i64
    } else {
        (925 + crate::rng::spec_draw(s1) % 151) as i64
    }
}

/// The pipeline orchestrator: owns the deterministic random source and the
/// three catalogs for the lifetime of its generation calls.
pub struct ArenaGenerator {
    rng: DetRng,
    rules_db: RulesDatabase,
    modules_db: ModulesDatabase,
    env_vars_db: EnvVarsDatabase,
}

impl ArenaGenerator {
    /// What generation relies on of the catalogs.
    pub open spec fn wf(&self) -> bool {
        &&& self.spec_rules_db().wf()
        &&& self.spec_rules_db().spec_rules().len() <= 64
        &&& self.spec_env_db().spec_variables().len() == 2
        &&& self.spec_env_db().spec_variables()[0].id == EnvVarId::Gravity
        &&& self.spec_env_db().spec_variables()[0].default_value_milli == 1000
        &&& self.spec_env_db().spec_variables()[0].range_min_milli == 200
        &&& self.spec_env_db().spec_variables()[0].range_max_milli == 3000
        &&& self.spec_env_db().spec_variables()[1].id == EnvVarId::GameSpeed
        &&& self.spec_env_db().spec_variables()[1].default_value_milli == 1000
        &&& self.spec_env_db().spec_variables()[1].range_min_milli == 500
        &&& self.spec_env_db().spec_variables()[1].range_max_milli == 2000
    }

    pub closed spec fn spec_rules_db(&self) -> RulesDatabase {
        self.rules_db
    }

    pub closed spec fn spec_env_db(&self) -> EnvVarsDatabase {
        self.env_vars_db
    }

    pub closed spec fn spec_modules_db(&self) -> ModulesDatabase {
        self.modules_db
    }

    pub closed spec fn spec_rng(&self) -> DetRng {
        self.rng
    }

    /// A generator over the built-in catalogs. A given seed makes every
    /// draw of the run a function of that seed; with no seed an entropy
    /// seed is drawn once.
    pub fn new(seed: Option<u64>) -> (r: ArenaGenerator)
        ensures
            r.wf(),
            seed matches Some(s) ==> r.spec_rng().spec_state() == s,
    {
        let actual_seed: u64 = match seed {
            Some(s) => s,
            None => entropy_seed(),
        };
        ArenaGenerator {
            rng: DetRng::new(actual_seed),
            rules_db: RulesDatabase::new(),
            modules_db: ModulesDatabase::new(),
            env_vars_db: EnvVarsDatabase::new(),
        }
    }

    /// The fixed-point selection weight of one candidate.
    fn calculate_rule_weight(&self, rule: &Rule, current_rules: &Vec<Rule>) -> (w: u64)
        ensures
            w == spec_rule_weight(*rule, current_rules@),
            200 <= w <= 1200,
    {
        let ghost movp = |r: Rule| r.spec_has_tag("movement"@);
        let ghost hazp = |r: Rule| r.spec_has_tag("hazard"@);
        let mut movement: usize = 0;
        let mut hazard: usize = 0;
        let mut i: usize = 0;
        while i < current_rules.len()
            invariant
                i <= current_rules@.len(),
                movement == count_where(current_rules@.take(i as int), movp),
                hazard == count_where(current_rules@.take(i as int), hazp),
                movement <= i && hazard <= i,
            decreases current_rules@.len() - i,
        {
            proof {
                crate::counting::lemma_count_where_take_step(current_rules@, movp, i as int);
                crate::counting::lemma_count_where_take_step(current_rules@, hazp, i as int);
            }
            if current_rules[i].has_tag("movement") {
                movement = movement + 1;
            }
            if current_rules[i].has_tag("hazard") {
                hazard = hazard + 1;
            }
            i = i + 1;
        }
        proof {
            crate::counting::lemma_count_where_take_all(current_rules@, movp);
            crate::counting::lemma_count_where_take_all(current_rules@, hazp);
        }
        let mut weight: u64 = 1000;
        if rule.has_tag("movement") && movement > 1 {
            weight = weight / 2;
        }
        if rule.has_tag("hazard") && hazard > 1 {
            weight = weight / 2;
        }
        if rule.has_tag("difficulty_easy") {
            weight = weight * 1200 / 1000;
        } else if rule.has_tag("difficulty_hard") {
            weight = weight * 800 / 1000;
        }
        weight
    }

    /// Stage one: weighted selection of up to `count` rules under a running
    /// exclusion set. The result never holds two rules that declare one
    /// another incompatible, and never repeats an identifier; running out
    /// of candidates warns rather than fails.
    #[verifier::rlimit(100)]
    fn select_compatible_rules(&mut self, count: u32, monitor: &mut AnomalyMonitor) -> (selected:
        Vec<Rule>)
        requires
            old(self).wf(),
        ensures
            final(self).wf(),
            selected@.len() <= count,
            spec_rule_ids_distinct(selected@),
            spec_rules_compatible(selected@),
            spec_from_catalog(final(self).spec_rules_db().spec_rules(), selected@),
            selected@.len() == count || spec_catalog_exhausted(
                final(self).spec_rules_db().spec_rules(),
                selected@,
            ),
            selected@.len() == count ==> final(monitor).spec_anomalies() == old(
                monitor,
            ).spec_anomalies(),
            selected@.len() < count ==> final(monitor).spec_anomalies().len() == old(
                monitor,
            ).spec_anomalies().len() + 1 && final(monitor).spec_anomalies().last().severity
                == AnomalySeverity::Warning && final(monitor).spec_anomalies().last().category@
                == "RULES"@,
            anoms_extend(final(monitor).spec_anomalies(), old(monitor).spec_anomalies()),
            spec_has_critical(final(monitor).spec_anomalies()) == spec_has_critical(
                old(monitor).spec_anomalies(),
            ),
            final(monitor).spec_metrics() == old(monitor).spec_metrics(),
            final(monitor).spec_generation_start() == old(monitor).spec_generation_start(),
    {
        proof {
            lemma_extend_refl(monitor.spec_anomalies());
        }
        let ghost cat = self.rules_db.spec_rules();
        let mut selected: Vec<Rule> = Vec::new();
        let mut excluded: Vec<RuleId> = Vec::new();
        let mut round: u32 = 0;
        while round < count
            invariant
                self.wf(),
                self.rules_db == old(self).rules_db,
                self.env_vars_db == old(self).env_vars_db,
                self.modules_db == old(self).modules_db,
                cat == self.rules_db.spec_rules(),
                round <= count,
                selected@.len() == round,
                spec_rule_ids_distinct(selected@),
                spec_rules_compatible(selected@),
                spec_from_catalog(cat, selected@),
                forall|a: int, r: RuleId|
                    #![trigger selected@[a].incompatible_with@.contains(r)]
                    0 <= a < selected@.len() && selected@[a].incompatible_with@.contains(r)
                        ==> excluded@.contains(r),
                forall|r: RuleId|
                    #[trigger] excluded@.contains(r) ==> spec_rule_excluded_by(selected@, r),
                monitor.spec_anomalies() == old(monitor).spec_anomalies(),
                monitor.spec_metrics() == old(monitor).spec_metrics(),
                monitor.spec_generation_start() == old(monitor).spec_generation_start(),
            decreases count - round,
        {
            let mut available = self.collect_candidates(&selected, &excluded);
            proof {
                assert(available@.len() <= cat.len());
            }
            if available.len() == 0 {
                proof {
                    assert forall|i: int|
                        0 <= i < cat.len() implies spec_has_rule(
                        selected@,
                        (#[trigger] cat[i]).id,
                    ) || spec_rule_excluded_by(selected@, cat[i].id) by {
                        assert(excluded@.contains(cat[i].id) || spec_has_rule(
                            selected@,
                            cat[i].id,
                        ));
                    }
                    assert(spec_catalog_exhausted(cat, selected@));
                }
                let ghost pre = monitor.spec_anomalies();
                monitor.report_anomaly(
                    "RULES",
                    "Selected fewer rules than requested".to_owned(),
                    AnomalySeverity::Warning,
                    None,
                );
                proof {
                    lemma_push_shape(pre, monitor.spec_anomalies());
                    lemma_extend_trans(
                        monitor.spec_anomalies(),
                        pre,
                        old(monitor).spec_anomalies(),
                    );
                }
                return selected;
            }
            // cumulative-weight roulette over the candidates
            let index = self.pick_weighted_index(&available, &selected);
            let chosen: Rule = available.remove(index);
            // extend the exclusion set one hop
            let mut ii: usize = 0;
            while ii < chosen.incompatible_with.len()
                invariant
                    ii <= chosen.incompatible_with@.len(),
                    forall|a: int, r: RuleId|
                        #![trigger selected@[a].incompatible_with@.contains(r)]
                        0 <= a < selected@.len() && selected@[a].incompatible_with@.contains(r)
                            ==> excluded@.contains(r),
                    forall|j: int|
                        0 <= j < ii ==> excluded@.contains(
                            #[trigger] chosen.incompatible_with@[j],
                        ),
                    forall|r: RuleId|
                        #[trigger] excluded@.contains(r) ==> spec_rule_excluded_by(selected@, r)
                            || chosen.incompatible_with@.contains(r),
                decreases chosen.incompatible_with@.len() - ii,
            {
                let ghost pre_ex = excluded@;
                excluded.push(chosen.incompatible_with[ii]);
                proof {
                    broadcast use vstd::seq_lib::lemma_seq_contains_after_push;

                    assert(excluded@[excluded@.len() - 1] == chosen.incompatible_with@[ii as int]);
                    assert forall|r: RuleId| #[trigger] excluded@.contains(r) implies
                        spec_rule_excluded_by(selected@, r) || chosen.incompatible_with@.contains(
                        r,
                    ) by {
                        let n = choose|n: int| 0 <= n < excluded@.len() && excluded@[n] == r;
                        if n < excluded@.len() - 1 {
                            assert(pre_ex[n] == r);
                            assert(pre_ex.contains(r));
                        }
                    }
                }
                ii = ii + 1;
            }
            monitor.record_rule_application(chosen.id);
            let ghost pre_sel = selected@;
            let ghost chosen_g = chosen;
            proof {
                // the chosen candidate is compatible with everything selected
                let k = choose|k: int|
                    0 <= k < cat.len() && chosen_g.id == cat[k].id
                        && chosen_g.incompatible_with@ == cat[k].incompatible_with@;
                assert forall|a: int|
                    0 <= a < pre_sel.len() implies !(#[trigger] pre_sel[a]).incompatible_with@.contains(
                    chosen_g.id,
                ) && !chosen_g.incompatible_with@.contains(pre_sel[a].id) by {
                    if pre_sel[a].incompatible_with@.contains(chosen_g.id) {
                        assert(excluded@.contains(chosen_g.id));
                    }
                    let j = choose|j: int|
                        0 <= j < cat.len() && (#[trigger] pre_sel[a]).id == cat[j].id
                            && pre_sel[a].incompatible_with@ == cat[j].incompatible_with@;
                    if chosen_g.incompatible_with@.contains(pre_sel[a].id) {
                        // catalog symmetry sends the arrow back
                        assert(cat[k].incompatible_with@.contains(cat[j].id));
                        assert(cat[j].incompatible_with@.contains(cat[k].id));
                        assert(pre_sel[a].incompatible_with@.contains(chosen_g.id));
                        assert(excluded@.contains(chosen_g.id));
                    }
                }
            }
            selected.push(chosen);
            proof {
                assert(selected@.drop_last() =~= pre_sel);
                assert(selected@.last() == chosen_g);
                assert forall|r: RuleId| #[trigger] excluded@.contains(r) implies
                    spec_rule_excluded_by(selected@, r) by {
                    if spec_rule_excluded_by(pre_sel, r) {
                        let a = choose|a: int|
                            0 <= a < pre_sel.len() && (
                            #[trigger] pre_sel[a]).incompatible_with@.contains(r);
                        assert(selected@[a].incompatible_with@.contains(r));
                    } else {
                        assert(chosen_g.incompatible_with@.contains(r));
                        assert(selected@[selected@.len() - 1].incompatible_with@.contains(r));
                    }
                }
                assert forall|a: int, b: int|
                    #![trigger selected@[a], selected@[b]]
                    0 <= a < b < selected@.len() implies selected@[a].id != selected@[b].id
                    && !selected@[a].incompatible_with@.contains(selected@[b].id)
                    && !selected@[b].incompatible_with@.contains(selected@[a].id) by {
                    if b < selected@.len() - 1 {
                        assert(selected@[a] == pre_sel[a] && selected@[b] == pre_sel[b]);
                    } else {
                        assert(selected@[b] == chosen_g);
                        assert(selected@[a] == pre_sel[a]);
                    }
                }
            }
            round = round + 1;
        }
        selected
    }


    /// The candidate rules of one selection step: the catalog minus the
    /// excluded and the already-selected identifiers. An empty result
    /// means every catalog rule is selected or excluded.
    fn collect_candidates(&self, selected: &Vec<Rule>, excluded: &Vec<RuleId>) -> (available: Vec<
        Rule,
    >)
        requires
            self.wf(),
        ensures
            available@.len() <= self.spec_rules_db().spec_rules().len(),
            spec_from_catalog(self.spec_rules_db().spec_rules(), available@),
            forall|k: int|
                0 <= k < available@.len() ==> !excluded@.contains((#[trigger] available@[k]).id),
            forall|k: int|
                0 <= k < available@.len() ==> !spec_has_rule(
                    selected@,
                    (#[trigger] available@[k]).id,
                ),
            available@.len() == 0 ==> forall|i: int|
                0 <= i < self.spec_rules_db().spec_rules().len() ==> excluded@.contains(
                    (#[trigger] self.spec_rules_db().spec_rules()[i]).id,
                ) || spec_has_rule(selected@, self.spec_rules_db().spec_rules()[i].id),
    {
        let ghost cat = self.rules_db.spec_rules();
        let all_rules = self.rules_db.get_all_rules();
        let mut available: Vec<Rule> = Vec::new();
        let mut ci: usize = 0;
        while ci < all_rules.len()
            invariant
                ci <= cat.len(),
                all_rules@ == cat,
                cat == self.rules_db.spec_rules(),
                available@.len() <= ci,
                spec_from_catalog(cat, available@),
                forall|k: int|
                    0 <= k < available@.len() ==> !excluded@.contains(
                        (#[trigger] available@[k]).id,
                    ),
                forall|k: int|
                    0 <= k < available@.len() ==> !spec_has_rule(
                        selected@,
                        (#[trigger] available@[k]).id,
                    ),
                forall|i2: int|
                    0 <= i2 < ci ==> excluded@.contains((#[trigger] cat[i2]).id)
                        || spec_has_rule(selected@, cat[i2].id) || spec_has_rule(
                        available@,
                        cat[i2].id,
                    ),
            decreases cat.len() - ci,
        {
            let id_excluded = rule_ids_contain_local(excluded, &all_rules[ci].id);
            let mut id_selected = false;
            let mut si: usize = 0;
            while si < selected.len()
                invariant
                    si <= selected@.len(),
                    ci < cat.len(),
                    all_rules@ == cat,
                    id_selected == exists|a: int|
                        0 <= a < si && (#[trigger] selected@[a]).id == cat[ci as int].id,
                decreases selected@.len() - si,
            {
                if selected[si].id == all_rules[ci].id {
                    id_selected = true;
                }
                si = si + 1;
            }
            if !id_excluded && !id_selected {
                let ghost pre_av = available@;
                available.push(all_rules[ci].duplicate());
                proof {
                    let n = available@.len() - 1;
                    assert(available@[n].id == cat[ci as int].id && available@[
                        n
                    ].incompatible_with@ == cat[ci as int].incompatible_with@);
                    assert forall|k: int| 0 <= k < available@.len() implies exists|i: int|
                        0 <= i < cat.len() && (#[trigger] available@[k]).id == cat[i].id
                            && available@[k].incompatible_with@
                            == cat[i].incompatible_with@ by {
                        if k < n {
                            assert(available@[k] == pre_av[k]);
                        }
                    }
                    assert(spec_has_rule(available@, cat[ci as int].id));
                    assert forall|i2: int|
                        0 <= i2 < ci + 1 implies excluded@.contains((#[trigger] cat[i2]).id)
                        || spec_has_rule(selected@, cat[i2].id) || spec_has_rule(
                        available@,
                        cat[i2].id,
                    ) by {
                        if i2 < ci && !excluded@.contains(cat[i2].id) && !spec_has_rule(
                            selected@,
                            cat[i2].id,
                        ) {
                            let k = choose|k: int|
                                0 <= k < pre_av.len() && (#[trigger] pre_av[k]).id == cat[i2].id;
                            assert(available@[k].id == cat[i2].id);
                        }
                    }
                    if !spec_has_rule(selected@, available@[n].id) {
                    }
                }
            } else {
                proof {
                    if id_selected {
                        assert(spec_has_rule(selected@, cat[ci as int].id));
                    }
                }
            }
            ci = ci + 1;
        }
        available
    }

    /// One cumulative-weight roulette draw over the candidates.
    fn pick_weighted_index(&mut self, available: &Vec<Rule>, selected: &Vec<Rule>) -> (index:
        usize)
        requires
            old(self).wf(),
            0 < available@.len() <= 64,
        ensures
            final(self).wf(),
            final(self).spec_rules_db() == old(self).spec_rules_db(),
            final(self).spec_env_db() == old(self).spec_env_db(),
            final(self).spec_modules_db() == old(self).spec_modules_db(),
            index < available@.len(),
    {
        let mut weights: Vec<u64> = Vec::new();
        let mut wi: usize = 0;
        while wi < available.len()
            invariant
                wi <= available@.len(),
                available@.len() <= 64,
                weights@.len() == wi,
                self.wf(),
                self.rules_db == old(self).rules_db,
                self.env_vars_db == old(self).env_vars_db,
                self.modules_db == old(self).modules_db,
                forall|k: int| 0 <= k < weights@.len() ==> 200 <= #[trigger] weights@[k] <= 1200,
            decreases available@.len() - wi,
        {
            let w = self.calculate_rule_weight(&available[wi], selected);
            weights.push(w);
            wi = wi + 1;
        }
        let mut total: u64 = 0;
        let mut ti: usize = 0;
        while ti < weights.len()
            invariant
                ti <= weights@.len(),
                weights@.len() <= 64,
                weights@.len() == available@.len(),
                forall|k: int| 0 <= k < weights@.len() ==> 200 <= #[trigger] weights@[k] <= 1200,
                total <= ti * 1200,
                ti >= 1 ==> total >= 200,
            decreases weights@.len() - ti,
        {
            total = total + weights[ti];
            ti = ti + 1;
        }
        let t = self.rng.next_below(total);
        let mut index: usize = 0;
        let mut acc: u64 = 0;
        let mut ri: usize = 0;
        while ri < weights.len()
            invariant
                ri <= weights@.len(),
                weights@.len() <= 64,
                weights@.len() == available@.len(),
                available@.len() > 0,
                index < available@.len(),
                forall|k: int| 0 <= k < weights@.len() ==> 200 <= #[trigger] weights@[k] <= 1200,
                acc <= ri * 1200,
            decreases weights@.len() - ri,
        {
            if t < acc + weights[ri] {
                index = ri;
                break ;
            }
            acc = acc + weights[ri];
            ri = ri + 1;
        }
        index
    }

    /// Stage two: resolve every environment variable — apply an active
    /// rule's override where one exists, otherwise bounded jitter around
    /// the default — and clamp into the declared range.
    fn configure_environment(&mut self, arena: &mut Arena, monitor: &mut AnomalyMonitor)
        requires
            old(self).wf(),
            spec_rule_ids_distinct(old(arena).active_rules@),
        ensures
            final(self).wf(),
            final(self).spec_rules_db() == old(self).spec_rules_db(),
            final(self).spec_rng().spec_state() == crate::rng::spec_next_state(
                crate::rng::spec_next_state(old(self).spec_rng().spec_state()),
            ),
            final(arena).spec_env_value(EnvVarId::Gravity) == Some(
                spec_gravity_resolved(
                    old(arena).active_rules@,
                    old(self).spec_rng().spec_state(),
                ),
            ),
            final(arena).spec_env_value(EnvVarId::GameSpeed) == Some(
                spec_speed_resolved(
                    old(arena).active_rules@,
                    crate::rng::spec_next_state(old(self).spec_rng().spec_state()),
                ),
            ),
            metric_lookup(final(monitor).spec_metrics(), "env_Gravity"@) == Some(
                spec_gravity_resolved(
                    old(arena).active_rules@,
                    old(self).spec_rng().spec_state(),
                ),
            ),
            metric_lookup(final(monitor).spec_metrics(), "env_GameSpeed"@) == Some(
                spec_speed_resolved(
                    old(arena).active_rules@,
                    crate::rng::spec_next_state(old(self).spec_rng().spec_state()),
                ),
            ),
            forall|k: Seq<char>|
                k != "env_Gravity"@ && k != "env_GameSpeed"@ ==> metric_lookup(
                    final(monitor).spec_metrics(),
                    k,
                ) == metric_lookup(old(monitor).spec_metrics(), k),
            match final(arena).spec_env_value(EnvVarId::Gravity) {
                Some(g) => 200 <= g <= 3000 && (spec_has_rule(
                    old(arena).active_rules@,
                    RuleId::MoonGravity,
                ) ==> 300 <= g < 500),
                None => false,
            },
            match final(arena).spec_env_value(EnvVarId::GameSpeed) {
                Some(v) => 500 <= v <= 2000,
                None => false,
            },
            final(arena).modules@ == old(arena).modules@,
            final(arena).active_rules@ == old(arena).active_rules@,
            final(arena).width == old(arena).width,
            final(arena).height == old(arena).height,
            final(arena).id == old(arena).id,
            final(arena).generation_metadata == old(arena).generation_metadata,
            final(monitor).spec_anomalies() == old(monitor).spec_anomalies(),
            final(monitor).spec_rules_applied() == old(monitor).spec_rules_applied(),
            final(monitor).spec_generation_start() == old(monitor).spec_generation_start(),
    {
        let gravity = self.resolve_variable(arena, 0);
        arena.set_env_variable(EnvVarId::Gravity, gravity);
        monitor.record_metric("env_Gravity", gravity);
        let speed = self.resolve_variable(arena, 1);
        arena.set_env_variable(EnvVarId::GameSpeed, speed);
        monitor.record_metric("env_GameSpeed", speed);
        proof {
            reveal_strlit("env_Gravity");
            reveal_strlit("env_GameSpeed");
            assert("env_Gravity"@.len() != "env_GameSpeed"@.len());
        }
    }

    /// Resolve one catalog variable (by its catalog index) against the
    /// active rules: a rule override wins; otherwise the default jitters
    /// by at most half a tenth of the range; the result is clamped.
    fn resolve_variable(&mut self, arena: &Arena, which: usize) -> (value: i64)
        requires
            old(self).wf(),
            which < 2,
            spec_rule_ids_distinct(arena.active_rules@),
        ensures
            final(self).wf(),
            final(self).spec_rules_db() == old(self).spec_rules_db(),
            final(self).spec_env_db() == old(self).spec_env_db(),
            final(self).spec_modules_db() == old(self).spec_modules_db(),
            final(self).spec_rng().spec_state() == crate::rng::spec_next_state(
                old(self).spec_rng().spec_state(),
            ),
            which == 0 ==> value == spec_gravity_resolved(
                arena.active_rules@,
                old(self).spec_rng().spec_state(),
            ),
            which == 1 ==> value == spec_speed_resolved(
                arena.active_rules@,
                old(self).spec_rng().spec_state(),
            ),
            which == 0 ==> 200 <= value <= 3000 && (spec_has_rule(
                arena.active_rules@,
                RuleId::MoonGravity,
            ) ==> 300 <= value < 500),
            which == 1 ==> 500 <= value <= 2000,
    {
        let var_min: i64 = if which == 0 {
            200
        } else {
            500
        };
        let var_max: i64 = if which == 0 {
            3000
        } else {
            2000
        };
        let mut value: i64 = 1000;
        let mut rule_applied: bool = false;
        let rules = &arena.active_rules;
        let mut j: usize = 0;
        while j < rules.len()
            invariant
                j <= rules@.len(),
                rules@ == arena.active_rules@,
                spec_rule_ids_distinct(rules@),
                which < 2,
                self.wf(),
                self.rules_db == old(self).rules_db,
                self.env_vars_db == old(self).env_vars_db,
                self.modules_db == old(self).modules_db,
                which == 0 ==> (rule_applied == exists|k: int|
                    0 <= k < j && (#[trigger] rules@[k]).id == RuleId::MoonGravity),
                which == 1 ==> (rule_applied == exists|k: int|
                    0 <= k < j && (#[trigger] rules@[k]).id == RuleId::SpeedUp),
                !rule_applied ==> value == 1000,
                !rule_applied ==> self.rng == old(self).rng,
                rule_applied ==> self.rng.spec_state() == crate::rng::spec_next_state(
                    old(self).spec_rng().spec_state(),
                ),
                rule_applied && which == 0 ==> value == 300 + crate::rng::spec_draw(
                    old(self).spec_rng().spec_state(),
                ) % 200,
                rule_applied && which == 1 ==> value == 1200 + crate::rng::spec_draw(
                    old(self).spec_rng().spec_state(),
                ) % 300,
                rule_applied && which == 0 ==> 300 <= value < 500,
                rule_applied && which == 1 ==> 1200 <= value <= 1500,
            decreases rules@.len() - j,
        {
            let rid = rules[j].id;
            if which == 0 && matches!(rid, RuleId::MoonGravity) {
                proof {
                    if rule_applied {
                        let k = choose|k: int|
                            0 <= k < j && (#[trigger] rules@[k]).id == RuleId::MoonGravity;
                        assert(rules@[k].id == rules@[j as int].id);
                        assert(false);
                    }
                }
                value = 300 + self.rng.next_below(200) as i64;
                rule_applied = true;
            } else if which == 1 && matches!(rid, RuleId::SpeedUp) {
                proof {
                    if rule_applied {
                        let k = choose|k: int|
                            0 <= k < j && (#[trigger] rules@[k]).id == RuleId::SpeedUp;
                        assert(rules@[k].id == rules@[j as int].id);
                        assert(false);
                    }
                }
                let factor: i64 = 1200 + self.rng.next_below(300) as i64;
                value = value * factor / 1000;
                rule_applied = true;
            }
            j = j + 1;
        }
        if !rule_applied {
            let variance: i64 = (var_max - var_min) / 10;
            let jitter: i64 = self.rng.next_below((variance + 1) as u64) as i64;
            value = value - variance / 2 + jitter;
        }
        proof {
            if which == 0 {
                assert(value == spec_gravity_resolved(
                    arena.active_rules@,
                    old(self).spec_rng().spec_state(),
                ));
                assert(200 <= value <= 3000);
            } else {
                assert(value == spec_speed_resolved(
                    arena.active_rules@,
                    old(self).spec_rng().spec_state(),
                ));
                assert(500 <= value <= 2000);
            }
        }
        if value < var_min {
            value = var_min;
        }
        if value > var_max {
            value = var_max;
        }
        value
    }

    /// Per-rule filler adjustments: lava floors triple the lava weight and
    /// demand two pits, no-jump favours ramps over large floors, and orb
    /// collection boosts and demands orbs.
    fn add_rule_constraints(&self, filler: &mut LayoutFiller, rule: &Rule)
        requires
            old(filler).wf(),
        ensures
            final(filler).wf(),
            final(filler).spec_width() == old(filler).spec_width(),
            final(filler).spec_height() == old(filler).spec_height(),
            metric_lookup(final(filler).spec_constraints(), "min_lava_pits"@) == if rule.id
                == RuleId::LavaFloor {
                Some(2i64)
            } else {
                metric_lookup(old(filler).spec_constraints(), "min_lava_pits"@)
            },
            metric_lookup(final(filler).spec_constraints(), "min_orbs"@) == if rule.id
                == RuleId::OrbCollection {
                Some(5i64)
            } else {
                metric_lookup(old(filler).spec_constraints(), "min_orbs"@)
            },
    {
        match rule.id {
            RuleId::LavaFloor => {
                filler.increase_module_weight(&ModuleId::HazardLavaPit, 3000);
                filler.add_constraint("min_lava_pits", 2);
                proof {
                    reveal_strlit("min_lava_pits");
                    reveal_strlit("min_orbs");
                    assert("min_orbs"@.len() != "min_lava_pits"@.len());
                }
            },
            RuleId::NoJump => {
                filler.increase_module_weight(&ModuleId::RampSteep, 2000);
                filler.decrease_module_weight(&ModuleId::FloorLarge, 500);
            },
            RuleId::OrbCollection => {
                filler.increase_module_weight(&ModuleId::OrbEnergy, 2500);
                filler.add_constraint("min_orbs", 5);
                proof {
                    reveal_strlit("min_lava_pits");
                    reveal_strlit("min_orbs");
                    assert("min_orbs"@.len() != "min_lava_pits"@.len());
                }
            },
            _ => {},
        }
    }

    /// Whether any of the four neighbours of `(x, y)` holds a
    /// spawn-disqualifying hazard.
    fn has_adjacent_hazard(&self, arena: &Arena, x: i32, y: i32) -> (r: bool)
        ensures
            r == (spec_spawn_hazard_at(arena.modules@, x as int, y as int + 1)
                || spec_spawn_hazard_at(arena.modules@, x as int, y as int - 1)
                || spec_spawn_hazard_at(arena.modules@, x as int + 1, y as int)
                || spec_spawn_hazard_at(arena.modules@, x as int - 1, y as int)),
    {
        let mut found = false;
        if spawn_hazard_at(arena, x as i64, y as i64 + 1) {
            found = true;
        }
        if spawn_hazard_at(arena, x as i64, y as i64 - 1) {
            found = true;
        }
        if spawn_hazard_at(arena, x as i64 + 1, y as i64) {
            found = true;
        }
        if spawn_hazard_at(arena, x as i64 - 1, y as i64) {
            found = true;
        }
        found
    }

    /// A safe place for the player: a free in-bounds cell adjacent to at
    /// least one placed module and to no spawn-disqualifying hazard, in
    /// row-major order; the grid centre when no such cell exists.
    fn find_safe_spawn_location(&self, arena: &Arena) -> (r: (i32, i32))
        requires
            arena.wf(),
        ensures
            (arena.spec_in_bounds(r.0 as int, r.1 as int) && !occupied_at(
                arena.modules@,
                r.0 as int,
                r.1 as int,
            ) && spec_module_adjacent(arena.modules@, r.0 as int, r.1 as int)
                && !spec_spawn_hazard_at(arena.modules@, r.0 as int, r.1 as int + 1)
                && !spec_spawn_hazard_at(arena.modules@, r.0 as int, r.1 as int - 1)
                && !spec_spawn_hazard_at(arena.modules@, r.0 as int + 1, r.1 as int)
                && !spec_spawn_hazard_at(arena.modules@, r.0 as int - 1, r.1 as int)) || r == (
            ((arena.width as int / 2) as i32),
            ((arena.height as int / 2) as i32),
            ),
    {
        let mut y: u32 = 0;
        while y < arena.height
            invariant
                y <= arena.height,
                arena.wf(),
            decreases arena.height - y,
        {
            let mut x: u32 = 0;
            while x < arena.width
                invariant
                    x <= arena.width,
                    y < arena.height,
                    arena.wf(),
                decreases arena.width - x,
            {
                let xi = x as i32;
                let yi = y as i32;
                let free = match arena.get_cell(xi, yi) {
                    Some(_) => false,
                    None => true,
                };
                if free {
                    let adjacent = module_at(arena, xi as i64, yi as i64 + 1) || module_at(
                        arena,
                        xi as i64,
                        yi as i64 - 1,
                    ) || module_at(arena, xi as i64 + 1, yi as i64) || module_at(
                        arena,
                        xi as i64 - 1,
                        yi as i64,
                    );
                    if adjacent && !self.has_adjacent_hazard(arena, xi, yi) {
                        proof {
                            crate::arena::lemma_cell_at_props(
                                arena.modules@,
                                xi as int,
                                yi as int,
                            );
                        }
                        return (xi, yi);
                    }
                }
                x = x + 1;
            }
            y = y + 1;
        }
        ((arena.width / 2) as i32, (arena.height / 2) as i32)
    }

    /// Stage three: configure the filler from the catalog weights, adjust    /// Stage three: configure the filler from the catalog weights, adjust
    /// per active rule, run it, write the layout into the arena, and make
    /// sure a player spawn exists.
    fn generate_base_layout(&mut self, arena: &mut Arena, monitor: &mut AnomalyMonitor)
        requires
            old(self).wf(),
            old(arena).wf(),
            old(arena).modules@.len() <= 0xffff,
            forall|k: int|
                0 <= k < old(arena).modules@.len() ==> old(arena).spec_in_bounds(
                    (#[trigger] old(arena).modules@[k]).x as int,
                    old(arena).modules@[k].y as int,
                ) || !(old(arena).width > 0 && old(arena).height > 0),
        ensures
            final(self).wf(),
            final(self).spec_rules_db() == old(self).spec_rules_db(),
            final(arena).wf(),
            final(arena).width == old(arena).width,
            final(arena).height == old(arena).height,
            final(arena).id == old(arena).id,
            final(arena).active_rules@ == old(arena).active_rules@,
            final(arena).env_variables@ == old(arena).env_variables@,
            final(arena).generation_metadata == old(arena).generation_metadata,
            spec_count_type(old(arena).modules@, ModuleId::Player) == 0 ==> spec_count_type(
                final(arena).modules@,
                ModuleId::Player,
            ) == 1,
            !spec_has_rule(old(arena).active_rules@, RuleId::OrbCollection) ==> spec_count_type(
                final(arena).modules@,
                ModuleId::OrbEnergy,
            ) == spec_count_type(old(arena).modules@, ModuleId::OrbEnergy),
            spec_count_walkable(final(arena).modules@) >= spec_count_walkable(
                old(arena).modules@,
            ),
            crate::arena::spec_count_interactive(final(arena).modules@)
                == crate::arena::spec_count_interactive(old(arena).modules@),
            final(arena).modules@.len() <= old(arena).modules@.len() + old(arena).width * old(arena).height + 8,
            (old(arena).width > 0 && old(arena).height > 0) ==> forall|k: int|
                0 <= k < final(arena).modules@.len() ==> final(arena).spec_in_bounds(
                    (#[trigger] final(arena).modules@[k]).x as int,
                    final(arena).modules@[k].y as int,
                ),
            anoms_extend(final(monitor).spec_anomalies(), old(monitor).spec_anomalies()),
            spec_has_critical(final(monitor).spec_anomalies()) == spec_has_critical(
                old(monitor).spec_anomalies(),
            ),
            final(monitor).spec_metrics() == old(monitor).spec_metrics(),
            final(monitor).spec_generation_start() == old(monitor).spec_generation_start(),
            final(monitor).spec_rules_applied() == old(monitor).spec_rules_applied(),
    {
        proof {
            lemma_extend_refl(monitor.spec_anomalies());
        }
        let mut filler = LayoutFiller::new(arena.width, arena.height);
        // seed the weights from the catalog
        let all_modules = self.modules_db.get_all_modules();
        let mut mi: usize = 0;
        while mi < all_modules.len()
            invariant
                mi <= all_modules@.len(),
                filler.wf(),
                filler.spec_width() == old(arena).width,
                filler.spec_height() == old(arena).height,
                filler.spec_constraints().len() == 0,
            decreases all_modules@.len() - mi,
        {
            match all_modules[mi].wfc_weight {
                Some(w) => {
                    filler.add_module_constraint(all_modules[mi].id, w, &all_modules[mi].tags);
                },
                None => {},
            }
            mi = mi + 1;
        }
        // per-rule adjustments
        proof {
            assert(metric_lookup(filler.spec_constraints(), "min_lava_pits"@) is None);
            assert(metric_lookup(filler.spec_constraints(), "min_orbs"@) is None);
        }
        let mut ri: usize = 0;
        while ri < arena.active_rules.len()
            invariant
                ri <= arena.active_rules@.len(),
                arena.active_rules@ == old(arena).active_rules@,
                arena.modules@ == old(arena).modules@,
                arena.width == old(arena).width,
                arena.height == old(arena).height,
                filler.wf(),
                filler.spec_width() == old(arena).width,
                filler.spec_height() == old(arena).height,
                metric_lookup(filler.spec_constraints(), "min_orbs"@) == if exists|k: int|
                    0 <= k < ri && (#[trigger] arena.active_rules@[k]).id
                        == RuleId::OrbCollection {
                    Some(5i64)
                } else {
                    None
                },
                metric_lookup(filler.spec_constraints(), "min_lava_pits"@) == if exists|k: int|
                    0 <= k < ri && (#[trigger] arena.active_rules@[k]).id == RuleId::LavaFloor {
                    Some(2i64)
                } else {
                    None
                },
            decreases arena.active_rules@.len() - ri,
        {
            let rule = arena.active_rules[ri].duplicate();
            self.add_rule_constraints(&mut filler, &rule);
            proof {
                assert(rule.id == arena.active_rules@[ri as int].id);
            }
            ri = ri + 1;
        }
        // run the filler and write the layout into the arena
        let layout = filler.generate(&mut self.rng, monitor);
        let ghost orbs_in_layout = count_where(
            layout@,
            |e: (i32, i32, ModuleId)| e.2 == ModuleId::OrbEnergy,
        );
        let mut li: usize = 0;
        proof {
            crate::counting::lemma_count_where_nonneg(
                layout@,
                |e: (i32, i32, ModuleId)| e.2 == ModuleId::OrbEnergy,
            );
        }
        while li < layout.len()
            invariant
                li <= layout@.len(),
                arena.active_rules@ == old(arena).active_rules@,
                arena.env_variables@ == old(arena).env_variables@,
                arena.width == old(arena).width,
                arena.height == old(arena).height,
                arena.id == old(arena).id,
                arena.generation_metadata == old(arena).generation_metadata,
                arena.wf(),
                filler.spec_width() == arena.width,
                filler.spec_height() == arena.height,
                forall|k: int| 0 <= k < layout@.len() ==> spec_filler_type((#[trigger] layout@[k]).2),
                forall|k: int|
                    0 <= k < layout@.len() ==> 0 <= (#[trigger] layout@[k]).0 < arena.width && 0
                        <= layout@[k].1 < arena.height,
                arena.modules@.len() == old(arena).modules@.len() + li,
                spec_count_type(arena.modules@, ModuleId::Player) == spec_count_type(
                    old(arena).modules@,
                    ModuleId::Player,
                ),
                spec_count_type(arena.modules@, ModuleId::OrbEnergy) == spec_count_type(
                    old(arena).modules@,
                    ModuleId::OrbEnergy,
                ) + count_where(
                    layout@.take(li as int),
                    |e: (i32, i32, ModuleId)| e.2 == ModuleId::OrbEnergy,
                ),
                crate::arena::spec_count_interactive(arena.modules@)
                    == crate::arena::spec_count_interactive(old(arena).modules@),
                count_where(
                    layout@.take(li as int),
                    |e: (i32, i32, ModuleId)| e.2 == ModuleId::OrbEnergy,
                ) <= count_where(layout@, |e: (i32, i32, ModuleId)| e.2 == ModuleId::OrbEnergy),
                spec_count_walkable(arena.modules@) >= spec_count_walkable(old(arena).modules@),
                (old(arena).width > 0 && old(arena).height > 0) ==> forall|k: int|
                    0 <= k < arena.modules@.len() ==> arena.spec_in_bounds(
                        (#[trigger] arena.modules@[k]).x as int,
                        arena.modules@[k].y as int,
                    ),
            decreases layout@.len() - li,
        {
            let entry = layout[li];
            let ghost pre = arena.modules@;
            arena.add_module(entry.0, entry.1, entry.2, None);
            proof {
                assert(arena.modules@ =~= pre.push(arena.modules@.last()));
                crate::counting::lemma_count_where_push(
                    pre,
                    |c: crate::arena::ArenaCell| c.module_id == ModuleId::Player,
                    arena.modules@.last(),
                );
                crate::counting::lemma_count_where_push(
                    pre,
                    |c: crate::arena::ArenaCell| c.module_id == ModuleId::OrbEnergy,
                    arena.modules@.last(),
                );
                crate::counting::lemma_count_where_push(
                    pre,
                    |c: crate::arena::ArenaCell| c.module_id.spec_is_walkable(),
                    arena.modules@.last(),
                );
                crate::counting::lemma_count_where_push(
                    pre,
                    |c: crate::arena::ArenaCell| c.module_id.spec_is_interactive(),
                    arena.modules@.last(),
                );
                crate::counting::lemma_count_where_take_step(
                    layout@,
                    |e: (i32, i32, ModuleId)| e.2 == ModuleId::OrbEnergy,
                    li as int,
                );
                crate::counting::lemma_count_where_nonneg(
                    layout@.take(li as int),
                    |e: (i32, i32, ModuleId)| e.2 == ModuleId::OrbEnergy,
                );
                crate::counting::lemma_count_where_take_le(
                    layout@,
                    |e: (i32, i32, ModuleId)| e.2 == ModuleId::OrbEnergy,
                    li + 1,
                );
            }
            li = li + 1;
        }
        proof {
            assert(layout@.take(layout@.len() as int) =~= layout@);
        }
        // make sure a player spawn exists
        let players = arena.count_modules_by_type(&ModuleId::Player);
        if players == 0 {
            let spawn = self.find_safe_spawn_location(arena);
            let ghost pre = arena.modules@;
            arena.add_module(spawn.0, spawn.1, ModuleId::Player, None);
            proof {
                assert(arena.modules@ =~= pre.push(arena.modules@.last()));
                crate::counting::lemma_count_where_push(
                    pre,
                    |c: crate::arena::ArenaCell| c.module_id == ModuleId::Player,
                    arena.modules@.last(),
                );
                crate::counting::lemma_count_where_push(
                    pre,
                    |c: crate::arena::ArenaCell| c.module_id == ModuleId::OrbEnergy,
                    arena.modules@.last(),
                );
                crate::counting::lemma_count_where_push(
                    pre,
                    |c: crate::arena::ArenaCell| c.module_id.spec_is_walkable(),
                    arena.modules@.last(),
                );
                crate::counting::lemma_count_where_push(
                    pre,
                    |c: crate::arena::ArenaCell| c.module_id.spec_is_interactive(),
                    arena.modules@.last(),
                );
                if old(arena).width > 0 && old(arena).height > 0 {
                    if !arena.spec_in_bounds(spawn.0 as int, spawn.1 as int) {
                        // only the centre fallback could lie elsewhere, and
                        // it cannot on a positive-sized grid
                        assert(spawn == (
                        ((arena.width as int / 2) as i32),
                        ((arena.height as int / 2) as i32),
                        ));
                        assert(false);
                    }
                }
            }
        }
    }

    /// Stage four: targeted per-rule edits beyond weight tuning —
    /// projectile rain spawns extra turrets, lava floors may expand their
    /// pits into free neighbours.
    #[verifier::rlimit(80)]
    fn apply_rule_modifications(&mut self, arena: &mut Arena, monitor: &mut AnomalyMonitor)
        requires
            old(self).wf(),
            old(arena).wf(),
            spec_rule_ids_distinct(old(arena).active_rules@),
            old(arena).modules@.len() <= 0x4000_0000,
        ensures
            final(self).wf(),
            final(self).spec_rules_db() == old(self).spec_rules_db(),
            final(arena).wf(),
            final(arena).width == old(arena).width,
            final(arena).height == old(arena).height,
            final(arena).id == old(arena).id,
            final(arena).active_rules@ == old(arena).active_rules@,
            final(arena).env_variables@ == old(arena).env_variables@,
            final(arena).generation_metadata == old(arena).generation_metadata,
            old(arena).modules@.len() <= final(arena).modules@.len(),
            final(arena).modules@.take(old(arena).modules@.len() as int) == old(arena).modules@,
            forall|k: int|
                old(arena).modules@.len() <= k < final(arena).modules@.len() ==> ((
                #[trigger] final(arena).modules@[k]).module_id == ModuleId::HazardLaserTurretRotate
                    || final(arena).modules@[k].module_id == ModuleId::HazardLavaPit)
                    && final(arena).spec_in_bounds(
                    final(arena).modules@[k].x as int,
                    final(arena).modules@[k].y as int,
                ),
            final(arena).modules@.len() <= 2 * old(arena).modules@.len() + 8,
            spec_count_type(final(arena).modules@, ModuleId::Player) == spec_count_type(
                old(arena).modules@,
                ModuleId::Player,
            ),
            spec_count_type(final(arena).modules@, ModuleId::OrbEnergy) == spec_count_type(
                old(arena).modules@,
                ModuleId::OrbEnergy,
            ),
            spec_count_walkable(final(arena).modules@) == spec_count_walkable(
                old(arena).modules@,
            ),
            crate::arena::spec_count_interactive(final(arena).modules@)
                == crate::arena::spec_count_interactive(old(arena).modules@),
            final(monitor).spec_anomalies() == old(monitor).spec_anomalies(),
            final(monitor).spec_metrics() == old(monitor).spec_metrics(),
            final(monitor).spec_generation_start() == old(monitor).spec_generation_start(),
    {
        let ghost rules0 = arena.active_rules@;
        let ghost m0 = arena.modules@;
        let mut ri: usize = 0;
        let ghost mut done_pr: bool = false;
        let ghost mut done_lava: bool = false;
        while ri < arena.active_rules.len()
            invariant
                ri <= rules0.len(),
                self.wf(),
                self.rules_db == old(self).rules_db,
                self.env_vars_db == old(self).env_vars_db,
                self.modules_db == old(self).modules_db,
                arena.wf(),
                arena.active_rules@ == rules0,
                rules0 == old(arena).active_rules@,
                spec_rule_ids_distinct(rules0),
                arena.width == old(arena).width,
                arena.height == old(arena).height,
                arena.id == old(arena).id,
                arena.env_variables@ == old(arena).env_variables@,
                arena.generation_metadata == old(arena).generation_metadata,
                m0 == old(arena).modules@,
                m0.len() <= 0x4000_0000,
                m0.len() <= arena.modules@.len(),
                arena.modules@.take(m0.len() as int) == m0,
                forall|k: int|
                    m0.len() <= k < arena.modules@.len() ==> ((
                    #[trigger] arena.modules@[k]).module_id == ModuleId::HazardLaserTurretRotate
                        || arena.modules@[k].module_id == ModuleId::HazardLavaPit)
                        && arena.spec_in_bounds(
                        arena.modules@[k].x as int,
                        arena.modules@[k].y as int,
                    ),
                done_pr == exists|k: int|
                    0 <= k < ri && (#[trigger] rules0[k]).id == RuleId::ProjectileRain,
                done_lava == exists|k: int|
                    0 <= k < ri && (#[trigger] rules0[k]).id == RuleId::LavaFloor,
                !done_pr && !done_lava ==> arena.modules@.len() <= m0.len(),
                done_pr && !done_lava ==> arena.modules@.len() <= m0.len() + 4,
                !done_pr && done_lava ==> arena.modules@.len() <= 2 * m0.len(),
                done_pr && done_lava ==> arena.modules@.len() <= 2 * m0.len() + 8,
                monitor.spec_anomalies() == old(monitor).spec_anomalies(),
                monitor.spec_metrics() == old(monitor).spec_metrics(),
                monitor.spec_generation_start() == old(monitor).spec_generation_start(),
            decreases rules0.len() - ri,
        {
            let rid = arena.active_rules[ri].id;
            if matches!(rid, RuleId::ProjectileRain) {
                proof {
                    if done_pr {
                        let k = choose|k: int|
                            0 <= k < ri && (#[trigger] rules0[k]).id == RuleId::ProjectileRain;
                        assert(rules0[k].id == rules0[ri as int].id);
                        assert(false);
                    }
                }
                let ghost pre_mods = arena.modules@;
                self.add_projectile_hazards(arena);
                proof {
                    done_pr = true;
                    assert forall|idx: int| 0 <= idx < m0.len() implies arena.modules@[idx]
                        == m0[idx] by {
                        assert(idx < pre_mods.len());
                        assert(arena.modules@.take(pre_mods.len() as int) == pre_mods);
                        assert(arena.modules@.take(pre_mods.len() as int)[idx]
                            == arena.modules@[idx]);
                        assert(arena.modules@[idx] == pre_mods[idx]);
                        assert(pre_mods.take(m0.len() as int)[idx] == pre_mods[idx]);
                        assert(pre_mods.take(m0.len() as int)[idx] == m0[idx]);
                    }
                    assert(arena.modules@.take(m0.len() as int) =~= m0);
                    assert forall|k: int|
                        m0.len() <= k < arena.modules@.len() implies ((
                    #[trigger] arena.modules@[k]).module_id == ModuleId::HazardLaserTurretRotate
                        || arena.modules@[k].module_id == ModuleId::HazardLavaPit)
                        && arena.spec_in_bounds(
                        arena.modules@[k].x as int,
                        arena.modules@[k].y as int,
                    ) by {
                        if k < pre_mods.len() {
                            assert(arena.modules@.take(pre_mods.len() as int)[k]
                                == pre_mods[k]);
                        }
                    }
                }
            } else if matches!(rid, RuleId::LavaFloor) {
                proof {
                    if done_lava {
                        let k = choose|k: int|
                            0 <= k < ri && (#[trigger] rules0[k]).id == RuleId::LavaFloor;
                        assert(rules0[k].id == rules0[ri as int].id);
                        assert(false);
                    }
                }
                let ghost pre_mods = arena.modules@;
                self.enhance_lava_hazards(arena);
                proof {
                    done_lava = true;
                    assert forall|idx: int| 0 <= idx < m0.len() implies arena.modules@[idx]
                        == m0[idx] by {
                        assert(idx < pre_mods.len());
                        assert(arena.modules@.take(pre_mods.len() as int) == pre_mods);
                        assert(arena.modules@.take(pre_mods.len() as int)[idx]
                            == arena.modules@[idx]);
                        assert(arena.modules@[idx] == pre_mods[idx]);
                        assert(pre_mods.take(m0.len() as int)[idx] == pre_mods[idx]);
                        assert(pre_mods.take(m0.len() as int)[idx] == m0[idx]);
                    }
                    assert(arena.modules@.take(m0.len() as int) =~= m0);
                    assert forall|k: int|
                        m0.len() <= k < arena.modules@.len() implies ((
                    #[trigger] arena.modules@[k]).module_id == ModuleId::HazardLaserTurretRotate
                        || arena.modules@[k].module_id == ModuleId::HazardLavaPit)
                        && arena.spec_in_bounds(
                        arena.modules@[k].x as int,
                        arena.modules@[k].y as int,
                    ) by {
                        if k < pre_mods.len() {
                            assert(arena.modules@.take(pre_mods.len() as int)[k]
                                == pre_mods[k]);
                        }
                    }
                }
            }
            ri = ri + 1;
        }
        proof {
            let playerp = |c: crate::arena::ArenaCell| c.module_id == ModuleId::Player;
            let orbp = |c: crate::arena::ArenaCell| c.module_id == ModuleId::OrbEnergy;
            let walkp = |c: crate::arena::ArenaCell| c.module_id.spec_is_walkable();
            let interp = |c: crate::arena::ArenaCell| c.module_id.spec_is_interactive();
            lemma_count_where_suffix_zero(m0, arena.modules@, playerp);
            lemma_count_where_suffix_zero(m0, arena.modules@, orbp);
            lemma_count_where_suffix_zero(m0, arena.modules@, walkp);
            lemma_count_where_suffix_zero(m0, arena.modules@, interp);
        }
    }

    /// Two to four extra rotating turrets at random free cells.
    fn add_projectile_hazards(&mut self, arena: &mut Arena)
        requires
            old(self).wf(),
            old(arena).wf(),
        ensures
            final(self).wf(),
            final(self).spec_rules_db() == old(self).spec_rules_db(),
            final(self).spec_env_db() == old(self).spec_env_db(),
            final(self).spec_modules_db() == old(self).spec_modules_db(),
            final(arena).wf(),
            final(arena).width == old(arena).width,
            final(arena).height == old(arena).height,
            final(arena).id == old(arena).id,
            final(arena).active_rules@ == old(arena).active_rules@,
            final(arena).env_variables@ == old(arena).env_variables@,
            final(arena).generation_metadata == old(arena).generation_metadata,
            old(arena).modules@.len() <= final(arena).modules@.len(),
            final(arena).modules@.take(old(arena).modules@.len() as int) == old(arena).modules@,
            final(arena).modules@.len() <= old(arena).modules@.len() + 4,
            forall|k: int|
                old(arena).modules@.len() <= k < final(arena).modules@.len() ==> (
                #[trigger] final(arena).modules@[k]).module_id
                    == ModuleId::HazardLaserTurretRotate && final(arena).spec_in_bounds(
                    final(arena).modules@[k].x as int,
                    final(arena).modules@[k].y as int,
                ),
    {
        proof {
            assert(arena.modules@.take(arena.modules@.len() as int) =~= arena.modules@);
        }
        if arena.width == 0 || arena.height == 0 {
            return ;
        }
        let count: u64 = 2 + self.rng.next_below(3);
        let ghost m0 = arena.modules@;
        proof {
            assert(arena.modules@.take(m0.len() as int) =~= m0);
        }
        let mut i: u64 = 0;
        while i < count
            invariant
                i <= count,
                count <= 4,
                self.wf(),
                self.rules_db == old(self).rules_db,
                self.env_vars_db == old(self).env_vars_db,
                self.modules_db == old(self).modules_db,
                arena.wf(),
                arena.width == old(arena).width,
                arena.height == old(arena).height,
                arena.width > 0 && arena.height > 0,
                arena.id == old(arena).id,
                arena.active_rules@ == old(arena).active_rules@,
                arena.env_variables@ == old(arena).env_variables@,
                arena.generation_metadata == old(arena).generation_metadata,
                m0 == old(arena).modules@,
                m0.len() <= arena.modules@.len(),
                arena.modules@.take(m0.len() as int) == m0,
                arena.modules@.len() <= m0.len() + i,
                forall|k: int|
                    m0.len() <= k < arena.modules@.len() ==> (
                    #[trigger] arena.modules@[k]).module_id == ModuleId::HazardLaserTurretRotate
                        && arena.spec_in_bounds(
                        arena.modules@[k].x as int,
                        arena.modules@[k].y as int,
                    ),
            decreases count - i,
        {
            let x = self.rng.next_below(arena.width as u64) as u32 as i32;
            let y = self.rng.next_below(arena.height as u64) as u32 as i32;
            let free = match arena.get_cell(x, y) {
                Some(_) => false,
                None => true,
            };
            if free {
                let ghost pre = arena.modules@;
                arena.add_module(x, y, ModuleId::HazardLaserTurretRotate, None);
                proof {
                    assert(arena.modules@ =~= pre.push(arena.modules@.last()));
                    crate::counting::lemma_take_push(pre, arena.modules@.last(), m0.len() as int);
                }
            }
            i = i + 1;
        }
    }

    /// About half of the existing lava pits expand into one random free
    /// orthogonal neighbour each.
    #[verifier::rlimit(80)]
    fn enhance_lava_hazards(&mut self, arena: &mut Arena)
        requires
            old(self).wf(),
            old(arena).wf(),
            old(arena).modules@.len() <= 0x4800_0000,
        ensures
            final(self).wf(),
            final(self).spec_rules_db() == old(self).spec_rules_db(),
            final(self).spec_env_db() == old(self).spec_env_db(),
            final(self).spec_modules_db() == old(self).spec_modules_db(),
            final(arena).wf(),
            final(arena).width == old(arena).width,
            final(arena).height == old(arena).height,
            final(arena).id == old(arena).id,
            final(arena).active_rules@ == old(arena).active_rules@,
            final(arena).env_variables@ == old(arena).env_variables@,
            final(arena).generation_metadata == old(arena).generation_metadata,
            old(arena).modules@.len() <= final(arena).modules@.len(),
            final(arena).modules@.take(old(arena).modules@.len() as int) == old(arena).modules@,
            final(arena).modules@.len() <= 2 * old(arena).modules@.len(),
            forall|k: int|
                old(arena).modules@.len() <= k < final(arena).modules@.len() ==> (
                #[trigger] final(arena).modules@[k]).module_id == ModuleId::HazardLavaPit && final(arena).spec_in_bounds(
                    final(arena).modules@[k].x as int,
                    final(arena).modules@[k].y as int,
                ),
    {
        proof {
            assert(arena.modules@.take(arena.modules@.len() as int) =~= arena.modules@);
            arena.modules@.lemma_filter_len(
                |c: crate::arena::ArenaCell| c.module_id == ModuleId::HazardLavaPit,
            );
        }
        let positions = collect_positions(arena, ModuleId::HazardLavaPit);
        let ghost m0 = arena.modules@;
        proof {
            assert(arena.modules@.take(m0.len() as int) =~= m0);
        }
        let mut pi: usize = 0;
        while pi < positions.len()
            invariant
                pi <= positions@.len(),
                positions@.len() <= m0.len(),
                self.wf(),
                self.rules_db == old(self).rules_db,
                self.env_vars_db == old(self).env_vars_db,
                self.modules_db == old(self).modules_db,
                arena.wf(),
                arena.width == old(arena).width,
                arena.height == old(arena).height,
                arena.id == old(arena).id,
                arena.active_rules@ == old(arena).active_rules@,
                arena.env_variables@ == old(arena).env_variables@,
                arena.generation_metadata == old(arena).generation_metadata,
                m0 == old(arena).modules@,
                m0.len() <= 0x4800_0000,
                m0.len() <= arena.modules@.len(),
                arena.modules@.take(m0.len() as int) == m0,
                arena.modules@.len() <= m0.len() + pi,
                forall|k: int|
                    m0.len() <= k < arena.modules@.len() ==> (
                    #[trigger] arena.modules@[k]).module_id == ModuleId::HazardLavaPit
                        && arena.spec_in_bounds(
                        arena.modules@[k].x as int,
                        arena.modules@[k].y as int,
                    ),
            decreases positions@.len() - pi,
        {
            let expand = self.rng.next_below(1000) < 500;
            if expand {
                let dir = self.rng.next_below(4);
                let (px, py) = positions[pi];
                let nx: i64 = if dir == 0 {
                    px as i64
                } else if dir == 1 {
                    px as i64
                } else if dir == 2 {
                    px as i64 + 1
                } else {
                    px as i64 - 1
                };
                let ny: i64 = if dir == 0 {
                    py as i64 + 1
                } else if dir == 1 {
                    py as i64 - 1
                } else {
                    py as i64
                };
                if nx >= 0 && ny >= 0 && nx < arena.width as i64 && ny < arena.height as i64 {
                    let nxi = nx as i32;
                    let nyi = ny as i32;
                    let free = match arena.get_cell(nxi, nyi) {
                        Some(_) => false,
                        None => true,
                    };
                    if free {
                        let ghost pre = arena.modules@;
                        arena.add_module(nxi, nyi, ModuleId::HazardLavaPit, None);
                        proof {
                            assert(arena.modules@ =~= pre.push(arena.modules@.last()));
                            crate::counting::lemma_take_push(
                                pre,
                                arena.modules@.last(),
                                m0.len() as int,
                            );
                        }
                    }
                }
            }
            pi = pi + 1;
        }
    }

    /// Every free cell adjacent to at least one walkable surface, in
    /// row-major order.
    fn find_spawnable_locations(&self, arena: &Arena) -> (r: Vec<(i32, i32)>)
        requires
            arena.wf(),
        ensures
            forall|k: int|
                0 <= k < r@.len() ==> arena.spec_in_bounds(
                    (#[trigger] r@[k]).0 as int,
                    r@[k].1 as int,
                ) && !occupied_at(arena.modules@, r@[k].0 as int, r@[k].1 as int) && (
                spec_any_walkable_at(arena.modules@, r@[k].0 as int, r@[k].1 as int + 1)
                    || spec_any_walkable_at(arena.modules@, r@[k].0 as int, r@[k].1 as int - 1)
                    || spec_any_walkable_at(arena.modules@, r@[k].0 as int + 1, r@[k].1 as int)
                    || spec_any_walkable_at(arena.modules@, r@[k].0 as int - 1, r@[k].1 as int)),
    {
        let mut out: Vec<(i32, i32)> = Vec::new();
        let mut y: u32 = 0;
        while y < arena.height
            invariant
                y <= arena.height,
                arena.wf(),
                forall|k: int|
                    0 <= k < out@.len() ==> arena.spec_in_bounds(
                        (#[trigger] out@[k]).0 as int,
                        out@[k].1 as int,
                    ) && !occupied_at(arena.modules@, out@[k].0 as int, out@[k].1 as int) && (
                    spec_any_walkable_at(arena.modules@, out@[k].0 as int, out@[k].1 as int + 1)
                        || spec_any_walkable_at(
                        arena.modules@,
                        out@[k].0 as int,
                        out@[k].1 as int - 1,
                    ) || spec_any_walkable_at(
                        arena.modules@,
                        out@[k].0 as int + 1,
                        out@[k].1 as int,
                    ) || spec_any_walkable_at(
                        arena.modules@,
                        out@[k].0 as int - 1,
                        out@[k].1 as int,
                    )),
            decreases arena.height - y,
        {
            let mut x: u32 = 0;
            while x < arena.width
                invariant
                    x <= arena.width,
                    y < arena.height,
                    arena.wf(),
                    forall|k: int|
                        0 <= k < out@.len() ==> arena.spec_in_bounds(
                            (#[trigger] out@[k]).0 as int,
                            out@[k].1 as int,
                        ) && !occupied_at(arena.modules@, out@[k].0 as int, out@[k].1 as int) && (
                        spec_any_walkable_at(
                            arena.modules@,
                            out@[k].0 as int,
                            out@[k].1 as int + 1,
                        ) || spec_any_walkable_at(
                            arena.modules@,
                            out@[k].0 as int,
                            out@[k].1 as int - 1,
                        ) || spec_any_walkable_at(
                            arena.modules@,
                            out@[k].0 as int + 1,
                            out@[k].1 as int,
                        ) || spec_any_walkable_at(
                            arena.modules@,
                            out@[k].0 as int - 1,
                            out@[k].1 as int,
                        )),
                decreases arena.width - x,
            {
                let xi = x as i32;
                let yi = y as i32;
                let free = match arena.get_cell(xi, yi) {
                    Some(_) => false,
                    None => true,
                };
                if free {
                    let nbr = any_walkable_at(arena, xi as i64, yi as i64 + 1) || any_walkable_at(
                        arena,
                        xi as i64,
                        yi as i64 - 1,
                    ) || any_walkable_at(arena, xi as i64 + 1, yi as i64) || any_walkable_at(
                        arena,
                        xi as i64 - 1,
                        yi as i64,
                    );
                    if nbr {
                        proof {
                            crate::arena::lemma_cell_at_props(
                                arena.modules@,
                                xi as int,
                                yi as int,
                            );
                        }
                        out.push((xi, yi));
                    }
                }
                x = x + 1;
            }
            y = y + 1;
        }
        out
    }

    /// An in-place deterministic shuffle; every entry of the result stood
    /// somewhere in the input.
    fn shuffle_positions(&mut self, v: &mut Vec<(i32, i32)>)
        ensures
            final(self).wf() == old(self).wf(),
            final(self).spec_rules_db() == old(self).spec_rules_db(),
            final(self).spec_env_db() == old(self).spec_env_db(),
            final(self).spec_modules_db() == old(self).spec_modules_db(),
            final(v)@.len() == old(v)@.len(),
            forall|k: int|
                0 <= k < final(v)@.len() ==> old(v)@.contains(#[trigger] final(v)@[k]),
    {
        proof {
            assert forall|k: int| 0 <= k < v@.len() implies old(v)@.contains(
                #[trigger] v@[k],
            ) by {
                assert(v@[k] == old(v)@[k]);
            }
        }
        if v.len() <= 1 {
            return ;
        }
        let mut i: usize = v.len() - 1;
        while i >= 1
            invariant
                i < v@.len(),
                v@.len() == old(v)@.len(),
                self.rules_db == old(self).rules_db,
                self.env_vars_db == old(self).env_vars_db,
                self.modules_db == old(self).modules_db,
                forall|k: int|
                    0 <= k < v@.len() ==> old(v)@.contains(#[trigger] v@[k]),
            decreases i,
        {
            let j = self.rng.next_below((i + 1) as u64) as usize;
            let ghost pre = v@;
            let vi = v[i];
            let vj = v[j];
            v.set(i, vj);
            v.set(j, vi);
            proof {
                assert forall|k: int| 0 <= k < v@.len() implies old(v)@.contains(
                    #[trigger] v@[k],
                ) by {
                    if k == i as int {
                        assert(v@[k] == pre[j as int]);
                    } else if k == j as int {
                        assert(v@[k] == pre[i as int]);
                    } else {
                        assert(v@[k] == pre[k]);
                    }
                }
            }
            i = i - 1;
        }
    }

    /// Stage five: shuffle the spawnable cells and consume them without
    /// replacement — first the energy orbs, then the interactive
    /// elements. Returns how many of each were placed and how many
    /// candidate cells there were; placement stops early without error
    /// when the candidates run out.
    #[verifier::rlimit(90)]
    fn place_interactive_elements(&mut self, arena: &mut Arena, _monitor: &mut AnomalyMonitor) -> (r:
        (usize, usize, usize))
        requires
            old(self).wf(),
            old(arena).wf(),
            old(arena).modules@.len() <= 0x8000_0000,
        ensures
            final(self).wf(),
            final(self).spec_rules_db() == old(self).spec_rules_db(),
            *final(_monitor) == *old(_monitor),
            final(arena).wf(),
            final(arena).width == old(arena).width,
            final(arena).height == old(arena).height,
            final(arena).id == old(arena).id,
            final(arena).active_rules@ == old(arena).active_rules@,
            final(arena).env_variables@ == old(arena).env_variables@,
            final(arena).generation_metadata == old(arena).generation_metadata,
            old(arena).modules@.len() <= final(arena).modules@.len(),
            final(arena).modules@.take(old(arena).modules@.len() as int) == old(arena).modules@,
            r.0 == if spec_orb_target(old(arena).width as int, old(arena).height as int) <= r.2 {
                spec_orb_target(old(arena).width as int, old(arena).height as int)
            } else {
                r.2 as int
            },
            r.1 == if spec_interactive_target(old(arena).width as int, old(arena).height as int)
                <= r.2 - r.0 {
                spec_interactive_target(old(arena).width as int, old(arena).height as int)
            } else {
                r.2 - r.0
            },
            spec_count_type(final(arena).modules@, ModuleId::OrbEnergy) == spec_count_type(
                old(arena).modules@,
                ModuleId::OrbEnergy,
            ) + r.0,
            crate::arena::spec_count_interactive(final(arena).modules@)
                == crate::arena::spec_count_interactive(old(arena).modules@) + r.1,
            spec_count_type(final(arena).modules@, ModuleId::Player) == spec_count_type(
                old(arena).modules@,
                ModuleId::Player,
            ),
            spec_count_walkable(final(arena).modules@) == spec_count_walkable(
                old(arena).modules@,
            ),
            final(arena).modules@.len() == old(arena).modules@.len() + r.0 + r.1,
            forall|k: int|
                old(arena).modules@.len() <= k < final(arena).modules@.len() ==> final(arena).spec_in_bounds(
                    (#[trigger] final(arena).modules@[k]).x as int,
                    final(arena).modules@[k].y as int,
                ),
    {
        proof {
            assert(arena.modules@.take(arena.modules@.len() as int) =~= arena.modules@);
        }
        let ghost m0 = arena.modules@;
        proof {
            assert(arena.modules@.take(m0.len() as int) =~= m0);
        }
        let ghost playerp = |c: crate::arena::ArenaCell| c.module_id == ModuleId::Player;
        let ghost orbp = |c: crate::arena::ArenaCell| c.module_id == ModuleId::OrbEnergy;
        let ghost walkp = |c: crate::arena::ArenaCell| c.module_id.spec_is_walkable();
        let ghost interp = |c: crate::arena::ArenaCell| c.module_id.spec_is_interactive();
        let mut locations = self.find_spawnable_locations(arena);
        let ghost loc0 = locations@;
        self.shuffle_positions(&mut locations);
        proof {
            assert forall|k: int| 0 <= k < locations@.len() implies arena.spec_in_bounds(
                (#[trigger] locations@[k]).0 as int,
                locations@[k].1 as int,
            ) by {
                assert(loc0.contains(locations@[k]));
                let j = choose|j: int| 0 <= j < loc0.len() && loc0[j] == locations@[k];
            }
        }
        let total_candidates = locations.len();
        proof {
            assert((arena.width as int) * (arena.height as int) <= 65535 * 65535)
                by (nonlinear_arith)
                requires
                    0 <= (arena.width as int) && (arena.width as int) <= 65535,
                    0 <= (arena.height as int) && (arena.height as int) <= 65535,
            ;
        }
        let wh: u64 = (arena.width as u64) * (arena.height as u64);
        let orb_target: usize = if wh / 20 > 3 {
            (wh / 20) as usize
        } else {
            3
        };
        let int_target: usize = if wh / 40 > 1 {
            (wh / 40) as usize
        } else {
            1
        };
        let mut placed_orbs: usize = 0;
        while placed_orbs < orb_target && locations.len() > 0
            invariant
                self.wf(),
                self.rules_db == old(self).rules_db,
                self.env_vars_db == old(self).env_vars_db,
                self.modules_db == old(self).modules_db,
                arena.wf(),
                arena.width == old(arena).width,
                arena.height == old(arena).height,
                arena.id == old(arena).id,
                arena.active_rules@ == old(arena).active_rules@,
                arena.env_variables@ == old(arena).env_variables@,
                arena.generation_metadata == old(arena).generation_metadata,
                m0 == old(arena).modules@,
                m0.len() <= arena.modules@.len(),
                arena.modules@.take(m0.len() as int) == m0,
                placed_orbs <= orb_target,
                locations@.len() == total_candidates - placed_orbs,
                placed_orbs <= total_candidates,
                arena.modules@.len() == m0.len() + placed_orbs,
                count_where(arena.modules@, orbp) == count_where(m0, orbp) + placed_orbs,
                count_where(arena.modules@, playerp) == count_where(m0, playerp),
                count_where(arena.modules@, walkp) == count_where(m0, walkp),
                count_where(arena.modules@, interp) == count_where(m0, interp),
                forall|k: int|
                    0 <= k < locations@.len() ==> arena.spec_in_bounds(
                        (#[trigger] locations@[k]).0 as int,
                        locations@[k].1 as int,
                    ),
                forall|k: int|
                    m0.len() <= k < arena.modules@.len() ==> arena.spec_in_bounds(
                        (#[trigger] arena.modules@[k]).x as int,
                        arena.modules@[k].y as int,
                    ),
            decreases orb_target - placed_orbs,
        {
            let pos = match locations.pop() {
                Some(p) => p,
                None => (0, 0),
            };
            let ghost pre = arena.modules@;
            arena.add_module(pos.0, pos.1, ModuleId::OrbEnergy, None);
            proof {
                assert(arena.modules@ =~= pre.push(arena.modules@.last()));
                crate::counting::lemma_take_push(pre, arena.modules@.last(), m0.len() as int);
                crate::counting::lemma_count_where_push(pre, orbp, arena.modules@.last());
                crate::counting::lemma_count_where_push(pre, playerp, arena.modules@.last());
                crate::counting::lemma_count_where_push(pre, walkp, arena.modules@.last());
                crate::counting::lemma_count_where_push(pre, interp, arena.modules@.last());
            }
            placed_orbs = placed_orbs + 1;
        }
        let ghost m1 = arena.modules@;
        let mut placed_ints: usize = 0;
        while placed_ints < int_target && locations.len() > 0
            invariant
                self.wf(),
                self.rules_db == old(self).rules_db,
                self.env_vars_db == old(self).env_vars_db,
                self.modules_db == old(self).modules_db,
                arena.wf(),
                arena.width == old(arena).width,
                arena.height == old(arena).height,
                arena.id == old(arena).id,
                arena.active_rules@ == old(arena).active_rules@,
                arena.env_variables@ == old(arena).env_variables@,
                arena.generation_metadata == old(arena).generation_metadata,
                m0 == old(arena).modules@,
                m0.len() <= arena.modules@.len(),
                arena.modules@.take(m0.len() as int) == m0,
                placed_ints <= int_target,
                locations@.len() == total_candidates - placed_orbs - placed_ints,
                placed_orbs + placed_ints <= total_candidates,
                arena.modules@.len() == m0.len() + placed_orbs + placed_ints,
                count_where(arena.modules@, orbp) == count_where(m0, orbp) + placed_orbs,
                count_where(arena.modules@, playerp) == count_where(m0, playerp),
                count_where(arena.modules@, walkp) == count_where(m0, walkp),
                count_where(arena.modules@, interp) == count_where(m0, interp) + placed_ints,
                forall|k: int|
                    0 <= k < locations@.len() ==> arena.spec_in_bounds(
                        (#[trigger] locations@[k]).0 as int,
                        locations@[k].1 as int,
                    ),
                forall|k: int|
                    m0.len() <= k < arena.modules@.len() ==> arena.spec_in_bounds(
                        (#[trigger] arena.modules@[k]).x as int,
                        arena.modules@[k].y as int,
                    ),
            decreases int_target - placed_ints,
        {
            let pos = match locations.pop() {
                Some(p) => p,
                None => (0, 0),
            };
            let draw = self.rng.next_below(3);
            let element = if draw == 0 {
                ModuleId::InteractButtonFloor
            } else if draw == 1 {
                ModuleId::InteractLever
            } else {
                ModuleId::InteractBarrierEnergy
            };
            let ghost pre = arena.modules@;
            arena.add_module(pos.0, pos.1, element, None);
            proof {
                assert(arena.modules@ =~= pre.push(arena.modules@.last()));
                crate::counting::lemma_take_push(pre, arena.modules@.last(), m0.len() as int);
                crate::counting::lemma_count_where_push(pre, orbp, arena.modules@.last());
                crate::counting::lemma_count_where_push(pre, playerp, arena.modules@.last());
                crate::counting::lemma_count_where_push(pre, walkp, arena.modules@.last());
                crate::counting::lemma_count_where_push(pre, interp, arena.modules@.last());
            }
            placed_ints = placed_ints + 1;
        }
        (placed_orbs, placed_ints, total_candidates)
    }

    /// Up to one hundred uniform draws for a free cell.
    fn find_free_position(&mut self, arena: &Arena) -> (r: Option<(i32, i32)>)
        requires
            old(self).wf(),
            arena.wf(),
        ensures
            final(self).wf(),
            final(self).spec_rules_db() == old(self).spec_rules_db(),
            final(self).spec_env_db() == old(self).spec_env_db(),
            final(self).spec_modules_db() == old(self).spec_modules_db(),
            match r {
                Some(p) => arena.spec_in_bounds(p.0 as int, p.1 as int) && !occupied_at(
                    arena.modules@,
                    p.0 as int,
                    p.1 as int,
                ),
                None => true,
            },
    {
        if arena.width == 0 || arena.height == 0 {
            return None;
        }
        let mut attempt: u32 = 0;
        while attempt < 100
            invariant
                self.wf(),
                self.rules_db == old(self).rules_db,
                self.env_vars_db == old(self).env_vars_db,
                self.modules_db == old(self).modules_db,
                arena.width > 0 && arena.height > 0,
                arena.wf(),
            decreases 100 - attempt,
        {
            let x = self.rng.next_below(arena.width as u64) as u32 as i32;
            let y = self.rng.next_below(arena.height as u64) as u32 as i32;
            match arena.get_cell(x, y) {
                Some(_) => {},
                None => {
                    proof {
                        crate::arena::lemma_cell_at_props(arena.modules@, x as int, y as int);
                    }
                    return Some((x, y));
                },
            }
            attempt = attempt + 1;
        }
        None
    }

    /// Stage six: inject standard floors at free cells until a third of
    /// all cells are walkable, attempts permitting; an informational
    /// finding records that injection happened. Returns whether every
    /// needed insertion found a free cell.
    fn balance_arena(&mut self, arena: &mut Arena, monitor: &mut AnomalyMonitor) -> (completed:
        bool)
        requires
            old(self).wf(),
            old(arena).wf(),
            old(arena).modules@.len() <= 0x8000_0000,
        ensures
            final(self).wf(),
            final(self).spec_rules_db() == old(self).spec_rules_db(),
            final(arena).wf(),
            final(arena).width == old(arena).width,
            final(arena).height == old(arena).height,
            final(arena).id == old(arena).id,
            final(arena).active_rules@ == old(arena).active_rules@,
            final(arena).env_variables@ == old(arena).env_variables@,
            final(arena).generation_metadata == old(arena).generation_metadata,
            old(arena).modules@.len() <= final(arena).modules@.len(),
            final(arena).modules@.take(old(arena).modules@.len() as int) == old(arena).modules@,
            completed ==> spec_count_walkable(final(arena).modules@) >= (old(arena).width as int
                * old(arena).height as int) / 3,
            spec_count_walkable(old(arena).modules@) >= (old(arena).width as int * old(
                arena,
            ).height as int) / 3 ==> *final(arena) == *old(arena) && *final(monitor) == *old(
                monitor,
            ) && completed,
            final(arena).modules@.len() <= old(arena).modules@.len() + ({
                let required = (old(arena).width as int * old(arena).height as int) / 3;
                let walkable = spec_count_walkable(old(arena).modules@);
                if walkable < required {
                    required - walkable
                } else {
                    0int
                }
            }),
            spec_count_walkable(old(arena).modules@) < (old(arena).width as int * old(
                arena,
            ).height as int) / 3 ==> final(monitor).spec_anomalies().len() == old(
                monitor,
            ).spec_anomalies().len() + 1 && final(monitor).spec_anomalies().last().severity
                == AnomalySeverity::Info && final(monitor).spec_anomalies().last().category@
                == "BALANCE"@ && (final(monitor).spec_anomalies().last().context matches Some(p)
                && p@.len() == 1 && p@[0].0@ == "added"@ && p@[0].1
                == crate::params::ParamValue::Int(
                (spec_count_walkable(final(arena).modules@) - spec_count_walkable(
                    old(arena).modules@,
                )) as i64,
            )),
            forall|k1: int, k2: int|
                old(arena).modules@.len() <= k1 < k2 < final(arena).modules@.len() ==> !((
                #[trigger] final(arena).modules@[k1]).x
                    == (#[trigger] final(arena).modules@[k2]).x && final(arena).modules@[k1].y
                    == final(arena).modules@[k2].y),
            forall|k: int|
                old(arena).modules@.len() <= k < final(arena).modules@.len() ==> !occupied_at(
                    old(arena).modules@,
                    (#[trigger] final(arena).modules@[k]).x as int,
                    final(arena).modules@[k].y as int,
                ),
            spec_count_type(final(arena).modules@, ModuleId::Player) == spec_count_type(
                old(arena).modules@,
                ModuleId::Player,
            ),
            spec_count_type(final(arena).modules@, ModuleId::OrbEnergy) == spec_count_type(
                old(arena).modules@,
                ModuleId::OrbEnergy,
            ),
            crate::arena::spec_count_interactive(final(arena).modules@)
                == crate::arena::spec_count_interactive(old(arena).modules@),
            final(arena).modules@.len() <= old(arena).modules@.len() + (old(arena).width as int
                * old(arena).height as int) / 3 + 1,
            forall|k: int|
                old(arena).modules@.len() <= k < final(arena).modules@.len() ==> (
                #[trigger] final(arena).modules@[k]).module_id == ModuleId::FloorStd && final(arena).spec_in_bounds(
                    final(arena).modules@[k].x as int,
                    final(arena).modules@[k].y as int,
                ),
            anoms_extend(final(monitor).spec_anomalies(), old(monitor).spec_anomalies()),
            spec_has_critical(final(monitor).spec_anomalies()) == spec_has_critical(
                old(monitor).spec_anomalies(),
            ),
            final(monitor).spec_metrics() == old(monitor).spec_metrics(),
            final(monitor).spec_rules_applied() == old(monitor).spec_rules_applied(),
            final(monitor).spec_generation_start() == old(monitor).spec_generation_start(),
    {
        proof {
            lemma_extend_refl(monitor.spec_anomalies());
            assert(arena.modules@.take(arena.modules@.len() as int) =~= arena.modules@);
            assert((arena.width as int) * (arena.height as int) <= 65535 * 65535)
                by (nonlinear_arith)
                requires
                    0 <= (arena.width as int) && (arena.width as int) <= 65535,
                    0 <= (arena.height as int) && (arena.height as int) <= 65535,
            ;
            lemma_count_walkable_bound(arena.modules@);
        }
        let ghost m0 = arena.modules@;
        proof {
            assert(arena.modules@.take(m0.len() as int) =~= m0);
        }
        let ghost playerp = |c: crate::arena::ArenaCell| c.module_id == ModuleId::Player;
        let ghost orbp = |c: crate::arena::ArenaCell| c.module_id == ModuleId::OrbEnergy;
        let ghost interp = |c: crate::arena::ArenaCell| c.module_id.spec_is_interactive();
        let wh: u64 = (arena.width as u64) * (arena.height as u64);
        let required: u64 = wh / 3;
        let walkable: u64 = arena.count_walkable_cells() as u64;
        let mut completed: bool = true;
        if walkable < required {
            let needed: u64 = required - walkable;
            let mut added: u64 = 0;
            let mut i: u64 = 0;
            while i < needed
                invariant
                    i <= needed,
                    needed <= 0xffff_ffff,
                    added <= i,
                    self.wf(),
                    self.rules_db == old(self).rules_db,
                    self.env_vars_db == old(self).env_vars_db,
                    self.modules_db == old(self).modules_db,
                    arena.wf(),
                    arena.width == old(arena).width,
                    arena.height == old(arena).height,
                    arena.id == old(arena).id,
                    arena.active_rules@ == old(arena).active_rules@,
                    arena.env_variables@ == old(arena).env_variables@,
                    arena.generation_metadata == old(arena).generation_metadata,
                    m0 == old(arena).modules@,
                    m0.len() <= arena.modules@.len(),
                    arena.modules@.take(m0.len() as int) == m0,
                    arena.modules@.len() == m0.len() + added,
                    spec_count_walkable(arena.modules@) == spec_count_walkable(m0) + added,
                    count_where(arena.modules@, playerp) == count_where(m0, playerp),
                    count_where(arena.modules@, orbp) == count_where(m0, orbp),
                    count_where(arena.modules@, interp) == count_where(m0, interp),
                    completed ==> added == i,
                    forall|k: int|
                        m0.len() <= k < arena.modules@.len() ==> (
                        #[trigger] arena.modules@[k]).module_id == ModuleId::FloorStd
                            && arena.spec_in_bounds(
                            arena.modules@[k].x as int,
                            arena.modules@[k].y as int,
                        ),
                    forall|k: int|
                        m0.len() <= k < arena.modules@.len() ==> !occupied_at(
                            m0,
                            (#[trigger] arena.modules@[k]).x as int,
                            arena.modules@[k].y as int,
                        ),
                    forall|k1: int, k2: int|
                        m0.len() <= k1 < k2 < arena.modules@.len() ==> !((
                        #[trigger] arena.modules@[k1]).x == (#[trigger] arena.modules@[k2]).x
                            && arena.modules@[k1].y == arena.modules@[k2].y),
                    monitor.spec_anomalies() == old(monitor).spec_anomalies(),
                    monitor.spec_metrics() == old(monitor).spec_metrics(),
                    monitor.spec_rules_applied() == old(monitor).spec_rules_applied(),
                    monitor.spec_generation_start() == old(monitor).spec_generation_start(),
                decreases needed - i,
            {
                match self.find_free_position(arena) {
                    Some(pos) => {
                        let ghost pre = arena.modules@;
                        arena.add_module(pos.0, pos.1, ModuleId::FloorStd, None);
                        proof {
                            assert(arena.modules@ =~= pre.push(arena.modules@.last()));
                            crate::counting::lemma_take_push(
                                pre,
                                arena.modules@.last(),
                                m0.len() as int,
                            );
                            // the sampled cell was free of every earlier
                            // record, old and freshly added alike
                            if occupied_at(m0, pos.0 as int, pos.1 as int) {
                                let idx = choose|idx: int|
                                    0 <= idx < m0.len() && m0[idx].x == pos.0 as int
                                        && m0[idx].y == pos.1 as int;
                                assert(pre.take(m0.len() as int)[idx] == m0[idx]);
                                assert(pre[idx] == m0[idx]);
                                assert(occupied_at(pre, pos.0 as int, pos.1 as int));
                            }
                            assert forall|k1: int|
                                m0.len() <= k1 < arena.modules@.len() - 1 implies !((
                            #[trigger] arena.modules@[k1]).x == pos.0 && arena.modules@[k1].y
                                == pos.1) by {
                                if arena.modules@[k1].x == pos.0 && arena.modules@[k1].y
                                    == pos.1 {
                                    assert(pre[k1].x == pos.0 as int && pre[k1].y
                                        == pos.1 as int);
                                    assert(occupied_at(pre, pos.0 as int, pos.1 as int));
                                }
                            }
                            crate::counting::lemma_count_where_push(
                                pre,
                                |c: crate::arena::ArenaCell| c.module_id.spec_is_walkable(),
                                arena.modules@.last(),
                            );
                            crate::counting::lemma_count_where_push(
                                pre,
                                playerp,
                                arena.modules@.last(),
                            );
                            crate::counting::lemma_count_where_push(
                                pre,
                                orbp,
                                arena.modules@.last(),
                            );
                            crate::counting::lemma_count_where_push(
                                pre,
                                interp,
                                arena.modules@.last(),
                            );
                        }
                        added = added + 1;
                    },
                    None => {
                        completed = false;
                    },
                }
                i = i + 1;
            }
            let ghost pre = monitor.spec_anomalies();
            let note: crate::params::Params = vec![
                ("added".to_owned(), ParamValue::Int(added as i64)),
            ];
            monitor.report_anomaly(
                "BALANCE",
                "Added floor modules to meet minimum walkable area".to_owned(),
                AnomalySeverity::Info,
                Some(note),
            );
            proof {
                lemma_push_shape(pre, monitor.spec_anomalies());
                lemma_extend_trans(monitor.spec_anomalies(), pre, old(monitor).spec_anomalies());
            }
        }
        completed
    }

    /// Generate one complete, validated arena of `size` by `size` cells
    /// with up to `rule_count` active rules. The call fails, with a
    /// generation-failure error, exactly when the monitor holds at least
    /// one critical finding after the final validation; a returned arena
    /// has exactly one player spawn, compatible and distinct active rules,
    /// resolved environment values, every module in bounds and at least
    /// three tenths of its cells walkable.
    #[verifier::rlimit(90)]
    pub fn generate_with_monitoring(&mut self, size: u32, rule_count: u32, monitor: &mut AnomalyMonitor) -> (r: Result<
        Arena,
        ArenaGenerationError,
    >)
        requires
            old(self).wf(),
            size <= 30000,
        ensures
            final(self).wf(),
            r is Err <==> spec_has_critical(final(monitor).spec_anomalies()),
            match r {
                Ok(g) => {
                    &&& g.wf()
                    &&& g.width == size && g.height == size
                    &&& spec_count_type(g.modules@, ModuleId::Player) == 1
                    &&& spec_rules_compatible(g.active_rules@)
                    &&& spec_rule_ids_distinct(g.active_rules@)
                    &&& g.active_rules@.len() <= rule_count
                    &&& !crate::monitor::spec_validation_critical(g)
                    &&& (size > 0 ==> spec_count_walkable(g.modules@) * 10 >= g.spec_total_cells()
                        * 3)
                    &&& (!spec_has_rule(g.active_rules@, RuleId::OrbCollection)
                        ==> spec_count_type(g.modules@, ModuleId::OrbEnergy) <= spec_orb_target(
                        size as int,
                        size as int,
                    ))
                    &&& crate::arena::spec_count_interactive(g.modules@)
                        <= spec_interactive_target(size as int, size as int)
                    &&& match g.spec_env_value(EnvVarId::Gravity) {
                        Some(v) => 200 <= v <= 3000,
                        None => false,
                    }
                    &&& match g.spec_env_value(EnvVarId::GameSpeed) {
                        Some(v) => 500 <= v <= 2000,
                        None => false,
                    }
                },
                Err(e) => e is GenerationFailed,
            },
    {
        monitor.start_generation();
        let seed_note = self.rng.next_u64();
        let mut arena = Arena::new(size, size, seed_note);
        let t0 = crate::monitor::now_millis();
        // stage one: rule selection
        let selected = self.select_compatible_rules(rule_count, monitor);
        arena.active_rules = selected;
        // stage two: environment configuration
        self.configure_environment(&mut arena, monitor);
        // stage three: base layout
        self.generate_base_layout(&mut arena, monitor);
        proof {
            assert((size as int) * (size as int) <= 30000 * 30000) by (nonlinear_arith)
                requires
                    0 <= (size as int) && (size as int) <= 30000,
            ;
            assert(arena.modules@.len() <= 0x4000_0000);
        }
        // stage four: rule-driven secondary edits
        self.apply_rule_modifications(&mut arena, monitor);
        proof {
            assert(arena.modules@.len() <= 0x8000_0000);
        }
        // stage five: interactive element placement
        let _placed = self.place_interactive_elements(&mut arena, monitor);
        // stage six: balancing
        let _completed = self.balance_arena(&mut arena, monitor);
        // stamp the timing metadata
        let t1 = crate::monitor::now_millis();
        arena.generation_metadata.generation_time_ms = t1.saturating_sub(t0);
        // final validation and the acceptance gate
        proof {
            assert((arena.width as int) * (arena.height as int) <= 30000 * 30000)
                by (nonlinear_arith)
                requires
                    0 <= (arena.width as int) && (arena.width as int) <= 30000,
                    0 <= (arena.height as int) && (arena.height as int) <= 30000,
            ;
        }
        monitor.validate_arena(&arena);
        let ghost after_validate = monitor.spec_anomalies();
        monitor.check_generation_time();
        proof {
            assert(anoms_extend(monitor.spec_anomalies(), after_validate));
        }
        if monitor.has_critical_anomalies() {
            Err(
                ArenaGenerationError::GenerationFailed {
                    message: "critical anomalies detected after validation".to_owned(),
                },
            )
        } else {
            proof {
                if spec_has_critical(after_validate) {
                    crate::monitor::lemma_extend_preserves_critical(
                        monitor.spec_anomalies(),
                        after_validate,
                    );
                }
                assert(!crate::monitor::spec_validation_critical(arena));
                if size > 0 {
                    assert((size as int) * (size as int) > 0) by (nonlinear_arith)
                        requires
                            (size as int) > 0,
                    ;
                }
            }
            Ok(arena)
        }
    }
}

/// Whether any record at the given coordinate is walkable, regardless of
/// which record cell lookup would return there.
pub open spec fn spec_any_walkable_at(s: Seq<crate::arena::ArenaCell>, x: int, y: int) -> bool {
    exists|i: int|
        0 <= i < s.len() && (#[trigger] s[i]).x == x && s[i].y == y
            && s[i].module_id.spec_is_walkable()
}

fn any_walkable_at(arena: &Arena, x: i64, y: i64) -> (r: bool)
    ensures
        r == spec_any_walkable_at(arena.modules@, x as int, y as int),
{
    if x >= -2147483648 && x <= 2147483647 && y >= -2147483648 && y <= 2147483647 {
        let xi = x as i32;
        let yi = y as i32;
        let mut i: usize = 0;
        while i < arena.modules.len()
            invariant
                i <= arena.modules@.len(),
                forall|j: int|
                    0 <= j < i ==> !((#[trigger] arena.modules@[j]).x == xi
                        && arena.modules@[j].y == yi
                        && arena.modules@[j].module_id.spec_is_walkable()),
            decreases arena.modules@.len() - i,
        {
            if arena.modules[i].x == xi && arena.modules[i].y == yi
                && arena.modules[i].module_id.is_walkable() {
                return true;
            }
            i = i + 1;
        }
        false
    } else {
        false
    }
}

/// Some placed record sits on one of the four orthogonal neighbours.
pub open spec fn spec_module_adjacent(s: Seq<crate::arena::ArenaCell>, x: int, y: int) -> bool {
    ||| occupied_at(s, x, y + 1)
    ||| occupied_at(s, x, y - 1)
    ||| occupied_at(s, x + 1, y)
    ||| occupied_at(s, x - 1, y)
}

/// Whether any record occupies the (possibly unrepresentable) coordinate.
fn module_at(arena: &Arena, x: i64, y: i64) -> (r: bool)
    ensures
        r == occupied_at(arena.modules@, x as int, y as int),
{
    if x >= -2147483648 && x <= 2147483647 && y >= -2147483648 && y <= 2147483647 {
        proof {
            crate::arena::lemma_cell_at_props(arena.modules@, x as int, y as int);
        }
        match arena.get_cell(x as i32, y as i32) {
            Some(_) => true,
            None => false,
        }
    } else {
        proof {
            if occupied_at(arena.modules@, x as int, y as int) {
                let i = choose|i: int|
                    0 <= i < arena.modules@.len() && arena.modules@[i].x == x as int
                        && arena.modules@[i].y == y as int;
            }
        }
        false
    }
}

/// The first record at the coordinate is a spawn-disqualifying hazard.
pub open spec fn spec_spawn_hazard_at(s: Seq<crate::arena::ArenaCell>, x: int, y: int) -> bool {
    match crate::arena::spec_cell_at(s, x, y) {
        Some(c) => c.module_id.spec_is_spawn_hazard(),
        None => false,
    }
}

fn spawn_hazard_at(arena: &Arena, x: i64, y: i64) -> (r: bool)
    ensures
        r == spec_spawn_hazard_at(arena.modules@, x as int, y as int),
{
    if x >= -2147483648 && x <= 2147483647 && y >= -2147483648 && y <= 2147483647 {
        match arena.get_cell(x as i32, y as i32) {
            Some(c) => c.module_id.is_spawn_hazard(),
            None => false,
        }
    } else {
        proof {
            crate::arena::lemma_cell_at_props(arena.modules@, x as int, y as int);
            if crate::arena::spec_cell_at(arena.modules@, x as int, y as int) is Some {
                let c = crate::arena::spec_cell_at(arena.modules@, x as int, y as int)->Some_0;
                assert(c.x as int == x as int && c.y as int == y as int);
            }
        }
        false
    }
}

/// Whether a rule identifier occurs in the list.
fn rule_ids_contain_local(v: &Vec<RuleId>, id: &RuleId) -> (r: bool)
    ensures
        r == v@.contains(*id),
{
    let mut i: usize = 0;
    while i < v.len()
        invariant
            i <= v@.len(),
            forall|j: int| 0 <= j < i ==> v@[j] != *id,
        decreases v@.len() - i,
    {
        if v[i] == *id {
            return true;
        }
        i = i + 1;
    }
    false
}

} // verus!
