//! The anomaly monitor: a severity-tiered diagnostic accumulator. The
//! generator reports into it at every stage; `validate` audits a finished
//! arena; `has_critical_anomalies` gates acceptance.

use vstd::prelude::*;

use crate::arena::{
    spec_cell_at, spec_count_hazard, spec_count_type, spec_count_walkable, Arena, ArenaCell,
};
use crate::counting::{count_where, lemma_count_where_take_all, lemma_count_where_take_step};
use crate::catalog::Rule;
use crate::ids::{EnvVarId, ModuleId, RuleId};
use crate::params::Params;

verus! {

/// How bad a finding is. `Critical` blocks acceptance; the other two do
/// not.
#[derive(Debug, Clone, Copy, PartialEq, Eq, Hash, Structural)]
pub enum AnomalySeverity {
    Critical,
    Warning,
    Info,
}

/// One finding: category label, message, severity, detection timestamp in
/// milliseconds, and optional structured context.
#[derive(Debug, Clone)]
pub struct Anomaly {
    pub category: String,
    pub message: String,
    pub severity: AnomalySeverity,
    pub detected_at_ms: u64,
    pub context: Option<Params>,
}

/// Whether the list holds at least one critical finding.
pub open spec fn spec_has_critical(s: Seq<Anomaly>) -> bool {
    exists|i: int| 0 <= i < s.len() && s[i].severity == AnomalySeverity::Critical
}

pub proof fn lemma_has_critical_push(s: Seq<Anomaly>, a: Anomaly)
    ensures
        spec_has_critical(s.push(a)) <==> (spec_has_critical(s) || a.severity
            == AnomalySeverity::Critical),
{
    if spec_has_critical(s) {
        let i = choose|i: int| 0 <= i < s.len() && s[i].severity == AnomalySeverity::Critical;
        assert(s.push(a)[i].severity == AnomalySeverity::Critical);
    }
    if a.severity == AnomalySeverity::Critical {
        assert(s.push(a)[s.len() as int].severity == AnomalySeverity::Critical);
    }
    if spec_has_critical(s.push(a)) {
        let i = choose|i: int|
            0 <= i < s.push(a).len() && s.push(a)[i].severity == AnomalySeverity::Critical;
        if i < s.len() {
            assert(s[i].severity == AnomalySeverity::Critical);
        }
    }
}

/// The value recorded under a metric name: first entry wins.
pub open spec fn metric_lookup(s: Seq<(String, i64)>, k: Seq<char>) -> Option<i64>
    decreases s.len(),
{
    if s.len() == 0 {
        None
    } else if s[0].0@ == k {
        Some(s[0].1)
    } else {
        metric_lookup(s.skip(1), k)
    }
}

pub proof fn lemma_metric_lookup_first(s: Seq<(String, i64)>, k: Seq<char>, i: int)
    requires
        0 <= i < s.len(),
        s[i].0@ == k,
        forall|j: int| 0 <= j < i ==> (#[trigger] s[j]).0@ != k,
    ensures
        metric_lookup(s, k) == Some(s[i].1),
    decreases i,
{
    if i > 0 {
        assert(s.skip(1)[i - 1] == s[i]);
        assert forall|j: int| 0 <= j < i - 1 implies (#[trigger] s.skip(1)[j]).0@ != k by {
            assert(s.skip(1)[j] == s[j + 1]);
        }
        lemma_metric_lookup_first(s.skip(1), k, i - 1);
    }
}

pub proof fn lemma_metric_lookup_none(s: Seq<(String, i64)>, k: Seq<char>)
    requires
        forall|j: int| 0 <= j < s.len() ==> (#[trigger] s[j]).0@ != k,
    ensures
        metric_lookup(s, k) is None,
    decreases s.len(),
{
    if s.len() > 0 {
        assert forall|j: int| 0 <= j < s.skip(1).len() implies (#[trigger] s.skip(1)[j]).0@
            != k by {
            assert(s.skip(1)[j] == s[j + 1]);
        }
        lemma_metric_lookup_none(s.skip(1), k);
    }
}

pub proof fn lemma_metric_lookup_update(s: Seq<(String, i64)>, i: int, item: (String, i64), k: Seq<
    char,
>)
    requires
        0 <= i < s.len(),
        item.0@ == s[i].0@,
        forall|j: int| 0 <= j < i ==> (#[trigger] s[j]).0@ != s[i].0@,
    ensures
        metric_lookup(s.update(i, item), s[i].0@) == Some(item.1),
        k != s[i].0@ ==> metric_lookup(s.update(i, item), k) == metric_lookup(s, k),
    decreases i,
{
    let t = s.update(i, item);
    if i == 0 {
        if k != s[i].0@ {
            assert(t.skip(1) =~= s.skip(1));
        }
    } else {
        assert(t.skip(1) =~= s.skip(1).update(i - 1, item));
        assert forall|j: int| 0 <= j < i - 1 implies (#[trigger] s.skip(1)[j]).0@ != s.skip(
            1,
        )[i - 1].0@ by {
            assert(s.skip(1)[j] == s[j + 1]);
        }
        assert(s.skip(1)[i - 1] == s[i]);
        lemma_metric_lookup_update(s.skip(1), i - 1, item, k);
        assert(t[0] == s[0]);
    }
}

pub proof fn lemma_metric_lookup_push(s: Seq<(String, i64)>, item: (String, i64), k: Seq<char>)
    ensures
        metric_lookup(s.push(item), k) == if metric_lookup(s, k) is Some {
            metric_lookup(s, k)
        } else if item.0@ == k {
            Some(item.1)
        } else {
            None
        },
    decreases s.len(),
{
    if s.len() == 0 {
        assert(s.push(item).skip(1) =~= Seq::<(String, i64)>::empty());
        assert(metric_lookup(Seq::<(String, i64)>::empty(), k) is None);
    } else {
        assert(s.push(item).skip(1) =~= s.skip(1).push(item));
        lemma_metric_lookup_push(s.skip(1), item, k);
    }
}

/// Relies on `std::time::SystemTime` (the elapsed time since the epoch)
/// for wall-clock timestamps; nothing is promised of the value.
#[verifier::external_body]
pub(crate) fn now_millis() -> u64 {
    match std::time::UNIX_EPOCH.elapsed() {
        Ok(d) => d.as_millis() as u64,
        Err(_) => 0,
    }
}

/// The severity-tiered diagnostic accumulator.
pub struct AnomalyMonitor {
    anomalies: Vec<Anomaly>,
    metrics: Vec<(String, i64)>,
    rules_applied: Vec<RuleId>,
    generation_start: Option<u64>,
}

impl AnomalyMonitor {
    pub closed spec fn spec_anomalies(&self) -> Seq<Anomaly> {
        self.anomalies@
    }

    pub closed spec fn spec_metrics(&self) -> Seq<(String, i64)> {
        self.metrics@
    }

    pub closed spec fn spec_rules_applied(&self) -> Seq<RuleId> {
        self.rules_applied@
    }

    pub closed spec fn spec_generation_start(&self) -> Option<u64> {
        self.generation_start
    }

    pub fn new() -> (m: AnomalyMonitor)
        ensures
            m.spec_anomalies().len() == 0,
            m.spec_metrics().len() == 0,
            m.spec_rules_applied().len() == 0,
            m.spec_generation_start() is None,
    {
        AnomalyMonitor {
            anomalies: Vec::new(),
            metrics: Vec::new(),
            rules_applied: Vec::new(),
            generation_start: None,
        }
    }

    /// Mark the start of a generation run at the current wall-clock time.
    pub fn start_generation(&mut self)
        ensures
            final(self).spec_generation_start() is Some,
            final(self).spec_anomalies() == old(self).spec_anomalies(),
            final(self).spec_metrics() == old(self).spec_metrics(),
            final(self).spec_rules_applied() == old(self).spec_rules_applied(),
    {
        self.generation_start = Some(now_millis());
    }

    /// Note that a rule took effect.
    pub fn record_rule_application(&mut self, rule_id: RuleId)
        ensures
            final(self).spec_rules_applied() == old(self).spec_rules_applied().push(rule_id),
            final(self).spec_anomalies() == old(self).spec_anomalies(),
            final(self).spec_metrics() == old(self).spec_metrics(),
            final(self).spec_generation_start() == old(self).spec_generation_start(),
    {
        self.rules_applied.push(rule_id);
        proof {
            assert(final(self).spec_rules_applied() =~= old(self).spec_rules_applied().push(
                rule_id,
            ));
        }
    }

    /// Record a named numeric metric, overwriting an earlier value.
    pub fn record_metric(&mut self, name: &str, value_milli: i64)
        ensures
            metric_lookup(final(self).spec_metrics(), name@) == Some(value_milli),
            forall|k: Seq<char>|
                k != name@ ==> metric_lookup(final(self).spec_metrics(), k) == metric_lookup(
                    old(self).spec_metrics(),
                    k,
                ),
            final(self).spec_anomalies() == old(self).spec_anomalies(),
            final(self).spec_rules_applied() == old(self).spec_rules_applied(),
            final(self).spec_generation_start() == old(self).spec_generation_start(),
    {
        let key: String = name.to_owned();
        let mut i: usize = 0;
        while i < self.metrics.len()
            invariant
                i <= self.metrics@.len(),
                key@ == name@,
                self.metrics@ == old(self).metrics@,
                self.anomalies@ == old(self).anomalies@,
                self.rules_applied@ == old(self).rules_applied@,
                self.generation_start == old(self).generation_start,
                forall|j: int| 0 <= j < i ==> (#[trigger] self.metrics@[j]).0@ != name@,
            decreases self.metrics@.len() - i,
        {
            if self.metrics[i].0 == key {
                self.metrics.set(i, (key, value_milli));
                proof {
                    lemma_metric_lookup_update(
                        old(self).metrics@,
                        i as int,
                        final(self).metrics@[i as int],
                        name@,
                    );
                    assert forall|k: Seq<char>| k != name@ implies metric_lookup(
                        final(self).spec_metrics(),
                        k,
                    ) == metric_lookup(old(self).spec_metrics(), k) by {
                        lemma_metric_lookup_update(
                            old(self).metrics@,
                            i as int,
                            final(self).metrics@[i as int],
                            k,
                        );
                    }
                }
                return ;
            }
            i = i + 1;
        }
        self.metrics.push((key, value_milli));
        proof {
            lemma_metric_lookup_none(old(self).metrics@, name@);
            lemma_metric_lookup_push(
                old(self).metrics@,
                final(self).metrics@.last(),
                name@,
            );
            assert forall|k: Seq<char>| k != name@ implies metric_lookup(
                final(self).spec_metrics(),
                k,
            ) == metric_lookup(old(self).spec_metrics(), k) by {
                lemma_metric_lookup_push(
                    old(self).metrics@,
                    final(self).metrics@.last(),
                    k,
                );
            }
        }
    }

    /// Append one finding, stamped with the current wall-clock time.
    pub fn report_anomaly(
        &mut self,
        category: &str,
        message: String,
        severity: AnomalySeverity,
        context: Option<Params>,
    )
        ensures
            final(self).spec_anomalies().len() == old(self).spec_anomalies().len() + 1,
            final(self).spec_anomalies().drop_last() == old(self).spec_anomalies(),
            final(self).spec_anomalies().last().category@ == category@,
            final(self).spec_anomalies().last().message == message,
            final(self).spec_anomalies().last().severity == severity,
            final(self).spec_anomalies().last().context == context,
            final(self).spec_metrics() == old(self).spec_metrics(),
            final(self).spec_rules_applied() == old(self).spec_rules_applied(),
            final(self).spec_generation_start() == old(self).spec_generation_start(),
    {
        let anomaly = Anomaly {
            category: category.to_owned(),
            message,
            severity,
            detected_at_ms: now_millis(),
            context,
        };
        self.anomalies.push(anomaly);
        proof {
            assert(final(self).spec_anomalies().drop_last() =~= old(self).spec_anomalies());
        }
    }

    /// The full finding list, in detection order.
    pub fn get_anomalies(&self) -> (r: &Vec<Anomaly>)
        ensures
            r@ == self.spec_anomalies(),
    {
        &self.anomalies
    }

    /// The named metrics.
    pub fn get_metrics(&self) -> (r: &Vec<(String, i64)>)
        ensures
            r@ == self.spec_metrics(),
    {
        &self.metrics
    }

    /// Whether acceptance is blocked.
    pub fn has_critical_anomalies(&self) -> (r: bool)
        ensures
            r == spec_has_critical(self.spec_anomalies()),
    {
        let mut i: usize = 0;
        while i < self.anomalies.len()
            invariant
                i <= self.anomalies@.len(),
                forall|j: int|
                    0 <= j < i ==> (#[trigger] self.anomalies@[j]).severity
                        != AnomalySeverity::Critical,
            decreases self.anomalies@.len() - i,
        {
            if matches!(self.anomalies[i].severity, AnomalySeverity::Critical) {
                return true;
            }
            i = i + 1;
        }
        false
    }

    /// Re-check the elapsed wall time against the soft and hard budgets,
    /// reading the clock now.
    pub fn check_generation_time(&mut self)
        ensures
            final(self).spec_anomalies().len() >= old(self).spec_anomalies().len(),
            final(self).spec_anomalies().len() <= old(self).spec_anomalies().len() + 1,
            final(self).spec_anomalies().take(old(self).spec_anomalies().len() as int) == old(self).spec_anomalies(),
            forall|i: int|
                old(self).spec_anomalies().len() <= i < final(self).spec_anomalies().len()
                    ==> (#[trigger] final(self).spec_anomalies()[i]).category@ == "PERFORMANCE"@,
            old(self).spec_generation_start() is None ==> final(self).spec_anomalies() == old(self).spec_anomalies(),
            final(self).spec_rules_applied() == old(self).spec_rules_applied(),
            final(self).spec_generation_start() == old(self).spec_generation_start(),
    {
        let now = now_millis();
        self.check_generation_time_at(now);
    }

    /// The timing check against an explicit clock reading: over the soft
    /// budget of five seconds is a warning, over the hard budget of ten
    /// seconds a critical finding; neither aborts anything.
    pub fn check_generation_time_at(&mut self, now_ms: u64)
        ensures
            match old(self).spec_generation_start() {
                None => final(self).spec_anomalies() == old(self).spec_anomalies()
                    && final(self).spec_metrics() == old(self).spec_metrics(),
                Some(start) => {
                    let elapsed: int = if now_ms >= start {
                        now_ms - start
                    } else {
                        0
                    };
                    &&& metric_lookup(final(self).spec_metrics(), "generation_time_ms"@) == Some(
                        elapsed as i64,
                    )
                    &&& if elapsed > 10000 {
                        final(self).spec_anomalies().len() == old(self).spec_anomalies().len() + 1
                            && final(self).spec_anomalies().drop_last() == old(self).spec_anomalies() && final(self).spec_anomalies().last().severity
                            == AnomalySeverity::Critical && final(self).spec_anomalies().last().category@ == "PERFORMANCE"@
                    } else if elapsed > 5000 {
                        final(self).spec_anomalies().len() == old(self).spec_anomalies().len() + 1
                            && final(self).spec_anomalies().drop_last() == old(self).spec_anomalies() && final(self).spec_anomalies().last().severity
                            == AnomalySeverity::Warning && final(self).spec_anomalies().last().category@ == "PERFORMANCE"@
                    } else {
                        final(self).spec_anomalies() == old(self).spec_anomalies()
                    }
                },
            },
            final(self).spec_rules_applied() == old(self).spec_rules_applied(),
            final(self).spec_generation_start() == old(self).spec_generation_start(),
    {
        let start_opt = self.generation_start;
        match start_opt {
            None => {},
            Some(start) => {
                let elapsed: u64 = if now_ms >= start {
                    now_ms - start
                } else {
                    0
                };
                self.record_metric("generation_time_ms", elapsed as i64);
                if elapsed > 10000 {
                    self.report_anomaly(
                        "PERFORMANCE",
                        "Generation exceeded the hard time budget".to_owned(),
                        AnomalySeverity::Critical,
                        None,
                    );
                } else if elapsed > 5000 {
                    self.report_anomaly(
                        "PERFORMANCE",
                        "Generation exceeded the soft time budget".to_owned(),
                        AnomalySeverity::Warning,
                        None,
                    );
                }
            },
        }
    }
}

/// One finding list extends another: the old findings stand unchanged at
/// the front.
pub open spec fn anoms_extend(post: Seq<Anomaly>, pre: Seq<Anomaly>) -> bool {
    pre.len() <= post.len() && post.take(pre.len() as int) == pre
}

pub proof fn lemma_extend_refl(s: Seq<Anomaly>)
    ensures
        anoms_extend(s, s),
{
    assert(s.take(s.len() as int) =~= s);
}

pub proof fn lemma_extend_trans(c: Seq<Anomaly>, b: Seq<Anomaly>, a: Seq<Anomaly>)
    requires
        anoms_extend(c, b),
        anoms_extend(b, a),
    ensures
        anoms_extend(c, a),
{
    assert(c.take(a.len() as int) =~= c.take(b.len() as int).take(a.len() as int));
}

/// What one `report_anomaly` call does to the finding list.
pub proof fn lemma_push_shape(pre: Seq<Anomaly>, post: Seq<Anomaly>)
    requires
        post.len() == pre.len() + 1,
        post.drop_last() == pre,
    ensures
        post == pre.push(post.last()),
        anoms_extend(post, pre),
        spec_has_critical(post) <==> (spec_has_critical(pre) || post.last().severity
            == AnomalySeverity::Critical),
{
    assert(post =~= pre.push(post.last()));
    assert(post.take(pre.len() as int) =~= pre);
    lemma_has_critical_push(pre, post.last());
}

/// An extension keeps every critical finding visible.
pub proof fn lemma_extend_preserves_critical(post: Seq<Anomaly>, pre: Seq<Anomaly>)
    requires
        anoms_extend(post, pre),
        spec_has_critical(pre),
    ensures
        spec_has_critical(post),
{
    let i = choose|i: int|
        0 <= i < pre.len() && (#[trigger] pre[i]).severity == AnomalySeverity::Critical;
    assert(post.take(pre.len() as int)[i] == pre[i]);
    assert(post[i].severity == AnomalySeverity::Critical);
}

/// A count per thousand cells, zero on an empty grid.
pub open spec fn spec_density_permille(n: int, total: int) -> i64 {
    if total > 0 {
        (n * 1000 / total) as i64
    } else {
        0
    }
}

/// No player-spawn record stands in the list.
pub open spec fn spec_player_missing(s: Seq<ArenaCell>) -> bool {
    spec_count_type(s, ModuleId::Player) == 0
}

/// Some record sits outside the arena bounds.
pub open spec fn spec_any_out_of_bounds(a: Arena) -> bool {
    exists|i: int|
        0 <= i < a.modules@.len() && !a.spec_in_bounds(
            (#[trigger] a.modules@[i]).x as int,
            a.modules@[i].y as int,
        )
}

/// Two rules of the list, in either order, declare one another
/// incompatible.
pub open spec fn spec_pair_bad(rules: Seq<Rule>, i: int, j: int) -> bool {
    rules[i].incompatible_with@.contains(rules[j].id) || rules[j].incompatible_with@.contains(
        rules[i].id,
    )
}

pub open spec fn spec_incompatible_pair(rules: Seq<Rule>) -> bool {
    exists|i: int, j: int|
        #![trigger spec_pair_bad(rules, i, j)]
        0 <= i < j < rules.len() && spec_pair_bad(rules, i, j)
}

/// Fewer than three tenths of all cells carry a walkable surface.
pub open spec fn spec_walkable_deficit(a: Arena) -> bool {
    a.spec_total_cells() > 0 && spec_count_walkable(a.modules@) * 10 < a.spec_total_cells() * 3
}

/// The first record at `(x, y)` carries a walkable type.
pub open spec fn spec_nbr_walkable(s: Seq<ArenaCell>, x: int, y: int) -> bool {
    match spec_cell_at(s, x, y) {
        Some(c) => c.module_id.spec_is_walkable(),
        None => false,
    }
}

/// How many of the four orthogonal neighbours carry a walkable surface.
pub open spec fn spec_adjacent_walkable_count(s: Seq<ArenaCell>, x: int, y: int) -> int {
    (if spec_nbr_walkable(s, x, y + 1) {
        1int
    } else {
        0int
    }) + (if spec_nbr_walkable(s, x, y - 1) {
        1int
    } else {
        0int
    }) + (if spec_nbr_walkable(s, x + 1, y) {
        1int
    } else {
        0int
    }) + (if spec_nbr_walkable(s, x - 1, y) {
        1int
    } else {
        0int
    })
}

/// Some orb or floor button has no walkable neighbour at all.
pub open spec fn spec_isolated_exists(a: Arena) -> bool {
    exists|i: int|
        0 <= i < a.modules@.len() && ((#[trigger] a.modules@[i]).module_id == ModuleId::OrbEnergy
            || a.modules@[i].module_id == ModuleId::InteractButtonFloor)
            && spec_adjacent_walkable_count(
            a.modules@,
            a.modules@[i].x as int,
            a.modules@[i].y as int,
        ) == 0
}

/// The critical conditions `validate_arena` screens for.
pub open spec fn spec_validation_critical(a: Arena) -> bool {
    ||| spec_player_missing(a.modules@)
    ||| spec_any_out_of_bounds(a)
    ||| spec_incompatible_pair(a.active_rules@)
    ||| spec_walkable_deficit(a)
    ||| spec_isolated_exists(a)
}

/// Whether a rule identifier occurs in the list.
fn rule_ids_contain(v: &Vec<RuleId>, id: &RuleId) -> (r: bool)
    ensures
        r == v@.contains(*id),
{
    let mut i: usize = 0;
    while i < v.len()
        invariant
            i <= v@.len(),
            forall|j: int| 0 <= j < i ==> v@[j] != *id,
        decreases v@.len() - i,
    {
        if v[i] == *id {
            return true;
        }
        i = i + 1;
    }
    false
}

/// How many of the four orthogonal neighbours of `(x, y)` hold a walkable
/// record.
fn count_adjacent_walkable(arena: &Arena, x: i32, y: i32) -> (r: u32)
    ensures
        r == spec_adjacent_walkable_count(arena.modules@, x as int, y as int),
{
    let mut count: u32 = 0;
    if nbr_walkable_at(arena, x as i64, y as i64 + 1) {
        count = count + 1;
    }
    if nbr_walkable_at(arena, x as i64, y as i64 - 1) {
        count = count + 1;
    }
    if nbr_walkable_at(arena, x as i64 + 1, y as i64) {
        count = count + 1;
    }
    if nbr_walkable_at(arena, x as i64 - 1, y as i64) {
        count = count + 1;
    }
    count
}

/// Whether the (possibly unrepresentable) coordinate holds a walkable
/// record.
fn nbr_walkable_at(arena: &Arena, x: i64, y: i64) -> (r: bool)
    ensures
        r == spec_nbr_walkable(arena.modules@, x as int, y as int),
{
    if x >= -2147483648 && x <= 2147483647 && y >= -2147483648 && y <= 2147483647 {
        match arena.get_cell(x as i32, y as i32) {
            Some(c) => c.module_id.is_walkable(),
            None => false,
        }
    } else {
        proof {
            crate::arena::lemma_cell_at_props(arena.modules@, x as int, y as int);
            if spec_cell_at(arena.modules@, x as int, y as int) is Some {
                let c = spec_cell_at(arena.modules@, x as int, y as int)->Some_0;
                assert(c.x as int == x as int && c.y as int == y as int);
            }
        }
        false
    }
}

impl AnomalyMonitor {
    /// The structural expectation on a finished arena: a player spawn
    /// exists and every record lies in bounds; each violation is critical.
    pub fn check_structural_integrity(&mut self, arena: &Arena)
        requires
            arena.wf(),
        ensures
            anoms_extend(final(self).spec_anomalies(), old(self).spec_anomalies()),
            spec_has_critical(final(self).spec_anomalies()) <==> (spec_has_critical(
                old(self).spec_anomalies(),
            ) || spec_player_missing(arena.modules@) || spec_any_out_of_bounds(*arena)),
            final(self).spec_anomalies().len() == old(self).spec_anomalies().len() + (if
                spec_player_missing(arena.modules@) {
                1int
            } else {
                0int
            }) + count_where(
                arena.modules@,
                |c: ArenaCell| !arena.spec_in_bounds(c.x as int, c.y as int),
            ),
            final(self).spec_metrics() == old(self).spec_metrics(),
            final(self).spec_rules_applied() == old(self).spec_rules_applied(),
            final(self).spec_generation_start() == old(self).spec_generation_start(),
    {
        proof {
            lemma_extend_refl(self.spec_anomalies());
            crate::arena::lemma_count_type_pos(arena.modules@, ModuleId::Player);
        }
        let players = arena.count_modules_by_type(&ModuleId::Player);
        if players == 0 {
            let ghost pre = self.spec_anomalies();
            self.report_anomaly(
                "STRUCTURAL",
                "No player spawn point found".to_owned(),
                AnomalySeverity::Critical,
                None,
            );
            proof {
                lemma_push_shape(pre, self.spec_anomalies());
            }
        }
        let ghost mid = self.spec_anomalies();
        let ghost oobp = |c: ArenaCell| !arena.spec_in_bounds(c.x as int, c.y as int);
        proof {
            lemma_extend_refl(self.spec_anomalies());
            assert(arena.modules@.take(0) =~= Seq::<ArenaCell>::empty());
        }
        let mut i: usize = 0;
        while i < arena.modules.len()
            invariant
                i <= arena.modules@.len(),
                anoms_extend(self.spec_anomalies(), mid),
                anoms_extend(self.spec_anomalies(), old(self).spec_anomalies()),
                self.spec_anomalies().len() == mid.len() + count_where(
                    arena.modules@.take(i as int),
                    oobp,
                ),
                spec_has_critical(self.spec_anomalies()) <==> (spec_has_critical(
                    old(self).spec_anomalies(),
                ) || spec_player_missing(arena.modules@) || exists|j: int|
                    0 <= j < i && !arena.spec_in_bounds(
                        (#[trigger] arena.modules@[j]).x as int,
                        arena.modules@[j].y as int,
                    )),
                self.spec_metrics() == old(self).spec_metrics(),
                self.spec_rules_applied() == old(self).spec_rules_applied(),
                self.spec_generation_start() == old(self).spec_generation_start(),
            decreases arena.modules@.len() - i,
        {
            proof {
                crate::counting::lemma_count_where_take_step(arena.modules@, oobp, i as int);
            }
            let cell = &arena.modules[i];
            if cell.x < 0 || cell.y < 0 || cell.x >= arena.width as i32 || cell.y
                >= arena.height as i32 {
                let ghost pre = self.spec_anomalies();
                self.report_anomaly(
                    "BOUNDS",
                    "Module outside arena bounds".to_owned(),
                    AnomalySeverity::Critical,
                    None,
                );
                proof {
                    lemma_push_shape(pre, self.spec_anomalies());
                    lemma_extend_trans(self.spec_anomalies(), pre, mid);
                    lemma_extend_trans(self.spec_anomalies(), pre, old(self).spec_anomalies());
                    assert(!arena.spec_in_bounds(
                        arena.modules@[i as int].x as int,
                        arena.modules@[i as int].y as int,
                    ));
                }
            }
            i = i + 1;
        }
        proof {
            crate::counting::lemma_count_where_take_all(arena.modules@, oobp);
        }
    }

    /// Rule coherence: simultaneously-active rules that declare one
    /// another incompatible are critical; rule/environment and rule/module
    /// mismatches are warnings.
    pub fn check_rule_compatibility(&mut self, arena: &Arena)
        ensures
            anoms_extend(final(self).spec_anomalies(), old(self).spec_anomalies()),
            spec_has_critical(final(self).spec_anomalies()) <==> (spec_has_critical(
                old(self).spec_anomalies(),
            ) || spec_incompatible_pair(arena.active_rules@)),
            final(self).spec_metrics() == old(self).spec_metrics(),
            final(self).spec_rules_applied() == old(self).spec_rules_applied(),
            final(self).spec_generation_start() == old(self).spec_generation_start(),
    {
        proof {
            lemma_extend_refl(self.spec_anomalies());
        }
        let ghost rs = arena.active_rules@;
        let mut i: usize = 0;
        while i < arena.active_rules.len()
            invariant
                i <= rs.len(),
                anoms_extend(self.spec_anomalies(), old(self).spec_anomalies()),
                spec_has_critical(self.spec_anomalies()) <==> (spec_has_critical(
                    old(self).spec_anomalies(),
                ) || exists|a: int, b: int|
                    #![trigger spec_pair_bad(rs, a, b)]
                    0 <= a < b < rs.len() && a < i && spec_pair_bad(rs, a, b)),
                self.spec_metrics() == old(self).spec_metrics(),
                self.spec_rules_applied() == old(self).spec_rules_applied(),
                self.spec_generation_start() == old(self).spec_generation_start(),
            decreases rs.len() - i,
        {
            let mut j: usize = i + 1;
            while j < arena.active_rules.len()
                invariant
                    i < j || j == i + 1,
                    i + 1 <= j <= rs.len() || j == i + 1,
                    i < rs.len(),
                    anoms_extend(self.spec_anomalies(), old(self).spec_anomalies()),
                    spec_has_critical(self.spec_anomalies()) <==> (spec_has_critical(
                        old(self).spec_anomalies(),
                    ) || exists|a: int, b: int|
                        #![trigger spec_pair_bad(rs, a, b)]
                        0 <= a < b < rs.len() && (a < i || (a == i && b < j)) && spec_pair_bad(
                            rs,
                            a,
                            b,
                        )),
                    self.spec_metrics() == old(self).spec_metrics(),
                    self.spec_rules_applied() == old(self).spec_rules_applied(),
                    self.spec_generation_start() == old(self).spec_generation_start(),
                decreases rs.len() - j,
            {
                let bad = rule_ids_contain(
                    &arena.active_rules[i].incompatible_with,
                    &arena.active_rules[j].id,
                ) || rule_ids_contain(
                    &arena.active_rules[j].incompatible_with,
                    &arena.active_rules[i].id,
                );
                if bad {
                    let ghost pre = self.spec_anomalies();
                    self.report_anomaly(
                        "RULES",
                        "Incompatible rules active".to_owned(),
                        AnomalySeverity::Critical,
                        None,
                    );
                    proof {
                        lemma_push_shape(pre, self.spec_anomalies());
                        lemma_extend_trans(
                            self.spec_anomalies(),
                            pre,
                            old(self).spec_anomalies(),
                        );
                        assert(spec_pair_bad(rs, i as int, j as int));
                    }
                } else {
                    proof {
                        assert(!spec_pair_bad(rs, i as int, j as int));
                    }
                }
                j = j + 1;
            }
            i = i + 1;
        }
        proof {
            assert((exists|a: int, b: int|
                #![trigger spec_pair_bad(rs, a, b)]
                0 <= a < b < rs.len() && a < rs.len() && spec_pair_bad(rs, a, b))
                == spec_incompatible_pair(rs));
        }
        let mut k: usize = 0;
        while k < arena.active_rules.len()
            invariant
                k <= rs.len(),
                anoms_extend(self.spec_anomalies(), old(self).spec_anomalies()),
                spec_has_critical(self.spec_anomalies()) <==> (spec_has_critical(
                    old(self).spec_anomalies(),
                ) || spec_incompatible_pair(rs)),
                self.spec_metrics() == old(self).spec_metrics(),
                self.spec_rules_applied() == old(self).spec_rules_applied(),
                self.spec_generation_start() == old(self).spec_generation_start(),
            decreases rs.len() - k,
        {
            let rule_id = arena.active_rules[k].id;
            if matches!(rule_id, RuleId::MoonGravity) {
                let gravity = arena.get_env_variable(&EnvVarId::Gravity);
                match gravity {
                    Some(g) => {
                        if g > 500 {
                            let ghost pre = self.spec_anomalies();
                            self.report_anomaly(
                                "RULES",
                                "Moon Gravity rule active but gravity is high".to_owned(),
                                AnomalySeverity::Warning,
                                None,
                            );
                            proof {
                                lemma_push_shape(pre, self.spec_anomalies());
                                lemma_extend_trans(
                                    self.spec_anomalies(),
                                    pre,
                                    old(self).spec_anomalies(),
                                );
                            }
                        }
                    },
                    None => {},
                }
            }
            if matches!(rule_id, RuleId::LavaFloor) {
                let lava = arena.count_modules_by_type(&ModuleId::HazardLavaPit);
                if lava == 0 {
                    let ghost pre = self.spec_anomalies();
                    self.report_anomaly(
                        "RULES",
                        "Lava Floor rule active but no lava pits found".to_owned(),
                        AnomalySeverity::Warning,
                        None,
                    );
                    proof {
                        lemma_push_shape(pre, self.spec_anomalies());
                        lemma_extend_trans(
                            self.spec_anomalies(),
                            pre,
                            old(self).spec_anomalies(),
                        );
                    }
                }
            }
            k = k + 1;
        }
    }

    /// Balance screens over fixed-point densities: low orb density and
    /// excessive hazard density warn, an overly high orb density is
    /// informational, and a walkable ratio under three tenths is critical.
    pub fn check_gameplay_balance(&mut self, arena: &Arena)
        requires
            arena.wf(),
            arena.modules@.len() <= 0xffff_ffff,
        ensures
            anoms_extend(final(self).spec_anomalies(), old(self).spec_anomalies()),
            spec_has_critical(final(self).spec_anomalies()) <==> (spec_has_critical(
                old(self).spec_anomalies(),
            ) || spec_walkable_deficit(*arena)),
            final(self).spec_anomalies().len() == old(self).spec_anomalies().len() + ({
                let total = arena.spec_total_cells();
                let orbs = spec_count_type(arena.modules@, ModuleId::OrbEnergy);
                let hazards = spec_count_hazard(arena.modules@);
                let walkable = spec_count_walkable(arena.modules@);
                (if total > 0 && orbs * 20 < total {
                    1int
                } else if total > 0 && orbs * 10 > total * 3 {
                    1int
                } else {
                    0int
                }) + (if total > 0 && hazards * 5 > total * 2 {
                    1int
                } else {
                    0int
                }) + (if total > 0 && walkable * 10 < total * 3 {
                    1int
                } else {
                    0int
                })
            }),
            final(self).spec_rules_applied() == old(self).spec_rules_applied(),
            final(self).spec_generation_start() == old(self).spec_generation_start(),
            metric_lookup(final(self).spec_metrics(), "orb_density"@) == Some(
                spec_density_permille(
                    spec_count_type(arena.modules@, ModuleId::OrbEnergy),
                    arena.spec_total_cells(),
                ),
            ),
            metric_lookup(final(self).spec_metrics(), "hazard_density"@) == Some(
                spec_density_permille(
                    spec_count_hazard(arena.modules@),
                    arena.spec_total_cells(),
                ),
            ),
            metric_lookup(final(self).spec_metrics(), "walkable_ratio"@) == Some(
                spec_density_permille(
                    spec_count_walkable(arena.modules@),
                    arena.spec_total_cells(),
                ),
            ),
            forall|k: Seq<char>|
                k != "orb_density"@ && k != "hazard_density"@ && k != "walkable_ratio"@
                    ==> metric_lookup(final(self).spec_metrics(), k) == metric_lookup(
                    old(self).spec_metrics(),
                    k,
                ),
    {
        proof {
            lemma_extend_refl(self.spec_anomalies());
            reveal_strlit("orb_density");
            reveal_strlit("hazard_density");
            reveal_strlit("walkable_ratio");
            assert("orb_density"@.len() != "hazard_density"@.len());
            assert("orb_density"@.len() != "walkable_ratio"@.len());
            assert("hazard_density"@[0] != "walkable_ratio"@[0]);
            assert((arena.width as int) * (arena.height as int) <= 65535 * 65535)
                by (nonlinear_arith)
                requires
                    arena.width as int <= 65535,
                    arena.height as int <= 65535,
            ;
            crate::arena::lemma_count_type_bound(arena.modules@, ModuleId::OrbEnergy);
            crate::arena::lemma_count_hazard_bound(arena.modules@);
            crate::arena::lemma_count_walkable_bound(arena.modules@);
        }
        let total: u64 = (arena.width as u64) * (arena.height as u64);
        let orbs: u64 = arena.count_modules_by_type(&ModuleId::OrbEnergy) as u64;
        let hazards: u64 = arena.count_hazard_cells() as u64;
        let walkable: u64 = arena.count_walkable_cells() as u64;
        self.record_metric(
            "orb_density",
            if total > 0 {
                (orbs * 1000 / total) as i64
            } else {
                0
            },
        );
        self.record_metric(
            "hazard_density",
            if total > 0 {
                (hazards * 1000 / total) as i64
            } else {
                0
            },
        );
        self.record_metric(
            "walkable_ratio",
            if total > 0 {
                (walkable * 1000 / total) as i64
            } else {
                0
            },
        );
        if total > 0 && orbs * 20 < total {
            let ghost pre = self.spec_anomalies();
            self.report_anomaly(
                "BALANCE",
                "Low energy orb density".to_owned(),
                AnomalySeverity::Warning,
                None,
            );
            proof {
                lemma_push_shape(pre, self.spec_anomalies());
                lemma_extend_trans(self.spec_anomalies(), pre, old(self).spec_anomalies());
            }
        } else if total > 0 && orbs * 10 > total * 3 {
            let ghost pre = self.spec_anomalies();
            self.report_anomaly(
                "BALANCE",
                "High energy orb density".to_owned(),
                AnomalySeverity::Info,
                None,
            );
            proof {
                lemma_push_shape(pre, self.spec_anomalies());
                lemma_extend_trans(self.spec_anomalies(), pre, old(self).spec_anomalies());
            }
        }
        if total > 0 && hazards * 5 > total * 2 {
            let ghost pre = self.spec_anomalies();
            self.report_anomaly(
                "BALANCE",
                "Excessive hazard density".to_owned(),
                AnomalySeverity::Warning,
                None,
            );
            proof {
                lemma_push_shape(pre, self.spec_anomalies());
                lemma_extend_trans(self.spec_anomalies(), pre, old(self).spec_anomalies());
            }
        }
        if total > 0 && walkable * 10 < total * 3 {
            let ghost pre = self.spec_anomalies();
            self.report_anomaly(
                "BALANCE",
                "Insufficient walkable area".to_owned(),
                AnomalySeverity::Critical,
                None,
            );
            proof {
                lemma_push_shape(pre, self.spec_anomalies());
                lemma_extend_trans(self.spec_anomalies(), pre, old(self).spec_anomalies());
            }
        }
    }
}

/// The coordinates of the records of one type, in placement order.
pub open spec fn spec_positions_of(s: Seq<ArenaCell>, m: ModuleId) -> Seq<(i32, i32)> {
    s.filter(|c: ArenaCell| c.module_id == m).map_values(|c: ArenaCell| (c.x, c.y))
}

/// The squared Euclidean distance between two cells.
pub open spec fn spec_dist2(p: (i32, i32), q: (i32, i32)) -> int {
    (p.0 - q.0) * (p.0 - q.0) + (p.1 - q.1) * (p.1 - q.1)
}

/// The Euclidean distance in fixed-point thousandths, rounded down.
pub open spec fn spec_dist_milli(p: (i32, i32), q: (i32, i32)) -> int {
    crate::isqrt::sqrt_floor((spec_dist2(p, q) * 1000000) as nat) as int
}

/// The sum of fixed-point distances from every listed position to `p`.
pub open spec fn spec_sum_dist_to(s: Seq<(i32, i32)>, p: (i32, i32)) -> int
    decreases s.len(),
{
    if s.len() == 0 {
        0
    } else {
        spec_sum_dist_to(s.drop_last(), p) + spec_dist_milli(s.last(), p)
    }
}

/// The sum of fixed-point distances over all unordered pairs.
pub open spec fn spec_pair_dist_sum(s: Seq<(i32, i32)>) -> int
    decreases s.len(),
{
    if s.len() <= 1 {
        0
    } else {
        spec_pair_dist_sum(s.drop_last()) + spec_sum_dist_to(s.drop_last(), s.last())
    }
}

pub open spec fn spec_pair_count(n: int) -> int {
    if n <= 0 {
        0
    } else {
        n * (n - 1) / 2
    }
}

/// The records of one type stand too close together: more than one of
/// them, with a mean pairwise distance under two cells (in thousandths).
pub open spec fn spec_clustered(s: Seq<ArenaCell>, m: ModuleId) -> bool {
    let ps = spec_positions_of(s, m);
    ps.len() > 1 && spec_pair_dist_sum(ps) < 2000 * spec_pair_count(ps.len() as int)
}

pub proof fn lemma_dist_milli_bound(p: (i32, i32), q: (i32, i32))
    ensures
        0 <= spec_dist_milli(p, q) < 0x800_0000_0000,
{
    let d2 = spec_dist2(p, q);
    assert(0 <= d2 < 0x2_0000_0000_0000_0000) by (nonlinear_arith)
        requires
            -0x1_0000_0000 < p.0 - q.0 && p.0 - q.0 < 0x1_0000_0000,
            -0x1_0000_0000 < p.1 - q.1 && p.1 - q.1 < 0x1_0000_0000,
            d2 == (p.0 - q.0) * (p.0 - q.0) + (p.1 - q.1) * (p.1 - q.1),
    ;
    let n = (d2 * 1000000) as nat;
    crate::isqrt::lemma_sqrt_floor_bounds(n);
    let r = crate::isqrt::sqrt_floor(n);
    if r >= 0x800_0000_0000 {
        assert(r * r >= 0x800_0000_0000 * 0x800_0000_0000) by (nonlinear_arith)
            requires
                r >= 0x800_0000_0000,
        ;
    }
}

pub proof fn lemma_sum_dist_to_bound(s: Seq<(i32, i32)>, p: (i32, i32))
    ensures
        0 <= spec_sum_dist_to(s, p) <= s.len() * 0x800_0000_0000,
    decreases s.len(),
{
    if s.len() > 0 {
        lemma_sum_dist_to_bound(s.drop_last(), p);
        lemma_dist_milli_bound(s.last(), p);
    }
}

pub proof fn lemma_pair_dist_sum_bound(s: Seq<(i32, i32)>)
    ensures
        0 <= spec_pair_dist_sum(s) <= s.len() * s.len() * 0x800_0000_0000,
    decreases s.len(),
{
    if s.len() > 1 {
        lemma_pair_dist_sum_bound(s.drop_last());
        lemma_sum_dist_to_bound(s.drop_last(), s.last());
        let l = s.len() as int;
        assert((l - 1) * (l - 1) * 0x800_0000_0000 + (l - 1) * 0x800_0000_0000 <= l * l
            * 0x800_0000_0000) by (nonlinear_arith)
            requires
                l >= 2,
        ;
    } else if s.len() == 1 {
        assert(s.len() * s.len() * 0x800_0000_0000 == 0x800_0000_0000);
    }
}

pub proof fn lemma_pair_sum_take_step(s: Seq<(i32, i32)>, i: int)
    requires
        0 <= i < s.len(),
    ensures
        spec_pair_dist_sum(s.take(i + 1)) == spec_pair_dist_sum(s.take(i)) + spec_sum_dist_to(
            s.take(i),
            s[i],
        ),
{
    assert(s.take(i + 1).drop_last() =~= s.take(i));
    assert(s.take(i + 1).last() == s[i]);
    if i == 0 {
        assert(spec_pair_dist_sum(s.take(1)) == 0);
        assert(spec_sum_dist_to(s.take(0), s[0]) == 0);
    }
}

pub proof fn lemma_sum_to_take_step(s: Seq<(i32, i32)>, j: int, p: (i32, i32))
    requires
        0 <= j < s.len(),
    ensures
        spec_sum_dist_to(s.take(j + 1), p) == spec_sum_dist_to(s.take(j), p) + spec_dist_milli(
            s[j],
            p,
        ),
{
    assert(s.take(j + 1).drop_last() =~= s.take(j));
    assert(s.take(j + 1).last() == s[j]);
}

/// The Euclidean distance between two cells, in thousandths, rounded down.
fn dist_milli(px: i32, py: i32, qx: i32, qy: i32) -> (r: u64)
    ensures
        r == spec_dist_milli((px, py), (qx, qy)),
        r < 0x800_0000_0000,
{
    let dx: i64 = px as i64 - qx as i64;
    let dy: i64 = py as i64 - qy as i64;
    proof {
        assert(0 <= (dx as int) * (dx as int) < 0x1_0000_0000_0000_0000) by (nonlinear_arith)
            requires
                -0x1_0000_0000 < (dx as int) && (dx as int) < 0x1_0000_0000,
        ;
        assert(0 <= (dy as int) * (dy as int) < 0x1_0000_0000_0000_0000) by (nonlinear_arith)
            requires
                -0x1_0000_0000 < (dy as int) && (dy as int) < 0x1_0000_0000,
        ;
    }
    let dx2: u128 = (dx as i128 * dx as i128) as u128;
    let dy2: u128 = (dy as i128 * dy as i128) as u128;
    let d2m: u128 = (dx2 + dy2) * 1_000_000;
    let root = crate::isqrt::isqrt_u128(d2m);
    proof {
        assert(d2m as int == spec_dist2((px, py), (qx, qy)) * 1000000);
        lemma_dist_milli_bound((px, py), (qx, qy));
        crate::isqrt::lemma_sqrt_floor_unique(d2m as nat, root as nat);
    }
    root as u64
}

/// The coordinates of every record of one type, in placement order.
pub fn collect_positions(arena: &Arena, m: ModuleId) -> (r: Vec<(i32, i32)>)
    ensures
        r@ == spec_positions_of(arena.modules@, m),
{
    let ghost keep = |c: ArenaCell| c.module_id == m;
    let ghost posf = |c: ArenaCell| (c.x, c.y);
    let mut out: Vec<(i32, i32)> = Vec::new();
    proof {
        reveal(Seq::filter);
        assert(arena.modules@.take(0).filter(keep) =~= Seq::<ArenaCell>::empty());
        assert(out@ =~= arena.modules@.take(0).filter(keep).map_values(posf));
    }
    let mut i: usize = 0;
    while i < arena.modules.len()
        invariant
            i <= arena.modules@.len(),
            out@ == arena.modules@.take(i as int).filter(keep).map_values(posf),
        decreases arena.modules@.len() - i,
    {
        proof {
            reveal(Seq::filter);
            assert(arena.modules@.take(i + 1).drop_last() =~= arena.modules@.take(i as int));
            assert(arena.modules@.take(i + 1).last() == arena.modules@[i as int]);
        }
        if arena.modules[i].module_id == m {
            out.push((arena.modules[i].x, arena.modules[i].y));
            proof {
                assert(out@ =~= arena.modules@.take(i + 1).filter(keep).map_values(posf));
            }
        } else {
            proof {
                assert(out@ =~= arena.modules@.take(i + 1).filter(keep).map_values(posf));
            }
        }
        i = i + 1;
    }
    proof {
        assert(arena.modules@.take(arena.modules@.len() as int) =~= arena.modules@);
    }
    out
}

/// The pairwise fixed-point distance sum and the number of pairs.
fn pair_distance_stats(ps: &Vec<(i32, i32)>) -> (r: (u128, u64))
    requires
        ps@.len() <= 0xffff_ffff,
    ensures
        r.0 == spec_pair_dist_sum(ps@),
        r.1 == spec_pair_count(ps@.len() as int),
{
    let mut sum: u128 = 0;
    let mut i: usize = 0;
    proof {
        assert(ps@.take(0) =~= Seq::<(i32, i32)>::empty());
    }
    while i < ps.len()
        invariant
            i <= ps@.len(),
            ps@.len() <= 0xffff_ffff,
            sum == spec_pair_dist_sum(ps@.take(i as int)),
        decreases ps@.len() - i,
    {
        let mut inner: u128 = 0;
        let mut j: usize = 0;
        proof {
            assert(ps@.take(i as int).take(0) =~= Seq::<(i32, i32)>::empty());
            assert(spec_sum_dist_to(ps@.take(i as int).take(0), ps@[i as int]) == 0);
        }
        while j < i
            invariant
                j <= i < ps@.len(),
                ps@.len() <= 0xffff_ffff,
                inner == spec_sum_dist_to(ps@.take(i as int).take(j as int), ps@[i as int]),
                sum == spec_pair_dist_sum(ps@.take(i as int)),
            decreases i - j,
        {
            let d = dist_milli(ps[j].0, ps[j].1, ps[i].0, ps[i].1);
            proof {
                lemma_sum_to_take_step(ps@.take(i as int), j as int, ps@[i as int]);
                assert(ps@.take(i as int)[j as int] == ps@[j as int]);
                lemma_sum_dist_to_bound(ps@.take(i as int).take(j as int), ps@[i as int]);
            }
            inner = inner + d as u128;
            j = j + 1;
        }
        proof {
            assert(ps@.take(i as int).take(i as int) =~= ps@.take(i as int));
            lemma_pair_sum_take_step(ps@, i as int);
            lemma_pair_dist_sum_bound(ps@.take(i as int));
            lemma_sum_dist_to_bound(ps@.take(i as int), ps@[i as int]);
            assert((sum as int) + (inner as int) < 0x1_0000_0000_0000_0000_0000_0000_0000_0000int)
                by (nonlinear_arith)
                requires
                    0 <= (sum as int) && (sum as int) <= (i as int) * (i as int)
                        * 0x800_0000_0000,
                    0 <= (inner as int) && (inner as int) <= (i as int) * 0x800_0000_0000,
                    0 <= (i as int) && (i as int) <= 0xffff_ffff,
            ;
        }
        sum = sum + inner;
        i = i + 1;
    }
    proof {
        assert(ps@.take(ps@.len() as int) =~= ps@);
    }
    let n: u64 = ps.len() as u64;
    proof {
        assert((n as int) * (n as int - 1) <= 0xffff_ffff * 0xffff_ffff) by (nonlinear_arith)
            requires
                0 <= (n as int) && (n as int) <= 0xffff_ffff,
        ;
    }
    let pairs: u64 = if n > 0 {
        n * (n - 1) / 2
    } else {
        0
    };
    proof {
        if n > 0 {
            assert(pairs as int == (ps@.len() as int) * (ps@.len() as int - 1) / 2);
        } else {
            assert(ps@.len() as int == 0);
            assert(spec_pair_count(0) == 0);
        }
    }
    (sum, pairs)
}

impl AnomalyMonitor {
    /// Hazard clustering: for the static hazard types, more than one
    /// record with a mean pairwise distance under two cells warns, one
    /// warning per crowded type.
    pub fn check_spatial_clustering(&mut self, arena: &Arena)
        requires
            arena.modules@.len() <= 0xffff_ffff,
        ensures
            anoms_extend(final(self).spec_anomalies(), old(self).spec_anomalies()),
            spec_has_critical(final(self).spec_anomalies()) == spec_has_critical(
                old(self).spec_anomalies(),
            ),
            final(self).spec_anomalies().len() == old(self).spec_anomalies().len() + (if
                spec_clustered(arena.modules@, ModuleId::HazardLavaPit) {
                1int
            } else {
                0int
            }) + (if spec_clustered(arena.modules@, ModuleId::HazardLaserEmitterStatic) {
                1int
            } else {
                0int
            }),
            final(self).spec_metrics() == old(self).spec_metrics(),
            final(self).spec_rules_applied() == old(self).spec_rules_applied(),
            final(self).spec_generation_start() == old(self).spec_generation_start(),
    {
        proof {
            lemma_extend_refl(self.spec_anomalies());
            arena.modules@.lemma_filter_len(|c: ArenaCell| c.module_id == ModuleId::HazardLavaPit);
            arena.modules@.lemma_filter_len(
                |c: ArenaCell| c.module_id == ModuleId::HazardLaserEmitterStatic,
            );
        }
        let lava = collect_positions(arena, ModuleId::HazardLavaPit);
        if lava.len() > 1 {
            let stats = pair_distance_stats(&lava);
            if stats.0 < 2000 * (stats.1 as u128) {
                let ghost pre = self.spec_anomalies();
                self.report_anomaly(
                    "SPATIAL",
                    "Hazard modules too clustered".to_owned(),
                    AnomalySeverity::Warning,
                    None,
                );
                proof {
                    lemma_push_shape(pre, self.spec_anomalies());
                    lemma_extend_trans(self.spec_anomalies(), pre, old(self).spec_anomalies());
                }
            }
        }
        let lasers = collect_positions(arena, ModuleId::HazardLaserEmitterStatic);
        if lasers.len() > 1 {
            let stats = pair_distance_stats(&lasers);
            if stats.0 < 2000 * (stats.1 as u128) {
                let ghost pre = self.spec_anomalies();
                self.report_anomaly(
                    "SPATIAL",
                    "Hazard modules too clustered".to_owned(),
                    AnomalySeverity::Warning,
                    None,
                );
                proof {
                    lemma_push_shape(pre, self.spec_anomalies());
                    lemma_extend_trans(self.spec_anomalies(), pre, old(self).spec_anomalies());
                }
            }
        }
    }

    /// Module distribution: a missing player module is critical; unmatched
    /// teleporter endpoints warn; clustered hazards warn.
    pub fn check_module_distribution(&mut self, arena: &Arena)
        requires
            arena.modules@.len() <= 0xffff_ffff,
        ensures
            anoms_extend(final(self).spec_anomalies(), old(self).spec_anomalies()),
            spec_has_critical(final(self).spec_anomalies()) <==> (spec_has_critical(
                old(self).spec_anomalies(),
            ) || spec_player_missing(arena.modules@)),
            final(self).spec_anomalies().len() == old(self).spec_anomalies().len() + (if
                spec_clustered(arena.modules@, ModuleId::HazardLavaPit) {
                1int
            } else {
                0int
            }) + (if spec_clustered(arena.modules@, ModuleId::HazardLaserEmitterStatic) {
                1int
            } else {
                0int
            }) + (if spec_player_missing(arena.modules@) {
                1int
            } else {
                0int
            }) + ({
                let tin = spec_count_type(arena.modules@, ModuleId::MoveTeleporterIn);
                let tout = spec_count_type(arena.modules@, ModuleId::MoveTeleporterOut);
                if tin != tout && (tin > 0 || tout > 0) {
                    1int
                } else {
                    0int
                }
            }),
            final(self).spec_metrics() == old(self).spec_metrics(),
            final(self).spec_rules_applied() == old(self).spec_rules_applied(),
            final(self).spec_generation_start() == old(self).spec_generation_start(),
    {
        proof {
            lemma_extend_refl(self.spec_anomalies());
            crate::arena::lemma_count_type_pos(arena.modules@, ModuleId::Player);
        }
        self.check_spatial_clustering(arena);
        let ghost mid = self.spec_anomalies();
        let players = arena.count_modules_by_type(&ModuleId::Player);
        if players == 0 {
            let ghost pre = self.spec_anomalies();
            self.report_anomaly(
                "MODULES",
                "Player module missing".to_owned(),
                AnomalySeverity::Critical,
                None,
            );
            proof {
                lemma_push_shape(pre, self.spec_anomalies());
                lemma_extend_trans(self.spec_anomalies(), pre, old(self).spec_anomalies());
            }
        }
        let tin = arena.count_modules_by_type(&ModuleId::MoveTeleporterIn);
        let tout = arena.count_modules_by_type(&ModuleId::MoveTeleporterOut);
        if tin != tout && (tin > 0 || tout > 0) {
            let ghost pre = self.spec_anomalies();
            self.report_anomaly(
                "MODULES",
                "Unmatched teleporter endpoints".to_owned(),
                AnomalySeverity::Warning,
                None,
            );
            proof {
                lemma_push_shape(pre, self.spec_anomalies());
                lemma_extend_trans(self.spec_anomalies(), pre, old(self).spec_anomalies());
            }
        }
    }

    /// Spatial coherence: an orb or floor button with no adjacent walkable
    /// surface at all is critical. The reachability survey runs afterwards
    /// and emits nothing.
    pub fn check_spatial_coherence(&mut self, arena: &Arena)
        requires
            arena.wf(),
        ensures
            anoms_extend(final(self).spec_anomalies(), old(self).spec_anomalies()),
            spec_has_critical(final(self).spec_anomalies()) <==> (spec_has_critical(
                old(self).spec_anomalies(),
            ) || spec_isolated_exists(*arena)),
            final(self).spec_anomalies().len() == old(self).spec_anomalies().len() + count_where(
                arena.modules@,
                |c: ArenaCell|
                    (c.module_id == ModuleId::OrbEnergy || c.module_id
                        == ModuleId::InteractButtonFloor) && spec_adjacent_walkable_count(
                        arena.modules@,
                        c.x as int,
                        c.y as int,
                    ) == 0,
            ),
            final(self).spec_metrics() == old(self).spec_metrics(),
            final(self).spec_rules_applied() == old(self).spec_rules_applied(),
            final(self).spec_generation_start() == old(self).spec_generation_start(),
    {
        let ghost isop = |c: ArenaCell|
            (c.module_id == ModuleId::OrbEnergy || c.module_id == ModuleId::InteractButtonFloor)
                && spec_adjacent_walkable_count(arena.modules@, c.x as int, c.y as int) == 0;
        proof {
            lemma_extend_refl(self.spec_anomalies());
            assert(arena.modules@.take(0) =~= Seq::<ArenaCell>::empty());
        }
        let mut i: usize = 0;
        while i < arena.modules.len()
            invariant
                i <= arena.modules@.len(),
                anoms_extend(self.spec_anomalies(), old(self).spec_anomalies()),
                spec_has_critical(self.spec_anomalies()) <==> (spec_has_critical(
                    old(self).spec_anomalies(),
                ) || exists|j: int|
                    0 <= j < i && ((#[trigger] arena.modules@[j]).module_id == ModuleId::OrbEnergy
                        || arena.modules@[j].module_id == ModuleId::InteractButtonFloor)
                        && spec_adjacent_walkable_count(
                        arena.modules@,
                        arena.modules@[j].x as int,
                        arena.modules@[j].y as int,
                    ) == 0),
                self.spec_anomalies().len() == old(self).spec_anomalies().len() + count_where(
                    arena.modules@.take(i as int),
                    isop,
                ),
                self.spec_metrics() == old(self).spec_metrics(),
                self.spec_rules_applied() == old(self).spec_rules_applied(),
                self.spec_generation_start() == old(self).spec_generation_start(),
            decreases arena.modules@.len() - i,
        {
            proof {
                crate::counting::lemma_count_where_take_step(arena.modules@, isop, i as int);
            }
            let cell_id = arena.modules[i].module_id;
            if matches!(cell_id, ModuleId::OrbEnergy | ModuleId::InteractButtonFloor) {
                let adj = count_adjacent_walkable(arena, arena.modules[i].x, arena.modules[i].y);
                if adj == 0 {
                    let ghost pre = self.spec_anomalies();
                    self.report_anomaly(
                        "SPATIAL",
                        "Isolated module with no adjacent walkable surfaces".to_owned(),
                        AnomalySeverity::Critical,
                        None,
                    );
                    proof {
                        lemma_push_shape(pre, self.spec_anomalies());
                        lemma_extend_trans(
                            self.spec_anomalies(),
                            pre,
                            old(self).spec_anomalies(),
                        );
                    }
                }
            }
            i = i + 1;
        }
        proof {
            crate::counting::lemma_count_where_take_all(arena.modules@, isop);
        }
        self.check_reachability(arena);
    }

    /// The reachability survey: the unreachable-orb count is computed but
    /// no finding is emitted here; the standalone audit performs the
    /// equivalent check and does emit.
    pub fn check_reachability(&mut self, arena: &Arena)
        requires
            arena.wf(),
        ensures
            final(self).spec_anomalies() == old(self).spec_anomalies(),
            final(self).spec_metrics() == old(self).spec_metrics(),
            final(self).spec_rules_applied() == old(self).spec_rules_applied(),
            final(self).spec_generation_start() == old(self).spec_generation_start(),
    {
        let _unreachable = unreachable_orb_count(arena);
    }

    /// The full audit of a finished arena: structural expectations, rule
    /// coherence, balance, module distribution and spatial coherence, each
    /// independent. Exactly the screened critical conditions can newly
    /// block acceptance.
    pub fn validate_arena(&mut self, arena: &Arena)
        requires
            arena.wf(),
            arena.modules@.len() <= 0xffff_ffff,
        ensures
            anoms_extend(final(self).spec_anomalies(), old(self).spec_anomalies()),
            spec_has_critical(final(self).spec_anomalies()) <==> (spec_has_critical(
                old(self).spec_anomalies(),
            ) || spec_validation_critical(*arena)),
            final(self).spec_rules_applied() == old(self).spec_rules_applied(),
            final(self).spec_generation_start() == old(self).spec_generation_start(),
            metric_lookup(final(self).spec_metrics(), "orb_density"@) == Some(
                spec_density_permille(
                    spec_count_type(arena.modules@, ModuleId::OrbEnergy),
                    arena.spec_total_cells(),
                ),
            ),
            metric_lookup(final(self).spec_metrics(), "hazard_density"@) == Some(
                spec_density_permille(
                    spec_count_hazard(arena.modules@),
                    arena.spec_total_cells(),
                ),
            ),
            metric_lookup(final(self).spec_metrics(), "walkable_ratio"@) == Some(
                spec_density_permille(
                    spec_count_walkable(arena.modules@),
                    arena.spec_total_cells(),
                ),
            ),
            forall|k: Seq<char>|
                k != "orb_density"@ && k != "hazard_density"@ && k != "walkable_ratio"@
                    ==> metric_lookup(final(self).spec_metrics(), k) == metric_lookup(
                    old(self).spec_metrics(),
                    k,
                ),
    {
        let ghost a0 = self.spec_anomalies();
        self.check_structural_integrity(arena);
        let ghost a1 = self.spec_anomalies();
        self.check_rule_compatibility(arena);
        let ghost a2 = self.spec_anomalies();
        self.check_gameplay_balance(arena);
        let ghost a3 = self.spec_anomalies();
        self.check_module_distribution(arena);
        let ghost a4 = self.spec_anomalies();
        self.check_spatial_coherence(arena);
        proof {
            lemma_extend_trans(self.spec_anomalies(), a4, a3);
            lemma_extend_trans(self.spec_anomalies(), a3, a2);
            lemma_extend_trans(self.spec_anomalies(), a2, a1);
            lemma_extend_trans(self.spec_anomalies(), a1, a0);
        }
    }
}

/// The monitor-flavoured reachability survey as a named check: how many
/// energy orbs no walk connects to the first player spawn. Without a
/// player spawn the survey is vacuous and reports zero.
pub fn unreachable_orb_count(arena: &Arena) -> (r: usize)
    requires
        arena.wf(),
    ensures
        match crate::arena::spec_first_of_type(arena.modules@, ModuleId::Player) {
            Some(p) => r == count_where(
                arena.modules@,
                |c: ArenaCell|
                    c.module_id == ModuleId::OrbEnergy && !crate::reach::spec_reachable(
                        *arena,
                        false,
                        p.x as int,
                        p.y as int,
                        c.x as int,
                        c.y as int,
                    ),
            ),
            None => r == 0,
        },
{
    let player = arena.get_player_position();
    match player {
        None => 0,
        Some((px, py)) => {
            let ghost pc = crate::arena::spec_first_of_type(
                arena.modules@,
                ModuleId::Player,
            )->Some_0;
            let reached = crate::reach::reachable_positions(arena, px, py, false);
            let ghost f = |c: ArenaCell|
                c.module_id == ModuleId::OrbEnergy && !crate::reach::spec_reachable(
                    *arena,
                    false,
                    pc.x as int,
                    pc.y as int,
                    c.x as int,
                    c.y as int,
                );
            let mut count: usize = 0;
            let mut i: usize = 0;
            while i < arena.modules.len()
                invariant
                    i <= arena.modules@.len(),
                    count == count_where(arena.modules@.take(i as int), f),
                    count <= i,
                decreases arena.modules@.len() - i,
            {
                proof {
                    lemma_count_where_take_step(arena.modules@, f, i as int);
                }
                let c = &arena.modules[i];
                if matches!(c.module_id, ModuleId::OrbEnergy) {
                    let present = crate::reach::contains_pos_pub(&reached, c.x, c.y);
                    proof {
                        if present {
                            let m = choose|m: int|
                                0 <= m < reached@.len() && (#[trigger] reached@[m]).0
                                    == c.x as int && reached@[m].1 == c.y as int;
                            assert(crate::reach::spec_reachable(
                                *arena,
                                false,
                                px as int,
                                py as int,
                                reached@[m].0 as int,
                                reached@[m].1 as int,
                            ));
                        } else {
                            if crate::reach::spec_reachable(
                                *arena,
                                false,
                                px as int,
                                py as int,
                                c.x as int,
                                c.y as int,
                            ) {
                                crate::reach::lemma_reachable_in_closed(
                                    *arena,
                                    false,
                                    reached@,
                                    px as int,
                                    py as int,
                                    c.x as int,
                                    c.y as int,
                                );
                            }
                        }
                    }
                    if !present {
                        count = count + 1;
                    }
                }
                i = i + 1;
            }
            proof {
                lemma_count_where_take_all(arena.modules@, f);
            }
            count
        },
    }
}

/// A digest of the monitor's state: totals per severity, findings per
/// category, and the metric table.
#[derive(Debug)]
pub struct MonitoringSummary {
    pub total_anomalies: usize,
    pub critical_count: usize,
    pub warning_count: usize,
    pub info_count: usize,
    pub by_category: Vec<(String, usize)>,
    pub metrics: Vec<(String, i64)>,
}

/// The saturated sum of two metric values.
pub open spec fn spec_sat_add(a: i64, b: i64) -> i64 {
    if a + b > i64::MAX {
        i64::MAX
    } else if a + b < i64::MIN {
        i64::MIN
    } else {
        (a + b) as i64
    }
}

/// What a metric name resolves to after folding an imported table into a
/// base table entry by entry, adding values (saturating) per name.
pub open spec fn spec_merge_lookup(
    base: Seq<(String, i64)>,
    other: Seq<(String, i64)>,
    k: Seq<char>,
) -> Option<i64>
    decreases other.len(),
{
    if other.len() == 0 {
        metric_lookup(base, k)
    } else {
        let prev = spec_merge_lookup(base, other.drop_last(), k);
        if other.last().0@ == k {
            match prev {
                Some(a) => Some(spec_sat_add(a, other.last().1)),
                None => Some(other.last().1),
            }
        } else {
            prev
        }
    }
}

impl AnomalyMonitor {
    /// Fold another monitor's findings and metrics into this one: the
    /// findings are appended in order, metric values are added
    /// (saturating) per name.
    pub fn merge(&mut self, other: AnomalyMonitor)
        ensures
            final(self).spec_anomalies() == old(self).spec_anomalies() + other.spec_anomalies(),
            final(self).spec_rules_applied() == old(self).spec_rules_applied(),
            final(self).spec_generation_start() == old(self).spec_generation_start(),
            forall|k: Seq<char>|
                #![trigger metric_lookup(final(self).spec_metrics(), k)]
                metric_lookup(final(self).spec_metrics(), k) == spec_merge_lookup(
                    old(self).spec_metrics(),
                    other.spec_metrics(),
                    k,
                ),
    {
        let AnomalyMonitor { anomalies: mut oa, metrics: om, rules_applied: _, generation_start: _ }
            = other;
        let ghost other_anoms = oa@;
        let ghost other_metrics = om@;
        self.anomalies.append(&mut oa);
        let mut i: usize = 0;
        while i < om.len()
            invariant
                i <= om@.len(),
                om@ == other_metrics,
                self.anomalies@ == old(self).anomalies@ + other_anoms,
                self.rules_applied@ == old(self).rules_applied@,
                self.generation_start == old(self).generation_start,
                forall|k: Seq<char>|
                    #![trigger metric_lookup(self.metrics@, k)]
                    metric_lookup(self.metrics@, k) == spec_merge_lookup(
                        old(self).metrics@,
                        other_metrics.take(i as int),
                        k,
                    ),
            decreases om@.len() - i,
        {
            let name = om[i].0.clone();
            let value = om[i].1;
            let ghost pre = self.metrics@;
            let existing = self.lookup_metric_value(&name);
            match existing {
                Some(cur) => {
                    let combined: i64 = if value >= 0 {
                        if cur > i64::MAX - value {
                            i64::MAX
                        } else {
                            cur + value
                        }
                    } else {
                        if cur < i64::MIN - value {
                            i64::MIN
                        } else {
                            cur + value
                        }
                    };
                    self.set_metric_raw(&name, combined);
                },
                None => {
                    self.set_metric_raw(&name, value);
                },
            }
            proof {
                assert forall|k: Seq<char>|
                    #![trigger metric_lookup(self.metrics@, k)]
                    metric_lookup(self.metrics@, k) == spec_merge_lookup(
                        old(self).metrics@,
                        other_metrics.take(i + 1),
                        k,
                    ) by {
                    assert(other_metrics.take(i + 1).drop_last() =~= other_metrics.take(i as int));
                    assert(other_metrics.take(i + 1).last() == other_metrics[i as int]);
                }
            }
            i = i + 1;
        }
        proof {
            assert(other_metrics.take(other_metrics.len() as int) =~= other_metrics);
        }
    }

    /// The stored value under a metric name, if any.
    fn lookup_metric_value(&self, name: &String) -> (r: Option<i64>)
        ensures
            r == metric_lookup(self.spec_metrics(), name@),
    {
        let mut i: usize = 0;
        while i < self.metrics.len()
            invariant
                i <= self.metrics@.len(),
                forall|j: int| 0 <= j < i ==> (#[trigger] self.metrics@[j]).0@ != name@,
            decreases self.metrics@.len() - i,
        {
            if self.metrics[i].0 == *name {
                proof {
                    lemma_metric_lookup_first(self.metrics@, name@, i as int);
                }
                return Some(self.metrics[i].1);
            }
            i = i + 1;
        }
        proof {
            lemma_metric_lookup_none(self.metrics@, name@);
        }
        None
    }

    /// Store a metric value under a name, overwriting an earlier entry;
    /// nothing else changes.
    fn set_metric_raw(&mut self, name: &String, value: i64)
        ensures
            metric_lookup(final(self).spec_metrics(), name@) == Some(value),
            forall|k: Seq<char>|
                k != name@ ==> metric_lookup(final(self).spec_metrics(), k) == metric_lookup(
                    old(self).spec_metrics(),
                    k,
                ),
            final(self).spec_anomalies() == old(self).spec_anomalies(),
            final(self).spec_rules_applied() == old(self).spec_rules_applied(),
            final(self).spec_generation_start() == old(self).spec_generation_start(),
    {
        self.record_metric(name.as_str(), value);
    }

    /// The digest: exact severity totals, the categories of the findings,
    /// and a copy of the metric table.
    pub fn get_summary(&self) -> (summary: MonitoringSummary)
        requires
            self.spec_anomalies().len() <= 0xffff_ffff,
        ensures
            summary.total_anomalies == self.spec_anomalies().len(),
            summary.critical_count == count_where(
                self.spec_anomalies(),
                |a: Anomaly| a.severity == AnomalySeverity::Critical,
            ),
            summary.warning_count == count_where(
                self.spec_anomalies(),
                |a: Anomaly| a.severity == AnomalySeverity::Warning,
            ),
            summary.info_count == count_where(
                self.spec_anomalies(),
                |a: Anomaly| a.severity == AnomalySeverity::Info,
            ),
            summary.metrics@ == self.spec_metrics(),
            forall|a: int, b: int|
                0 <= a < b < summary.by_category@.len() ==> (#[trigger] summary.by_category@[a]).0@ != (#[trigger] summary.by_category@[b]).0@,
    {
        let ghost critp = |a: Anomaly| a.severity == AnomalySeverity::Critical;
        let ghost warnp = |a: Anomaly| a.severity == AnomalySeverity::Warning;
        let ghost infop = |a: Anomaly| a.severity == AnomalySeverity::Info;
        let mut criticals: usize = 0;
        let mut warnings: usize = 0;
        let mut infos: usize = 0;
        let mut by_category: Vec<(String, usize)> = Vec::new();
        let mut i: usize = 0;
        while i < self.anomalies.len()
            invariant
                i <= self.anomalies@.len(),
                self.anomalies@.len() <= 0xffff_ffff,
                criticals == count_where(self.anomalies@.take(i as int), critp),
                warnings == count_where(self.anomalies@.take(i as int), warnp),
                infos == count_where(self.anomalies@.take(i as int), infop),
                criticals <= i && warnings <= i && infos <= i,
                forall|a: int, b: int|
                    0 <= a < b < by_category@.len() ==> (#[trigger] by_category@[a]).0@ != (
                    #[trigger] by_category@[b]).0@,
            decreases self.anomalies@.len() - i,
        {
            proof {
                lemma_count_where_take_step(self.anomalies@, critp, i as int);
                lemma_count_where_take_step(self.anomalies@, warnp, i as int);
                lemma_count_where_take_step(self.anomalies@, infop, i as int);
            }
            match self.anomalies[i].severity {
                AnomalySeverity::Critical => {
                    criticals = criticals + 1;
                },
                AnomalySeverity::Warning => {
                    warnings = warnings + 1;
                },
                AnomalySeverity::Info => {
                    infos = infos + 1;
                },
            }
            // bump (or open) the category bucket
            let mut found: bool = false;
            let mut j: usize = 0;
            while j < by_category.len()
                invariant
                    j <= by_category@.len(),
                    i < self.anomalies@.len(),
                    forall|a: int, b: int|
                        0 <= a < b < by_category@.len() ==> (#[trigger] by_category@[a]).0@ != (
                        #[trigger] by_category@[b]).0@,
                    found ==> exists|a: int|
                        0 <= a < by_category@.len() && (#[trigger] by_category@[a]).0@
                            == self.anomalies@[i as int].category@,
                    !found ==> forall|a: int|
                        0 <= a < j ==> (#[trigger] by_category@[a]).0@ != self.anomalies@[i as int].category@,
                decreases by_category@.len() - j,
            {
                if by_category[j].0 == self.anomalies[i].category {
                    let n = by_category[j].1;
                    let name = by_category[j].0.clone();
                    let ghost preb = by_category@;
                    by_category.set(j, (name, if n < usize::MAX {
                        n + 1
                    } else {
                        n
                    }));
                    found = true;
                    proof {
                        assert forall|a: int, b: int|
                            0 <= a < b < by_category@.len() implies (#[trigger] by_category@[a]).0@ != (#[trigger] by_category@[b]).0@ by {
                            assert(by_category@[a].0@ == preb[a].0@);
                            assert(by_category@[b].0@ == preb[b].0@);
                        }
                        assert(by_category@[j as int].0@ == self.anomalies@[i as int].category@);
                    }
                    break ;
                }
                j = j + 1;
            }
            if !found {
                let ghost preb = by_category@;
                by_category.push((self.anomalies[i].category.clone(), 1));
                proof {
                    assert forall|a: int, b: int|
                        0 <= a < b < by_category@.len() implies (#[trigger] by_category@[a]).0@
                        != (#[trigger] by_category@[b]).0@ by {
                        if b == by_category@.len() - 1 {
                            assert(by_category@[a].0@ == preb[a].0@);
                            assert(by_category@[b].0@ == self.anomalies@[i as int].category@);
                        } else {
                            assert(by_category@[a].0@ == preb[a].0@);
                            assert(by_category@[b].0@ == preb[b].0@);
                        }
                    }
                }
            }
            i = i + 1;
        }
        proof {
            lemma_count_where_take_all(self.anomalies@, critp);
            lemma_count_where_take_all(self.anomalies@, warnp);
            lemma_count_where_take_all(self.anomalies@, infop);
        }
        let metrics_copy = copy_metrics(&self.metrics);
        MonitoringSummary {
            total_anomalies: self.anomalies.len(),
            critical_count: criticals,
            warning_count: warnings,
            info_count: infos,
            by_category,
            metrics: metrics_copy,
        }
    }
}

/// An exact copy of the metric table.
fn copy_metrics(v: &Vec<(String, i64)>) -> (r: Vec<(String, i64)>)
    ensures
        r@ == v@,
{
    let mut out: Vec<(String, i64)> = Vec::new();
    let mut i: usize = 0;
    while i < v.len()
        invariant
            i <= v@.len(),
            out@ =~= v@.take(i as int),
        decreases v@.len() - i,
    {
        out.push((v[i].0.clone(), v[i].1));
        proof {
            assert(v@.take(i + 1) =~= v@.take(i as int).push(v@[i as int]));
        }
        i = i + 1;
    }
    proof {
        assert(v@.take(v@.len() as int) =~= v@);
    }
    out
}

/// Extending the imported prefix by one entry changes only that entry's
/// name, and only when the name was not seen earlier in the prefix.
proof fn lemma_metric_lookup_take_extend(other: Seq<(String, i64)>, i: int, k: Seq<char>)
    requires
        0 <= i < other.len(),
    ensures
        metric_lookup(other.take(i + 1), k) == if metric_lookup(other.take(i), k) is Some {
            metric_lookup(other.take(i), k)
        } else if other[i].0@ == k {
            Some(other[i].1)
        } else {
            None::<i64>
        },
{
    assert(other.take(i + 1) =~= other.take(i).push(other[i]));
    lemma_metric_lookup_push(other.take(i), other[i], k);
}

} // verus!
