//! Tests of the anomaly monitor: validation checks, the acceptance gate,
//! metrics and merging.

use arena_gen::arena::Arena;
use arena_gen::catalog::RulesDatabase;
use arena_gen::ids::{EnvVarId, ModuleId, RuleId};
use arena_gen::monitor::{unreachable_orb_count, AnomalyMonitor, AnomalySeverity};

fn grid(width: u32, height: u32) -> Arena {
    Arena::new(width, height, 0)
}

#[test]
fn missing_player_is_critical() {
    let mut arena = grid(5, 5);
    arena.add_module(0, 0, ModuleId::FloorStd, None);
    let mut monitor = AnomalyMonitor::new();
    monitor.validate_arena(&arena);
    assert!(monitor.has_critical_anomalies());
}

#[test]
fn out_of_bounds_module_is_critical() {
    let mut arena = grid(5, 5);
    arena.add_module(2, 2, ModuleId::Player, None);
    for x in 0..5 {
        for y in 0..5 {
            if (x, y) != (2, 2) {
                arena.add_module(x, y, ModuleId::FloorStd, None);
            }
        }
    }
    arena.add_module(9, 9, ModuleId::FloorStd, None);
    let mut monitor = AnomalyMonitor::new();
    monitor.validate_arena(&arena);
    assert!(monitor.has_critical_anomalies());
    let bounds = monitor
        .get_anomalies()
        .iter()
        .any(|a| a.category == "BOUNDS" && a.severity == AnomalySeverity::Critical);
    assert!(bounds);
}

#[test]
fn incompatible_rules_are_critical() {
    let rules = RulesDatabase::new();
    let no_jump = rules.get_rule(&RuleId::NoJump).expect("rule exists").duplicate();
    let moon = rules.get_rule(&RuleId::MoonGravity).expect("rule exists").duplicate();
    let mut arena = grid(5, 5);
    arena.add_rule(no_jump);
    arena.add_rule(moon);
    let mut monitor = AnomalyMonitor::new();
    monitor.check_rule_compatibility(&arena);
    assert!(monitor.has_critical_anomalies());
    let flagged = monitor
        .get_anomalies()
        .iter()
        .any(|a| a.category == "RULES" && a.severity == AnomalySeverity::Critical);
    assert!(flagged);
}

#[test]
fn compatible_rules_pass() {
    let rules = RulesDatabase::new();
    let speed = rules.get_rule(&RuleId::SpeedUp).expect("rule exists").duplicate();
    let lava = rules.get_rule(&RuleId::LavaFloor).expect("rule exists").duplicate();
    let mut arena = grid(5, 5);
    arena.add_module(0, 0, ModuleId::HazardLavaPit, None);
    arena.add_rule(speed);
    arena.add_rule(lava);
    let mut monitor = AnomalyMonitor::new();
    monitor.check_rule_compatibility(&arena);
    assert!(!monitor.has_critical_anomalies());
}

#[test]
fn low_walkable_ratio_is_critical() {
    let mut arena = grid(4, 4);
    arena.add_module(0, 0, ModuleId::Player, None);
    arena.add_module(1, 0, ModuleId::FloorStd, None);
    let mut monitor = AnomalyMonitor::new();
    monitor.check_gameplay_balance(&arena);
    assert!(monitor.has_critical_anomalies());
}

#[test]
fn healthy_balance_is_not_critical() {
    let mut arena = grid(3, 3);
    for x in 0..3 {
        for y in 0..3 {
            if (x, y) != (0, 0) {
                arena.add_module(x, y, ModuleId::FloorStd, None);
            }
        }
    }
    arena.add_module(0, 0, ModuleId::OrbEnergy, None);
    let mut monitor = AnomalyMonitor::new();
    monitor.check_gameplay_balance(&arena);
    assert!(!monitor.has_critical_anomalies());
}

#[test]
fn isolated_orb_is_critical() {
    let mut arena = grid(5, 5);
    arena.add_module(4, 4, ModuleId::OrbEnergy, None);
    let mut monitor = AnomalyMonitor::new();
    monitor.check_spatial_coherence(&arena);
    assert!(monitor.has_critical_anomalies());
}

#[test]
fn orb_next_to_floor_is_coherent() {
    let mut arena = grid(5, 5);
    arena.add_module(1, 1, ModuleId::OrbEnergy, None);
    arena.add_module(1, 2, ModuleId::FloorStd, None);
    let mut monitor = AnomalyMonitor::new();
    monitor.check_spatial_coherence(&arena);
    assert!(!monitor.has_critical_anomalies());
}

#[test]
fn teleporter_mismatch_warns() {
    let mut arena = grid(5, 5);
    arena.add_module(0, 0, ModuleId::Player, None);
    arena.add_module(1, 1, ModuleId::MoveTeleporterIn, None);
    let mut monitor = AnomalyMonitor::new();
    monitor.check_module_distribution(&arena);
    let warned = monitor
        .get_anomalies()
        .iter()
        .any(|a| a.category == "MODULES" && a.severity == AnomalySeverity::Warning);
    assert!(warned);
}

#[test]
fn clustered_hazards_warn() {
    let mut arena = grid(6, 6);
    arena.add_module(0, 0, ModuleId::HazardLavaPit, None);
    arena.add_module(1, 0, ModuleId::HazardLavaPit, None);
    let mut monitor = AnomalyMonitor::new();
    monitor.check_spatial_clustering(&arena);
    let clustered = monitor
        .get_anomalies()
        .iter()
        .any(|a| a.category == "SPATIAL" && a.severity == AnomalySeverity::Warning);
    assert!(clustered);
}

#[test]
fn spread_hazards_do_not_warn() {
    let mut arena = grid(12, 12);
    arena.add_module(0, 0, ModuleId::HazardLavaPit, None);
    arena.add_module(11, 11, ModuleId::HazardLavaPit, None);
    let mut monitor = AnomalyMonitor::new();
    monitor.check_spatial_clustering(&arena);
    assert_eq!(monitor.get_anomalies().len(), 0);
}

#[test]
fn reachability_survey_emits_nothing() {
    let mut arena = grid(5, 5);
    arena.add_module(0, 0, ModuleId::Player, None);
    arena.add_module(4, 4, ModuleId::OrbEnergy, None);
    assert_eq!(unreachable_orb_count(&arena), 1);
    let mut monitor = AnomalyMonitor::new();
    monitor.check_reachability(&arena);
    assert_eq!(monitor.get_anomalies().len(), 0);
}

#[test]
fn reachable_orb_not_counted() {
    let mut arena = grid(5, 5);
    arena.add_module(0, 0, ModuleId::Player, None);
    arena.add_module(1, 0, ModuleId::FloorStd, None);
    arena.add_module(2, 0, ModuleId::OrbEnergy, None);
    assert_eq!(unreachable_orb_count(&arena), 0);
}

#[test]
fn metrics_overwrite_and_read_back() {
    let mut monitor = AnomalyMonitor::new();
    monitor.record_metric("orb_density", 120);
    monitor.record_metric("orb_density", 250);
    let metrics = monitor.get_metrics();
    assert_eq!(metrics.len(), 1);
    assert_eq!(metrics[0].0, "orb_density");
    assert_eq!(metrics[0].1, 250);
}

#[test]
fn merge_appends_findings_and_adds_metrics() {
    let mut left = AnomalyMonitor::new();
    left.report_anomaly("BALANCE", "left finding".to_string(), AnomalySeverity::Info, None);
    left.record_metric("shared", 10);
    let mut right = AnomalyMonitor::new();
    right.report_anomaly(
        "RULES",
        "right finding".to_string(),
        AnomalySeverity::Critical,
        None,
    );
    right.record_metric("shared", 32);
    right.record_metric("only_right", 5);
    left.merge(right);
    assert_eq!(left.get_anomalies().len(), 2);
    assert!(left.has_critical_anomalies());
    let metrics = left.get_metrics();
    let shared = metrics.iter().find(|m| m.0 == "shared").expect("shared metric");
    assert_eq!(shared.1, 42);
    let only = metrics.iter().find(|m| m.0 == "only_right").expect("imported metric");
    assert_eq!(only.1, 5);
}

#[test]
fn summary_counts_by_severity() {
    let mut monitor = AnomalyMonitor::new();
    monitor.report_anomaly("A", "one".to_string(), AnomalySeverity::Critical, None);
    monitor.report_anomaly("A", "two".to_string(), AnomalySeverity::Warning, None);
    monitor.report_anomaly("B", "three".to_string(), AnomalySeverity::Warning, None);
    let summary = monitor.get_summary();
    assert_eq!(summary.total_anomalies, 3);
    assert_eq!(summary.critical_count, 1);
    assert_eq!(summary.warning_count, 2);
    assert_eq!(summary.info_count, 0);
    assert_eq!(summary.by_category.len(), 2);
    let a = summary.by_category.iter().find(|c| c.0 == "A").expect("category A");
    assert_eq!(a.1, 2);
}

#[test]
fn timing_check_emits_by_threshold() {
    let mut monitor = AnomalyMonitor::new();
    monitor.start_generation();
    monitor.check_generation_time();
    // an immediate re-check stays well under the soft budget
    assert_eq!(monitor.get_anomalies().len(), 0);
}

#[test]
fn environment_values_read_back() {
    let mut arena = grid(4, 4);
    arena.set_env_variable(EnvVarId::Gravity, 900);
    arena.set_env_variable(EnvVarId::GameSpeed, 1500);
    arena.set_env_variable(EnvVarId::Gravity, 1000);
    assert_eq!(arena.get_env_variable(&EnvVarId::Gravity), Some(1000));
    assert_eq!(arena.get_env_variable(&EnvVarId::GameSpeed), Some(1500));
}
