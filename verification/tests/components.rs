//! Tests of the leaf components: catalogs, the layout filler, the
//! deterministic random source, fixed-point square roots and errors.

use arena_gen::catalog::{EnvVarsDatabase, ModulesDatabase, RulesDatabase};
use arena_gen::errors::ArenaGenerationError;
use arena_gen::filler::LayoutFiller;
use arena_gen::ids::{EnvVarId, ModuleId, RuleId};
use arena_gen::isqrt::isqrt_u128;
use arena_gen::monitor::AnomalyMonitor;
use arena_gen::rng::DetRng;

#[test]
fn rules_catalog_contents() {
    let rules = RulesDatabase::new();
    assert_eq!(rules.get_all_rules().len(), 9);
    let no_jump = rules.get_rule(&RuleId::NoJump).expect("rule exists");
    assert_eq!(no_jump.name, "No Jump");
    assert_eq!(
        no_jump.incompatible_with,
        vec![RuleId::LowJump, RuleId::HighJump, RuleId::MoonGravity]
    );
    let moon = rules.get_rule(&RuleId::MoonGravity).expect("rule exists");
    assert_eq!(moon.incompatible_with, vec![RuleId::NoJump]);
    assert!(moon.tags.iter().any(|t| t == "physics"));
}

#[test]
fn incompatibility_is_symmetric_in_catalog() {
    let rules = RulesDatabase::new();
    let all = rules.get_all_rules();
    for a in all.iter() {
        for b in all.iter() {
            if a.incompatible_with.contains(&b.id) {
                assert!(b.incompatible_with.contains(&a.id));
            }
        }
    }
}

#[test]
fn env_catalog_contents() {
    let vars = EnvVarsDatabase::new();
    assert_eq!(vars.get_all_variables().len(), 2);
    let gravity = vars.get_variable(&EnvVarId::Gravity).expect("variable exists");
    assert_eq!(gravity.default_value_milli, 1000);
    assert_eq!(gravity.range_min_milli, 200);
    assert_eq!(gravity.range_max_milli, 3000);
    let speed = vars.get_variable(&EnvVarId::GameSpeed).expect("variable exists");
    assert_eq!(speed.range_min_milli, 500);
    assert_eq!(speed.range_max_milli, 2000);
}

#[test]
fn modules_catalog_contents() {
    let modules = ModulesDatabase::new();
    assert_eq!(modules.get_all_modules().len(), 21);
    let floor = modules.get_module(&ModuleId::FloorStd).expect("module exists");
    assert_eq!(floor.wfc_weight, Some(30));
    assert!(floor.tags.iter().any(|t| t == "walkable"));
    let weighted = modules.get_weighted_modules();
    assert_eq!(weighted.len(), 21);
    let walkable = modules.get_modules_by_tag("walkable");
    assert!(walkable.len() >= 4);
    for def in walkable {
        assert!(def.tags.iter().any(|t| t == "walkable"));
    }
}

#[test]
fn filler_meets_minimum_constraints() {
    let mut filler = LayoutFiller::new(8, 8);
    filler.add_module_constraint(ModuleId::FloorStd, 30, &vec![]);
    filler.add_constraint("min_lava_pits", 2);
    filler.add_constraint("min_orbs", 5);
    let mut rng = DetRng::new(9);
    let mut monitor = AnomalyMonitor::new();
    let layout = filler.generate(&mut rng, &mut monitor);
    let lava = layout
        .iter()
        .filter(|e| e.2 == ModuleId::HazardLavaPit)
        .count();
    let orbs = layout.iter().filter(|e| e.2 == ModuleId::OrbEnergy).count();
    assert!(lava >= 2);
    assert!(orbs >= 5);
    for e in &layout {
        assert!((0..8).contains(&e.0));
        assert!((0..8).contains(&e.1));
        assert_ne!(e.2, ModuleId::Player);
    }
}

#[test]
fn filler_without_orb_constraint_places_no_orbs() {
    let filler = LayoutFiller::new(8, 8);
    let mut rng = DetRng::new(10);
    let mut monitor = AnomalyMonitor::new();
    let layout = filler.generate(&mut rng, &mut monitor);
    assert_eq!(layout.iter().filter(|e| e.2 == ModuleId::OrbEnergy).count(), 0);
}

#[test]
fn rng_streams_are_reproducible() {
    let mut a = DetRng::new(321);
    let mut b = DetRng::new(321);
    for _ in 0..32 {
        assert_eq!(a.next_u64(), b.next_u64());
    }
    let mut c = DetRng::new(322);
    let mut d = DetRng::new(321);
    let mut diverged = false;
    for _ in 0..8 {
        if c.next_u64() != d.next_u64() {
            diverged = true;
        }
    }
    assert!(diverged);
}

#[test]
fn bounded_draws_stay_below_bound() {
    let mut rng = DetRng::new(5);
    for bound in [1u64, 2, 3, 10, 1000] {
        for _ in 0..16 {
            assert!(rng.next_below(bound) < bound);
        }
    }
}

#[test]
fn integer_square_roots_floor() {
    assert_eq!(isqrt_u128(0), 0);
    assert_eq!(isqrt_u128(1), 1);
    assert_eq!(isqrt_u128(3), 1);
    assert_eq!(isqrt_u128(4), 2);
    assert_eq!(isqrt_u128(1_000_000), 1000);
    assert_eq!(isqrt_u128(999_999), 999);
    assert_eq!(isqrt_u128(u64::MAX as u128), 4294967295);
}

#[test]
fn error_descriptions() {
    let failed = ArenaGenerationError::GenerationFailed {
        message: "three blocking findings".to_string(),
    };
    assert_eq!(
        failed.describe(),
        "Arena generation failed: three blocking findings"
    );
    let config = ArenaGenerationError::InvalidConfiguration {
        details: "width is not a number".to_string(),
    };
    assert_eq!(
        config.describe(),
        "Invalid configuration: width is not a number"
    );
    let constraint = ArenaGenerationError::ConstraintViolation {
        constraint: "min_orbs".to_string(),
    };
    assert_eq!(constraint.describe(), "Constraint violation: min_orbs");
    let anomaly = ArenaGenerationError::CriticalAnomaly {
        anomaly: "isolated orb".to_string(),
    };
    assert_eq!(anomaly.describe(), "Critical anomaly detected: isolated orb");
    let timeout = ArenaGenerationError::Timeout { max_time_ms: 10_000 };
    assert_eq!(timeout.describe(), "Timeout during generation");
}

#[test]
fn performance_metrics_counters() {
    let mut metrics = arena_gen::metrics::PerformanceMetrics::new();
    metrics.increment_wfc_iterations();
    metrics.increment_wfc_iterations();
    metrics.increment_constraint_checks();
    metrics.increment_anomaly_checks();
    metrics.record_generation_time(125);
    metrics.record_memory_usage(2048);
    metrics.record_memory_usage(1024);
    assert_eq!(metrics.wfc_iterations, 2);
    assert_eq!(metrics.constraint_checks, 1);
    assert_eq!(metrics.anomaly_checks, 1);
    assert_eq!(metrics.generation_time_ms, 125);
    assert_eq!(metrics.memory_peak_kb, 2048);
}
