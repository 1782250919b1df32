//! End-to-end tests of the generation pipeline.

use arena_gen::generator::ArenaGenerator;
use arena_gen::ids::ModuleId;
use arena_gen::monitor::AnomalyMonitor;

#[test]
fn ten_by_ten_seed_42_scenario() {
    let mut generator = ArenaGenerator::new(Some(42));
    let mut monitor = AnomalyMonitor::new();
    let arena = generator
        .generate_with_monitoring(10, 0, &mut monitor)
        .expect("generation succeeds");
    assert_eq!(arena.count_modules_by_type(&ModuleId::Player), 1);
    assert_eq!(arena.count_modules_by_type(&ModuleId::OrbEnergy), 5);
    assert_eq!(arena.count_interactive_elements(), 2);
    assert!(arena.count_walkable_cells() >= 33);
    assert!(!monitor.has_critical_anomalies());
}

#[test]
fn determinism_same_seed_same_arena() {
    let mut g1 = ArenaGenerator::new(Some(7));
    let mut g2 = ArenaGenerator::new(Some(7));
    let mut m1 = AnomalyMonitor::new();
    let mut m2 = AnomalyMonitor::new();
    let a1 = g1.generate_with_monitoring(8, 2, &mut m1).expect("first run succeeds");
    let a2 = g2.generate_with_monitoring(8, 2, &mut m2).expect("second run succeeds");
    assert_eq!(a1.modules.len(), a2.modules.len());
    for (c1, c2) in a1.modules.iter().zip(a2.modules.iter()) {
        assert_eq!(c1.x, c2.x);
        assert_eq!(c1.y, c2.y);
        assert_eq!(c1.module_id, c2.module_id);
    }
    assert_eq!(a1.active_rules.len(), a2.active_rules.len());
    for (r1, r2) in a1.active_rules.iter().zip(a2.active_rules.iter()) {
        assert_eq!(r1.id, r2.id);
    }
    assert_eq!(a1.env_variables, a2.env_variables);
}

#[test]
fn exactly_one_spawn_across_seeds() {
    for seed in [1u64, 2, 3, 99, 1234] {
        let mut generator = ArenaGenerator::new(Some(seed));
        let mut monitor = AnomalyMonitor::new();
        if let Ok(arena) = generator.generate_with_monitoring(9, 3, &mut monitor) {
            assert_eq!(arena.count_modules_by_type(&ModuleId::Player), 1);
        }
    }
}

#[test]
fn balancing_floor_met_on_success() {
    for seed in [5u64, 11, 77] {
        let mut generator = ArenaGenerator::new(Some(seed));
        let mut monitor = AnomalyMonitor::new();
        if let Ok(arena) = generator.generate_with_monitoring(12, 1, &mut monitor) {
            let total = (arena.width * arena.height) as usize;
            assert!(arena.count_walkable_cells() >= total / 3);
        }
    }
}

#[test]
fn selection_never_pairs_incompatible_rules() {
    for seed in [3u64, 17, 42, 2024] {
        let mut generator = ArenaGenerator::new(Some(seed));
        let mut monitor = AnomalyMonitor::new();
        if let Ok(arena) = generator.generate_with_monitoring(10, 9, &mut monitor) {
            for (i, a) in arena.active_rules.iter().enumerate() {
                for b in arena.active_rules.iter().skip(i + 1) {
                    assert!(!a.incompatible_with.contains(&b.id));
                    assert!(!b.incompatible_with.contains(&a.id));
                    assert_ne!(a.id, b.id);
                }
            }
        }
    }
}

#[test]
fn generation_failure_reports_error_kind() {
    // a zero-sized arena cannot hold an in-bounds player spawn, so the
    // bounds check blocks acceptance
    let mut generator = ArenaGenerator::new(Some(1));
    let mut monitor = AnomalyMonitor::new();
    let outcome = generator.generate_with_monitoring(0, 0, &mut monitor);
    assert!(outcome.is_err());
    assert!(monitor.has_critical_anomalies());
    match outcome {
        Err(e) => {
            let text = e.describe();
            assert!(text.starts_with("Arena generation failed"));
        }
        Ok(_) => panic!("expected a failure"),
    }
}

#[test]
fn environment_values_resolved_in_range() {
    let mut checked = 0;
    for seed in 1..60u64 {
        let mut generator = ArenaGenerator::new(Some(seed));
        let mut monitor = AnomalyMonitor::new();
        if let Ok(arena) = generator.generate_with_monitoring(10, 2, &mut monitor) {
            let gravity = arena
                .get_env_variable(&arena_gen::ids::EnvVarId::Gravity)
                .expect("gravity resolved");
            assert!((200..=3000).contains(&gravity));
            let speed = arena
                .get_env_variable(&arena_gen::ids::EnvVarId::GameSpeed)
                .expect("game speed resolved");
            assert!((500..=2000).contains(&speed));
            checked += 1;
        }
    }
    assert!(checked > 0);
}
