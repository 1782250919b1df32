//! Tests of the standalone structural audit and the arena surface.

use arena_gen::arena::Arena;
use arena_gen::catalog::RulesDatabase;
use arena_gen::ids::{ModuleId, RuleId};

fn grid(width: u32, height: u32) -> Arena {
    Arena::new(width, height, 0)
}

#[test]
fn disconnected_orb_is_critical_in_audit() {
    let mut arena = grid(5, 5);
    arena.add_module(0, 0, ModuleId::Player, None);
    arena.add_module(4, 4, ModuleId::OrbEnergy, None);
    let report = arena.validate_advanced_integrity();
    assert!(report.critical.len() > 0);
    assert!(!report.is_valid());
}

#[test]
fn connected_grid_has_no_critical_audit_finding() {
    let mut arena = grid(3, 3);
    arena.add_module(0, 0, ModuleId::Player, None);
    for x in 0..3 {
        for y in 0..3 {
            if (x, y) != (0, 0) && (x, y) != (2, 2) {
                arena.add_module(x, y, ModuleId::FloorStd, None);
            }
        }
    }
    arena.add_module(2, 2, ModuleId::OrbEnergy, None);
    let report = arena.validate_advanced_integrity();
    assert_eq!(report.critical.len(), 0);
}

#[test]
fn missing_player_blocks_audit() {
    let arena = grid(4, 4);
    let report = arena.validate_advanced_integrity();
    assert!(report.critical.len() > 0);
    assert!(report.errors.len() > 0);
}

#[test]
fn lava_rule_without_pits_errs() {
    let rules = RulesDatabase::new();
    let lava = rules.get_rule(&RuleId::LavaFloor).expect("rule exists").duplicate();
    let mut arena = grid(3, 3);
    arena.add_module(0, 0, ModuleId::Player, None);
    for x in 0..3 {
        for y in 0..3 {
            if (x, y) != (0, 0) {
                arena.add_module(x, y, ModuleId::FloorStd, None);
            }
        }
    }
    arena.add_rule(lava);
    let report = arena.validate_advanced_integrity();
    assert!(report
        .errors
        .iter()
        .any(|m| m == "Lava Floor rule active but no lava pits found"));
}

#[test]
fn validation_result_bookkeeping() {
    let mut result = arena_gen::validator::ValidationResult::new();
    assert!(result.is_valid());
    assert!(!result.has_warnings());
    result.add_warning("a warning");
    assert!(result.is_valid());
    assert!(result.has_warnings());
    result.add_error("an error");
    result.add_critical("a blocker");
    result.add_info("a note");
    assert!(!result.is_valid());
    assert_eq!(result.total_issues(), 3);
}

#[test]
fn statistics_count_exactly() {
    let mut arena = grid(4, 4);
    arena.add_module(0, 0, ModuleId::Player, None);
    arena.add_module(1, 0, ModuleId::FloorStd, None);
    arena.add_module(2, 0, ModuleId::FloorLarge, None);
    arena.add_module(3, 0, ModuleId::RampSteep, None);
    arena.add_module(0, 1, ModuleId::HazardLavaPit, None);
    arena.add_module(1, 1, ModuleId::OrbEnergy, None);
    arena.add_module(2, 1, ModuleId::InteractLever, None);
    let stats = arena.get_statistics();
    assert_eq!(stats.total_cells, 16);
    assert_eq!(stats.filled_cells, 7);
    assert_eq!(stats.empty_cells, 9);
    assert_eq!(stats.walkable_cells, 3);
    assert_eq!(stats.hazard_cells, 1);
    assert_eq!(stats.energy_orbs, 1);
    assert_eq!(stats.interactive_elements, 1);
    assert_eq!(stats.fill_ratio_permille, 7 * 1000 / 16);
    assert_eq!(stats.hazard_density_permille, 1000 / 16);
    assert_eq!(stats.walkable_ratio_permille, 3 * 1000 / 16);
}

#[test]
fn module_density_is_permille() {
    let mut arena = grid(10, 10);
    for x in 0..5 {
        arena.add_module(x, 0, ModuleId::OrbEnergy, None);
    }
    assert_eq!(arena.calculate_module_density(&ModuleId::OrbEnergy), 50);
}

#[test]
fn structural_self_check_lists_issues() {
    let arena = grid(4, 4);
    let issues = arena.validate_structural_integrity();
    assert_eq!(issues.len(), 3);
    assert!(issues.iter().any(|m| m == "No player spawn point found"));
    assert!(issues.iter().any(|m| m == "Insufficient walkable surfaces"));
    assert!(issues.iter().any(|m| m == "No energy orbs found"));

    let mut healthy = grid(4, 4);
    healthy.add_module(0, 0, ModuleId::Player, None);
    healthy.add_module(1, 0, ModuleId::FloorStd, None);
    healthy.add_module(2, 0, ModuleId::FloorStd, None);
    healthy.add_module(3, 0, ModuleId::RampSteep, None);
    healthy.add_module(0, 1, ModuleId::OrbEnergy, None);
    assert_eq!(healthy.validate_structural_integrity().len(), 0);
}

#[test]
fn write_surface_add_remove_transform() {
    let mut arena = grid(5, 5);
    arena.add_module(0, 0, ModuleId::FloorStd, None);
    arena.add_module(1, 0, ModuleId::HazardLavaPit, None);
    arena.add_module(2, 0, ModuleId::HazardLavaPit, None);
    arena.add_module(3, 0, ModuleId::FloorLarge, None);
    assert_eq!(arena.count_modules_by_type(&ModuleId::HazardLavaPit), 2);

    arena.transform_modules(&ModuleId::HazardLavaPit, &ModuleId::FloorStd);
    assert_eq!(arena.count_modules_by_type(&ModuleId::HazardLavaPit), 0);
    assert_eq!(arena.count_modules_by_type(&ModuleId::FloorStd), 3);

    arena.remove_modules_of_type(&ModuleId::FloorStd);
    assert_eq!(arena.modules.len(), 1);
    assert_eq!(arena.modules[0].module_id, ModuleId::FloorLarge);
}

#[test]
fn rule_write_surface() {
    let rules = RulesDatabase::new();
    let mut arena = grid(3, 3);
    arena.add_rule(rules.get_rule(&RuleId::SpeedUp).expect("rule exists").duplicate());
    arena.add_rule(rules.get_rule(&RuleId::NoAttack).expect("rule exists").duplicate());
    assert_eq!(arena.active_rules.len(), 2);
    arena.remove_rule(&RuleId::SpeedUp);
    assert_eq!(arena.active_rules.len(), 1);
    assert_eq!(arena.active_rules[0].id, RuleId::NoAttack);
}

#[test]
fn cell_lookup_returns_first_record() {
    let mut arena = grid(3, 3);
    arena.add_module(1, 1, ModuleId::FloorStd, None);
    arena.add_module(1, 1, ModuleId::HazardLavaPit, None);
    let cell = arena.get_cell(1, 1).expect("cell present");
    assert_eq!(cell.module_id, ModuleId::FloorStd);
    assert!(arena.get_cell(2, 2).is_none());
}

#[test]
fn adjacency_and_bounds() {
    let arena = grid(3, 3);
    assert!(arena.is_valid_position(0, 0));
    assert!(arena.is_valid_position(2, 2));
    assert!(!arena.is_valid_position(3, 0));
    assert!(!arena.is_valid_position(-1, 0));
    let corner = arena.get_adjacent_positions(0, 0);
    assert_eq!(corner.len(), 2);
    let middle = arena.get_adjacent_positions(1, 1);
    assert_eq!(middle.len(), 4);
}

#[test]
fn empty_zone_detection_warns_on_open_grids() {
    let mut arena = grid(10, 10);
    arena.add_module(0, 0, ModuleId::Player, None);
    let zones = arena.find_large_empty_zones();
    assert_eq!(zones.len(), 1);
    assert_eq!(zones[0].size, 99);
}

#[test]
fn unreachable_elevated_areas_flagged() {
    let mut arena = grid(5, 5);
    arena.add_module(0, 0, ModuleId::Player, None);
    arena.add_module(4, 4, ModuleId::RampSteep, None);
    assert!(arena.has_unreachable_elevated_areas());
    let mut linked = grid(2, 1);
    linked.add_module(0, 0, ModuleId::Player, None);
    linked.add_module(1, 0, ModuleId::RampSteep, None);
    assert!(!linked.has_unreachable_elevated_areas());
}
