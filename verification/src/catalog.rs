//! The three read-only reference tables: rule definitions, environment
//! variable definitions and module definitions. Loaded once, never mutated.
//!
//! Fractional quantities (defaults, ranges, weight multipliers) are carried
//! as fixed-point thousandths throughout the crate.

use vstd::prelude::*;

use crate::counting::count_where;
use crate::ids::{EnvVarId, ModuleId, RuleId};
use crate::params::{duplicate_opt_params, ParamValue, Params};

verus! {

/// A semantic gameplay rule: identity, descriptive text, weighting tags,
/// optional parameters and the rules it cannot coexist with.
#[derive(Debug, Clone)]
pub struct Rule {
    pub id: RuleId,
    pub name: String,
    pub description: String,
    pub tags: Vec<String>,
    pub parameters: Option<Params>,
    pub incompatible_with: Vec<RuleId>,
}

/// An environment variable definition: default and inclusive valid range,
/// in thousandths.
#[derive(Debug, Clone)]
pub struct EnvVariable {
    pub id: EnvVarId,
    pub name: String,
    pub description: String,
    pub default_value_milli: i64,
    pub range_min_milli: i64,
    pub range_max_milli: i64,
}

/// A module definition: identity, descriptive text, tags, optional
/// parameters and an optional placement weight for the layout filler.
#[derive(Debug, Clone)]
pub struct ModuleDefinition {
    pub id: ModuleId,
    pub name: String,
    pub description: String,
    pub tags: Vec<String>,
    pub parameters: Option<Params>,
    pub wfc_weight: Option<u32>,
}

impl ModuleDefinition {
    /// Whether one of the definition's tags reads exactly `t`.
    pub open spec fn spec_has_tag(self, t: Seq<char>) -> bool {
        exists|i: int| 0 <= i < self.tags@.len() && self.tags@[i]@ == t
    }
}

impl Rule {
    /// Whether one of the rule's tags reads exactly `t`.
    pub open spec fn spec_has_tag(self, t: Seq<char>) -> bool {
        exists|i: int| 0 <= i < self.tags@.len() && self.tags@[i]@ == t
    }

    /// Agreement on everything the engine reads: identity, text, tags,
    /// parameters and incompatibilities.
    pub open spec fn equiv(self, other: Rule) -> bool {
        &&& self.id == other.id
        &&& self.name == other.name
        &&& self.description == other.description
        &&& self.tags@ == other.tags@
        &&& self.incompatible_with@ == other.incompatible_with@
        &&& match (self.parameters, other.parameters) {
            (Some(a), Some(b)) => a@ == b@,
            (None, None) => true,
            _ => false,
        }
    }

    /// An exact copy, field by field.
    pub fn duplicate(&self) -> (r: Rule)
        ensures
            r.equiv(*self),
    {
        Rule {
            id: self.id,
            name: self.name.clone(),
            description: self.description.clone(),
            tags: copy_strings(&self.tags),
            parameters: duplicate_opt_params(&self.parameters),
            incompatible_with: copy_rule_ids(&self.incompatible_with),
        }
    }

    /// Whether one of the rule's tags reads exactly `tag`.
    pub fn has_tag(&self, tag: &str) -> (r: bool)
        ensures
            r == self.spec_has_tag(tag@),
    {
        let wanted: String = tag.to_owned();
        let mut i: usize = 0;
        while i < self.tags.len()
            invariant
                i <= self.tags@.len(),
                wanted@ == tag@,
                forall|j: int| 0 <= j < i ==> self.tags@[j]@ != tag@,
            decreases self.tags@.len() - i,
        {
            if self.tags[i] == wanted {
                return true;
            }
            i = i + 1;
        }
        false
    }
}

/// An exact copy of a vector of strings.
pub fn copy_strings(v: &Vec<String>) -> (r: Vec<String>)
    ensures
        r@ == v@,
{
    let mut out: Vec<String> = Vec::new();
    let mut i: usize = 0;
    while i < v.len()
        invariant
            i <= v@.len(),
            out@ =~= v@.take(i as int),
        decreases v@.len() - i,
    {
        out.push(v[i].clone());
        proof {
            assert(v@.take(i + 1) =~= v@.take(i as int).push(v@[i as int]));
        }
        i = i + 1;
    }
    proof {
        assert(v@.take(v@.len() as int) =~= v@);
    }
    out
}

/// An exact copy of a vector of rule identifiers.
pub fn copy_rule_ids(v: &Vec<RuleId>) -> (r: Vec<RuleId>)
    ensures
        r@ == v@,
{
    let mut out: Vec<RuleId> = Vec::new();
    let mut i: usize = 0;
    while i < v.len()
        invariant
            i <= v@.len(),
            out@ =~= v@.take(i as int),
        decreases v@.len() - i,
    {
        out.push(v[i]);
        proof {
            assert(v@.take(i + 1) =~= v@.take(i as int).push(v@[i as int]));
        }
        i = i + 1;
    }
    proof {
        assert(v@.take(v@.len() as int) =~= v@);
    }
    out
}

/// No two rules share an identifier.
pub open spec fn rule_ids_distinct(s: Seq<Rule>) -> bool {
    forall|i: int, j: int| 0 <= i < j < s.len() ==> s[i].id != s[j].id
}

/// Incompatibility, declared one-directionally per rule, is symmetric over
/// the whole table: if one rule lists another, the other lists it back.
pub open spec fn incompat_symmetric(s: Seq<Rule>) -> bool {
    forall|i: int, j: int|
        0 <= i < s.len() && 0 <= j < s.len() && #[trigger] s[i].incompatible_with@.contains(
            s[j].id,
        ) ==> s[j].incompatible_with@.contains(s[i].id)
}

/// The catalog of the nine semantic rules.
pub struct RulesDatabase {
    rules: Vec<Rule>,
}

impl RulesDatabase {
    /// The table's contents.
    pub closed spec fn spec_rules(&self) -> Seq<Rule> {
        self.rules@
    }

    /// Well-formedness: distinct identifiers and symmetric incompatibility.
    pub open spec fn wf(&self) -> bool {
        rule_ids_distinct(self.spec_rules()) && incompat_symmetric(self.spec_rules())
    }

    pub fn new() -> (db: RulesDatabase)
        ensures
            db.wf(),
            db.spec_rules().len() == 9,
            db.spec_rules()[0].id == RuleId::NoJump,
            db.spec_rules()[1].id == RuleId::LowJump,
            db.spec_rules()[2].id == RuleId::HighJump,
            db.spec_rules()[3].id == RuleId::SpeedUp,
            db.spec_rules()[4].id == RuleId::NoAttack,
            db.spec_rules()[5].id == RuleId::LavaFloor,
            db.spec_rules()[6].id == RuleId::ProjectileRain,
            db.spec_rules()[7].id == RuleId::OrbCollection,
            db.spec_rules()[8].id == RuleId::MoonGravity,
            db.spec_rules()[0].incompatible_with@ == seq![
                RuleId::LowJump,
                RuleId::HighJump,
                RuleId::MoonGravity,
            ],
            db.spec_rules()[1].incompatible_with@ == seq![RuleId::NoJump, RuleId::HighJump],
            db.spec_rules()[2].incompatible_with@ == seq![RuleId::NoJump, RuleId::LowJump],
            db.spec_rules()[3].incompatible_with@ == Seq::<RuleId>::empty(),
            db.spec_rules()[4].incompatible_with@ == Seq::<RuleId>::empty(),
            db.spec_rules()[5].incompatible_with@ == Seq::<RuleId>::empty(),
            db.spec_rules()[6].incompatible_with@ == Seq::<RuleId>::empty(),
            db.spec_rules()[7].incompatible_with@ == Seq::<RuleId>::empty(),
            db.spec_rules()[8].incompatible_with@ == seq![RuleId::NoJump],
            db.spec_rules()[0].tags@.len() == 3 && db.spec_rules()[0].tags@[0]@ == "movement"@
                && db.spec_rules()[0].tags@[1]@ == "restriction"@ && db.spec_rules()[0].tags@[2]@
                == "difficulty_medium"@,
            db.spec_rules()[1].tags@.len() == 3 && db.spec_rules()[1].tags@[0]@ == "movement"@
                && db.spec_rules()[1].tags@[1]@ == "modifier"@ && db.spec_rules()[1].tags@[2]@
                == "difficulty_easy"@,
            db.spec_rules()[2].tags@.len() == 3 && db.spec_rules()[2].tags@[0]@ == "movement"@
                && db.spec_rules()[2].tags@[1]@ == "modifier"@ && db.spec_rules()[2].tags@[2]@
                == "difficulty_easy"@,
            db.spec_rules()[3].tags@.len() == 3 && db.spec_rules()[3].tags@[0]@ == "movement"@
                && db.spec_rules()[3].tags@[1]@ == "modifier"@ && db.spec_rules()[3].tags@[2]@
                == "difficulty_easy"@,
            db.spec_rules()[4].tags@.len() == 3 && db.spec_rules()[4].tags@[0]@ == "combat"@
                && db.spec_rules()[4].tags@[1]@ == "restriction"@ && db.spec_rules()[4].tags@[2]@
                == "difficulty_hard"@,
            db.spec_rules()[5].tags@.len() == 3 && db.spec_rules()[5].tags@[0]@ == "hazard"@
                && db.spec_rules()[5].tags@[1]@ == "environment"@ && db.spec_rules()[5].tags@[2]@
                == "difficulty_medium"@,
            db.spec_rules()[6].tags@.len() == 3 && db.spec_rules()[6].tags@[0]@ == "hazard"@
                && db.spec_rules()[6].tags@[1]@ == "dynamic"@ && db.spec_rules()[6].tags@[2]@
                == "difficulty_hard"@,
            db.spec_rules()[7].tags@.len() == 3 && db.spec_rules()[7].tags@[0]@ == "resource"@
                && db.spec_rules()[7].tags@[1]@ == "collection"@ && db.spec_rules()[7].tags@[2]@
                == "difficulty_easy"@,
            db.spec_rules()[8].tags@.len() == 3 && db.spec_rules()[8].tags@[0]@ == "physics"@
                && db.spec_rules()[8].tags@[1]@ == "environment"@ && db.spec_rules()[8].tags@[2]@
                == "difficulty_medium"@,
    {
        let rules: Vec<Rule> = vec![
            Rule {
                id: RuleId::NoJump,
                name: "No Jump".to_owned(),
                description: "The jump is deactivated.".to_owned(),
                tags: vec![
                    "movement".to_owned(),
                    "restriction".to_owned(),
                    "difficulty_medium".to_owned(),
                ],
                parameters: None,
                incompatible_with: vec![RuleId::LowJump, RuleId::HighJump, RuleId::MoonGravity],
            },
            Rule {
                id: RuleId::LowJump,
                name: "Low Jump".to_owned(),
                description: "The jump height is reduced.".to_owned(),
                tags: vec![
                    "movement".to_owned(),
                    "modifier".to_owned(),
                    "difficulty_easy".to_owned(),
                ],
                parameters: Some(
                    vec![("jumpHeightMultiplier".to_owned(), ParamValue::Milli(500))],
                ),
                incompatible_with: vec![RuleId::NoJump, RuleId::HighJump],
            },
            Rule {
                id: RuleId::HighJump,
                name: "High Jump".to_owned(),
                description: "The jump height is increased.".to_owned(),
                tags: vec![
                    "movement".to_owned(),
                    "modifier".to_owned(),
                    "difficulty_easy".to_owned(),
                ],
                parameters: Some(
                    vec![("jumpHeightMultiplier".to_owned(), ParamValue::Milli(1500))],
                ),
                incompatible_with: vec![RuleId::NoJump, RuleId::LowJump],
            },
            Rule {
                id: RuleId::SpeedUp,
                name: "Speed Up".to_owned(),
                description: "Your movement speed is increased".to_owned(),
                tags: vec![
                    "movement".to_owned(),
                    "modifier".to_owned(),
                    "difficulty_easy".to_owned(),
                ],
                parameters: Some(vec![("speedMultiplier".to_owned(), ParamValue::Milli(1500))]),
                incompatible_with: vec![],
            },
            Rule {
                id: RuleId::NoAttack,
                name: "No Attack".to_owned(),
                description: "Attack is disabled.".to_owned(),
                tags: vec![
                    "combat".to_owned(),
                    "restriction".to_owned(),
                    "difficulty_hard".to_owned(),
                ],
                parameters: None,
                incompatible_with: vec![],
            },
            Rule {
                id: RuleId::LavaFloor,
                name: "Lava Floor".to_owned(),
                description: "Dangerous lava pits appear throughout the arena.".to_owned(),
                tags: vec![
                    "hazard".to_owned(),
                    "environment".to_owned(),
                    "difficulty_medium".to_owned(),
                ],
                parameters: None,
                incompatible_with: vec![],
            },
            Rule {
                id: RuleId::ProjectileRain,
                name: "Projectile Rain".to_owned(),
                description: "Projectiles rain from above.".to_owned(),
                tags: vec![
                    "hazard".to_owned(),
                    "dynamic".to_owned(),
                    "difficulty_hard".to_owned(),
                ],
                parameters: Some(
                    vec![
                        ("intensity".to_owned(), ParamValue::Milli(1000)),
                        ("frequency".to_owned(), ParamValue::Milli(2000)),
                    ],
                ),
                incompatible_with: vec![],
            },
            Rule {
                id: RuleId::OrbCollection,
                name: "Orb Collection".to_owned(),
                description: "More energy orbs spawn in the arena.".to_owned(),
                tags: vec![
                    "resource".to_owned(),
                    "collection".to_owned(),
                    "difficulty_easy".to_owned(),
                ],
                parameters: Some(vec![("orbMultiplier".to_owned(), ParamValue::Milli(2000))]),
                incompatible_with: vec![],
            },
            Rule {
                id: RuleId::MoonGravity,
                name: "Moon Gravity".to_owned(),
                description: "Gravity is significantly reduced.".to_owned(),
                tags: vec![
                    "physics".to_owned(),
                    "environment".to_owned(),
                    "difficulty_medium".to_owned(),
                ],
                parameters: Some(vec![("gravityMultiplier".to_owned(), ParamValue::Milli(300))]),
                incompatible_with: vec![RuleId::NoJump],
            },
        ];
        RulesDatabase { rules }
    }

    /// The first rule carrying the given identifier, if any.
    pub fn get_rule(&self, id: &RuleId) -> (r: Option<&Rule>)
        ensures
            match r {
                Some(rule) => rule.id == *id && exists|i: int|
                    0 <= i < self.spec_rules().len() && self.spec_rules()[i] == *rule,
                None => forall|i: int|
                    0 <= i < self.spec_rules().len() ==> self.spec_rules()[i].id != *id,
            },
    {
        let mut i: usize = 0;
        while i < self.rules.len()
            invariant
                i <= self.rules@.len(),
                forall|j: int| 0 <= j < i ==> self.rules@[j].id != *id,
            decreases self.rules@.len() - i,
        {
            if self.rules[i].id == *id {
                return Some(&self.rules[i]);
            }
            i = i + 1;
        }
        None
    }

    /// Every rule, in catalog order.
    pub fn get_all_rules(&self) -> (r: &Vec<Rule>)
        ensures
            r@ == self.spec_rules(),
    {
        &self.rules
    }
}

/// The catalog of environment variables.
pub struct EnvVarsDatabase {
    variables: Vec<EnvVariable>,
}

impl EnvVarsDatabase {
    /// The table's contents.
    pub closed spec fn spec_variables(&self) -> Seq<EnvVariable> {
        self.variables@
    }

    pub fn new() -> (db: EnvVarsDatabase)
        ensures
            db.spec_variables().len() == 2,
            db.spec_variables()[0].id == EnvVarId::Gravity,
            db.spec_variables()[0].default_value_milli == 1000,
            db.spec_variables()[0].range_min_milli == 200,
            db.spec_variables()[0].range_max_milli == 3000,
            db.spec_variables()[1].id == EnvVarId::GameSpeed,
            db.spec_variables()[1].default_value_milli == 1000,
            db.spec_variables()[1].range_min_milli == 500,
            db.spec_variables()[1].range_max_milli == 2000,
    {
        let variables: Vec<EnvVariable> = vec![
            EnvVariable {
                id: EnvVarId::Gravity,
                name: "Global Gravity".to_owned(),
                description: "Modifies global attraction.".to_owned(),
                default_value_milli: 1000,
                range_min_milli: 200,
                range_max_milli: 3000,
            },
            EnvVariable {
                id: EnvVarId::GameSpeed,
                name: "Game Speed".to_owned(),
                description: "Modifies global game speed.".to_owned(),
                default_value_milli: 1000,
                range_min_milli: 500,
                range_max_milli: 2000,
            },
        ];
        EnvVarsDatabase { variables }
    }

    /// The first variable carrying the given identifier, if any.
    pub fn get_variable(&self, id: &EnvVarId) -> (r: Option<&EnvVariable>)
        ensures
            match r {
                Some(v) => v.id == *id && exists|i: int|
                    0 <= i < self.spec_variables().len() && self.spec_variables()[i] == *v,
                None => forall|i: int|
                    0 <= i < self.spec_variables().len() ==> self.spec_variables()[i].id != *id,
            },
    {
        let mut i: usize = 0;
        while i < self.variables.len()
            invariant
                i <= self.variables@.len(),
                forall|j: int| 0 <= j < i ==> self.variables@[j].id != *id,
            decreases self.variables@.len() - i,
        {
            if self.variables[i].id == *id {
                return Some(&self.variables[i]);
            }
            i = i + 1;
        }
        None
    }

    /// Every variable, in catalog order.
    pub fn get_all_variables(&self) -> (r: &Vec<EnvVariable>)
        ensures
            r@ == self.spec_variables(),
    {
        &self.variables
    }
}

/// Whether a module definition carries a placement weight.
pub open spec fn has_weight(m: ModuleDefinition) -> bool {
    m.wfc_weight is Some
}

/// The catalog of the module types the generator may place.
pub struct ModulesDatabase {
    modules: Vec<ModuleDefinition>,
}

impl ModulesDatabase {
    /// The table's contents.
    pub closed spec fn spec_modules(&self) -> Seq<ModuleDefinition> {
        self.modules@
    }

    pub fn new() -> (db: ModulesDatabase)
        ensures
            db.spec_modules().len() == 21,
            forall|i: int|
                0 <= i < db.spec_modules().len() ==> (#[trigger] db.spec_modules()[i]).wfc_weight
                    is Some,
            db.spec_modules()[0].id == ModuleId::Player,
            db.spec_modules()[0].wfc_weight == Some(1u32),
            db.spec_modules()[1].id == ModuleId::OrbEnergy,
            db.spec_modules()[1].wfc_weight == Some(15u32),
            db.spec_modules()[2].id == ModuleId::FloorStd,
            db.spec_modules()[2].wfc_weight == Some(30u32),
            db.spec_modules()[3].id == ModuleId::FloorLarge,
            db.spec_modules()[3].wfc_weight == Some(20u32),
            db.spec_modules()[4].id == ModuleId::WallLow,
            db.spec_modules()[4].wfc_weight == Some(15u32),
            db.spec_modules()[5].id == ModuleId::WallHigh,
            db.spec_modules()[5].wfc_weight == Some(10u32),
            db.spec_modules()[6].id == ModuleId::PanelGlass,
            db.spec_modules()[6].wfc_weight == Some(7u32),
            db.spec_modules()[7].id == ModuleId::RampLow,
            db.spec_modules()[7].wfc_weight == Some(12u32),
            db.spec_modules()[8].id == ModuleId::RampSteep,
            db.spec_modules()[8].wfc_weight == Some(10u32),
            db.spec_modules()[9].id == ModuleId::MoveTeleporterIn,
            db.spec_modules()[9].wfc_weight == Some(5u32),
            db.spec_modules()[10].id == ModuleId::MoveTeleporterOut,
            db.spec_modules()[10].wfc_weight == Some(5u32),
            db.spec_modules()[11].id == ModuleId::MoveClimbSurface,
            db.spec_modules()[11].wfc_weight == Some(8u32),
            db.spec_modules()[12].id == ModuleId::HazardLavaPit,
            db.spec_modules()[12].wfc_weight == Some(5u32),
            db.spec_modules()[13].id == ModuleId::HazardLaserEmitterStatic,
            db.spec_modules()[13].wfc_weight == Some(3u32),
            db.spec_modules()[14].id == ModuleId::HazardLaserTurretRotate,
            db.spec_modules()[14].wfc_weight == Some(2u32),
            db.spec_modules()[15].id == ModuleId::InteractButtonFloor,
            db.spec_modules()[15].wfc_weight == Some(7u32),
            db.spec_modules()[16].id == ModuleId::InteractButtonWall,
            db.spec_modules()[16].wfc_weight == Some(6u32),
            db.spec_modules()[17].id == ModuleId::InteractLever,
            db.spec_modules()[17].wfc_weight == Some(6u32),
            db.spec_modules()[18].id == ModuleId::InteractEnemySpawner,
            db.spec_modules()[18].wfc_weight == Some(4u32),
            db.spec_modules()[19].id == ModuleId::InteractBarrierEnergy,
            db.spec_modules()[19].wfc_weight == Some(5u32),
            db.spec_modules()[20].id == ModuleId::DecorArchMetallic,
            db.spec_modules()[20].wfc_weight == Some(4u32),
    {
        let modules: Vec<ModuleDefinition> = vec![
            ModuleDefinition {
                id: ModuleId::Player,
                name: "Player".to_owned(),
                description: "Player spawn point.".to_owned(),
                tags: vec!["player".to_owned(), "spawn".to_owned(), "unique".to_owned()],
                parameters: Some(
                    vec![
                        ("health".to_owned(), ParamValue::Int(100)),
                        ("speed".to_owned(), ParamValue::Milli(5000)),
                        ("jumpForce".to_owned(), ParamValue::Milli(10000)),
                    ],
                ),
                wfc_weight: Some(1),
            },
            ModuleDefinition {
                id: ModuleId::OrbEnergy,
                name: "Energy Orb".to_owned(),
                description: "Collecting this orb adds time to survival countdown.".to_owned(),
                tags: vec![
                    "collectible".to_owned(),
                    "resource".to_owned(),
                    "energy".to_owned(),
                ],
                parameters: Some(vec![("timeValue".to_owned(), ParamValue::Milli(5000))]),
                wfc_weight: Some(15),
            },
            ModuleDefinition {
                id: ModuleId::FloorStd,
                name: "Standard Floor".to_owned(),
                description: "A solid basic platform.".to_owned(),
                tags: vec![
                    "structure".to_owned(),
                    "walkable".to_owned(),
                    "basic".to_owned(),
                ],
                parameters: None,
                wfc_weight: Some(30),
            },
            ModuleDefinition {
                id: ModuleId::FloorLarge,
                name: "Large Floor Tile".to_owned(),
                description: "A larger solid platform.".to_owned(),
                tags: vec![
                    "structure".to_owned(),
                    "walkable".to_owned(),
                    "basic".to_owned(),
                ],
                parameters: Some(
                    vec![
                        ("sizeX".to_owned(), ParamValue::Int(2)),
                        ("sizeZ".to_owned(), ParamValue::Int(2)),
                    ],
                ),
                wfc_weight: Some(20),
            },
            ModuleDefinition {
                id: ModuleId::WallLow,
                name: "Wall low".to_owned(),
                description: "A small obstacle.".to_owned(),
                tags: vec![
                    "structure".to_owned(),
                    "obstacle".to_owned(),
                    "cover".to_owned(),
                    "blocks_movement_low".to_owned(),
                    "connect_sides_only".to_owned(),
                    "basic".to_owned(),
                    "static".to_owned(),
                ],
                parameters: None,
                wfc_weight: Some(15),
            },
            ModuleDefinition {
                id: ModuleId::WallHigh,
                name: "Wall high".to_owned(),
                description: "A small obstacle.".to_owned(),
                tags: vec![
                    "structure".to_owned(),
                    "obstacle".to_owned(),
                    "blocks_vision".to_owned(),
                    "blocks_movement".to_owned(),
                    "connect_sides_only".to_owned(),
                    "basic".to_owned(),
                    "static".to_owned(),
                ],
                parameters: None,
                wfc_weight: Some(10),
            },
            ModuleDefinition {
                id: ModuleId::PanelGlass,
                name: "Panel glass".to_owned(),
                description: "Solid but transparent.".to_owned(),
                tags: vec![
                    "structure".to_owned(),
                    "obstacle".to_owned(),
                    "transparent".to_owned(),
                    "blocks_movement".to_owned(),
                    "connect_sides_only".to_owned(),
                    "static".to_owned(),
                ],
                parameters: Some(vec![("breakable".to_owned(), ParamValue::Flag(false))]),
                wfc_weight: Some(7),
            },
            ModuleDefinition {
                id: ModuleId::RampLow,
                name: "Ramp low".to_owned(),
                description: "Allows you to change elevation smoothly.".to_owned(),
                tags: vec![
                    "structure".to_owned(),
                    "walkable".to_owned(),
                    "ramp".to_owned(),
                    "connect_ends_level_diff".to_owned(),
                    "basic".to_owned(),
                    "static".to_owned(),
                ],
                parameters: Some(vec![("angle".to_owned(), ParamValue::Int(30))]),
                wfc_weight: Some(12),
            },
            ModuleDefinition {
                id: ModuleId::RampSteep,
                name: "Steep Ramp".to_owned(),
                description: "Allows quick elevation change.".to_owned(),
                tags: vec![
                    "structure".to_owned(),
                    "walkable".to_owned(),
                    "ramp".to_owned(),
                ],
                parameters: Some(vec![("angle".to_owned(), ParamValue::Int(45))]),
                wfc_weight: Some(10),
            },
            ModuleDefinition {
                id: ModuleId::MoveTeleporterIn,
                name: "Teleporter Entry".to_owned(),
                description: "Entry point for teleportation.".to_owned(),
                tags: vec![
                    "movement_aid".to_owned(),
                    "interactive".to_owned(),
                    "teleporter".to_owned(),
                ],
                parameters: Some(vec![("linkId".to_owned(), ParamValue::Null)]),
                wfc_weight: Some(5),
            },
            ModuleDefinition {
                id: ModuleId::MoveTeleporterOut,
                name: "Teleporter Exit".to_owned(),
                description: "Exit point for teleportation.".to_owned(),
                tags: vec![
                    "movement_aid".to_owned(),
                    "teleporter".to_owned(),
                    "destination".to_owned(),
                ],
                parameters: Some(vec![("linkId".to_owned(), ParamValue::Null)]),
                wfc_weight: Some(5),
            },
            ModuleDefinition {
                id: ModuleId::MoveClimbSurface,
                name: "Climbing Surface".to_owned(),
                description: "Allows climbing.".to_owned(),
                tags: vec![
                    "movement_aid".to_owned(),
                    "climbable".to_owned(),
                    "vertical".to_owned(),
                ],
                parameters: Some(vec![("climbSpeed".to_owned(), ParamValue::Int(3))]),
                wfc_weight: Some(8),
            },
            ModuleDefinition {
                id: ModuleId::HazardLavaPit,
                name: "Lava Pit".to_owned(),
                description: "Continuous damage hazard.".to_owned(),
                tags: vec![
                    "hazard".to_owned(),
                    "damage".to_owned(),
                    "environmental".to_owned(),
                ],
                parameters: Some(vec![("damagePerSecond".to_owned(), ParamValue::Int(25))]),
                wfc_weight: Some(5),
            },
            ModuleDefinition {
                id: ModuleId::HazardLaserEmitterStatic,
                name: "Static Laser Emitter".to_owned(),
                description: "Continuous laser beam.".to_owned(),
                tags: vec![
                    "hazard".to_owned(),
                    "damage".to_owned(),
                    "beam".to_owned(),
                    "static".to_owned(),
                ],
                parameters: Some(
                    vec![
                        ("damagePerSecond".to_owned(), ParamValue::Int(30)),
                        ("beamLength".to_owned(), ParamValue::Int(20)),
                    ],
                ),
                wfc_weight: Some(3),
            },
            ModuleDefinition {
                id: ModuleId::HazardLaserTurretRotate,
                name: "Rotating Laser Turret".to_owned(),
                description: "Sweeping laser beam.".to_owned(),
                tags: vec![
                    "hazard".to_owned(),
                    "damage".to_owned(),
                    "beam".to_owned(),
                    "dynamic".to_owned(),
                ],
                parameters: Some(
                    vec![
                        ("damagePerSecond".to_owned(), ParamValue::Int(40)),
                        ("rotationSpeed".to_owned(), ParamValue::Int(45)),
                        ("arc".to_owned(), ParamValue::Int(180)),
                        ("beamLength".to_owned(), ParamValue::Int(20)),
                    ],
                ),
                wfc_weight: Some(2),
            },
            ModuleDefinition {
                id: ModuleId::InteractButtonFloor,
                name: "Floor Button".to_owned(),
                description: "Activated by walking on it.".to_owned(),
                tags: vec![
                    "interactive".to_owned(),
                    "trigger".to_owned(),
                    "walkable".to_owned(),
                ],
                parameters: Some(
                    vec![
                        ("triggerId".to_owned(), ParamValue::Null),
                        ("oneTime".to_owned(), ParamValue::Flag(false)),
                        ("resetDelay".to_owned(), ParamValue::Milli(500)),
                    ],
                ),
                wfc_weight: Some(7),
            },
            ModuleDefinition {
                id: ModuleId::InteractButtonWall,
                name: "Wall Button".to_owned(),
                description: "Activated by interaction or shooting.".to_owned(),
                tags: vec![
                    "interactive".to_owned(),
                    "trigger".to_owned(),
                    "wall_mount".to_owned(),
                ],
                parameters: Some(
                    vec![
                        ("triggerId".to_owned(), ParamValue::Null),
                        ("shootable".to_owned(), ParamValue::Flag(true)),
                    ],
                ),
                wfc_weight: Some(6),
            },
            ModuleDefinition {
                id: ModuleId::InteractLever,
                name: "Lever".to_owned(),
                description: "Manual interaction toggle.".to_owned(),
                tags: vec![
                    "interactive".to_owned(),
                    "trigger".to_owned(),
                    "toggle".to_owned(),
                ],
                parameters: Some(
                    vec![
                        ("triggerId".to_owned(), ParamValue::Null),
                        ("startsOn".to_owned(), ParamValue::Flag(false)),
                    ],
                ),
                wfc_weight: Some(6),
            },
            ModuleDefinition {
                id: ModuleId::InteractEnemySpawner,
                name: "Enemy Spawner".to_owned(),
                description: "Spawns enemies.".to_owned(),
                tags: vec![
                    "interactive".to_owned(),
                    "spawner".to_owned(),
                    "enemy".to_owned(),
                ],
                parameters: Some(
                    vec![
                        ("enemyType".to_owned(), ParamValue::Text(
                            "ENEMY_TYPE_BASIC_ROBOT".to_owned(),
                        )),
                        ("spawnLimit".to_owned(), ParamValue::Int(3)),
                        ("triggerId".to_owned(), ParamValue::Null),
                        ("spawnRadius".to_owned(), ParamValue::Int(2)),
                        ("activationDelay".to_owned(), ParamValue::Milli(500)),
                    ],
                ),
                wfc_weight: Some(4),
            },
            ModuleDefinition {
                id: ModuleId::InteractBarrierEnergy,
                name: "Energy Barrier".to_owned(),
                description: "Blocks passage and projectiles.".to_owned(),
                tags: vec![
                    "interactive".to_owned(),
                    "obstacle".to_owned(),
                    "toggleable".to_owned(),
                ],
                parameters: Some(
                    vec![
                        ("health".to_owned(), ParamValue::Int(100)),
                        ("disableOnTriggerId".to_owned(), ParamValue::Null),
                        ("disableDuration".to_owned(), ParamValue::Milli(5000)),
                        ("startActive".to_owned(), ParamValue::Flag(true)),
                    ],
                ),
                wfc_weight: Some(5),
            },
            ModuleDefinition {
                id: ModuleId::DecorArchMetallic,
                name: "Metal Arch".to_owned(),
                description: "Large arch in stylish metal to give visual structure to the arena.".to_owned(),
                tags: vec![
                    "decor".to_owned(),
                    "structure".to_owned(),
                    "static".to_owned(),
                    "metallic".to_owned(),
                    "connect_all_sides".to_owned(),
                    "variantGroup".to_owned(),
                ],
                parameters: Some(vec![("colorVariant".to_owned(), ParamValue::Int(3))]),
                wfc_weight: Some(4),
            },
        ];
        ModulesDatabase { modules }
    }

    /// The first module definition carrying the given identifier, if any.
    pub fn get_module(&self, id: &ModuleId) -> (r: Option<&ModuleDefinition>)
        ensures
            match r {
                Some(m) => m.id == *id && exists|i: int|
                    0 <= i < self.spec_modules().len() && self.spec_modules()[i] == *m,
                None => forall|i: int|
                    0 <= i < self.spec_modules().len() ==> self.spec_modules()[i].id != *id,
            },
    {
        let mut i: usize = 0;
        while i < self.modules.len()
            invariant
                i <= self.modules@.len(),
                forall|j: int| 0 <= j < i ==> self.modules@[j].id != *id,
            decreases self.modules@.len() - i,
        {
            if self.modules[i].id == *id {
                return Some(&self.modules[i]);
            }
            i = i + 1;
        }
        None
    }

    /// Every module definition, in catalog order.
    pub fn get_all_modules(&self) -> (r: &Vec<ModuleDefinition>)
        ensures
            r@ == self.spec_modules(),
    {
        &self.modules
    }

    /// The module definitions carrying the given tag, in catalog order.
    pub fn get_modules_by_tag(&self, tag: &str) -> (r: Vec<&ModuleDefinition>)
        ensures
            forall|k: int| 0 <= k < r@.len() ==> (#[trigger] r@[k]).spec_has_tag(tag@),
    {
        let wanted: String = tag.to_owned();
        let mut out: Vec<&ModuleDefinition> = Vec::new();
        let mut i: usize = 0;
        while i < self.modules.len()
            invariant
                i <= self.modules@.len(),
                wanted@ == tag@,
                forall|k: int| 0 <= k < out@.len() ==> (#[trigger] out@[k]).spec_has_tag(tag@),
            decreases self.modules@.len() - i,
        {
            let mut t: usize = 0;
            let mut found: bool = false;
            while t < self.modules[i].tags.len()
                invariant
                    i < self.modules@.len(),
                    t <= self.modules@[i as int].tags@.len(),
                    found ==> self.modules@[i as int].spec_has_tag(tag@),
                decreases self.modules@[i as int].tags@.len() - t,
            {
                if self.modules[i].tags[t] == wanted {
                    found = true;
                }
                t = t + 1;
            }
            if found {
                out.push(&self.modules[i]);
            }
            i = i + 1;
        }
        out
    }

    /// The definitions that carry a placement weight, paired with it.
    pub fn get_weighted_modules(&self) -> (r: Vec<(&ModuleDefinition, u32)>)
        ensures
            r@.len() == count_where(self.spec_modules(), |m: ModuleDefinition| has_weight(m)),
            forall|k: int|
                0 <= k < r@.len() ==> exists|i: int|
                    0 <= i < self.spec_modules().len() && *((#[trigger] r@[k]).0)
                        == self.spec_modules()[i] && self.spec_modules()[i].wfc_weight == Some(
                        r@[k].1,
                    ),
    {
        let ghost f = |m: ModuleDefinition| has_weight(m);
        let mut out: Vec<(&ModuleDefinition, u32)> = Vec::new();
        let mut i: usize = 0;
        while i < self.modules.len()
            invariant
                i <= self.modules@.len(),
                out@.len() == count_where(self.modules@.take(i as int), f),
                forall|k: int|
                    0 <= k < out@.len() ==> exists|j: int|
                        0 <= j < self.modules@.len() && *((#[trigger] out@[k]).0)
                            == self.modules@[j] && self.modules@[j].wfc_weight == Some(out@[k].1),
            decreases self.modules@.len() - i,
        {
            proof {
                crate::counting::lemma_count_where_take_step(self.modules@, f, i as int);
            }
            match self.modules[i].wfc_weight {
                Some(w) => {
                    out.push((&self.modules[i], w));
                    proof {
                        assert(*((out@[out@.len() - 1]).0) == self.modules@[i as int]);
                        assert(self.modules@[i as int].wfc_weight == Some(out@[out@.len() - 1].1));
                    }
                },
                None => {},
            }
            i = i + 1;
        }
        proof {
            crate::counting::lemma_count_where_take_all(self.modules@, f);
            assert forall|k: int| 0 <= k < out@.len() implies exists|n: int|
                0 <= n < self.spec_modules().len() && *((#[trigger] out@[k]).0)
                    == self.spec_modules()[n] && self.spec_modules()[n].wfc_weight == Some(
                out@[k].1,
            ) by {
                let j = choose|j: int|
                    0 <= j < self.modules@.len() && *((out@[k]).0) == self.modules@[j]
                        && self.modules@[j].wfc_weight == Some(out@[k].1);
                assert(*((out@[k]).0) == self.spec_modules()[j]);
                assert(self.spec_modules()[j].wfc_weight == Some(out@[k].1));
            }
        }
        out
    }
}

} // verus!
