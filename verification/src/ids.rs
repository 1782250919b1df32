//! Closed identifier sets: module types, rule identifiers, environment
//! variables and directions, together with the classification predicates
//! that the generator, the monitor and the structural audit agree on.

use vstd::prelude::*;

verus! {

/// The closed set of module types that can occupy an arena cell.
#[derive(Debug, Clone, Copy, PartialEq, Eq, Hash, Structural)]
pub enum ModuleId {
    Player,
    OrbEnergy,
    FloorStd,
    FloorLarge,
    WallLow,
    WallHigh,
    PanelGlass,
    RampLow,
    RampSteep,
    MoveTeleporterIn,
    MoveTeleporterOut,
    MoveClimbSurface,
    HazardLavaPit,
    HazardLaserEmitterStatic,
    HazardLaserTurretRotate,
    InteractButtonFloor,
    InteractButtonWall,
    InteractLever,
    InteractEnemySpawner,
    InteractBarrierEnergy,
    DecorArchMetallic,
}

/// The closed set of semantic gameplay rules.
#[derive(Debug, Clone, Copy, PartialEq, Eq, Hash, Structural)]
pub enum RuleId {
    NoJump,
    LowJump,
    HighJump,
    SpeedUp,
    NoAttack,
    LavaFloor,
    ProjectileRain,
    OrbCollection,
    MoonGravity,
}

/// The closed set of global environment variables resolved per generation.
#[derive(Debug, Clone, Copy, PartialEq, Eq, Hash, Structural)]
pub enum EnvVarId {
    Gravity,
    GameSpeed,
}

/// Directional connections a placed module may declare (reserved; the
/// generator does not populate them).
#[derive(Debug, Clone, Copy, PartialEq, Eq, Hash, Structural)]
pub enum Direction {
    North,
    South,
    East,
    West,
    Up,
    Down,
}

impl ModuleId {
    /// The walkable surface types as the generator and the monitor count them.
    pub open spec fn spec_is_walkable(self) -> bool {
        self == ModuleId::FloorStd || self == ModuleId::FloorLarge || self == ModuleId::RampSteep
    }

    /// The wider walkable set used by the standalone structural audit, which
    /// also accepts low ramps.
    pub open spec fn spec_is_walkable_audit(self) -> bool {
        self.spec_is_walkable() || self == ModuleId::RampLow
    }

    /// Damaging module types.
    pub open spec fn spec_is_hazard(self) -> bool {
        self == ModuleId::HazardLavaPit || self == ModuleId::HazardLaserEmitterStatic
            || self == ModuleId::HazardLaserTurretRotate
    }

    /// The hazards that disqualify a neighbouring cell as a spawn location.
    pub open spec fn spec_is_spawn_hazard(self) -> bool {
        self == ModuleId::HazardLavaPit || self == ModuleId::HazardLaserEmitterStatic
    }

    /// Interactive props, teleporter endpoints included.
    pub open spec fn spec_is_interactive(self) -> bool {
        self == ModuleId::InteractButtonFloor || self == ModuleId::InteractButtonWall
            || self == ModuleId::InteractLever || self == ModuleId::InteractBarrierEnergy
            || self == ModuleId::MoveTeleporterIn || self == ModuleId::MoveTeleporterOut
    }

    /// The fixed walkability predicate the monitor's flood fill expands over:
    /// walkable surfaces plus collectibles and floor buttons.
    pub open spec fn spec_is_traversable(self) -> bool {
        self.spec_is_walkable() || self == ModuleId::OrbEnergy
            || self == ModuleId::InteractButtonFloor
    }

    /// The audit's traversability predicate, which also accepts low ramps.
    pub open spec fn spec_is_traversable_audit(self) -> bool {
        self.spec_is_walkable_audit() || self == ModuleId::OrbEnergy
            || self == ModuleId::InteractButtonFloor
    }

    pub fn is_walkable(self) -> (r: bool)
        ensures
            r == self.spec_is_walkable(),
    {
        matches!(self, ModuleId::FloorStd | ModuleId::FloorLarge | ModuleId::RampSteep)
    }

    pub fn is_walkable_audit(self) -> (r: bool)
        ensures
            r == self.spec_is_walkable_audit(),
    {
        matches!(
            self,
            ModuleId::FloorStd | ModuleId::FloorLarge | ModuleId::RampSteep | ModuleId::RampLow,
        )
    }

    pub fn is_hazard(self) -> (r: bool)
        ensures
            r == self.spec_is_hazard(),
    {
        matches!(
            self,
            ModuleId::HazardLavaPit | ModuleId::HazardLaserEmitterStatic
                | ModuleId::HazardLaserTurretRotate,
        )
    }

    pub fn is_spawn_hazard(self) -> (r: bool)
        ensures
            r == self.spec_is_spawn_hazard(),
    {
        matches!(self, ModuleId::HazardLavaPit | ModuleId::HazardLaserEmitterStatic)
    }

    pub fn is_interactive(self) -> (r: bool)
        ensures
            r == self.spec_is_interactive(),
    {
        matches!(
            self,
            ModuleId::InteractButtonFloor | ModuleId::InteractButtonWall | ModuleId::InteractLever
                | ModuleId::InteractBarrierEnergy | ModuleId::MoveTeleporterIn
                | ModuleId::MoveTeleporterOut,
        )
    }

    pub fn is_traversable(self) -> (r: bool)
        ensures
            r == self.spec_is_traversable(),
    {
        matches!(
            self,
            ModuleId::FloorStd | ModuleId::FloorLarge | ModuleId::RampSteep | ModuleId::OrbEnergy
                | ModuleId::InteractButtonFloor,
        )
    }

    pub fn is_traversable_audit(self) -> (r: bool)
        ensures
            r == self.spec_is_traversable_audit(),
    {
        matches!(
            self,
            ModuleId::FloorStd | ModuleId::FloorLarge | ModuleId::RampSteep | ModuleId::RampLow
                | ModuleId::OrbEnergy | ModuleId::InteractButtonFloor,
        )
    }
}

} // verus!
