//! Item classification for the inventory: the kinds of damage, weapons
//! and item capabilities the game distinguishes.
use vstd::prelude::*;

verus! {

/// The kinds of damage an attack can inflict.
#[derive(Clone, Copy, Debug, PartialEq, Eq, Structural)]
pub enum DamageKind {
    /// Subdermal bleeding, possible osseous damage or fracture.
    Impact,
    /// Localized but extreme damage.
    Piercing,
    Abrasion,
    Incision,
    Laceration,
}

/// Generic classes of melee weapons, by the way they deal damage.
#[derive(Clone, Copy, Debug, PartialEq, Eq, Structural)]
pub enum MeleeWeaponKind {
    /// Sticks, bats, hammers, pipes, crowbars, bricks, weapon stocks.
    MeleeImpact,
    /// Knife tips, spears, skewers, nails, morning stars.
    MeleePiercing,
    MeleeSlashing,
}

/// Generic classes of ranged weapons.
#[derive(Clone, Copy, Debug, PartialEq, Eq, Structural)]
pub enum RangedWeaponKind {
    Handgun,
    SubMachineGun,
    BoltActionRifle,
    SemiAutoRifle,
    BurstFireRifle,
    FullAutoRifle,
    LowRangeSniperRifle,
    MidRangeSniperRifle,
    HighRangeSniperRifle,
    AntiMaterielSniperRifle,
}

/// What can be done with an item.
#[derive(Clone, Copy, Debug, PartialEq, Eq, Structural)]
pub enum ItemTrait {
    Equipable,
    Consumable,
    Craftable,
}

} // verus!
