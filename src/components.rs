use vstd::prelude::*;

verus! {

/// Largest magnitude of an attribute (strength, agility, vitality, magic,
/// attack, defense) and of a heal effect.
pub const STAT_CAP: i32 = 1000000;

/// Largest value of health or maximum health.
pub const HP_CAP: i32 = 5000000;

/// Highest level an entity can reach.
pub const LEVEL_CAP: i32 = 65536;

#[derive(Clone, Copy, Debug, PartialEq, Eq, Structural)]
pub struct Position {
    pub x: i32,
    pub y: i32,
}

/// Glyph, colours as `0xRRGGBB`, and the order in which it is drawn (lower
/// last, so on top).
#[derive(Clone, Copy, Debug, PartialEq, Eq, Structural)]
pub struct Renderable {
    pub glyph: u16,
    pub fg: u32,
    pub bg: u32,
    pub render_order: i32,
}

#[derive(Clone, Copy, Debug, PartialEq, Eq, Structural)]
pub struct BlocksTile {}

#[derive(Clone, Copy, Debug, PartialEq, Eq, Structural)]
pub struct Item {}

#[derive(Clone, Copy, Debug, PartialEq, Eq, Structural)]
pub struct Monster {}

#[derive(Clone, Copy, Debug, PartialEq, Eq, Structural)]
pub struct Player {}

#[derive(Clone, Copy, Debug, PartialEq, Eq, Structural)]
pub struct Consumable {}

#[derive(Clone, Copy, Debug, PartialEq, Eq, Structural)]
pub struct WantsToDisplayContent {}

#[derive(Clone, Copy, Debug, PartialEq, Eq, Structural)]
pub struct CombatStats {
    pub max_hp: i32,
    pub hp: i32,
    pub attack: i32,
    pub defense: i32,
    pub strength: i32,
    pub agility: i32,
    pub vitality: i32,
    pub magic: i32,
    pub level: i32,
    pub exp: i32,
}

impl CombatStats {
    /// The ranges every entity's statistics stay in.
    pub open spec fn in_range(self) -> bool {
        &&& 0 <= self.max_hp <= HP_CAP
        &&& self.hp <= HP_CAP
        &&& -STAT_CAP <= self.attack <= STAT_CAP
        &&& -STAT_CAP <= self.defense <= STAT_CAP
        &&& 0 <= self.strength <= STAT_CAP
        &&& 0 <= self.agility <= STAT_CAP
        &&& 0 <= self.vitality <= STAT_CAP
        &&& 0 <= self.magic <= STAT_CAP
        &&& 1 <= self.level <= LEVEL_CAP
        &&& 0 <= self.exp
    }
}

#[derive(Clone, Copy, Debug, PartialEq, Eq, Structural)]
pub struct HealEffect {
    pub amount: i32,
}

#[derive(Clone, Copy, Debug, PartialEq, Eq, Structural)]
pub struct InBackpack {
    pub owner: usize,
}

#[derive(Debug)]
pub struct Name {
    pub name: String,
}

/// Damage taken this turn, one entry per hit, summed when resolved.
#[derive(Debug)]
pub struct SufferDamage {
    pub amount: Vec<i32>,
}

#[derive(Debug)]
pub struct Viewshed {
    pub visible_tiles: Vec<Position>,
    pub range: i32,
    pub dirty: bool,
}

#[derive(Clone, Copy, Debug, PartialEq, Eq, Structural)]
pub struct WantsToDrinkPotion {
    pub potion: usize,
}

#[derive(Clone, Copy, Debug, PartialEq, Eq, Structural)]
pub struct WantsToDropItem {
    pub item: usize,
}

#[derive(Clone, Copy, Debug, PartialEq, Eq, Structural)]
pub struct WantsToMelee {
    pub target: usize,
}

#[derive(Clone, Copy, Debug, PartialEq, Eq, Structural)]
pub struct WantsToPickupItem {
    pub collected_by: usize,
    pub item: usize,
}

impl SufferDamage {
    /// The sum of `s`.
    pub open spec fn total(s: Seq<i32>) -> int
        decreases s.len(),
    {
        if s.len() == 0 {
            0
        } else {
            SufferDamage::total(s.drop_last()) + s.last()
        }
    }
}

} // verus!
