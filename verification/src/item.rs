//! The closed family of item kinds that flow through pipes and machines.
//! An item entity keeps one kind for its whole lifetime: crafting destroys
//! the input entity and spawns a fresh output entity.

use vstd::prelude::*;

verus! {

/// A kind of item. The kind never changes on a live entity.
#[derive(Clone, Copy, Debug, PartialEq, Eq, Structural)]
pub enum Item {
    Bolt,
    Steel,
    Gold,
    Jewelry,
    Iron,
    Wrench,
    Crystal,
}

impl Item {
    /// Path of the sprite that depicts this kind.
    pub fn get_sprite(&self) -> (r: &'static str)
        ensures
            r@ == self.spec_sprite(),
    {
        match self {
            Item::Bolt => "Items/bolt.png",
            Item::Steel => "Items/steel.png",
            Item::Gold => "Items/gold.png",
            Item::Jewelry => "Items/jewelry.png",
            Item::Iron => "Items/iron.png",
            Item::Wrench => "Items/wrench.png",
            Item::Crystal => "Items/crystal.png",
        }
    }

    /// Display name of this kind.
    pub fn get_name(&self) -> (r: &'static str)
        ensures
            r@ == self.spec_name(),
    {
        match self {
            Item::Bolt => "bolts",
            Item::Steel => "steel",
            Item::Gold => "gold",
            Item::Jewelry => "jewelry",
            Item::Iron => "iron",
            Item::Wrench => "wrench",
            Item::Crystal => "crystal",
        }
    }

    /// The characters `get_sprite` returns.
    pub open spec fn spec_sprite(&self) -> Seq<char> {
        match self {
            Item::Bolt => "Items/bolt.png"@,
            Item::Steel => "Items/steel.png"@,
            Item::Gold => "Items/gold.png"@,
            Item::Jewelry => "Items/jewelry.png"@,
            Item::Iron => "Items/iron.png"@,
            Item::Wrench => "Items/wrench.png"@,
            Item::Crystal => "Items/crystal.png"@,
        }
    }

    /// The characters `get_name` returns.
    pub open spec fn spec_name(&self) -> Seq<char> {
        match self {
            Item::Bolt => "bolts"@,
            Item::Steel => "steel"@,
            Item::Gold => "gold"@,
            Item::Jewelry => "jewelry"@,
            Item::Iron => "iron"@,
            Item::Wrench => "wrench"@,
            Item::Crystal => "crystal"@,
        }
    }
}

} // verus!
