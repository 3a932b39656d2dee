use crate::item::effect::Effect;
use crate::item::item_effects::create_testeffect;
use crate::item::statistics::Rarity;
use crate::item::targeting::{SquareParams, TargetKind};
use crate::item::{Item, ItemKind};
use vstd::prelude::*;

verus! {

/// A melee weapon reaching 100 squares, with its effect.
pub fn create_testitem(level: i32, rarity: Rarity) -> (r: (Item, Effect))
    ensures
        r.0.kind == ItemKind::Active(TargetKind::Square(SquareParams { range: 100 })),
        r.1.stats.level == level,
        r.1.stats.rarity == rarity,
        r.1.stats.damage.wf(),
{
    let name = String::from_str("testitem");
    let description = String::from_str("A fancy description");
    let kind = ItemKind::Active(TargetKind::Square(SquareParams { range: 100 }));
    let effect = create_testeffect(level, rarity);
    (Item::new(name, description, kind), effect)
}

} // verus!
