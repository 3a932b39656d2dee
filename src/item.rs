use crate::item::targeting::TargetKind;
use crate::random::random_id;
use vstd::prelude::*;

pub mod effect;
pub mod item_effects;
pub mod item_types;
pub mod statistics;
pub mod targeting;

verus! {

#[derive(Clone, Copy, Debug, PartialEq, Eq, Structural)]
pub enum ItemKind {
    Active(TargetKind),
    Passive,
}

#[derive(Clone, Debug)]
pub struct Item {
    pub name: String,
    pub description: String,
    pub kind: ItemKind,
    pub id: u128,
}

/// How far from its user an item reaches, by its targeting.
pub open spec fn max_effective_range(kind: ItemKind) -> Option<int> {
    match kind {
        ItemKind::Passive => None,
        ItemKind::Active(t) => Some(
            match t {
                TargetKind::Square(p) => p.range as int,
                TargetKind::Burst(p) => p.range as int,
                TargetKind::BurstVolumetric(p) => p.range as int,
                TargetKind::Cone(p) => p.length as int,
                TargetKind::Emanation(p) => p.radius as int,
                TargetKind::Line(p) => p.length as int,
                TargetKind::LineReflecting(p) => p.length as int,
            },
        ),
    }
}

impl Item {
    /// An item with a fresh random id.
    pub fn new(name: String, description: String, kind: ItemKind) -> (r: Self)
        ensures
            r.name == name,
            r.description == description,
            r.kind == kind,
    {
        Self { id: random_id(), name, description, kind }
    }

    pub fn get_id(&self) -> (r: u128)
        ensures
            r == self.id,
    {
        self.id
    }

    pub fn get_max_effective_range(&self) -> (r: Option<i32>)
        ensures
            r.is_some() == max_effective_range(self.kind).is_some(),
            r matches Some(v) ==> v == max_effective_range(self.kind).unwrap(),
    {
        match self.kind {
            ItemKind::Passive => None,
            ItemKind::Active(t) => Some(
                match t {
                    TargetKind::Square(p) => p.range,
                    TargetKind::Burst(p) => p.range,
                    TargetKind::BurstVolumetric(p) => p.range,
                    TargetKind::Cone(p) => p.length,
                    TargetKind::Emanation(p) => p.radius,
                    TargetKind::Line(p) => p.length,
                    TargetKind::LineReflecting(p) => p.length,
                },
            ),
        }
    }
}

} // verus!
