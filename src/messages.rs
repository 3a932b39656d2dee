use crate::constants::get_version;
use crate::creature::action::Action;
use crate::creature::Creature;
use crate::grid::Grid;
use crate::info_message::MessageType;
use crate::item::Item;
use crate::world::Layer;
use vstd::prelude::*;

verus! {

/// Precedes every message on the wire: the length of its payload.
#[derive(Clone, Copy, Debug, PartialEq, Eq, Structural)]
pub struct Header {
    pub payload_len: u64,
}

impl Header {
    pub fn new(payload_len: usize) -> (r: Self)
        ensures
            r.payload_len == payload_len,
    {
        Self { payload_len: payload_len as u64 }
    }
}

pub enum Message {
    Join(JoinMsg),
    JoinOk(JoinOkMsg),
    JoinError(ErrorMsg),
    GameState(GameStateMsg),
    Info(MessageType),
    Act(Action),
    ActionOk,
    ActionError(ErrorMsg),
    TurnStart(TurnStartMsg),
}

pub struct JoinMsg {
    pub version: String,
    pub character_name: String,
}

#[derive(Clone, Copy, Debug, PartialEq, Eq, Structural)]
pub struct JoinOkMsg {
    pub player_id: u128,
}

pub struct ErrorMsg {
    pub message: String,
}

#[derive(Clone, Copy, Debug, PartialEq, Eq, Structural)]
pub struct TurnStartMsg {
    pub acting_creature: u128,
}

#[derive(Clone, Copy, Debug, PartialEq, Eq, Structural)]
pub enum CreatureOwner {
    Player(u128),
    AI,
}

/// A snapshot of a layer for the players.
pub struct GameStateMsg {
    pub creatures: Vec<Creature>,
    pub creature_owners: Vec<(u128, CreatureOwner)>,
    pub items: Vec<Item>,
    pub grid: Grid,
}

pub open spec fn owner_of(controller: Option<u128>) -> CreatureOwner {
    match controller {
        Some(id) => CreatureOwner::Player(id),
        None => CreatureOwner::AI,
    }
}

impl GameStateMsg {
    /// The layer's creatures, items and grid, with who controls each creature.
    pub fn new(layer: &Layer) -> (r: Self)
        ensures
            r.creature_owners@.len() == layer.creature_ai@.len(),
            forall|i: int|
                0 <= i < r.creature_owners@.len() ==> #[trigger] r.creature_owners@[i] == (
                layer.creature_ai@[i].owner_id,
                owner_of(layer.creature_ai@[i].controller()),
            ),
            r.grid.tiles() == layer.grid.tiles(),
            r.creatures@.len() == layer.creatures@.len(),
            r.items@.len() == layer.items@.len(),
    {
        let mut creature_owners: Vec<(u128, CreatureOwner)> = Vec::new();
        let mut i: usize = 0;
        while i < layer.creature_ai.len()
            invariant
                0 <= i <= layer.creature_ai@.len(),
                creature_owners@.len() == i,
                forall|k: int|
                    0 <= k < i ==> #[trigger] creature_owners@[k] == (
                    layer.creature_ai@[k].owner_id,
                    owner_of(layer.creature_ai@[k].controller()),
                ),
            decreases layer.creature_ai@.len() - i,
        {
            let ai = &layer.creature_ai[i];
            let owner = match ai.get_controlling_player_id() {
                Some(id) => CreatureOwner::Player(id),
                None => CreatureOwner::AI,
            };
            creature_owners.push((ai.owner_id, owner));
            i = i + 1;
        }
        Self {
            creatures: layer.creatures.clone(),
            creature_owners,
            items: layer.items.clone(),
            grid: layer.grid.copy(),
        }
    }
}

/// A join is accepted when the client runs this very version.
pub fn join_accepted(join: &JoinMsg) -> (r: bool)
    ensures
        r == (join.version@ == "0.1.0"@),
{
    let server_version = get_version();
    server_version == join.version
}

} // verus!
