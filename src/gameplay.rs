use crate::creature::perception::Awareness;
use crate::world::Layer;
use vstd::prelude::*;

verus! {

#[derive(Clone, Copy, Debug, PartialEq, Eq, Structural)]
pub enum GameplayMode {
    Start,
    Exploration,
    Combat,
}

/// Actions a creature takes in one turn.
pub const CREATURE_MAX_ACTIONS: usize = 2;

/// Where a round stands: its mode, the two cohorts in initiative order, the
/// creature whose turn it is and how many actions it took, whether a
/// wandering creature got alerted, and the mode of the next round once the
/// round is over.
pub struct RoundView {
    pub mode: GameplayMode,
    pub aware: Seq<u128>,
    pub wandering: Seq<u128>,
    pub in_wandering: bool,
    pub index: nat,
    pub actions_taken: nat,
    pub wandering_alerted: bool,
    pub outcome: Option<GameplayMode>,
}

/// Mode of the next round when every turn of the round was taken.
pub open spec fn end_of_round(v: RoundView) -> GameplayMode {
    match v.mode {
        GameplayMode::Exploration => if v.wandering_alerted {
            GameplayMode::Combat
        } else {
            GameplayMode::Exploration
        },
        _ => GameplayMode::Combat,
    }
}

/// Moves past finished cohorts: from the aware cohort to the wandering one,
/// and from the wandering one to the end of the round.
pub open spec fn settle(v: RoundView) -> RoundView {
    let w = if v.outcome is None && !v.in_wandering && v.index >= v.aware.len() {
        RoundView { in_wandering: true, index: 0, ..v }
    } else {
        v
    };
    if w.outcome is None && w.in_wandering && w.index >= w.wandering.len() {
        RoundView { outcome: Some(end_of_round(w)), ..w }
    } else {
        w
    }
}

/// Whether the turn ends after an action, and if so whether it ended with
/// a non-player creature alerted. In exploration a player's turn ends as
/// soon as it alerts some non-player creature, and a non-player creature's
/// turn as soon as it is alerted itself; otherwise a turn lasts its actions.
pub open spec fn turn_end(
    mode: GameplayMode,
    actor_player: bool,
    actor_alerted: bool,
    npc_alerted: bool,
    actions_taken: nat,
) -> Option<bool> {
    if mode == GameplayMode::Exploration && actor_player && npc_alerted {
        Some(true)
    } else if mode == GameplayMode::Exploration && !actor_player && actor_alerted {
        Some(true)
    } else if actions_taken >= CREATURE_MAX_ACTIONS {
        Some(npc_alerted)
    } else {
        None
    }
}

/// The round after the current creature took an action. An exploration
/// round turns to combat as soon as an aware creature's turn alerts someone;
/// a wandering creature's alert is remembered and turns the round to combat
/// at its end. A combat round turns to exploration as soon as a turn ends
/// with no non-player creature in combat.
pub open spec fn after_action(
    v: RoundView,
    actor_player: bool,
    actor_alerted: bool,
    npc_alerted: bool,
) -> RoundView {
    let taken = v.actions_taken + 1;
    match turn_end(v.mode, actor_player, actor_alerted, npc_alerted, taken) {
        None => RoundView { actions_taken: taken, ..v },
        Some(alerted) => if v.mode == GameplayMode::Exploration && !v.in_wandering && alerted {
            RoundView { actions_taken: 0, outcome: Some(GameplayMode::Combat), ..v }
        } else if v.mode == GameplayMode::Combat && !alerted {
            RoundView { actions_taken: 0, outcome: Some(GameplayMode::Exploration), ..v }
        } else {
            settle(
                RoundView {
                    actions_taken: 0,
                    index: v.index + 1,
                    wandering_alerted: v.wandering_alerted || (v.in_wandering && alerted),
                    ..v
                },
            )
        },
    }
}

/// The creature whose turn it is, while the round goes on.
pub open spec fn acting(v: RoundView) -> Option<u128> {
    if v.outcome is Some {
        None
    } else if v.in_wandering {
        if v.index < v.wandering.len() {
            Some(v.wandering[v.index as int])
        } else {
            None
        }
    } else if v.index < v.aware.len() {
        Some(v.aware[v.index as int])
    } else {
        None
    }
}

/// In exploration, when a player's action alerts a non-player creature,
/// the round ends at once and the next one is a combat round, even if
/// other aware creatures have not acted yet.
pub proof fn lemma_player_alert_starts_combat(v: RoundView, actor_alerted: bool)
    requires
        v.mode == GameplayMode::Exploration,
        v.outcome is None,
        !v.in_wandering,
    ensures
        after_action(v, true, actor_alerted, true).outcome == Some(GameplayMode::Combat),
        acting(after_action(v, true, actor_alerted, true)) is None,
{
}

/// A round in progress; the loop that runs it asks `current_actor` who acts,
/// has that creature act, and reports back with `record_action`.
pub struct Round {
    mode: GameplayMode,
    aware: Vec<u128>,
    wandering: Vec<u128>,
    in_wandering: bool,
    index: usize,
    actions_taken: usize,
    wandering_alerted: bool,
    outcome: Option<GameplayMode>,
}

impl View for Round {
    type V = RoundView;

    closed spec fn view(&self) -> RoundView {
        RoundView {
            mode: self.mode,
            aware: self.aware@,
            wandering: self.wandering@,
            in_wandering: self.in_wandering,
            index: self.index as nat,
            actions_taken: self.actions_taken as nat,
            wandering_alerted: self.wandering_alerted,
            outcome: self.outcome,
        }
    }
}

fn ids_of(entries: &Vec<(i32, u128)>) -> (r: Vec<u128>)
    ensures
        r@ == entries@.map_values(|e: (i32, u128)| e.1),
{
    let mut ids: Vec<u128> = Vec::new();
    let mut i: usize = 0;
    while i < entries.len()
        invariant
            0 <= i <= entries@.len(),
            ids@ == entries@.subrange(0, i as int).map_values(|e: (i32, u128)| e.1),
        decreases entries@.len() - i,
    {
        ids.push(entries[i].1);
        proof {
            assert(entries@.subrange(0, i + 1).map_values(|e: (i32, u128)| e.1)
                =~= entries@.subrange(0, i as int).map_values(|e: (i32, u128)| e.1).push(entries@[i as int].1));
        }
        i = i + 1;
    }
    assert(entries@.subrange(0, i as int) == entries@);
    ids
}

impl Round {
    pub open spec fn wf(&self) -> bool {
        &&& self@.actions_taken < CREATURE_MAX_ACTIONS
        &&& self@.mode != GameplayMode::Start
        &&& self@.outcome is None ==> acting(self@) is Some
    }

    /// A round of `mode` over the aware and the wandering cohorts, given in
    /// initiative order as (roll, id).
    pub fn new(mode: GameplayMode, aware: &Vec<(i32, u128)>, wandering: &Vec<(i32, u128)>) -> (r: Self)
        requires
            mode != GameplayMode::Start,
        ensures
            r.wf(),
            r@ == settle(
                RoundView {
                    mode,
                    aware: aware@.map_values(|e: (i32, u128)| e.1),
                    wandering: wandering@.map_values(|e: (i32, u128)| e.1),
                    in_wandering: false,
                    index: 0,
                    actions_taken: 0,
                    wandering_alerted: false,
                    outcome: None,
                },
            ),
    {
        let mut r = Self {
            mode,
            aware: ids_of(aware),
            wandering: ids_of(wandering),
            in_wandering: false,
            index: 0,
            actions_taken: 0,
            wandering_alerted: false,
            outcome: None,
        };
        r.settle();
        r
    }

    fn settle(&mut self)
        requires
            old(self)@.index <= old(self)@.aware.len() || old(self)@.in_wandering,
            old(self)@.index <= old(self)@.wandering.len() || !old(self)@.in_wandering,
            old(self)@.actions_taken < CREATURE_MAX_ACTIONS,
            old(self)@.mode != GameplayMode::Start,
            old(self)@.outcome is None,
        ensures
            final(self)@ == settle(old(self)@),
            final(self).wf(),
    {
        if !self.in_wandering && self.index >= self.aware.len() {
            self.in_wandering = true;
            self.index = 0;
        }
        if self.in_wandering && self.index >= self.wandering.len() {
            self.outcome = Some(
                match self.mode {
                    GameplayMode::Exploration => if self.wandering_alerted {
                        GameplayMode::Combat
                    } else {
                        GameplayMode::Exploration
                    },
                    _ => GameplayMode::Combat,
                },
            );
        }
    }

    /// The creature whose turn it is; `None` once the round is over.
    pub fn current_actor(&self) -> (r: Option<u128>)
        ensures
            r == acting(self@),
    {
        if self.outcome.is_some() {
            None
        } else if self.in_wandering {
            if self.index < self.wandering.len() {
                Some(self.wandering[self.index])
            } else {
                None
            }
        } else if self.index < self.aware.len() {
            Some(self.aware[self.index])
        } else {
            None
        }
    }

    /// Whether the turns of the wandering cohort have begun.
    pub fn in_wandering_cohort(&self) -> (r: bool)
        ensures
            r == self@.in_wandering,
    {
        self.in_wandering
    }

    /// Mode of the next round, once this one is over.
    pub fn outcome(&self) -> (r: Option<GameplayMode>)
        ensures
            r == self@.outcome,
    {
        self.outcome
    }

    /// Records that the current creature took an action, after which a
    /// player controls it or not (`actor_player`), it is in combat or not
    /// (`actor_alerted`), and some non-player creature is in combat or not
    /// (`npc_alerted`).
    pub fn record_action(&mut self, actor_player: bool, actor_alerted: bool, npc_alerted: bool)
        requires
            old(self).wf(),
            acting(old(self)@) is Some,
        ensures
            final(self).wf(),
            final(self)@ == after_action(old(self)@, actor_player, actor_alerted, npc_alerted),
    {
        let taken = self.actions_taken + 1;
        let exploration = self.mode == GameplayMode::Exploration;
        let ends: Option<bool> = if exploration && actor_player && npc_alerted {
            Some(true)
        } else if exploration && !actor_player && actor_alerted {
            Some(true)
        } else if taken >= CREATURE_MAX_ACTIONS {
            Some(npc_alerted)
        } else {
            None
        };
        match ends {
            None => {
                self.actions_taken = taken;
            },
            Some(alerted) => {
                self.actions_taken = 0;
                if exploration && !self.in_wandering && alerted {
                    self.outcome = Some(GameplayMode::Combat);
                } else if self.mode == GameplayMode::Combat && !alerted {
                    self.outcome = Some(GameplayMode::Exploration);
                } else {
                    let cohort_len = if self.in_wandering {
                        self.wandering.len()
                    } else {
                        self.aware.len()
                    };
                    assert(self.index < cohort_len);
                    self.index = self.index + 1;
                    self.wandering_alerted = self.wandering_alerted || (self.in_wandering && alerted);
                    self.settle();
                }
            },
        }
    }
}

/// The mode of the coming round and whether it changed: the game leaves
/// `Start` for `Exploration` at launch, never comes back to `Start`, and
/// rolls initiative anew on every change of mode.
pub fn mode_step(current: GameplayMode, next: GameplayMode) -> (r: (GameplayMode, bool))
    requires
        next != GameplayMode::Start,
    ensures
        r.0 == next,
        r.1 == (next != current),
{
    (next, next != current)
}

/// Some creature that no player controls is in combat.
pub open spec fn npc_in_combat(layer: Layer) -> bool {
    exists|i: int|
        0 <= i < layer.creature_ai@.len() && !(#[trigger] layer.creature_ai@[i]).player_controlled()
            && layer.creature_ai@[i].perception.spec_awareness() == Awareness::Combat
}

pub fn someone_alerted(layer: &Layer) -> (r: bool)
    ensures
        r == npc_in_combat(*layer),
{
    let mut i: usize = 0;
    while i < layer.creature_ai.len()
        invariant
            0 <= i <= layer.creature_ai@.len(),
            forall|k: int|
                0 <= k < i ==> (#[trigger] layer.creature_ai@[k]).player_controlled()
                    || layer.creature_ai@[k].perception.spec_awareness() != Awareness::Combat,
        decreases layer.creature_ai@.len() - i,
    {
        let ai = &layer.creature_ai[i];
        if !ai.is_player_controlled() && ai.perception.get_awareness() == Awareness::Combat {
            return true;
        }
        i = i + 1;
    }
    false
}

} // verus!
