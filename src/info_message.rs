use crate::check::Check;
use vstd::prelude::*;

verus! {

/// A narrated line for the players' message log.
pub enum MessageType {
    Info(String),
    Error(String),
    Attack(AttackMessage),
}

#[derive(Clone, Copy, Debug, PartialEq, Eq, Structural)]
pub struct AttackResult {
    pub target: u128,
    pub check: Check,
    pub damage: i32,
}

pub struct AttackMessage {
    pub attacker: u128,
    pub item: u128,
    pub results: Vec<AttackResult>,
}

} // verus!
