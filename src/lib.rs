//! Server-side rules of a turn-based tactical game on a square grid:
//! pathing, stats, perception, action validation, initiative and the
//! round scheduler that switches between exploration and combat.

pub mod ai;
pub mod grid;
pub mod constants;
pub mod stat;
pub mod check;
pub mod creature;
pub mod random;
pub mod info_message;
pub mod item;
pub mod world;
pub mod initiative;
pub mod gameplay;
pub mod messages;
pub mod terminal;
