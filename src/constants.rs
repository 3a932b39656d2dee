use vstd::prelude::*;

verus! {

pub const WORLD_HEIGHT: i32 = 50;

pub const WORLD_WIDTH: i32 = 50;

pub const WORLD_LAYERS: i32 = 10;

/// Smallest possible level. Player characters start at level 1, so this makes it
/// possible to have creatures that are weaker than new player characters.
pub const MIN_LEVEL: i32 = -1;

/// The version a client must report to join.
pub fn get_version() -> (r: String)
    ensures
        r@ == "0.1.0"@,
{
    String::from_str("0.1.0")
}

} // verus!
