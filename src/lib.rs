use vstd::prelude::*;

/// Points of the world plane, distances compared without square roots, and steering.
pub mod geometry;
/// Random draws, and the shapes built from them.
pub mod rng;
/// Experience and levels.
pub mod progression;
/// Cooldown timers and guns.
pub mod weapon;
/// The enemy behaviour state machine.
pub mod ai;
/// Spawner timers and population bookkeeping.
pub mod spawner;
/// Trees, woodcutting, and what falls from them.
pub mod tree;
/// Bullets meeting enemies: damage, death, and the events they raise.
pub mod combat;
/// The live entities and one tick of their lifecycle.
pub mod world;
/// Turrets and their choice of target.
pub mod turret;
/// The player's own rules: starting stats, shooting, movement keys.
pub mod player;
/// Things to pick up, magnets, and experience collection.
pub mod pickup;

verus! {

} // verus!
