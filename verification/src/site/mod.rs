pub mod dungeon;
pub mod spawns;
