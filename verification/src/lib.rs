//! Inventory, loadout and game-rule logic with machine-checked contracts.
pub mod combat;
pub mod inventory;
pub mod mesh;
pub mod net;
pub mod persistence;
pub mod server_cli;
pub mod site;
pub mod site2;
pub mod states;
