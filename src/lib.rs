pub mod rect;
pub mod map;
pub mod dungeon;
pub mod world;
pub mod inventory;
pub mod player;
pub mod visibility;
pub mod systems;
pub mod state;
pub mod connectivity;
