pub mod components;
pub mod events;
pub mod world;
pub mod entities;
pub mod constants;
pub mod systems;
pub mod map;
