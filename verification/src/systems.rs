pub mod input;
pub mod gameplay;
pub mod events;
