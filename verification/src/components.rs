use vstd::prelude::*;
use crate::events::Event;

verus! {

/// Grid location of an entity. `x` and `y` are 0-indexed tile coordinates;
/// `z` is a draw-order layer and plays no part in the simulation itself.
#[derive(Clone, Copy, PartialEq, Eq, Structural, Debug)]
pub struct Position {
    pub x: u8,
    pub y: u8,
    pub z: u8,
}

/// Marker component: the entity is a wall.
#[derive(Clone, Copy, PartialEq, Eq, Structural, Debug)]
pub struct Wall {}

/// Marker component: the entity is the player.
#[derive(Clone, Copy, PartialEq, Eq, Structural, Debug)]
pub struct Player {}

/// Colour of a box or a box spot; a spot is satisfied only by a box of the
/// same colour.
#[derive(Clone, Copy, PartialEq, Eq, Structural, Debug)]
pub enum BoxColour {
    Red,
    Blue,
}

/// A pushable box.
#[derive(Clone, Copy, PartialEq, Eq, Structural, Debug)]
pub struct Box {
    pub colour: BoxColour,
}

/// A target cell that must be covered by a box of the same colour for the
/// puzzle to be solved.
#[derive(Clone, Copy, PartialEq, Eq, Structural, Debug)]
pub struct BoxSpot {
    pub colour: BoxColour,
}

/// Tag component: the entity can be pushed.
#[derive(Clone, Copy, PartialEq, Eq, Structural, Debug)]
pub struct Movable;

/// Tag component: the entity blocks a push.
#[derive(Clone, Copy, PartialEq, Eq, Structural, Debug)]
pub struct Immovable;

/// `Playing` is the initial state; `Won` is terminal.
#[derive(Clone, Copy, PartialEq, Eq, Structural, Debug)]
pub enum GameplayState {
    Playing,
    Won,
}

/// Singleton gameplay record: the Playing/Won state and the number of
/// successful player actions so far.
#[derive(Clone, Copy, PartialEq, Eq, Structural, Debug)]
pub struct Gameplay {
    pub state: GameplayState,
    pub moves_count: u32,
}

/// Singleton append-only buffer of notifications, drained once per tick in
/// insertion order.
pub struct EventQueue {
    pub events: Vec<Event>,
}

impl View for EventQueue {
    type V = Seq<Event>;

    open spec fn view(&self) -> Seq<Event> {
        self.events@
    }
}

impl EventQueue {
    /// Append one event; earlier events keep their place.
    pub fn push(&mut self, event: Event)
        ensures
            final(self)@ == old(self)@.push(event),
    {
        self.events.push(event);
    }

    /// Empty the queue and hand back every buffered event in insertion
    /// order, each delivered exactly once.
    pub fn drain(&mut self) -> (drained: Vec<Event>)
        ensures
            final(self)@ == Seq::<Event>::empty(),
            drained@ == old(self)@,
    {
        let mut taken: Vec<Event> = Vec::new();
        core::mem::swap(&mut taken, &mut self.events);
        taken
    }
}

} // verus!
