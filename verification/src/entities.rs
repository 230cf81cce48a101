use vstd::prelude::*;
use crate::components::{
    Box, BoxColour, BoxSpot, EventQueue, Gameplay, GameplayState, Immovable, Movable, Player,
    Position, Wall,
};
use crate::world::{Components, World};

verus! {

/// The record of a wall entity at `position`'s cell: immovable, drawn on the
/// object layer.
pub open spec fn wall_components(position: Position) -> Components {
    Components {
        position: Some(Position { x: position.x, y: position.y, z: 10 }),
        wall: Some(Wall {  }),
        player: None,
        box_comp: None,
        box_spot: None,
        movable: None,
        immovable: Some(Immovable),
    }
}

/// The record of a floor entity: only a position, on the floor layer.
pub open spec fn floor_components(position: Position) -> Components {
    Components {
        position: Some(Position { x: position.x, y: position.y, z: 5 }),
        wall: None,
        player: None,
        box_comp: None,
        box_spot: None,
        movable: None,
        immovable: None,
    }
}

/// The record of a box entity: movable, on the object layer.
pub open spec fn box_components(position: Position, colour: BoxColour) -> Components {
    Components {
        position: Some(Position { x: position.x, y: position.y, z: 10 }),
        wall: None,
        player: None,
        box_comp: Some(Box { colour }),
        box_spot: None,
        movable: Some(Movable),
        immovable: None,
    }
}

/// The record of a box-spot entity: a passive target cell, drawn between the
/// floor and the objects.
pub open spec fn box_spot_components(position: Position, colour: BoxColour) -> Components {
    Components {
        position: Some(Position { x: position.x, y: position.y, z: 9 }),
        wall: None,
        player: None,
        box_comp: None,
        box_spot: Some(BoxSpot { colour }),
        movable: None,
        immovable: None,
    }
}

/// The record of the player entity: movable, on the object layer.
pub open spec fn player_components(position: Position) -> Components {
    Components {
        position: Some(Position { x: position.x, y: position.y, z: 10 }),
        wall: None,
        player: Some(Player {  }),
        box_comp: None,
        box_spot: None,
        movable: Some(Movable),
        immovable: None,
    }
}

/// Create a wall entity at `position`'s cell.
pub fn create_wall(world: &mut World, position: Position) -> (id: usize)
    ensures
        final(world)@ == old(world)@.push(wall_components(position)),
        id == old(world)@.len(),
{
    world.spawn(
        Components {
            position: Some(Position { x: position.x, y: position.y, z: 10 }),
            wall: Some(Wall {  }),
            player: None,
            box_comp: None,
            box_spot: None,
            movable: None,
            immovable: Some(Immovable),
        },
    )
}

/// Create a floor entity at `position`'s cell.
pub fn create_floor(world: &mut World, position: Position) -> (id: usize)
    ensures
        final(world)@ == old(world)@.push(floor_components(position)),
        id == old(world)@.len(),
{
    world.spawn(
        Components {
            position: Some(Position { x: position.x, y: position.y, z: 5 }),
            wall: None,
            player: None,
            box_comp: None,
            box_spot: None,
            movable: None,
            immovable: None,
        },
    )
}

/// Create a box entity of the given colour at `position`'s cell.
pub fn create_box(world: &mut World, position: Position, colour: BoxColour) -> (id: usize)
    ensures
        final(world)@ == old(world)@.push(box_components(position, colour)),
        id == old(world)@.len(),
{
    world.spawn(
        Components {
            position: Some(Position { x: position.x, y: position.y, z: 10 }),
            wall: None,
            player: None,
            box_comp: Some(Box { colour }),
            box_spot: None,
            movable: Some(Movable),
            immovable: None,
        },
    )
}

/// Create a box-spot entity of the given colour at `position`'s cell.
pub fn create_box_spot(world: &mut World, position: Position, colour: BoxColour) -> (id: usize)
    ensures
        final(world)@ == old(world)@.push(box_spot_components(position, colour)),
        id == old(world)@.len(),
{
    world.spawn(
        Components {
            position: Some(Position { x: position.x, y: position.y, z: 9 }),
            wall: None,
            player: None,
            box_comp: None,
            box_spot: Some(BoxSpot { colour }),
            movable: None,
            immovable: None,
        },
    )
}

/// Create the player entity at `position`'s cell.
pub fn create_player(world: &mut World, position: Position) -> (id: usize)
    ensures
        final(world)@ == old(world)@.push(player_components(position)),
        id == old(world)@.len(),
{
    world.spawn(
        Components {
            position: Some(Position { x: position.x, y: position.y, z: 10 }),
            wall: None,
            player: Some(Player {  }),
            box_comp: None,
            box_spot: None,
            movable: Some(Movable),
            immovable: None,
        },
    )
}

/// The gameplay singleton as it stands at startup: playing, no moves yet.
pub fn create_gameplay() -> (g: Gameplay)
    ensures
        g.state == GameplayState::Playing,
        g.moves_count == 0,
{
    Gameplay { state: GameplayState::Playing, moves_count: 0 }
}

/// The event-queue singleton as it stands at startup: empty.
pub fn create_event_queue() -> (q: EventQueue)
    ensures
        q@ == Seq::<crate::events::Event>::empty(),
{
    EventQueue { events: Vec::new() }
}

} // verus!
