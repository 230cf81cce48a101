use sokoban::components::{BoxColour, Gameplay, GameplayState, Position};
use sokoban::entities::{
    create_box, create_box_spot, create_event_queue, create_floor, create_gameplay, create_player,
    create_wall,
};
use sokoban::events::{EntityMoved, Event};
use sokoban::map::{initialize_level, load_map, parse_map, CellKind, MapError, MapItem};
use sokoban::systems::events::{run_process_events, SoundCue};
use sokoban::systems::gameplay::run_gameplay_state;
use sokoban::systems::input::{key_direction, run_input, Direction};
use sokoban::world::World;

fn pos(x: u8, y: u8) -> Position {
    Position { x, y, z: 0 }
}

#[test]
fn scenario_wall_blocks_player() {
    // Player at (3,4), immovable wall at (3,3); Up is blocked.
    let mut w = World::new();
    let player = create_player(&mut w, pos(3, 4));
    create_wall(&mut w, pos(3, 3));
    let mut g = create_gameplay();
    let mut q = create_event_queue();
    run_input(&mut w, &mut g, &mut q, Direction::Up);
    assert_eq!(q.events, vec![Event::PlayerHitObstacle]);
    let p = w.get(player).position.unwrap();
    assert_eq!((p.x, p.y), (3, 4));
    assert_eq!(g.moves_count, 0);
    assert!(matches!(g.state, GameplayState::Playing));
}

#[test]
fn scenario_push_one_box() {
    // Player at (3,4), red box at (3,3), gap at (3,2): both move up.
    let mut w = World::new();
    create_floor(&mut w, pos(3, 2));
    let player = create_player(&mut w, pos(3, 4));
    let the_box = create_box(&mut w, pos(3, 3), BoxColour::Red);
    let mut g = create_gameplay();
    let mut q = create_event_queue();
    run_input(&mut w, &mut g, &mut q, Direction::Up);
    let p = w.get(player).position.unwrap();
    let b = w.get(the_box).position.unwrap();
    assert_eq!((p.x, p.y), (3, 3));
    assert_eq!((b.x, b.y), (3, 2));
    assert_eq!(g.moves_count, 1);
    // One event per moved entity, in scan order: the player's cell first.
    assert_eq!(
        q.events,
        vec![
            Event::EntityMoved(EntityMoved { entity: player }),
            Event::EntityMoved(EntityMoved { entity: the_box }),
        ]
    );
}

#[test]
fn scenario_win_waits_for_both_spots() {
    // A red box on the red spot; a red box on the blue spot: still playing.
    let mut w = World::new();
    create_box(&mut w, pos(4, 5), BoxColour::Red);
    create_box_spot(&mut w, pos(4, 5), BoxColour::Red);
    create_box(&mut w, pos(2, 2), BoxColour::Red);
    create_box_spot(&mut w, pos(2, 2), BoxColour::Blue);
    let mut g = create_gameplay();
    run_gameplay_state(&w, &mut g);
    assert!(matches!(g.state, GameplayState::Playing));

    // With a blue box on the blue spot instead, the game is won.
    let mut w2 = World::new();
    create_box(&mut w2, pos(4, 5), BoxColour::Red);
    create_box_spot(&mut w2, pos(4, 5), BoxColour::Red);
    create_box(&mut w2, pos(2, 2), BoxColour::Blue);
    create_box_spot(&mut w2, pos(2, 2), BoxColour::Blue);
    let mut g2 = create_gameplay();
    run_gameplay_state(&w2, &mut g2);
    assert!(matches!(g2.state, GameplayState::Won));
}

#[test]
fn scenario_chain_into_wall_discards_whole_move() {
    // Player, box, then a wall: the queued chain is discarded, nothing
    // moves, exactly one obstacle event is emitted.
    let mut w = World::new();
    let player = create_player(&mut w, pos(3, 4));
    let the_box = create_box(&mut w, pos(3, 3), BoxColour::Red);
    create_wall(&mut w, pos(3, 2));
    let mut g = create_gameplay();
    let mut q = create_event_queue();
    run_input(&mut w, &mut g, &mut q, Direction::Up);
    let p = w.get(player).position.unwrap();
    let b = w.get(the_box).position.unwrap();
    assert_eq!((p.x, p.y), (3, 4));
    assert_eq!((b.x, b.y), (3, 3));
    assert_eq!(g.moves_count, 0);
    assert_eq!(q.events, vec![Event::PlayerHitObstacle]);
}

#[test]
fn scenario_unrecognized_token_fails_load() {
    let mut w = World::new();
    let r = load_map(&mut w, "W . X\nW . W");
    assert_eq!(r, Err(MapError::UnrecognizedToken));
    assert_eq!(w.len(), 0);
}

#[test]
fn boundary_counts_as_obstacle() {
    // Player on the top row: pushing up leaves the map, so it is blocked.
    let mut w = World::new();
    let player = create_player(&mut w, pos(3, 0));
    let mut g = create_gameplay();
    let mut q = create_event_queue();
    run_input(&mut w, &mut g, &mut q, Direction::Up);
    let p = w.get(player).position.unwrap();
    assert_eq!((p.x, p.y), (3, 0));
    assert_eq!(g.moves_count, 0);
    assert_eq!(q.events, vec![Event::PlayerHitObstacle]);
}

#[test]
fn box_cannot_leave_the_map() {
    // Player at (6,4), box at (7,4): the box sits on the right boundary.
    let mut w = World::new();
    let player = create_player(&mut w, pos(6, 4));
    let the_box = create_box(&mut w, pos(7, 4), BoxColour::Blue);
    let mut g = create_gameplay();
    let mut q = create_event_queue();
    run_input(&mut w, &mut g, &mut q, Direction::Right);
    assert_eq!(q.events, vec![Event::PlayerHitObstacle]);
    let p = w.get(player).position.unwrap();
    let b = w.get(the_box).position.unwrap();
    assert_eq!((p.x, p.y), (6, 4));
    assert_eq!((b.x, b.y), (7, 4));
}

#[test]
fn push_chain_of_two_boxes() {
    let mut w = World::new();
    let player = create_player(&mut w, pos(2, 4));
    let box_a = create_box(&mut w, pos(3, 4), BoxColour::Red);
    let box_b = create_box(&mut w, pos(4, 4), BoxColour::Blue);
    let mut g = create_gameplay();
    let mut q = create_event_queue();
    run_input(&mut w, &mut g, &mut q, Direction::Right);
    assert_eq!(g.moves_count, 1);
    assert_eq!(q.events.len(), 3);
    let p = w.get(player).position.unwrap();
    let a = w.get(box_a).position.unwrap();
    let b = w.get(box_b).position.unwrap();
    assert_eq!((p.x, p.y), (3, 4));
    assert_eq!((a.x, a.y), (4, 4));
    assert_eq!((b.x, b.y), (5, 4));
}

#[test]
fn player_moves_into_gap_alone() {
    let mut w = World::new();
    let player = create_player(&mut w, pos(3, 4));
    let mut g = create_gameplay();
    let mut q = create_event_queue();
    run_input(&mut w, &mut g, &mut q, Direction::Left);
    let p = w.get(player).position.unwrap();
    assert_eq!((p.x, p.y), (2, 4));
    assert_eq!(g.moves_count, 1);
    assert_eq!(q.events, vec![Event::EntityMoved(EntityMoved { entity: player })]);
}

#[test]
fn win_evaluation_is_idempotent() {
    let mut w = World::new();
    create_box(&mut w, pos(1, 1), BoxColour::Red);
    create_box_spot(&mut w, pos(1, 1), BoxColour::Red);
    let mut g = create_gameplay();
    run_gameplay_state(&w, &mut g);
    let first = g.state;
    run_gameplay_state(&w, &mut g);
    assert_eq!(g.state, first);
    assert!(matches!(g.state, GameplayState::Won));
}

#[test]
fn no_spots_means_no_win() {
    let mut w = World::new();
    create_player(&mut w, pos(3, 3));
    create_box(&mut w, pos(2, 2), BoxColour::Red);
    let mut g = create_gameplay();
    run_gameplay_state(&w, &mut g);
    assert!(matches!(g.state, GameplayState::Playing));
}

#[test]
fn won_state_is_terminal() {
    // Once won, an uncovered spot does not bring the game back to playing.
    let mut w = World::new();
    create_box_spot(&mut w, pos(1, 1), BoxColour::Red);
    let mut g = Gameplay { state: GameplayState::Won, moves_count: 7 };
    run_gameplay_state(&w, &mut g);
    assert!(matches!(g.state, GameplayState::Won));
    assert_eq!(g.moves_count, 7);
}

#[test]
fn dispatcher_sounds_wall_on_obstacle() {
    let w = World::new();
    let mut q = create_event_queue();
    q.push(Event::PlayerHitObstacle);
    let cues = run_process_events(&w, &mut q);
    assert_eq!(cues, vec![SoundCue::Wall]);
    assert!(q.events.is_empty());
}

#[test]
fn dispatcher_sounds_by_colour_match() {
    let mut w = World::new();
    let red_box = create_box(&mut w, pos(2, 2), BoxColour::Red);
    create_box_spot(&mut w, pos(2, 2), BoxColour::Red);
    let blue_box = create_box(&mut w, pos(3, 3), BoxColour::Blue);
    create_box_spot(&mut w, pos(3, 3), BoxColour::Red);
    let player = create_player(&mut w, pos(5, 5));
    let mut q = create_event_queue();
    q.push(Event::EntityMoved(EntityMoved { entity: red_box }));
    q.push(Event::EntityMoved(EntityMoved { entity: blue_box }));
    q.push(Event::EntityMoved(EntityMoved { entity: player }));
    let cues = run_process_events(&w, &mut q);
    assert_eq!(cues, vec![SoundCue::Correct, SoundCue::Incorrect]);
    assert!(q.events.is_empty());
}

#[test]
fn queue_drains_in_insertion_order() {
    let mut q = create_event_queue();
    q.push(Event::PlayerHitObstacle);
    q.push(Event::EntityMoved(EntityMoved { entity: 4 }));
    let drained = q.drain();
    assert_eq!(
        drained,
        vec![Event::PlayerHitObstacle, Event::EntityMoved(EntityMoved { entity: 4 })]
    );
    assert!(q.events.is_empty());
    assert!(q.drain().is_empty());
}

#[test]
fn key_precedence_is_up_down_left_right() {
    assert_eq!(key_direction(true, true, true, true), Some(Direction::Up));
    assert_eq!(key_direction(false, true, false, true), Some(Direction::Down));
    assert_eq!(key_direction(false, false, true, true), Some(Direction::Left));
    assert_eq!(key_direction(false, false, false, true), Some(Direction::Right));
    assert_eq!(key_direction(false, false, false, false), None);
}

#[test]
fn parse_map_reads_tokens_and_coordinates() {
    let r = parse_map("N .\nP BB");
    let items = r.unwrap();
    assert_eq!(
        items,
        vec![
            MapItem { x: 0, y: 0, kind: CellKind::Empty },
            MapItem { x: 1, y: 0, kind: CellKind::Floor },
            MapItem { x: 0, y: 1, kind: CellKind::Player },
            MapItem { x: 1, y: 1, kind: CellKind::Box(BoxColour::Blue) },
        ]
    );
}

#[test]
fn parse_map_recognizes_every_token() {
    let items = parse_map("N . W P BB RB BS RS").unwrap();
    let kinds: Vec<CellKind> = items.iter().map(|i| i.kind).collect();
    assert_eq!(
        kinds,
        vec![
            CellKind::Empty,
            CellKind::Floor,
            CellKind::Wall,
            CellKind::Player,
            CellKind::Box(BoxColour::Blue),
            CellKind::Box(BoxColour::Red),
            CellKind::Spot(BoxColour::Blue),
            CellKind::Spot(BoxColour::Red),
        ]
    );
}

#[test]
fn parse_map_rejects_double_space() {
    // Two spaces make an empty cell token, which is not recognized.
    assert_eq!(parse_map("W  W"), Err(MapError::UnrecognizedToken));
}

#[test]
fn parse_map_rejects_oversized_rows() {
    let mut huge = String::new();
    for _ in 0..300 {
        huge.push_str("N ");
    }
    huge.push('N');
    assert_eq!(parse_map(&huge), Err(MapError::MapTooLarge));
}

#[test]
fn load_map_builds_floor_under_objects() {
    let mut w = World::new();
    load_map(&mut w, "W P").unwrap();
    // Each of the two cells spawns floor plus one object.
    assert_eq!(w.len(), 4);
    let floor = w.get(0);
    assert_eq!(floor.position.unwrap(), Position { x: 0, y: 0, z: 5 });
    assert!(floor.wall.is_none() && floor.player.is_none());
    let wall = w.get(1);
    assert_eq!(wall.position.unwrap(), Position { x: 0, y: 0, z: 10 });
    assert!(wall.wall.is_some() && wall.immovable.is_some() && wall.movable.is_none());
    let player = w.get(3);
    assert_eq!(player.position.unwrap(), Position { x: 1, y: 0, z: 10 });
    assert!(player.player.is_some() && player.movable.is_some());
}

#[test]
fn load_map_spawns_boxes_and_spots() {
    let mut w = World::new();
    load_map(&mut w, "RB BS").unwrap();
    assert_eq!(w.len(), 4);
    let b = w.get(1);
    assert_eq!(b.box_comp.unwrap().colour, BoxColour::Red);
    assert!(b.movable.is_some());
    assert_eq!(b.position.unwrap().z, 10);
    let s = w.get(3);
    assert_eq!(s.box_spot.unwrap().colour, BoxColour::Blue);
    assert!(s.movable.is_none() && s.immovable.is_none());
    assert_eq!(s.position.unwrap().z, 9);
}

#[test]
fn initialize_level_builds_the_default_grid() {
    let mut w = World::new();
    initialize_level(&mut w).unwrap();
    // 72 cells: 70 floors under everything but the two empty cells, plus
    // 30 walls, 1 player, 2 boxes and 2 spots on top.
    assert_eq!(w.len(), 105);
    let mut players = 0;
    let mut boxes = 0;
    let mut spots = 0;
    let mut walls = 0;
    for i in 0..w.len() {
        let c = w.get(i);
        if c.player.is_some() {
            players += 1;
        }
        if c.box_comp.is_some() {
            boxes += 1;
        }
        if c.box_spot.is_some() {
            spots += 1;
        }
        if c.wall.is_some() {
            walls += 1;
        }
    }
    assert_eq!((players, boxes, spots, walls), (1, 2, 2, 30));
}

#[test]
fn full_tick_on_the_default_level() {
    // Drive the real level one tick: push the player left, then check the
    // systems run in their tick order without disturbing each other.
    let mut w = World::new();
    initialize_level(&mut w).unwrap();
    let mut g = create_gameplay();
    let mut q = create_event_queue();
    run_input(&mut w, &mut g, &mut q, Direction::Left);
    assert_eq!(g.moves_count, 1);
    run_gameplay_state(&w, &mut g);
    assert!(matches!(g.state, GameplayState::Playing));
    let cues = run_process_events(&w, &mut q);
    assert!(q.events.is_empty());
    assert!(cues.is_empty());
}
