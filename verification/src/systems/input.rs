use vstd::prelude::*;
use crate::components::{Gameplay, Position};
use crate::constants::{MAP_HEIGHT, MAP_WIDTH};
use crate::events::{EntityMoved, Event};
use crate::components::EventQueue;
use crate::world::{
    at_cell, find_immovable_from, find_movable_from, lemma_find_movable_from, movable_cell,
    same_shape, with_position, Components, World,
};

verus! {

/// One directional input, sampled once per tick.
#[derive(Clone, Copy, PartialEq, Eq, Structural, Debug)]
pub enum Direction {
    Up,
    Down,
    Left,
    Right,
}

/// The direction the tick acts on, given which keys are newly pressed: the
/// first pressed in the precedence order Up, Down, Left, Right.
pub fn key_direction(up: bool, down: bool, left: bool, right: bool) -> (d: Option<Direction>)
    ensures
        d == (if up {
            Some(Direction::Up)
        } else if down {
            Some(Direction::Down)
        } else if left {
            Some(Direction::Left)
        } else if right {
            Some(Direction::Right)
        } else {
            None::<Direction>
        }),
{
    if up {
        Some(Direction::Up)
    } else if down {
        Some(Direction::Down)
    } else if left {
        Some(Direction::Left)
    } else if right {
        Some(Direction::Right)
    } else {
        None
    }
}

/// The position lies on the playing grid.
pub open spec fn in_bounds(p: Position) -> bool {
    p.x < MAP_WIDTH && p.y < MAP_HEIGHT
}

/// Every player entity that has a position stands on the grid.
pub open spec fn players_in_bounds(w: Seq<Components>) -> bool {
    forall|i: int|
        (0 <= i < w.len() && w[i].player is Some && w[i].position is Some) ==> in_bounds(
            w[i].position->0,
        )
}

/// How many cells the scan ray holds: the player's own cell and every cell
/// from there to the map boundary in direction `d`.
pub open spec fn ray_len(p: Position, d: Direction) -> int {
    match d {
        Direction::Up => p.y + 1,
        Direction::Down => MAP_HEIGHT - p.y,
        Direction::Left => p.x + 1,
        Direction::Right => MAP_WIDTH - p.x,
    }
}

/// The x coordinate of the ray's cell `k` (cell 0 is the player's own).
pub open spec fn ray_x(p: Position, d: Direction, k: int) -> int {
    match d {
        Direction::Up => p.x as int,
        Direction::Down => p.x as int,
        Direction::Left => p.x - k,
        Direction::Right => p.x + k,
    }
}

/// The y coordinate of the ray's cell `k`.
pub open spec fn ray_y(p: Position, d: Direction, k: int) -> int {
    match d {
        Direction::Up => p.y - k,
        Direction::Down => p.y + k,
        Direction::Left => p.y as int,
        Direction::Right => p.y as int,
    }
}

/// The index of the first ray cell at or after `k` that holds no movable
/// entity — the cell that ends the chain — or `ray_len` if every cell to
/// the boundary holds one.
pub open spec fn chain_end(w: Seq<Components>, p: Position, d: Direction, k: int) -> int
    decreases ray_len(p, d) - k,
{
    if k < 0 || k >= ray_len(p, d) {
        ray_len(p, d)
    } else if find_movable_from(w, ray_x(p, d, k), ray_y(p, d, k), 0) is None {
        k
    } else {
        chain_end(w, p, d, k + 1)
    }
}

/// The push is blocked: the scan reached the map boundary without a gap, or
/// the first cell without a movable entity holds an immovable one.
pub open spec fn push_blocked(w: Seq<Components>, p: Position, d: Direction) -> bool {
    let e = chain_end(w, p, d, 0);
    e == ray_len(p, d) || find_immovable_from(w, ray_x(p, d, e), ray_y(p, d, e), 0) is Some
}

/// The push chain: for each ray cell before the chain's end, the movable
/// entity standing there, in scan order (the player's cell first).
pub open spec fn chain_entities(w: Seq<Components>, p: Position, d: Direction) -> Seq<int> {
    Seq::new(
        chain_end(w, p, d, 0) as nat,
        |k: int| find_movable_from(w, ray_x(p, d, k), ray_y(p, d, k), 0)->0,
    )
}

/// `p` translated one cell along `d`, keeping its layer.
pub open spec fn translate(p: Position, d: Direction) -> Position {
    match d {
        Direction::Up => Position { x: p.x, y: (p.y - 1) as u8, z: p.z },
        Direction::Down => Position { x: p.x, y: (p.y + 1) as u8, z: p.z },
        Direction::Left => Position { x: (p.x - 1) as u8, y: p.y, z: p.z },
        Direction::Right => Position { x: (p.x + 1) as u8, y: p.y, z: p.z },
    }
}

/// The world after entity `i` is translated one cell along `d`.
pub open spec fn step_entity(w: Seq<Components>, i: int, d: Direction) -> Seq<Components> {
    if 0 <= i < w.len() && w[i].position is Some {
        w.update(i, with_position(w[i], translate(w[i].position->0, d)))
    } else {
        w
    }
}

/// The world after every entity of `moves` is translated one cell along
/// `d`, in order.
pub open spec fn apply_moves(w: Seq<Components>, moves: Seq<int>, d: Direction) -> Seq<Components>
    decreases moves.len(),
{
    if moves.len() == 0 {
        w
    } else {
        apply_moves(step_entity(w, moves[0], d), moves.drop_first(), d)
    }
}

/// What one player's turn does to the world, the gameplay record and the
/// event sequence: nothing if the push is empty, one `PlayerHitObstacle` if
/// it is blocked, and otherwise one translation and one `EntityMoved` per
/// chain entity plus a single increment of the move counter.
pub open spec fn player_step(
    w: Seq<Components>,
    g: Gameplay,
    evs: Seq<Event>,
    d: Direction,
    pi: int,
) -> (Seq<Components>, Gameplay, Seq<Event>) {
    if !(0 <= pi < w.len() && w[pi].player is Some && w[pi].position is Some) {
        (w, g, evs)
    } else {
        let p = w[pi].position->0;
        if push_blocked(w, p, d) {
            (w, g, evs.push(Event::PlayerHitObstacle))
        } else {
            let chain = chain_entities(w, p, d);
            if chain.len() == 0 {
                (w, g, evs)
            } else {
                (
                    apply_moves(w, chain, d),
                    Gameplay { state: g.state, moves_count: (g.moves_count + 1) as u32 },
                    evs + chain.map_values(
                        |i: int| Event::EntityMoved(EntityMoved { entity: i as usize }),
                    ),
                )
            }
        }
    }
}

/// The entity can be translated one cell along `d` without leaving the
/// grid: its coordinate does not wrap and the target cell is on the map.
pub open spec fn step_ok(q: Position, d: Direction) -> bool {
    (match d {
        Direction::Up => q.y >= 1,
        Direction::Down => q.y + 1 < MAP_HEIGHT,
        Direction::Left => q.x >= 1,
        Direction::Right => q.x + 1 < MAP_WIDTH,
    }) && in_bounds(translate(q, d))
}

/// `q` translated one cell along `d`.
pub fn step_position(q: Position, d: Direction) -> (r: Position)
    requires
        step_ok(q, d),
    ensures
        r == translate(q, d),
{
    match d {
        Direction::Up => Position { x: q.x, y: q.y - 1, z: q.z },
        Direction::Down => Position { x: q.x, y: q.y + 1, z: q.z },
        Direction::Left => Position { x: q.x - 1, y: q.y, z: q.z },
        Direction::Right => Position { x: q.x + 1, y: q.y, z: q.z },
    }
}

/// Appending one move to a move list is one further translation of the
/// world the earlier moves produced.
pub proof fn lemma_apply_moves_push(w: Seq<Components>, moves: Seq<int>, i: int, d: Direction)
    ensures
        apply_moves(w, moves.push(i), d) == step_entity(apply_moves(w, moves, d), i, d),
    decreases moves.len(),
{
    assert(moves.push(i)[0] == if moves.len() == 0 { i } else { moves[0] });
    if moves.len() == 0 {
        assert(moves.push(i).drop_first() =~= Seq::<int>::empty());
        assert(apply_moves(step_entity(w, i, d), Seq::<int>::empty(), d) == step_entity(w, i, d));
    } else {
        assert(moves.push(i).drop_first() =~= moves.drop_first().push(i));
        lemma_apply_moves_push(step_entity(w, moves[0], d), moves.drop_first(), i, d);
    }
}

/// The indices at or after `i` of entities holding both a player tag and a
/// position, in ascending order.
pub open spec fn player_indices_from(w: Seq<Components>, i: int) -> Seq<int>
    decreases w.len() - i,
{
    if i < 0 || i >= w.len() {
        Seq::empty()
    } else if w[i].player is Some && w[i].position is Some {
        seq![i] + player_indices_from(w, i + 1)
    } else {
        player_indices_from(w, i + 1)
    }
}

/// The indices of every entity holding a player tag and a position.
pub open spec fn player_indices(w: Seq<Components>) -> Seq<int> {
    player_indices_from(w, 0)
}

/// One tick of input handling over the listed players, each resolved
/// against the world as the previous one left it.
pub open spec fn input_fold(
    w: Seq<Components>,
    g: Gameplay,
    evs: Seq<Event>,
    d: Direction,
    ps: Seq<int>,
) -> (Seq<Components>, Gameplay, Seq<Event>)
    decreases ps.len(),
{
    if ps.len() == 0 {
        (w, g, evs)
    } else {
        let s = player_step(w, g, evs, d, ps[0]);
        input_fold(s.0, s.1, s.2, d, ps.drop_first())
    }
}

/// Between `k` and the chain's end every ray cell holds a movable entity,
/// and the cell at the end (if it is not the boundary) holds none.
pub proof fn lemma_chain_end_props(w: Seq<Components>, p: Position, d: Direction, k: int)
    requires
        0 <= k <= ray_len(p, d),
    ensures
        k <= chain_end(w, p, d, k) <= ray_len(p, d),
        forall|j: int|
            k <= j < chain_end(w, p, d, k) ==> #[trigger] find_movable_from(
                w,
                ray_x(p, d, j),
                ray_y(p, d, j),
                0,
            ) is Some,
        chain_end(w, p, d, k) < ray_len(p, d) ==> find_movable_from(
            w,
            ray_x(p, d, chain_end(w, p, d, k)),
            ray_y(p, d, chain_end(w, p, d, k)),
            0,
        ) is None,
    decreases ray_len(p, d) - k,
{
    if k < ray_len(p, d) && find_movable_from(w, ray_x(p, d, k), ray_y(p, d, k), 0) is Some {
        lemma_chain_end_props(w, p, d, k + 1);
    }
}

/// Every listed index names an entity that holds a player tag and a
/// position.
pub proof fn lemma_player_indices_from(w: Seq<Components>, i: int)
    requires
        0 <= i,
    ensures
        forall|k: int|
            0 <= k < player_indices_from(w, i).len() ==> {
                let pi = #[trigger] player_indices_from(w, i)[k];
                i <= pi < w.len() && w[pi].player is Some && w[pi].position is Some
            },
    decreases w.len() - i,
{
    if i < w.len() {
        lemma_player_indices_from(w, i + 1);
    }
}

/// The identifiers of every entity holding a player tag and a position, in
/// ascending order.
pub fn players(world: &World) -> (r: Vec<usize>)
    ensures
        r@.map_values(|u: usize| u as int) == player_indices(world@),
{
    let n = world.len();
    let mut r: Vec<usize> = Vec::new();
    let mut i: usize = 0;
    while i < n
        invariant
            0 <= i <= n,
            n == world@.len(),
            player_indices(world@) == r@.map_values(|u: usize| u as int) + player_indices_from(
                world@,
                i as int,
            ),
            forall|k: int| 0 <= k < r@.len() ==> (r@[k] as int) < world@.len(),
        decreases n - i,
    {
        let c = world.get(i);
        if c.player.is_some() && c.position.is_some() {
            let ghost prev = r@;
            r.push(i);
            proof {
                assert(r@.map_values(|u: usize| u as int) =~= prev.map_values(|u: usize| u as int)
                    + seq![i as int]);
                assert(prev.map_values(|u: usize| u as int) + (seq![i as int]
                    + player_indices_from(world@, i + 1)) =~= r@.map_values(|u: usize| u as int)
                    + player_indices_from(world@, i + 1));
            }
        }
        i = i + 1;
    }
    r
}

/// Walk the scan ray from the player's cell outward and classify the push:
/// `None` when it is blocked by an immovable entity or by the map boundary,
/// otherwise the chain of movable entities to translate, in scan order.
pub fn resolve_push(world: &World, p: Position, d: Direction) -> (r: Option<Vec<usize>>)
    requires
        in_bounds(p),
    ensures
        r is None <==> push_blocked(world@, p, d),
        r matches Some(v) ==> v@.map_values(|u: usize| u as int) == chain_entities(world@, p, d),
{
    let n: usize = match d {
        Direction::Up => p.y as usize + 1,
        Direction::Down => (MAP_HEIGHT - p.y) as usize,
        Direction::Left => p.x as usize + 1,
        Direction::Right => (MAP_WIDTH - p.x) as usize,
    };
    let mut chain: Vec<usize> = Vec::new();
    let mut k: usize = 0;
    while k < n
        invariant
            in_bounds(p),
            n == ray_len(p, d),
            0 <= k <= n,
            chain@.len() == k,
            chain_end(world@, p, d, 0) == chain_end(world@, p, d, k as int),
            forall|j: int|
                0 <= j < k ==> find_movable_from(world@, ray_x(p, d, j), ray_y(p, d, j), 0)
                    == Some(chain@[j] as int),
        decreases n - k,
    {
        let (cx, cy): (u8, u8) = match d {
            Direction::Up => (p.x, p.y - (k as u8)),
            Direction::Down => (p.x, p.y + (k as u8)),
            Direction::Left => (p.x - (k as u8), p.y),
            Direction::Right => (p.x + (k as u8), p.y),
        };
        proof {
            assert(cx as int == ray_x(p, d, k as int) && cy as int == ray_y(p, d, k as int));
        }
        match world.movable_at(cx, cy) {
            Some(e) => {
                chain.push(e);
            },
            None => {
                if world.immovable_at(cx, cy).is_some() {
                    proof {
                        assert(chain_end(world@, p, d, k as int) == k as int);
                    }
                    return None;
                } else {
                    proof {
                        assert(chain_end(world@, p, d, k as int) == k as int);
                        assert(chain@.map_values(|u: usize| u as int) =~= chain_entities(
                            world@,
                            p,
                            d,
                        ));
                    }
                    return Some(chain);
                }
            },
        }
        k = k + 1;
    }
    proof {
        assert(chain_end(world@, p, d, n as int) == n as int);
    }
    None
}

/// Translate every chain entity one cell along `d`, in order. Entities not
/// in the chain are untouched, and no component other than the position of
/// a chain entity changes.
pub fn apply_push(world: &mut World, chain: &Vec<usize>, d: Direction)
    requires
        forall|j: int| 0 <= j < chain@.len() ==> (chain@[j] as int) < old(world)@.len(),
        forall|j: int|
            0 <= j < chain@.len() ==> (old(world)@[#[trigger] chain@[j] as int].position matches
            Some(q) && step_ok(q, d)),
        forall|j1: int, j2: int| 0 <= j1 < j2 < chain@.len() ==> chain@[j1] != chain@[j2],
    ensures
        final(world)@ == apply_moves(
            old(world)@,
            chain@.map_values(|u: usize| u as int),
            d,
        ),
        final(world)@.len() == old(world)@.len(),
        forall|i: int| 0 <= i < old(world)@.len() ==> same_shape(final(world)@[i], old(world)@[i]),
        forall|i: int|
            0 <= i < old(world)@.len() && (forall|j: int|
                0 <= j < chain@.len() ==> chain@[j] != i) ==> final(world)@[i] == old(world)@[i],
        forall|j: int|
            0 <= j < chain@.len() ==> final(world)@[chain@[j] as int] == with_position(
                old(world)@[chain@[j] as int],
                translate(old(world)@[chain@[j] as int].position->0, d),
            ),
        players_in_bounds(old(world)@) ==> players_in_bounds(final(world)@),
{
    let ghost w0 = old(world)@;
    let ghost moves = chain@.map_values(|u: usize| u as int);
    let m = chain.len();
    let mut j: usize = 0;
    while j < m
        invariant
            m == chain@.len(),
            0 <= j <= m,
            world@.len() == w0.len(),
            forall|jj: int| 0 <= jj < m ==> (chain@[jj] as int) < w0.len(),
            forall|jj: int|
                0 <= jj < m ==> (w0[#[trigger] chain@[jj] as int].position matches Some(q)
                    && step_ok(q, d)),
            forall|j1: int, j2: int| 0 <= j1 < j2 < m ==> chain@[j1] != chain@[j2],
            moves == chain@.map_values(|u: usize| u as int),
            world@ == apply_moves(w0, moves.take(j as int), d),
            forall|jj: int| j <= jj < m ==> world@[chain@[jj] as int] == w0[chain@[jj] as int],
            forall|jj: int|
                0 <= jj < j ==> world@[chain@[jj] as int] == with_position(
                    w0[chain@[jj] as int],
                    translate(w0[chain@[jj] as int].position->0, d),
                ),
            forall|i: int|
                0 <= i < w0.len() && (forall|jj: int| 0 <= jj < m ==> chain@[jj] != i)
                    ==> world@[i] == w0[i],
            forall|i: int| 0 <= i < w0.len() ==> same_shape(world@[i], w0[i]),
            players_in_bounds(w0) ==> players_in_bounds(world@),
        decreases m - j,
    {
        let e = chain[j];
        let c = *world.get(e);
        let q = c.position.unwrap();
        let ghost w_before = world@;
        world.set_position(e, step_position(q, d));
        proof {
            assert(moves.take(j + 1) =~= moves.take(j as int).push(chain@[j as int] as int));
            lemma_apply_moves_push(w0, moves.take(j as int), chain@[j as int] as int, d);
            assert(world@ == step_entity(w_before, chain@[j as int] as int, d));
            assert forall|i: int|
                0 <= i < w0.len() && (forall|jj: int| 0 <= jj < m ==> chain@[jj] != i) implies
                world@[i] == w0[i] by {
                assert(chain@[j as int] != i);
            }
        }
        j = j + 1;
    }
    proof {
        assert(moves.take(m as int) =~= moves);
    }
}

/// One tick of input handling, the push-movement resolver: for each player
/// entity in identifier order, walk the scan ray in direction `d` from the
/// player outward, and either translate the whole push chain by one cell
/// (counting one move and emitting one `EntityMoved` per translated
/// entity, in scan order) or, when a wall or the map boundary blocks the
/// push, leave everything in place and emit exactly one
/// `PlayerHitObstacle`.
pub fn run_input(world: &mut World, gameplay: &mut Gameplay, queue: &mut EventQueue, d: Direction)
    requires
        players_in_bounds(old(world)@),
        old(gameplay).moves_count + player_indices(old(world)@).len() <= u32::MAX,
    ensures
        final(world)@ == input_fold(
            old(world)@,
            *old(gameplay),
            old(queue)@,
            d,
            player_indices(old(world)@),
        ).0,
        *final(gameplay) == input_fold(
            old(world)@,
            *old(gameplay),
            old(queue)@,
            d,
            player_indices(old(world)@),
        ).1,
        final(queue)@ == input_fold(
            old(world)@,
            *old(gameplay),
            old(queue)@,
            d,
            player_indices(old(world)@),
        ).2,
{
    let ghost w0 = world@;
    let ghost g0 = *gameplay;
    let ghost q0 = queue@;
    let ghost pids = player_indices(w0);
    proof {
        lemma_player_indices_from(w0, 0);
    }
    let ps = players(world);
    proof {
        assert(pids.skip(0) =~= pids);
    }
    let mut idx: usize = 0;
    while idx < ps.len()
        invariant
            ps@.map_values(|u: usize| u as int) == pids,
            pids == player_indices(w0),
            0 <= idx <= ps.len(),
            pids.len() == ps@.len(),
            world@.len() == w0.len(),
            forall|i: int| 0 <= i < w0.len() ==> same_shape(#[trigger] world@[i], w0[i]),
            players_in_bounds(world@),
            gameplay.moves_count <= g0.moves_count + idx,
            g0.moves_count + pids.len() <= u32::MAX,
            forall|k: int|
                0 <= k < pids.len() ==> {
                    let pi = #[trigger] pids[k];
                    0 <= pi < w0.len() && w0[pi].player is Some && w0[pi].position is Some
                },
            input_fold(w0, g0, q0, d, pids) == input_fold(
                world@,
                *gameplay,
                queue@,
                d,
                pids.skip(idx as int),
            ),
        decreases ps.len() - idx,
    {
        let ghost wp = world@;
        let ghost gp = *gameplay;
        let ghost qp = queue@;
        let pid = ps[idx];
        proof {
            assert(pids[idx as int] == pid as int);
            assert(same_shape(world@[pid as int], w0[pid as int]));
        }
        let c = *world.get(pid);
        let p = c.position.unwrap();
        proof {
            assert(in_bounds(wp[pid as int].position->0));
        }
        match resolve_push(world, p, d) {
            None => {
                queue.push(Event::PlayerHitObstacle);
                proof {
                    assert((world@, *gameplay, queue@) == player_step(wp, gp, qp, d, pid as int));
                }
            },
            Some(chain) => {
                let ghost ce = chain_entities(wp, p, d);
                let ghost ll = chain_end(wp, p, d, 0);
                proof {
                    lemma_chain_end_props(wp, p, d, 0);
                    assert(chain@.map_values(|u: usize| u as int) == ce);
                    assert(ce.len() == ll);
                }
                if chain.len() > 0 {
                    proof {
                        assert(ll < ray_len(p, d));
                        assert forall|j: int| 0 <= j < chain@.len() implies {
                            &&& (chain@[j] as int) < wp.len()
                            &&& (wp[#[trigger] chain@[j] as int].position matches Some(q)
                                && step_ok(q, d))
                            &&& at_cell(wp[chain@[j] as int], ray_x(p, d, j), ray_y(p, d, j))
                        } by {
                            assert(ce[j] == find_movable_from(
                                wp,
                                ray_x(p, d, j),
                                ray_y(p, d, j),
                                0,
                            )->0);
                            lemma_find_movable_from(wp, ray_x(p, d, j), ray_y(p, d, j), 0);
                            assert(movable_cell(wp, ce[j], ray_x(p, d, j), ray_y(p, d, j)));
                        }
                        assert forall|j1: int, j2: int|
                            0 <= j1 < j2 < chain@.len() implies chain@[j1] != chain@[j2] by {
                            assert(at_cell(wp[chain@[j1] as int], ray_x(p, d, j1), ray_y(p, d, j1)));
                            assert(at_cell(wp[chain@[j2] as int], ray_x(p, d, j2), ray_y(p, d, j2)));
                        }
                    }
                    gameplay.moves_count = gameplay.moves_count + 1;
                    apply_push(world, &chain, d);
                    let ghost evseq = ce.map_values(
                        |i: int| Event::EntityMoved(EntityMoved { entity: i as usize }),
                    );
                    let mut j: usize = 0;
                    while j < chain.len()
                        invariant
                            0 <= j <= chain@.len(),
                            ce == chain@.map_values(|u: usize| u as int),
                            evseq == ce.map_values(
                                |i: int| Event::EntityMoved(EntityMoved { entity: i as usize }),
                            ),
                            queue@ == qp + evseq.take(j as int),
                        decreases chain@.len() - j,
                    {
                        queue.push(Event::EntityMoved(EntityMoved { entity: chain[j] }));
                        proof {
                            assert(evseq[j as int] == Event::EntityMoved(
                                EntityMoved { entity: chain@[j as int] },
                            ));
                            assert(qp + evseq.take(j as int + 1) =~= (qp + evseq.take(
                                j as int,
                            )).push(evseq[j as int]));
                        }
                        j = j + 1;
                    }
                    proof {
                        assert(evseq.take(chain@.len() as int) =~= evseq);
                        assert(world@ == apply_moves(wp, ce, d));
                        assert(*gameplay == Gameplay {
                            state: gp.state,
                            moves_count: (gp.moves_count + 1) as u32,
                        });
                        assert((world@, *gameplay, queue@) == player_step(
                            wp,
                            gp,
                            qp,
                            d,
                            pid as int,
                        ));
                        assert forall|i: int|
                            0 <= i < w0.len() implies same_shape(#[trigger] world@[i], w0[i]) by {
                            assert(same_shape(world@[i], wp[i]));
                            assert(same_shape(wp[i], w0[i]));
                        }
                    }
                } else {
                    proof {
                        assert((world@, *gameplay, queue@) == player_step(wp, gp, qp, d, pid as int));
                    }
                }
            },
        }
        proof {
            assert(pids.skip(idx as int)[0] == pids[idx as int]);
            assert(pids.skip(idx as int).drop_first() =~= pids.skip(idx as int + 1));
            assert(input_fold(wp, gp, qp, d, pids.skip(idx as int)) == input_fold(
                world@,
                *gameplay,
                queue@,
                d,
                pids.skip(idx as int + 1),
            ));
        }
        idx = idx + 1;
    }
    proof {
        assert(pids.skip(pids.len() as int) =~= Seq::<int>::empty());
    }
}

/// The grid holds exactly one player entity.
pub open spec fn single_player(w: Seq<Components>) -> bool {
    player_indices(w).len() == 1
}

/// The position of the sole player entity.
pub open spec fn sole_player_pos(w: Seq<Components>) -> Position {
    w[player_indices(w)[0]].position->0
}

/// After each listed move the remaining entities' records are untouched,
/// so the whole pass moves each listed entity once and nothing else.
pub proof fn lemma_apply_moves_pointwise(w: Seq<Components>, moves: Seq<int>, d: Direction)
    requires
        forall|j: int|
            0 <= j < moves.len() ==> 0 <= #[trigger] moves[j] < w.len()
                && w[moves[j]].position is Some,
        forall|j1: int, j2: int| 0 <= j1 < j2 < moves.len() ==> moves[j1] != moves[j2],
    ensures
        apply_moves(w, moves, d).len() == w.len(),
        forall|j: int|
            0 <= j < moves.len() ==> apply_moves(w, moves, d)[#[trigger] moves[j]]
                == with_position(
                w[moves[j]],
                translate(w[moves[j]].position->0, d),
            ),
        forall|i: int|
            0 <= i < w.len() && !moves.contains(i) ==> apply_moves(w, moves, d)[i] == w[i],
    decreases moves.len(),
{
    if moves.len() > 0 {
        let w1 = step_entity(w, moves[0], d);
        let rest = moves.drop_first();
        assert forall|j: int|
            0 <= j < rest.len() implies 0 <= #[trigger] rest[j] < w1.len()
            && w1[rest[j]].position is Some by {
            assert(rest[j] == moves[j + 1]);
            assert(moves[j + 1] != moves[0]);
        }
        lemma_apply_moves_pointwise(w1, rest, d);
        assert(!rest.contains(moves[0]));
        assert(apply_moves(w, moves, d) == apply_moves(w1, rest, d));
        assert forall|j: int|
            0 <= j < moves.len() implies apply_moves(w, moves, d)[#[trigger] moves[j]]
            == with_position(w[moves[j]], translate(w[moves[j]].position->0, d)) by {
            if j == 0 {
                assert(apply_moves(w1, rest, d)[moves[0]] == w1[moves[0]]);
            } else {
                assert(rest[j - 1] == moves[j]);
                assert(w1[moves[j]] == w[moves[j]]);
            }
        }
        assert forall|i: int|
            0 <= i < w.len() && !moves.contains(i) implies apply_moves(w, moves, d)[i] == w[i] by {
            assert(moves[0] != i);
            assert forall|k: int| 0 <= k < rest.len() implies rest[k] != i by {
                assert(rest[k] == moves[k + 1]);
            }
            assert(!rest.contains(i));
            assert(w1[i] == w[i]);
        }
    }
}

/// Law: a push whose scan meets a wall or the map boundary before any gap
/// changes no entity's record and emits exactly one `PlayerHitObstacle`,
/// leaving the gameplay record as it was.
pub proof fn lemma_blocked_push(w: Seq<Components>, g: Gameplay, evs: Seq<Event>, d: Direction)
    requires
        single_player(w),
        push_blocked(w, sole_player_pos(w), d),
    ensures
        input_fold(w, g, evs, d, player_indices(w)) == (
            w,
            g,
            evs.push(Event::PlayerHitObstacle),
        ),
{
    lemma_player_indices_from(w, 0);
    let pids = player_indices(w);
    assert(pids.drop_first() =~= Seq::<int>::empty());
    assert(player_step(w, g, evs, d, pids[0]) == (w, g, evs.push(Event::PlayerHitObstacle)));
    let s = player_step(w, g, evs, d, pids[0]);
    assert(input_fold(w, g, evs, d, pids) == input_fold(s.0, s.1, s.2, d, pids.drop_first()));
    assert(input_fold(s.0, s.1, s.2, d, pids.drop_first()) == (s.0, s.1, s.2));
}

/// Law: a push whose scan finds a gap moves exactly the movable entities
/// between the player's cell and the gap, each by one cell, emits one
/// `EntityMoved` per moved entity in scan order, and counts one move.
pub proof fn lemma_successful_push(w: Seq<Components>, g: Gameplay, evs: Seq<Event>, d: Direction)
    requires
        single_player(w),
        players_in_bounds(w),
        g.moves_count < u32::MAX,
        !push_blocked(w, sole_player_pos(w), d),
        chain_entities(w, sole_player_pos(w), d).len() > 0,
    ensures
        ({
            let r = input_fold(w, g, evs, d, player_indices(w));
            let p = sole_player_pos(w);
            let ce = chain_entities(w, p, d);
            &&& r.1 == Gameplay { state: g.state, moves_count: (g.moves_count + 1) as u32 }
            &&& r.2 == evs + ce.map_values(
                |i: int| Event::EntityMoved(EntityMoved { entity: i as usize }),
            )
            &&& r.0.len() == w.len()
            &&& forall|k: int|
                0 <= k < ce.len() ==> movable_cell(w, #[trigger] ce[k], ray_x(p, d, k), ray_y(p, d, k))
            &&& forall|k: int|
                0 <= k < ce.len() ==> r.0[#[trigger] ce[k]] == with_position(
                    w[ce[k]],
                    translate(w[ce[k]].position->0, d),
                )
            &&& forall|i: int| 0 <= i < w.len() && !ce.contains(i) ==> r.0[i] == w[i]
        }),
{
    lemma_player_indices_from(w, 0);
    let pids = player_indices(w);
    let pi = pids[0];
    let p = sole_player_pos(w);
    assert(in_bounds(p));
    lemma_chain_end_props(w, p, d, 0);
    let ce = chain_entities(w, p, d);
    assert forall|k: int|
        0 <= k < ce.len() implies movable_cell(w, #[trigger] ce[k], ray_x(p, d, k), ray_y(
        p,
        d,
        k,
    )) by {
        lemma_find_movable_from(w, ray_x(p, d, k), ray_y(p, d, k), 0);
    }
    assert forall|j1: int, j2: int| 0 <= j1 < j2 < ce.len() implies ce[j1] != ce[j2] by {
        assert(movable_cell(w, ce[j1], ray_x(p, d, j1), ray_y(p, d, j1)));
        assert(movable_cell(w, ce[j2], ray_x(p, d, j2), ray_y(p, d, j2)));
    }
    lemma_apply_moves_pointwise(w, ce, d);
    assert(pids.drop_first() =~= Seq::<int>::empty());
    let s = player_step(w, g, evs, d, pi);
    assert(input_fold(w, g, evs, d, pids) == input_fold(s.0, s.1, s.2, d, pids.drop_first()));
    assert(input_fold(s.0, s.1, s.2, d, pids.drop_first()) == (s.0, s.1, s.2));
}

} // verus!

