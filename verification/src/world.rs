use vstd::prelude::*;
use crate::components::{Box, BoxSpot, Immovable, Movable, Player, Position, Wall};

verus! {

/// The component record of one entity. The store keeps exactly one record
/// per entity; a `None`/absent component means the entity does not hold it.
#[derive(Clone, Copy)]
pub struct Components {
    pub position: Option<Position>,
    pub wall: Option<Wall>,
    pub player: Option<Player>,
    pub box_comp: Option<Box>,
    pub box_spot: Option<BoxSpot>,
    pub movable: Option<Movable>,
    pub immovable: Option<Immovable>,
}

/// `c` with its position replaced and every other component kept.
pub open spec fn with_position(c: Components, p: Position) -> Components {
    Components {
        position: Some(p),
        wall: c.wall,
        player: c.player,
        box_comp: c.box_comp,
        box_spot: c.box_spot,
        movable: c.movable,
        immovable: c.immovable,
    }
}

/// The two records hold the same components apart from the position's value:
/// the position is present in one exactly when it is present in the other.
pub open spec fn same_shape(a: Components, b: Components) -> bool {
    &&& a.wall == b.wall
    &&& a.player == b.player
    &&& a.box_comp == b.box_comp
    &&& a.box_spot == b.box_spot
    &&& a.movable == b.movable
    &&& a.immovable == b.immovable
    &&& (a.position is Some <==> b.position is Some)
}

/// The record stands at grid cell `(x, y)`.
pub open spec fn at_cell(c: Components, x: int, y: int) -> bool {
    c.position matches Some(p) && p.x == x && p.y == y
}

/// Entity `i` of `w` is a movable entity standing at `(x, y)`.
pub open spec fn movable_cell(w: Seq<Components>, i: int, x: int, y: int) -> bool {
    0 <= i < w.len() && w[i].movable is Some && at_cell(w[i], x, y)
}

/// Entity `i` of `w` is an immovable entity standing at `(x, y)`.
pub open spec fn immovable_cell(w: Seq<Components>, i: int, x: int, y: int) -> bool {
    0 <= i < w.len() && w[i].immovable is Some && at_cell(w[i], x, y)
}

/// The least index `>= i` of a movable entity at `(x, y)`, if any.
pub open spec fn find_movable_from(w: Seq<Components>, x: int, y: int, i: int) -> Option<int>
    decreases w.len() - i,
{
    if i < 0 || i >= w.len() {
        None
    } else if movable_cell(w, i, x, y) {
        Some(i)
    } else {
        find_movable_from(w, x, y, i + 1)
    }
}

/// The least index `>= i` of an immovable entity at `(x, y)`, if any.
pub open spec fn find_immovable_from(w: Seq<Components>, x: int, y: int, i: int) -> Option<int>
    decreases w.len() - i,
{
    if i < 0 || i >= w.len() {
        None
    } else if immovable_cell(w, i, x, y) {
        Some(i)
    } else {
        find_immovable_from(w, x, y, i + 1)
    }
}

/// What `find_movable_from(w, x, y, 0)` answers: it finds the least movable
/// entity at the cell, and answers `None` exactly when the cell holds none.
pub proof fn lemma_find_movable_from(w: Seq<Components>, x: int, y: int, i: int)
    requires
        0 <= i,
    ensures
        find_movable_from(w, x, y, i) is None <==> (forall|j: int|
            i <= j < w.len() ==> !movable_cell(w, j, x, y)),
        find_movable_from(w, x, y, i) matches Some(m) ==> i <= m < w.len()
            && movable_cell(w, m, x, y) && (forall|j: int|
            i <= j < m ==> !movable_cell(w, j, x, y)),
    decreases w.len() - i,
{
    if i < w.len() && !movable_cell(w, i, x, y) {
        lemma_find_movable_from(w, x, y, i + 1);
    }
}

/// Entity `i` of `w` is a box spot standing at `(x, y)`.
pub open spec fn spot_cell(w: Seq<Components>, i: int, x: int, y: int) -> bool {
    0 <= i < w.len() && w[i].box_spot is Some && at_cell(w[i], x, y)
}

/// The least index `>= i` of a box-spot entity at `(x, y)`, if any.
pub open spec fn find_spot_from(w: Seq<Components>, x: int, y: int, i: int) -> Option<int>
    decreases w.len() - i,
{
    if i < 0 || i >= w.len() {
        None
    } else if spot_cell(w, i, x, y) {
        Some(i)
    } else {
        find_spot_from(w, x, y, i + 1)
    }
}

/// The entity-component store: an arena of component records indexed by the
/// entity identifier. Entities are created at level load and never removed.
pub struct World {
    pub entities: Vec<Components>,
}

impl View for World {
    type V = Seq<Components>;

    open spec fn view(&self) -> Seq<Components> {
        self.entities@
    }
}

impl World {
    /// A store with no entities.
    pub fn new() -> (w: World)
        ensures
            w@ == Seq::<Components>::empty(),
    {
        World { entities: Vec::new() }
    }

    /// Create one entity holding the given components; the returned
    /// identifier is its index in the store.
    pub fn spawn(&mut self, c: Components) -> (id: usize)
        ensures
            final(self)@ == old(self)@.push(c),
            id == old(self)@.len(),
    {
        let id = self.entities.len();
        self.entities.push(c);
        id
    }

    /// How many entities the store holds.
    pub fn len(&self) -> (n: usize)
        ensures
            n == self@.len(),
    {
        self.entities.len()
    }

    /// Read the component record of one entity.
    pub fn get(&self, id: usize) -> (c: &Components)
        requires
            id < self@.len(),
        ensures
            *c == self@[id as int],
    {
        &self.entities[id]
    }

    /// Give one entity a new position; every other component, and every
    /// other entity, stays as it was.
    pub fn set_position(&mut self, id: usize, p: Position)
        requires
            id < old(self)@.len(),
        ensures
            final(self)@ == old(self)@.update(id as int, with_position(old(self)@[id as int], p)),
    {
        let mut c = self.entities[id];
        c.position = Some(p);
        self.entities.set(id, c);
        proof {
            assert(c == with_position(old(self)@[id as int], p));
        }
    }

    /// The least-indexed movable entity at `(x, y)`, if the cell holds one.
    pub fn movable_at(&self, x: u8, y: u8) -> (r: Option<usize>)
        ensures
            r is Some <==> find_movable_from(self@, x as int, y as int, 0) is Some,
            r matches Some(id) ==> find_movable_from(self@, x as int, y as int, 0) == Some(
                id as int,
            ),
    {
        let n = self.entities.len();
        let mut i: usize = 0;
        while i < n
            invariant
                0 <= i <= n,
                n == self@.len(),
                find_movable_from(self@, x as int, y as int, 0) == find_movable_from(
                    self@,
                    x as int,
                    y as int,
                    i as int,
                ),
            decreases n - i,
        {
            let c = &self.entities[i];
            if c.movable.is_some() {
                if let Some(p) = c.position {
                    if p.x == x && p.y == y {
                        return Some(i);
                    }
                }
            }
            assert(!movable_cell(self@, i as int, x as int, y as int));
            i = i + 1;
        }
        None
    }

    /// The least-indexed immovable entity at `(x, y)`, if the cell holds one.
    pub fn immovable_at(&self, x: u8, y: u8) -> (r: Option<usize>)
        ensures
            r is Some <==> find_immovable_from(self@, x as int, y as int, 0) is Some,
            r matches Some(id) ==> find_immovable_from(self@, x as int, y as int, 0) == Some(
                id as int,
            ),
    {
        let n = self.entities.len();
        let mut i: usize = 0;
        while i < n
            invariant
                0 <= i <= n,
                n == self@.len(),
                find_immovable_from(self@, x as int, y as int, 0) == find_immovable_from(
                    self@,
                    x as int,
                    y as int,
                    i as int,
                ),
            decreases n - i,
        {
            let c = &self.entities[i];
            if c.immovable.is_some() {
                if let Some(p) = c.position {
                    if p.x == x && p.y == y {
                        return Some(i);
                    }
                }
            }
            assert(!immovable_cell(self@, i as int, x as int, y as int));
            i = i + 1;
        }
        None
    }

    /// The least-indexed box-spot entity at `(x, y)`, if the cell holds one.
    pub fn box_spot_at(&self, x: u8, y: u8) -> (r: Option<usize>)
        ensures
            r is Some <==> find_spot_from(self@, x as int, y as int, 0) is Some,
            r matches Some(id) ==> find_spot_from(self@, x as int, y as int, 0) == Some(id as int)
                && spot_cell(self@, id as int, x as int, y as int),
    {
        let n = self.entities.len();
        let mut i: usize = 0;
        while i < n
            invariant
                0 <= i <= n,
                n == self@.len(),
                find_spot_from(self@, x as int, y as int, 0) == find_spot_from(
                    self@,
                    x as int,
                    y as int,
                    i as int,
                ),
            decreases n - i,
        {
            let c = &self.entities[i];
            if c.box_spot.is_some() {
                if let Some(p) = c.position {
                    if p.x == x && p.y == y {
                        return Some(i);
                    }
                }
            }
            assert(!spot_cell(self@, i as int, x as int, y as int));
            i = i + 1;
        }
        None
    }
}

} // verus!
