use vstd::prelude::*;
use crate::components::{BoxColour, Gameplay, GameplayState};
use crate::world::{at_cell, Components, World};

verus! {

/// Entity `i` of `w` is a box of colour `col` standing at `(x, y)`.
pub open spec fn box_cell(w: Seq<Components>, i: int, x: int, y: int, col: BoxColour) -> bool {
    0 <= i < w.len() && w[i].box_comp is Some && w[i].box_comp->0.colour == col && at_cell(
        w[i],
        x,
        y,
    )
}

/// Entity `i` of `w` is a box spot that has a position.
pub open spec fn is_spot(w: Seq<Components>, i: int) -> bool {
    0 <= i < w.len() && w[i].box_spot is Some && w[i].position is Some
}

/// The spot entity `i` is covered: some box of the spot's own colour
/// stands on the spot's cell.
pub open spec fn spot_satisfied(w: Seq<Components>, i: int) -> bool {
    exists|j: int|
        box_cell(
            w,
            j,
            w[i].position->0.x as int,
            w[i].position->0.y as int,
            w[i].box_spot->0.colour,
        )
}

/// The win condition: at least one box spot exists, and every box spot is
/// covered by a box of matching colour.
pub open spec fn win_condition(w: Seq<Components>) -> bool {
    (exists|i: int| is_spot(w, i)) && (forall|i: int| is_spot(w, i) ==> spot_satisfied(w, i))
}

/// One evaluation of the win rule: `Won` is terminal, and `Playing` becomes
/// `Won` exactly when the win condition holds.
pub open spec fn win_step(w: Seq<Components>, s: GameplayState) -> GameplayState {
    if s is Won || win_condition(w) {
        GameplayState::Won
    } else {
        GameplayState::Playing
    }
}

/// Whether a box of colour `colour` stands at `(x, y)`.
pub fn has_matching_box(world: &World, x: u8, y: u8, colour: BoxColour) -> (r: bool)
    ensures
        r == exists|j: int| box_cell(world@, j, x as int, y as int, colour),
{
    let n = world.len();
    let mut i: usize = 0;
    while i < n
        invariant
            0 <= i <= n,
            n == world@.len(),
            forall|j: int| 0 <= j < i ==> !box_cell(world@, j, x as int, y as int, colour),
        decreases n - i,
    {
        let c = world.get(i);
        if let Some(b) = c.box_comp {
            if b.colour == colour {
                if let Some(p) = c.position {
                    if p.x == x && p.y == y {
                        assert(box_cell(world@, i as int, x as int, y as int, colour));
                        return true;
                    }
                }
            }
        }
        assert(!box_cell(world@, i as int, x as int, y as int, colour));
        i = i + 1;
    }
    false
}

/// One tick of win detection: when still playing, scan every box spot and
/// move to `Won` exactly when each one is covered by a box of its colour
/// and at least one spot exists; once `Won`, stay `Won`. The move counter
/// is untouched.
pub fn run_gameplay_state(world: &World, gameplay: &mut Gameplay)
    ensures
        final(gameplay).moves_count == old(gameplay).moves_count,
        final(gameplay).state == win_step(world@, old(gameplay).state),
{
    if matches!(gameplay.state, GameplayState::Won) {
        return ;
    }
    let n = world.len();
    let mut found_spot = false;
    let mut i: usize = 0;
    while i < n
        invariant
            0 <= i <= n,
            n == world@.len(),
            found_spot <==> exists|k: int| 0 <= k < i && is_spot(world@, k),
            forall|k: int| 0 <= k < i && is_spot(world@, k) ==> spot_satisfied(world@, k),
        decreases n - i,
    {
        let c = world.get(i);
        if let Some(spot) = c.box_spot {
            if let Some(p) = c.position {
                found_spot = true;
                assert(is_spot(world@, i as int));
                if !has_matching_box(world, p.x, p.y, spot.colour) {
                    assert(!spot_satisfied(world@, i as int));
                    return ;
                }
            }
        }
        i = i + 1;
    }
    if found_spot {
        gameplay.state = GameplayState::Won;
    }
}

/// Law: evaluating the win rule twice in succession, with no intervening
/// change to the world, gives the same state as evaluating it once.
pub proof fn lemma_win_evaluation_idempotent(w: Seq<Components>, s: GameplayState)
    ensures
        win_step(w, win_step(w, s)) == win_step(w, s),
{
}

/// Law: one evaluation from `Playing` answers `Won` exactly when every box
/// spot is co-located with a box of matching colour and at least one box
/// spot exists.
pub proof fn lemma_win_detection(w: Seq<Components>)
    ensures
        win_step(w, GameplayState::Playing) is Won <==> win_condition(w),
        win_step(w, GameplayState::Won) is Won,
{
}

} // verus!
