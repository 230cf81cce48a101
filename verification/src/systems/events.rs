use vstd::prelude::*;
use crate::components::EventQueue;
use crate::events::Event;
use crate::world::{find_spot_from, Components, World};

verus! {

/// A sound the dispatcher asks the audio collaborator to play once.
#[derive(Clone, Copy, PartialEq, Eq, Structural, Debug)]
pub enum SoundCue {
    /// A box came to rest on a spot of its own colour.
    Correct,
    /// A box came to rest on a spot of the wrong colour.
    Incorrect,
    /// The player ran into a wall or the map boundary.
    Wall,
}

/// The cue one event gives rise to: a blocked push always sounds the wall
/// cue; a moved box landing on a spot sounds the correct or the incorrect
/// cue by colour match with the first spot on its cell; everything else is
/// silent.
pub open spec fn cue_for(w: Seq<Components>, e: Event) -> Option<SoundCue> {
    match e {
        Event::PlayerHitObstacle => Some(SoundCue::Wall),
        Event::EntityMoved(m) => {
            let i = m.entity as int;
            if 0 <= i < w.len() && w[i].box_comp is Some && w[i].position is Some {
                let p = w[i].position->0;
                match find_spot_from(w, p.x as int, p.y as int, 0) {
                    Some(s) => if w[s].box_spot->0.colour == w[i].box_comp->0.colour {
                        Some(SoundCue::Correct)
                    } else {
                        Some(SoundCue::Incorrect)
                    },
                    None => None,
                }
            } else {
                None
            }
        },
    }
}

/// The cues of a sequence of events, in delivery order, silent events
/// dropped.
pub open spec fn cues_for(w: Seq<Components>, evs: Seq<Event>) -> Seq<SoundCue>
    decreases evs.len(),
{
    if evs.len() == 0 {
        Seq::empty()
    } else {
        let rest = cues_for(w, evs.drop_first());
        match cue_for(w, evs[0]) {
            Some(c) => seq![c] + rest,
            None => rest,
        }
    }
}

/// One tick of event dispatch: drain the queue and hand back the sound
/// cues of the drained events, in order. Every event is consumed exactly
/// once; the queue is left empty.
pub fn run_process_events(world: &World, queue: &mut EventQueue) -> (cues: Vec<SoundCue>)
    ensures
        final(queue)@ == Seq::<Event>::empty(),
        cues@ == cues_for(world@, old(queue)@),
{
    let evs = queue.drain();
    let ghost all = evs@;
    let mut cues: Vec<SoundCue> = Vec::new();
    proof {
        assert(all.skip(0) =~= all);
    }
    let mut i: usize = 0;
    while i < evs.len()
        invariant
            0 <= i <= all.len(),
            evs@ == all,
            cues_for(world@, all) == cues@ + cues_for(world@, all.skip(i as int)),
        decreases all.len() - i,
    {
        let ghost before = cues@;
        let ghost tail = all.skip(i as int);
        proof {
            assert(tail[0] == all[i as int]);
            assert(tail.drop_first() =~= all.skip(i as int + 1));
        }
        match evs[i] {
            Event::PlayerHitObstacle => {
                cues.push(SoundCue::Wall);
            },
            Event::EntityMoved(m) => {
                if m.entity < world.len() {
                    let c = world.get(m.entity);
                    if let Some(b) = c.box_comp {
                        if let Some(p) = c.position {
                            match world.box_spot_at(p.x, p.y) {
                                Some(s) => {
                                    let spot = world.get(s);
                                    if spot.box_spot.unwrap().colour == b.colour {
                                        cues.push(SoundCue::Correct);
                                    } else {
                                        cues.push(SoundCue::Incorrect);
                                    }
                                },
                                None => {},
                            }
                        }
                    }
                }
            },
        }
        proof {
            match cue_for(world@, all[i as int]) {
                Some(c) => {
                    assert(cues@ =~= before.push(c));
                    assert(before.push(c) + cues_for(world@, all.skip(i as int + 1)) =~= before + (
                    seq![c] + cues_for(world@, all.skip(i as int + 1))));
                },
                None => {
                    assert(cues@ == before);
                },
            }
        }
        i = i + 1;
    }
    proof {
        assert(all.skip(all.len() as int) =~= Seq::<Event>::empty());
    }
    cues
}

} // verus!
