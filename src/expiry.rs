use vstd::prelude::*;
use crate::components::Lifetime;
use crate::world::{despawned, entities_wf, entity_wf, EntityData, World};

verus! {

/// `e` with its lifetime timer, if any, ticked by `delta`.
pub open spec fn ticked_lifetime(e: EntityData, delta: int) -> EntityData {
    match e.lifetime {
        Some(l) => EntityData { lifetime: Some(Lifetime { timer: l.timer.ticked(delta) }), ..e },
        None => e,
    }
}

pub open spec fn lifetimes_ticked(s: Seq<EntityData>, delta: int) -> Seq<EntityData> {
    Seq::new(s.len(), |i: int| ticked_lifetime(s[i], delta))
}

/// The lifetime of `e` completed on this tick.
pub open spec fn expired(e: EntityData) -> bool {
    e.lifetime is Some && e.lifetime->0.timer.just_finished
}

/// Identifiers of the entities of `s` whose lifetime just completed.
pub open spec fn expired_ids(s: Seq<EntityData>) -> Set<u64> {
    Set::new(|id: u64| exists|i: int| 0 <= i < s.len() && s[i].id == id && expired(s[i]))
}

/// Ticks every lifetime by `delta` and removes, with all their descendants,
/// the entities whose lifetime completed on this tick.
pub fn bullet_despawn(world: &mut World, delta: u64)
    requires
        old(world).wf(),
    ensures
        final(world).wf(),
        final(world).next_id == old(world).next_id,
        final(world).entities@ == despawned(
            lifetimes_ticked(old(world).entities@, delta as int),
            expired_ids(lifetimes_ticked(old(world).entities@, delta as int)),
        ),
{
    let ghost s = world.entities@;
    let mut out: Vec<EntityData> = Vec::new();
    let mut roots: Vec<u64> = Vec::new();
    let mut i: usize = 0;
    while i < world.entities.len()
        invariant
            s == world.entities@,
            entities_wf(s, world.next_id),
            i <= s.len(),
            out@.len() == i,
            forall|k: int| 0 <= k < i ==> out@[k] == ticked_lifetime(#[trigger] s[k], delta as int),
            forall|k: int| 0 <= k < i ==> entity_wf(#[trigger] out@[k]),
            forall|x: u64|
                roots@.contains(x) <==> exists|k: int| 0 <= k < i && out@[k].id == x && expired(out@[k]),
        decreases s.len() - i,
    {
        let e = world.entities[i];
        proof {
            assert(entity_wf(s[i as int]));
        }
        let ghost prev = roots@;
        let ghost prev_out = out@;
        let ticked = match e.lifetime {
            Some(l) => {
                let mut timer = l.timer;
                timer.tick(delta);
                if timer.just_finished() {
                    roots.push(e.id);
                }
                EntityData { lifetime: Some(Lifetime { timer }), ..e }
            },
            None => e,
        };
        out.push(ticked);
        proof {
            assert forall|x: u64|
                roots@.contains(x) <==> exists|k: int|
                    0 <= k < i + 1 && out@[k].id == x && expired(out@[k]) by {
                if roots@.contains(x) {
                    let m = choose|m: int| 0 <= m < roots@.len() && roots@[m] == x;
                    if m < prev.len() {
                        assert(prev[m] == x);
                        assert(prev.contains(x));
                        let k = choose|k: int|
                            0 <= k < i && prev_out[k].id == x && expired(prev_out[k]);
                        assert(out@[k] == prev_out[k]);
                    } else {
                        assert(out@[i as int].id == x && expired(out@[i as int]));
                    }
                }
                if exists|k: int| 0 <= k < i + 1 && out@[k].id == x && expired(out@[k]) {
                    let k = choose|k: int| 0 <= k < i + 1 && out@[k].id == x && expired(out@[k]);
                    if k < i {
                        assert(out@[k] == prev_out[k]);
                        assert(prev.contains(x));
                        let m = choose|m: int| 0 <= m < prev.len() && prev[m] == x;
                        assert(roots@[m] == x);
                    } else {
                        assert(roots@[roots@.len() - 1] == x);
                    }
                }
            }
        }
        i += 1;
    }
    proof {
        assert(out@ =~= lifetimes_ticked(s, delta as int));
        assert(roots@.to_set() =~= expired_ids(out@));
        assert forall|i: int, j: int| 0 <= i < j < out@.len() implies out@[i].id < out@[j].id by {
            assert(out@[i].id == s[i].id && out@[j].id == s[j].id);
        }
        assert forall|i: int| 0 <= i < out@.len() implies out@[i].id < world.next_id by {
            assert(out@[i].id == s[i].id);
        }
    }
    world.entities = out;
    world.despawn_subtrees(&roots);
}

} // verus!
