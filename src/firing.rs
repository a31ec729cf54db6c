use vstd::prelude::*;
use crate::components::{
    Bullet, Lifetime, Tower, BARREL_COOLDOWN, BARREL_MUZZLE_HEIGHT, BULLET_LIFETIME, BULLET_SPEED,
};
use crate::geometry::{clamp_i32, direction_in_range, sq_dist, sq_len, squared_distance, squared_length, Position, Vector};
use crate::timer::Timer;
use crate::world::{entities_wf, entity_wf, EntityData, World};

verus! {

/// `e` with its tower timer, if any, ticked by `delta`.
pub open spec fn ticked_tower(e: EntityData, delta: int) -> EntityData {
    match e.tower {
        Some(t) => EntityData { tower: Some(Tower { shooting_timer: t.shooting_timer.ticked(delta), ..t }), ..e },
        None => e,
    }
}

pub open spec fn towers_ticked(s: Seq<EntityData>, delta: int) -> Seq<EntityData> {
    Seq::new(s.len(), |i: int| ticked_tower(s[i], delta))
}

/// Where a tower's bullets appear: its translation moved by its offset.
pub open spec fn spawn_point(t: Tower, p: Position) -> Vector {
    Vector {
        x: (p.x + t.bullet_offset.x) as i64,
        y: (p.y + t.bullet_offset.y) as i64,
        z: (p.z + t.bullet_offset.z) as i64,
    }
}

/// Index of the target among the first `n` entities of `s` nearest to `p`;
/// of several equally near, the first.
pub open spec fn nearest_target(s: Seq<EntityData>, p: Vector, n: int) -> Option<int>
    decreases n,
{
    if n <= 0 {
        None
    } else {
        let best = nearest_target(s, p, n - 1);
        if s[n - 1].target is Some && (best is None || sq_dist(s[n - 1].translation, p) < sq_dist(
            s[best->0].translation,
            p,
        )) {
            Some(n - 1)
        } else {
            best
        }
    }
}

/// The spawn point of `e`, a tower.
pub open spec fn spawn_point_of(e: EntityData) -> Vector {
    spawn_point(e.tower->0, e.translation)
}

/// `a - b`.
pub open spec fn offset_to(a: Position, b: Vector) -> Vector {
    Vector { x: (a.x - b.x) as i64, y: (a.y - b.y) as i64, z: (a.z - b.z) as i64 }
}

/// A shot: the firing tower's identifier, the spawn point and the aim.
pub struct Shot {
    pub tower: u64,
    pub from: Vector,
    pub direction: Vector,
}

/// The shot fired by entity `i` of `s`, if any: it is a tower whose timer
/// just completed, some target exists, and the nearest one is not exactly at
/// the spawn point.
pub open spec fn shot_of(s: Seq<EntityData>, i: int) -> Option<Shot> {
    let e = s[i];
    match e.tower {
        Some(t) => if t.shooting_timer.just_finished {
            let from = spawn_point(t, e.translation);
            match nearest_target(s, from, s.len() as int) {
                Some(k) => {
                    let d = offset_to(s[k].translation, from);
                    if sq_len(d) == 0 {
                        None
                    } else {
                        Some(Shot { tower: e.id, from, direction: d })
                    }
                },
                None => None,
            }
        } else {
            None
        },
        None => None,
    }
}

/// The shots fired by the first `n` entities of `s`, in order.
pub open spec fn shots(s: Seq<EntityData>, n: int) -> Seq<Shot>
    decreases n,
{
    if n <= 0 {
        Seq::empty()
    } else {
        match shot_of(s, n - 1) {
            Some(x) => shots(s, n - 1).push(x),
            None => shots(s, n - 1),
        }
    }
}

/// The bullet spawned for `shot` under identifier `id`: a child of the
/// tower, at the spawn point, with the fixed speed and a fresh lifetime.
pub open spec fn bullet_entity(id: u64, shot: Shot) -> EntityData {
    EntityData {
        id,
        parent: Some(shot.tower),
        translation: Position {
            x: clamp_i32(shot.from.x as int) as i32,
            y: clamp_i32(shot.from.y as int) as i32,
            z: clamp_i32(shot.from.z as int) as i32,
        },
        tower: None,
        tower_base: None,
        target: None,
        health: None,
        bullet: Some(Bullet { direction: shot.direction, speed: BULLET_SPEED }),
        lifetime: Some(
            Lifetime {
                timer: Timer {
                    duration: BULLET_LIFETIME,
                    elapsed: 0,
                    repeating: false,
                    finished: false,
                    just_finished: false,
                },
            },
        ),
    }
}

/// The bullets spawned for `sh`, with identifiers counted up from `first`.
pub open spec fn bullets_for(sh: Seq<Shot>, first: int) -> Seq<EntityData> {
    Seq::new(sh.len(), |k: int| bullet_entity((first + k) as u64, sh[k]))
}

pub(crate) proof fn lemma_shots_len(s: Seq<EntityData>, n: int)
    requires
        0 <= n,
    ensures
        shots(s, n).len() <= n,
    decreases n,
{
    if n > 0 {
        lemma_shots_len(s, n - 1);
    }
}

/// The entities and next identifier after one firing tick, as
/// `tower_shooting` leaves them.
pub open spec fn fire_once(s: Seq<EntityData>, next: int, delta: int) -> (Seq<EntityData>, int) {
    let t = towers_ticked(s, delta);
    let sh = shots(t, t.len() as int);
    (t + bullets_for(sh, next), next + sh.len())
}

/// Index of the target of `entities` nearest to `p`; of several equally
/// near, the first.
pub fn nearest(entities: &Vec<EntityData>, p: &Vector) -> (r: Option<usize>)
    requires
        -0x2_0000_0000 <= p.x <= 0x2_0000_0000,
        -0x2_0000_0000 <= p.y <= 0x2_0000_0000,
        -0x2_0000_0000 <= p.z <= 0x2_0000_0000,
    ensures
        match r {
            Some(k) => nearest_target(entities@, *p, entities@.len() as int) == Some(k as int) && k
                < entities@.len(),
            None => nearest_target(entities@, *p, entities@.len() as int) is None,
        },
{
    let mut best: Option<usize> = None;
    let mut best_d: u128 = 0;
    let mut i: usize = 0;
    while i < entities.len()
        invariant
            i <= entities@.len(),
            -0x2_0000_0000 <= p.x <= 0x2_0000_0000,
            -0x2_0000_0000 <= p.y <= 0x2_0000_0000,
            -0x2_0000_0000 <= p.z <= 0x2_0000_0000,
            match best {
                Some(k) => nearest_target(entities@, *p, i as int) == Some(k as int) && k < i
                    && best_d == sq_dist(entities@[k as int].translation, *p),
                None => nearest_target(entities@, *p, i as int) is None,
            },
        decreases entities@.len() - i,
    {
        let e = &entities[i];
        if e.target.is_some() {
            let d = squared_distance(&e.translation, p);
            match best {
                Some(_) => {
                    if d < best_d {
                        best = Some(i);
                        best_d = d;
                    }
                },
                None => {
                    best = Some(i);
                    best_d = d;
                },
            }
        }
        i += 1;
    }
    best
}

fn clamp_to_i32(v: i64) -> (r: i32)
    ensures
        r == clamp_i32(v as int),
{
    if v < i32::MIN as i64 {
        i32::MIN
    } else if v > i32::MAX as i64 {
        i32::MAX
    } else {
        v as i32
    }
}

/// Ticks every tower's timer by `delta`; each tower whose timer completes
/// fires one bullet at the nearest target, as `shots` describes. Bullets are
/// appended after all towers were seen, with fresh identifiers in order.
pub fn tower_shooting(world: &mut World, delta: u64)
    requires
        old(world).wf(),
        old(world).next_id + old(world).entities@.len() <= u64::MAX,
    ensures
        final(world).wf(),
        ({
            let t = towers_ticked(old(world).entities@, delta as int);
            let sh = shots(t, t.len() as int);
            &&& final(world).entities@ == t + bullets_for(sh, old(world).next_id as int)
            &&& final(world).next_id == old(world).next_id + sh.len()
        }),
        (final(world).entities@, final(world).next_id as int) == fire_once(
            old(world).entities@,
            old(world).next_id as int,
            delta as int,
        ),
{
    let ghost s = world.entities@;
    let n = world.entities.len();
    let mut out: Vec<EntityData> = Vec::new();
    let mut i: usize = 0;
    while i < n
        invariant
            s == world.entities@,
            n == s.len(),
            entities_wf(s, world.next_id),
            i <= n,
            out@.len() == i,
            forall|k: int| 0 <= k < i ==> out@[k] == ticked_tower(#[trigger] s[k], delta as int),
            forall|k: int| 0 <= k < i ==> entity_wf(#[trigger] out@[k]),
        decreases n - i,
    {
        let e = world.entities[i];
        proof {
            assert(entity_wf(s[i as int]));
        }
        let ticked = match e.tower {
            Some(t) => {
                let mut timer = t.shooting_timer;
                timer.tick(delta);
                EntityData { tower: Some(Tower { shooting_timer: timer, ..t }), ..e }
            },
            None => e,
        };
        out.push(ticked);
        i += 1;
    }
    let ghost t = out@;
    proof {
        assert(t =~= towers_ticked(s, delta as int));
    }
    let first = world.next_id;
    let mut bullets: Vec<EntityData> = Vec::new();
    let mut j: usize = 0;
    while j < n
        invariant
            t == out@,
            n == t.len(),
            j <= n,
            first as int + n <= u64::MAX,
            bullets@ == bullets_for(shots(t, j as int), first as int),
        decreases n - j,
    {
        proof {
            lemma_shots_len(t, j as int);
        }
        let e = out[j];
        match e.tower {
            Some(tw) => {
                if tw.shooting_timer.just_finished() {
                    let from = Vector {
                        x: e.translation.x as i64 + tw.bullet_offset.x as i64,
                        y: e.translation.y as i64 + tw.bullet_offset.y as i64,
                        z: e.translation.z as i64 + tw.bullet_offset.z as i64,
                    };
                    match nearest(&out, &from) {
                        Some(k) => {
                            let tp = out[k].translation;
                            let d = Vector {
                                x: tp.x as i64 - from.x,
                                y: tp.y as i64 - from.y,
                                z: tp.z as i64 - from.z,
                            };
                            if squared_length(&d) != 0 {
                                let id = first + bullets.len() as u64;
                                let b = EntityData {
                                    id,
                                    parent: Some(e.id),
                                    translation: Position {
                                        x: clamp_to_i32(from.x),
                                        y: clamp_to_i32(from.y),
                                        z: clamp_to_i32(from.z),
                                    },
                                    tower: None,
                                    tower_base: None,
                                    target: None,
                                    health: None,
                                    bullet: Some(Bullet { direction: d, speed: BULLET_SPEED }),
                                    lifetime: Some(Lifetime { timer: Timer::new(BULLET_LIFETIME, false) }),
                                };
                                let ghost prev = bullets@;
                                bullets.push(b);
                                proof {
                                    let sh = Shot { tower: e.id, from, direction: d };
                                    assert(shot_of(t, j as int) == Some(sh));
                                    assert(bullets@ =~= bullets_for(shots(t, j + 1), first as int));
                                }
                            } else {
                                proof {
                                    assert(shot_of(t, j as int) is None);
                                    assert(shots(t, j + 1) == shots(t, j as int));
                                }
                            }
                        },
                        None => {
                            proof {
                                assert(shots(t, j + 1) == shots(t, j as int));
                            }
                        },
                    }
                } else {
                    proof {
                        assert(shots(t, j + 1) == shots(t, j as int));
                    }
                }
            },
            None => {
                proof {
                    assert(shots(t, j + 1) == shots(t, j as int));
                }
            },
        }
        j += 1;
    }
    let ghost sh = shots(t, n as int);
    proof {
        lemma_shots_len(t, n as int);
    }
    let count = bullets.len();
    let mut m: usize = 0;
    while m < count
        invariant
            count == bullets@.len(),
            m <= count,
            out@ == t + bullets@.take(m as int),
        decreases count - m,
    {
        out.push(bullets[m]);
        proof {
            assert(out@ =~= t + bullets@.take(m + 1));
        }
        m += 1;
    }
    proof {
        assert(bullets@.take(count as int) =~= bullets@);
        let f = out@;
        assert forall|a: int, b: int| 0 <= a < b < f.len() implies f[a].id < f[b].id by {
            if b < n {
                assert(f[a].id == s[a].id && f[b].id == s[b].id);
            } else if a < n {
                assert(f[a].id == s[a].id);
            }
        }
        assert forall|a: int| 0 <= a < f.len() implies f[a].id < first + count && entity_wf(
            #[trigger] f[a],
        ) by {
            if a < n {
                assert(f[a].id == s[a].id);
                assert(entity_wf(s[a]));
            } else {
                let k = a - n;
                assert(f[a] == bullet_entity((first + k) as u64, sh[k]));
                lemma_shot_tower(t, n as int, k);
                assert(f[a].parent->0 < first);
            }
        }
    }
    world.entities = out;
    world.next_id = first + count as u64;
}

pub(crate) proof fn lemma_shot_from(s: Seq<EntityData>, n: int, k: int)
    requires
        0 <= n <= s.len(),
        0 <= k < shots(s, n).len(),
    ensures
        exists|i: int| 0 <= i < n && shot_of(s, i) == Some(#[trigger] shots(s, n)[k]),
    decreases n,
{
    if n > 0 {
        if k < shots(s, n - 1).len() {
            lemma_shot_from(s, n - 1, k);
            let i = choose|i: int| 0 <= i < n - 1 && shot_of(s, i) == Some(shots(s, n - 1)[k]);
            assert(shots(s, n)[k] == shots(s, n - 1)[k]);
        } else {
            assert(shot_of(s, n - 1) == Some(shots(s, n)[k]));
        }
    }
}

/// A shot comes from the tower at `i`, whose identifier it carries, and its
/// direction is within range.
proof fn lemma_shot_of(s: Seq<EntityData>, i: int)
    requires
        0 <= i < s.len(),
        shot_of(s, i) is Some,
    ensures
        shot_of(s, i)->0.tower == s[i].id,
        direction_in_range(shot_of(s, i)->0.direction),
{
    let from = spawn_point_of(s[i]);
    crate::laws::nearest_is_closest(s, from, s.len() as int);
}

/// Every shot comes from some tower of `s`, and its direction is in range.
proof fn lemma_shot_tower(s: Seq<EntityData>, n: int, k: int)
    requires
        0 <= n <= s.len(),
        0 <= k < shots(s, n).len(),
    ensures
        exists|i: int| 0 <= i < n && shots(s, n)[k].tower == s[i].id,
        direction_in_range(shots(s, n)[k].direction),
{
    lemma_shot_from(s, n, k);
    let i = choose|i: int| 0 <= i < n && shot_of(s, i) == Some(shots(s, n)[k]);
    lemma_shot_of(s, i);
}

/// Translations of the tower bases among the first `n` entities of `s`.
pub open spec fn base_positions(s: Seq<EntityData>, n: int) -> Seq<Position>
    decreases n,
{
    if n <= 0 {
        Seq::empty()
    } else if s[n - 1].tower_base is Some {
        base_positions(s, n - 1).push(s[n - 1].translation)
    } else {
        base_positions(s, n - 1)
    }
}

/// The firing tower mounted at `p` under identifier `id`.
pub open spec fn barrel_entity(id: u64, p: Position) -> EntityData {
    EntityData {
        id,
        parent: None,
        translation: p,
        tower: Some(
            Tower {
                shooting_timer: Timer {
                    duration: BARREL_COOLDOWN,
                    elapsed: 0,
                    repeating: true,
                    finished: false,
                    just_finished: false,
                },
                bullet_offset: Position { x: 0, y: BARREL_MUZZLE_HEIGHT, z: 0 },
            },
        ),
        tower_base: None,
        target: None,
        health: None,
        bullet: None,
        lifetime: None,
    }
}

proof fn lemma_base_positions_len(s: Seq<EntityData>, n: int)
    requires
        0 <= n,
    ensures
        base_positions(s, n).len() <= n,
    decreases n,
{
    if n > 0 {
        lemma_base_positions_len(s, n - 1);
    }
}

/// Mounts a firing tower on every tower base: one new entity per base, at
/// its translation, appended in order with fresh identifiers.
pub fn add_barrel(world: &mut World)
    requires
        old(world).wf(),
        old(world).next_id + old(world).entities@.len() <= u64::MAX,
    ensures
        final(world).wf(),
        ({
            let s = old(world).entities@;
            let b = base_positions(s, s.len() as int);
            &&& final(world).next_id == old(world).next_id + b.len()
            &&& final(world).entities@ == s + Seq::new(
                b.len(),
                |k: int| barrel_entity((old(world).next_id + k) as u64, b[k]),
            )
        }),
{
    let ghost s = world.entities@;
    let n = world.entities.len();
    let first = world.next_id;
    let mut barrels: Vec<EntityData> = Vec::new();
    let mut i: usize = 0;
    while i < n
        invariant
            s == world.entities@,
            n == s.len(),
            i <= n,
            first == world.next_id,
            first as int + n <= u64::MAX,
            barrels@ == Seq::new(
                base_positions(s, i as int).len(),
                |k: int| barrel_entity((first + k) as u64, base_positions(s, i as int)[k]),
            ),
        decreases n - i,
    {
        proof {
            lemma_base_positions_len(s, i as int);
        }
        let e = world.entities[i];
        if e.tower_base.is_some() {
            let tower = Tower {
                shooting_timer: Timer::new(BARREL_COOLDOWN, true),
                bullet_offset: Position { x: 0, y: BARREL_MUZZLE_HEIGHT, z: 0 },
            };
            let b = EntityData {
                id: first + barrels.len() as u64,
                parent: None,
                translation: e.translation,
                tower: Some(tower),
                tower_base: None,
                target: None,
                health: None,
                bullet: None,
                lifetime: None,
            };
            barrels.push(b);
            proof {
                assert(barrels@ =~= Seq::new(
                    base_positions(s, i + 1).len(),
                    |k: int| barrel_entity((first + k) as u64, base_positions(s, i + 1)[k]),
                ));
            }
        }
        i += 1;
    }
    proof {
        lemma_base_positions_len(s, n as int);
    }
    let count = barrels.len();
    let mut m: usize = 0;
    while m < count
        invariant
            count == barrels@.len(),
            m <= count,
            world.next_id == first,
            world.entities@ == s + barrels@.take(m as int),
        decreases count - m,
    {
        world.entities.push(barrels[m]);
        proof {
            assert(world.entities@ =~= s + barrels@.take(m + 1));
        }
        m += 1;
    }
    proof {
        assert(barrels@.take(count as int) =~= barrels@);
        let f = world.entities@;
        assert forall|a: int, b: int| 0 <= a < b < f.len() implies f[a].id < f[b].id by {
            if b < n {
                assert(f[a] == s[a] && f[b] == s[b]);
            } else if a < n {
                assert(f[a] == s[a]);
            }
        }
        assert forall|a: int| 0 <= a < f.len() implies f[a].id < first + count && entity_wf(
            #[trigger] f[a],
        ) by {
            if a < n {
                assert(f[a] == s[a]);
                assert(entity_wf(s[a]));
            }
        }
    }
    world.next_id = first + count as u64;
}

} // verus!
