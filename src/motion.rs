use vstd::prelude::*;
use crate::geometry::{
    clamp_i32, div_round, isqrt, lemma_int_sqrt, sq_len, squared_length, step,
    velocity, Position, Vector, NANOS_PER_SEC,
};
use crate::world::{entities_wf, entity_wf, EntityData, World};

verus! {

/// `e` after one tick of target motion: a target moves along x.
pub open spec fn moved_target(e: EntityData, delta: int) -> EntityData {
    match e.target {
        Some(t) => EntityData {
            translation: Position {
                x: clamp_i32(e.translation.x + step(t.speed as int, delta)) as i32,
                ..e.translation
            },
            ..e
        },
        None => e,
    }
}

/// The velocity of a bullet flying along `d` at `speed`, component by
/// component.
pub open spec fn bullet_velocity(d: Vector, speed: int) -> (int, int, int) {
    let n = sq_len(d);
    (velocity(d.x as int, speed, n), velocity(d.y as int, speed, n), velocity(d.z as int, speed, n))
}

/// `e` after one tick of bullet motion: a bullet moves along its direction,
/// scaled to its speed; one with a zero direction stays where it is.
pub open spec fn moved_bullet(e: EntityData, delta: int) -> EntityData {
    match e.bullet {
        Some(b) => if sq_len(b.direction) == 0 {
            e
        } else {
            let v = bullet_velocity(b.direction, b.speed as int);
            let p = e.translation;
            EntityData {
                translation: Position {
                    x: clamp_i32(p.x + step(v.0, delta)) as i32,
                    y: clamp_i32(p.y + step(v.1, delta)) as i32,
                    z: clamp_i32(p.z + step(v.2, delta)) as i32,
                },
                ..e
            }
        },
        None => e,
    }
}

/// `x` moved by `step(v, delta)`, kept within `i32`.
fn advance(x: i32, v: i128, delta: u64) -> (r: i32)
    requires
        -0x8000_0000 <= v <= 0x8000_0000,
    ensures
        r == clamp_i32(x + step(v as int, delta as int)),
{
    assert(-0x8000_0000 * 0x1_0000_0000_0000_0000 <= v * delta <= 0x8000_0000 * 0x1_0000_0000_0000_0000)
        by (nonlinear_arith)
        requires
            -0x8000_0000 <= v <= 0x8000_0000,
            0 <= delta < 0x1_0000_0000_0000_0000,
    ;
    let s = div_round(v * (delta as i128), NANOS_PER_SEC as i128);
    proof {
        let a = v * delta;
        let h = (NANOS_PER_SEC as int) / 2;
        if a >= 0 {
            vstd::arithmetic::div_mod::lemma_div_is_ordered_by_denominator(a + h, 1, NANOS_PER_SEC as int);
        } else {
            vstd::arithmetic::div_mod::lemma_div_is_ordered_by_denominator(-a + h, 1, NANOS_PER_SEC as int);
        }
    }
    let y = x as i128 + s;
    if y < i32::MIN as i128 {
        i32::MIN
    } else if y > i32::MAX as i128 {
        i32::MAX
    } else {
        y as i32
    }
}

/// One component of a bullet's velocity, given the squared length `n` of
/// its direction.
fn velocity_component(c: i64, speed: i32, n: u128) -> (r: i128)
    requires
        n > 0,
        c * c <= n,
        -0x2_0000_0000 < c < 0x2_0000_0000,
    ensures
        r == velocity(c as int, speed as int, n as int),
        -0x8000_0000 <= r <= 0x8000_0000,
{
    let cm: u128 = if c >= 0 { c as u128 } else { (-(c as i128)) as u128 };
    let sm: u128 = if speed >= 0 { speed as u128 } else { (-(speed as i128)) as u128 };
    assert(cm * cm <= 0x1_ffff_ffff * 0x1_ffff_ffff) by (nonlinear_arith)
        requires
            cm <= 0x1_ffff_ffff,
    ;
    assert(sm * sm <= 0x8000_0000 * 0x8000_0000) by (nonlinear_arith)
        requires
            sm <= 0x8000_0000,
    ;
    let c2: u128 = cm * cm;
    let s2: u128 = sm * sm;
    assert(c2 * s2 <= 0x1_ffff_ffff * 0x1_ffff_ffff * (0x8000_0000 * 0x8000_0000)) by (nonlinear_arith)
        requires
            c2 <= 0x1_ffff_ffff * 0x1_ffff_ffff,
            s2 <= 0x8000_0000 * 0x8000_0000,
            c2 >= 0,
            s2 >= 0,
    ;
    let a: u128 = c2 * s2;
    let q: u128 = a / n;
    let m = isqrt(q);
    proof {
        assert(a == c * c * speed * speed) by (nonlinear_arith)
            requires
                cm == c || cm == -c,
                sm == speed || sm == -speed,
                a == cm * cm * (sm * sm),
        ;
        assert(cm * cm == c * c) by (nonlinear_arith)
            requires
                cm == c || cm == -c,
        ;
        assert(a <= n * (sm * sm)) by (nonlinear_arith)
            requires
                a == cm * cm * (sm * sm),
                cm * cm <= n,
        ;
        vstd::arithmetic::div_mod::lemma_div_is_ordered(a as int, n * (sm * sm), n as int);
        vstd::arithmetic::div_mod::lemma_div_by_multiple((sm * sm) as int, n as int);
        assert(n * (sm * sm) == (sm * sm) * n) by (nonlinear_arith);
        assert(m <= sm) by (nonlinear_arith)
            requires
                m * m <= q,
                q <= sm * sm,
                m >= 0,
                sm >= 0,
        ;
        lemma_int_sqrt(q as int, m as int);
        assert((c * speed >= 0) == ((c >= 0 && speed >= 0) || (c <= 0 && speed <= 0) || c == 0 || speed == 0)) by (nonlinear_arith);
    }
    if (c >= 0 && speed >= 0) || (c <= 0 && speed <= 0) {
        m as i128
    } else {
        -(m as i128)
    }
}

/// Moves every target along x by its speed times `delta` nanoseconds.
pub fn move_targets(world: &mut World, delta: u64)
    requires
        old(world).wf(),
    ensures
        final(world).wf(),
        final(world).next_id == old(world).next_id,
        final(world).entities@.len() == old(world).entities@.len(),
        forall|i: int|
            0 <= i < old(world).entities@.len() ==> final(world).entities@[i] == moved_target(
                #[trigger] old(world).entities@[i],
                delta as int,
            ),
{
    let ghost s = world.entities@;
    let mut out: Vec<EntityData> = Vec::new();
    let mut i: usize = 0;
    while i < world.entities.len()
        invariant
            s == world.entities@,
            i <= s.len(),
            out@.len() == i,
            forall|k: int| 0 <= k < i ==> out@[k] == moved_target(#[trigger] s[k], delta as int),
        decreases s.len() - i,
    {
        let e = world.entities[i];
        let moved = match e.target {
            Some(t) => {
                let x = advance(e.translation.x, t.speed as i128, delta);
                EntityData { translation: Position { x, ..e.translation }, ..e }
            },
            None => e,
        };
        out.push(moved);
        i += 1;
    }
    world.entities = out;
    proof {
        assert forall|i: int, j: int| 0 <= i < j < out@.len() implies out@[i].id < out@[j].id by {
            assert(out@[i].id == s[i].id && out@[j].id == s[j].id);
        }
        assert forall|i: int| 0 <= i < out@.len() implies entity_wf(#[trigger] out@[i]) && out@[i].id
            < world.next_id by {
            assert(entity_wf(s[i]));
        }
    }
}

/// Moves every bullet along its direction at its speed for `delta`
/// nanoseconds.
pub fn move_bullets(world: &mut World, delta: u64)
    requires
        old(world).wf(),
    ensures
        final(world).wf(),
        final(world).next_id == old(world).next_id,
        final(world).entities@.len() == old(world).entities@.len(),
        forall|i: int|
            0 <= i < old(world).entities@.len() ==> final(world).entities@[i] == moved_bullet(
                #[trigger] old(world).entities@[i],
                delta as int,
            ),
{
    let ghost s = world.entities@;
    let mut out: Vec<EntityData> = Vec::new();
    let mut i: usize = 0;
    while i < world.entities.len()
        invariant
            s == world.entities@,
            i <= s.len(),
            out@.len() == i,
            entities_wf(s, world.next_id),
            forall|k: int| 0 <= k < i ==> out@[k] == moved_bullet(#[trigger] s[k], delta as int),
        decreases s.len() - i,
    {
        let e = world.entities[i];
        let moved = match e.bullet {
            Some(b) => {
                let n = squared_length(&b.direction);
                if n == 0 {
                    e
                } else {
                    let d = b.direction;
                    proof {
                        assert(entity_wf(s[i as int]));
                        assert(d.x * d.x >= 0 && d.y * d.y >= 0 && d.z * d.z >= 0) by (nonlinear_arith);
                    }
                    let vx = velocity_component(d.x, b.speed, n);
                    let vy = velocity_component(d.y, b.speed, n);
                    let vz = velocity_component(d.z, b.speed, n);
                    let p = e.translation;
                    let q = Position {
                        x: advance(p.x, vx, delta),
                        y: advance(p.y, vy, delta),
                        z: advance(p.z, vz, delta),
                    };
                    EntityData { translation: q, ..e }
                }
            },
            None => e,
        };
        out.push(moved);
        i += 1;
    }
    world.entities = out;
    proof {
        assert forall|i: int, j: int| 0 <= i < j < out@.len() implies out@[i].id < out@[j].id by {
            assert(out@[i].id == s[i].id && out@[j].id == s[j].id);
        }
        assert forall|i: int| 0 <= i < out@.len() implies entity_wf(#[trigger] out@[i]) && out@[i].id
            < world.next_id by {
            assert(entity_wf(s[i]));
        }
    }
}

} // verus!
