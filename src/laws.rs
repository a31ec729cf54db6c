use vstd::prelude::*;
use crate::geometry::{
    int_sqrt, is_isqrt, sq_dist, sq_len, step,
    velocity, Vector, NANOS_PER_SEC,
};
use crate::motion::{bullet_velocity, moved_bullet};
use crate::firing::{
    bullets_for, fire_once, lemma_shot_from, nearest_target, offset_to, shot_of, shots, spawn_point_of,
    towers_ticked,
};
use crate::timer::ticked_keeps_wf;
use crate::world::{despawned, entities_wf, subtree_ids, without, EntityData};

verus! {

/// The nearest target is a target, no target is nearer, every earlier target
/// is strictly farther; and there is none only when no entity is a target.
pub proof fn nearest_is_closest(s: Seq<EntityData>, p: Vector, n: int)
    requires
        0 <= n <= s.len(),
    ensures
        match nearest_target(s, p, n) {
            Some(k) => {
                &&& 0 <= k < n
                &&& s[k].target is Some
                &&& forall|j: int|
                    0 <= j < n && (#[trigger] s[j]).target is Some ==> sq_dist(s[k].translation, p)
                        <= sq_dist(s[j].translation, p)
                &&& forall|j: int|
                    0 <= j < k && (#[trigger] s[j]).target is Some ==> sq_dist(s[k].translation, p)
                        < sq_dist(s[j].translation, p)
            },
            None => forall|j: int| 0 <= j < n ==> (#[trigger] s[j]).target is None,
        },
    decreases n,
{
    if n > 0 {
        nearest_is_closest(s, p, n - 1);
    }
}

proof fn lemma_no_shots(s: Seq<EntityData>, n: int)
    requires
        0 <= n <= s.len(),
        forall|j: int| 0 <= j < s.len() ==> (#[trigger] s[j]).target is None,
    ensures
        shots(s, n) =~= Seq::<crate::firing::Shot>::empty(),
    decreases n,
{
    if n > 0 {
        lemma_no_shots(s, n - 1);
        nearest_is_closest(s, crate::firing::spawn_point_of(s[n - 1]), s.len() as int);
        assert(shot_of(s, n - 1) is None);
    }
}

/// With no target in the world, a firing tick spawns no bullet, and there is
/// still no target afterwards: so no number of such ticks spawns one.
pub proof fn no_target_no_bullet(s: Seq<EntityData>, delta: int)
    requires
        forall|j: int| 0 <= j < s.len() ==> (#[trigger] s[j]).target is None,
    ensures
        shots(towers_ticked(s, delta), s.len() as int).len() == 0,
        forall|j: int|
            0 <= j < s.len() ==> (#[trigger] towers_ticked(s, delta)[j]).target is None,
{
    let t = towers_ticked(s, delta);
    assert forall|j: int| 0 <= j < t.len() implies (#[trigger] t[j]).target is None by {
        assert(s[j].target is None);
    }
    lemma_no_shots(t, s.len() as int);
}

proof fn lemma_subtree_grows(s: Seq<EntityData>, roots: Set<u64>, i: int, n: int)
    requires
        0 <= i <= n <= s.len(),
    ensures
        subtree_ids(s, roots, i).subset_of(subtree_ids(s, roots, n)),
    decreases n - i,
{
    if i < n {
        lemma_subtree_grows(s, roots, i, n - 1);
    }
}

proof fn lemma_without_drops(s: Seq<EntityData>, dead: Set<u64>, n: int)
    requires
        0 <= n <= s.len(),
    ensures
        forall|k: int|
            0 <= k < without(s, dead, n).len() ==> !dead.contains(#[trigger] without(s, dead, n)[k].id),
    decreases n,
{
    if n > 0 {
        lemma_without_drops(s, dead, n - 1);
        let w = without(s, dead, n - 1);
        assert forall|k: int|
            0 <= k < without(s, dead, n).len() implies !dead.contains(
            #[trigger] without(s, dead, n)[k].id,
        ) by {
            if k < w.len() {
                assert(without(s, dead, n)[k] == w[k]);
            }
        }
    }
}

/// Removing an entity removes its child with it: neither is left.
pub proof fn despawn_takes_child(s: Seq<EntityData>, next: u64, r: int, c: int)
    requires
        entities_wf(s, next),
        0 <= r < s.len(),
        0 <= c < s.len(),
        s[c].parent == Some(s[r].id),
    ensures
        forall|k: int|
            0 <= k < despawned(s, set![s[r].id]).len() ==> (#[trigger] despawned(
                s,
                set![s[r].id],
            )[k]).id != s[r].id && despawned(s, set![s[r].id])[k].id != s[c].id,
{
    let roots = set![s[r].id];
    let n = s.len() as int;
    assert(crate::world::entity_wf(s[c]));
    if c <= r {
        if c < r {
            assert(s[c].id < s[r].id);
        }
        assert(false);
    }
    assert(subtree_ids(s, roots, r + 1).contains(s[r].id));
    lemma_subtree_grows(s, roots, r + 1, c);
    assert(subtree_ids(s, roots, c + 1).contains(s[c].id));
    lemma_subtree_grows(s, roots, r + 1, n);
    lemma_subtree_grows(s, roots, c + 1, n);
    lemma_without_drops(s, subtree_ids(s, roots, n), n);
}

/// Moving for `h` twice lands within one thousandth of a unit of moving for
/// `2 * h` once, and exactly on it when `v * h` is a whole number of
/// thousandths per second.
pub proof fn half_steps_match_whole(v: int, h: int)
    requires
        h >= 0,
    ensures
        -1 <= step(v, 2 * h) - 2 * step(v, h) <= 1,
        (v * h) % (NANOS_PER_SEC as int) == 0 ==> step(v, 2 * h) == 2 * step(v, h),
{
    let d = NANOS_PER_SEC as int;
    let a = v * h;
    assert(v * (2 * h) == 2 * a) by (nonlinear_arith)
        requires
            a == v * h,
    ;
    let m = if a >= 0 { a } else { -a };
    vstd::arithmetic::div_mod::lemma_fundamental_div_mod(m, d);
    vstd::arithmetic::div_mod::lemma_fundamental_div_mod(2 * m, d);
    vstd::arithmetic::div_mod::lemma_mod_pos_bound(m, d);
    vstd::arithmetic::div_mod::lemma_mod_pos_bound(2 * m, d);
    if a % d == 0 {
        if a < 0 {
            vstd::arithmetic::div_mod::lemma_fundamental_div_mod(a, d);
            assert(m == d * (-(a / d)));
            vstd::arithmetic::div_mod::lemma_mod_multiples_basic(-(a / d), d);
        }
    }
}

proof fn lemma_isqrt_exists(n: int)
    requires
        n >= 0,
    ensures
        is_isqrt(n, int_sqrt(n)),
    decreases n,
{
    if n == 0 {
        assert(is_isqrt(0, 0));
    } else {
        lemma_isqrt_exists(n - 1);
        let r = int_sqrt(n - 1);
        if (r + 1) * (r + 1) <= n {
            assert(n < (r + 2) * (r + 2)) by (nonlinear_arith)
                requires
                    n - 1 < (r + 1) * (r + 1),
                    r >= 0,
            ;
            assert(is_isqrt(n, r + 1));
        } else {
            assert(is_isqrt(n, r));
        }
    }
}

/// One velocity component `v` brackets the exact one: `|v| * |v|` and
/// `(|v| + 1) * (|v| + 1)`, scaled by `n`, lie on either side of `c * c * s * s`.
proof fn lemma_component(c: int, s: int, n: int)
    requires
        n > 0,
    ensures
        ({
            let v = velocity(c, s, n);
            let m = if v >= 0 { v } else { -v };
            &&& m * m * n <= c * c * s * s
            &&& c * c * s * s < (m + 1) * (m + 1) * n
            &&& v * v == m * m
        }),
{
    let a = c * c * s * s;
    assert(a >= 0) by (nonlinear_arith)
        requires
            a == c * c * s * s,
    ;
    vstd::arithmetic::div_mod::lemma_fundamental_div_mod(a, n);
    vstd::arithmetic::div_mod::lemma_mod_pos_bound(a, n);
    let q = a / n;
    vstd::arithmetic::div_mod::lemma_div_pos_is_pos(a, n);
    lemma_isqrt_exists(q);
    let m = int_sqrt(q);
    assert(m * m * n <= a && a < (m + 1) * (m + 1) * n) by (nonlinear_arith)
        requires
            m * m <= q,
            q + 1 <= (m + 1) * (m + 1),
            a == n * q + a % n,
            0 <= a % n < n,
            n > 0,
    ;
    let v = velocity(c, s, n);
    assert(v == m || v == -m);
    assert(v * v == m * m) by (nonlinear_arith)
        requires
            v == m || v == -m,
    ;
}

/// A bullet's velocity has length at most its speed, and rounding each
/// component up in size by one thousandth per second gives more than its
/// speed: each component is the exact one rounded toward zero.
pub proof fn velocity_length_matches_speed(d: Vector, speed: int)
    requires
        sq_len(d) > 0,
    ensures
        ({
            let v = bullet_velocity(d, speed);
            let ax = if v.0 >= 0 { v.0 } else { -v.0 };
            let ay = if v.1 >= 0 { v.1 } else { -v.1 };
            let az = if v.2 >= 0 { v.2 } else { -v.2 };
            &&& v.0 * v.0 + v.1 * v.1 + v.2 * v.2 <= speed * speed
            &&& speed * speed < (ax + 1) * (ax + 1) + (ay + 1) * (ay + 1) + (az + 1) * (az + 1)
        }),
{
    let n = sq_len(d);
    let v = bullet_velocity(d, speed);
    lemma_component(d.x as int, speed, n);
    lemma_component(d.y as int, speed, n);
    lemma_component(d.z as int, speed, n);
    let ax = if v.0 >= 0 { v.0 } else { -v.0 };
    let ay = if v.1 >= 0 { v.1 } else { -v.1 };
    let az = if v.2 >= 0 { v.2 } else { -v.2 };
    let ss = speed * speed;
    assert(d.x * d.x * speed * speed + d.y * d.y * speed * speed + d.z * d.z * speed * speed == ss * n)
        by (nonlinear_arith)
        requires
            n == d.x * d.x + d.y * d.y + d.z * d.z,
            ss == speed * speed,
    ;
    assert((ax * ax + ay * ay + az * az) * n <= ss * n) by (nonlinear_arith)
        requires
            ax * ax * n + ay * ay * n + az * az * n <= ss * n,
    ;
    assert(ax * ax + ay * ay + az * az <= ss) by (nonlinear_arith)
        requires
            (ax * ax + ay * ay + az * az) * n <= ss * n,
            n > 0,
    ;
    let big = (ax + 1) * (ax + 1) + (ay + 1) * (ay + 1) + (az + 1) * (az + 1);
    assert(ss * n < big * n) by (nonlinear_arith)
        requires
            ss * n < (ax + 1) * (ax + 1) * n + (ay + 1) * (ay + 1) * n + (az + 1) * (az + 1) * n,
            big == (ax + 1) * (ax + 1) + (ay + 1) * (ay + 1) + (az + 1) * (az + 1),
    ;
    assert(ss < big) by (nonlinear_arith)
        requires
            ss * n < big * n,
            n > 0,
    ;
}

proof fn lemma_velocity_scales(c: int, s: int, n: int, k: int)
    requires
        n > 0,
        k > 0,
    ensures
        velocity(k * c, s, k * k * n) == velocity(c, s, n),
{
    let a = c * c * s * s;
    let b = (k * c) * (k * c) * s * s;
    let kk = k * k;
    assert(a >= 0) by (nonlinear_arith)
        requires
            a == c * c * s * s,
    ;
    assert(kk > 0) by (nonlinear_arith)
        requires
            k > 0,
            kk == k * k,
    ;
    assert(b == kk * a) by (nonlinear_arith)
        requires
            a == c * c * s * s,
            b == (k * c) * (k * c) * s * s,
            kk == k * k,
    ;
    vstd::arithmetic::div_mod::lemma_fundamental_div_mod(a, n);
    vstd::arithmetic::div_mod::lemma_mod_pos_bound(a, n);
    let q = a / n;
    let r = a % n;
    assert(b == q * (kk * n) + kk * r && 0 <= kk * r < kk * n) by (nonlinear_arith)
        requires
            b == kk * a,
            a == n * q + r,
            0 <= r < n,
            kk > 0,
    ;
    vstd::arithmetic::div_mod::lemma_fundamental_div_mod_converse(b, kk * n, q, kk * r);
    assert(k * k * n == kk * n);
    assert((k * c * s >= 0) == (c * s >= 0)) by (nonlinear_arith)
        requires
            k > 0,
    ;
}

/// Scaling a bullet's direction by a positive factor leaves its velocity,
/// and so its motion, unchanged.
pub proof fn velocity_ignores_direction_length(d: Vector, e: Vector, k: int, speed: int)
    requires
        sq_len(d) > 0,
        k > 0,
        e.x == k * d.x,
        e.y == k * d.y,
        e.z == k * d.z,
    ensures
        bullet_velocity(e, speed) == bullet_velocity(d, speed),
{
    let n = sq_len(d);
    let kk = k * k;
    assert(e.x * e.x == kk * (d.x * d.x)) by (nonlinear_arith)
        requires
            e.x == k * d.x,
            kk == k * k,
    ;
    assert(e.y * e.y == kk * (d.y * d.y)) by (nonlinear_arith)
        requires
            e.y == k * d.y,
            kk == k * k,
    ;
    assert(e.z * e.z == kk * (d.z * d.z)) by (nonlinear_arith)
        requires
            e.z == k * d.z,
            kk == k * k,
    ;
    assert(sq_len(e) == kk * n) by (nonlinear_arith)
        requires
            e.x * e.x == kk * (d.x * d.x),
            e.y * e.y == kk * (d.y * d.y),
            e.z * e.z == kk * (d.z * d.z),
            n == d.x * d.x + d.y * d.y + d.z * d.z,
    ;
    assert(k * k * n == kk * n);
    lemma_velocity_scales(d.x as int, speed, n, k);
    lemma_velocity_scales(d.y as int, speed, n, k);
    lemma_velocity_scales(d.z as int, speed, n, k);
}

/// One tick moves by the exact distance rounded to the nearest thousandth:
/// off by at most half a thousandth.
pub proof fn step_is_nearest(v: int, delta: int)
    ensures
        -(NANOS_PER_SEC as int) <= 2 * (step(v, delta) * NANOS_PER_SEC - v * delta) <= NANOS_PER_SEC,
{
    let d = NANOS_PER_SEC as int;
    let a = v * delta;
    let m = if a >= 0 { a } else { -a };
    vstd::arithmetic::div_mod::lemma_fundamental_div_mod(m + d / 2, d);
    vstd::arithmetic::div_mod::lemma_mod_pos_bound(m + d / 2, d);
}

/// Moving a bullet for `h` twice lands within one thousandth, on each axis,
/// of moving it for `2 * h` once.
pub proof fn bullet_half_moves_match_whole(e: EntityData, h: int)
    requires
        h >= 0,
    ensures
        ({
            let twice = moved_bullet(moved_bullet(e, h), h).translation;
            let once = moved_bullet(e, 2 * h).translation;
            &&& -1 <= twice.x - once.x <= 1
            &&& -1 <= twice.y - once.y <= 1
            &&& -1 <= twice.z - once.z <= 1
        }),
{
    match e.bullet {
        Some(b) => {
            if sq_len(b.direction) != 0 {
                let v = bullet_velocity(b.direction, b.speed as int);
                half_steps_match_whole(v.0, h);
                half_steps_match_whole(v.1, h);
                half_steps_match_whole(v.2, h);
            }
        },
        None => {},
    }
}

/// A tower whose repeating cooldown is ticked by a whole number of periods
/// in one firing tick completes, and its elapsed time wraps back below the
/// duration, which is kept.
pub proof fn tower_cooldown_wraps(s: Seq<EntityData>, i: int, k: int)
    requires
        0 <= i < s.len(),
        s[i].tower is Some,
        s[i].tower->0.shooting_timer.wf(),
        s[i].tower->0.shooting_timer.repeating,
        k >= 1,
    ensures
        ({
            let d = s[i].tower->0.shooting_timer.duration;
            let t = towers_ticked(s, k * d)[i].tower->0.shooting_timer;
            &&& t.just_finished
            &&& 0 <= t.elapsed < d
            &&& t.duration == d
        }),
{
    crate::timer::repeating_wraps_on_whole_periods(s[i].tower->0.shooting_timer, k);
}

/// Every bullet that a firing tick spawns is aimed from its tower's spawn
/// point at a target, and no target is nearer to that point.
pub proof fn shot_aims_at_nearest(s: Seq<EntityData>, k: int)
    requires
        0 <= k < shots(s, s.len() as int).len(),
    ensures
        ({
            let sh = shots(s, s.len() as int)[k];
            exists|i: int|
                0 <= i < s.len() && (#[trigger] s[i]).tower is Some && sh.tower == s[i].id && sh.from
                    == spawn_point_of(s[i]) && exists|j: int|
                    0 <= j < s.len() && (#[trigger] s[j]).target is Some && sh.direction
                        == offset_to(s[j].translation, sh.from) && forall|m: int|
                        0 <= m < s.len() && (#[trigger] s[m]).target is Some ==> sq_dist(
                            s[j].translation,
                            sh.from,
                        ) <= sq_dist(s[m].translation, sh.from)
        }),
{
    let n = s.len() as int;
    lemma_shot_from(s, n, k);
    let i = choose|i: int| 0 <= i < n && shot_of(s, i) == Some(#[trigger] shots(s, n)[k]);
    let from = spawn_point_of(s[i]);
    nearest_is_closest(s, from, n);
    let j = nearest_target(s, from, n)->0;
    assert(s[i].tower is Some);
    assert(s[j].target is Some);
}

/// The entities and next identifier after one firing tick for each of `ds`,
/// in order.
pub open spec fn fire_repeatedly(s: Seq<EntityData>, next: int, ds: Seq<int>) -> (
    Seq<EntityData>,
    int,
)
    decreases ds.len(),
{
    if ds.len() == 0 {
        (s, next)
    } else {
        let p = fire_repeatedly(s, next, ds.drop_last());
        fire_once(p.0, p.1, ds.last())
    }
}

/// With no target present, any number of firing ticks spawns nothing and
/// hands out no identifier; they change only tower cooldowns, each of which
/// stays well formed with its duration.
pub proof fn no_target_never_fires(s: Seq<EntityData>, next: int, ds: Seq<int>)
    requires
        forall|j: int| 0 <= j < s.len() ==> (#[trigger] s[j]).target is None,
        forall|j: int| 0 <= j < ds.len() ==> ds[j] >= 0,
    ensures
        ({
            let r = fire_repeatedly(s, next, ds);
            &&& r.1 == next
            &&& r.0.len() == s.len()
            &&& forall|j: int| 0 <= j < s.len() ==> (#[trigger] r.0[j]) == (EntityData { tower: r.0[j].tower, ..s[j] })
            &&& forall|j: int|
                0 <= j < s.len() && (#[trigger] s[j]).tower is Some ==> r.0[j].tower is Some
                    && r.0[j].tower->0.shooting_timer.duration == s[j].tower->0.shooting_timer.duration
                    && (s[j].tower->0.shooting_timer.wf() ==> r.0[j].tower->0.shooting_timer.wf())
            &&& forall|j: int| 0 <= j < s.len() && s[j].tower is None ==> (#[trigger] r.0[j]).tower is None
        }),
    decreases ds.len(),
{
    if ds.len() > 0 {
        let dl = ds.drop_last();
        assert forall|j: int| 0 <= j < dl.len() implies dl[j] >= 0 by {
            assert(dl[j] == ds[j]);
        }
        no_target_never_fires(s, next, dl);
        let p = fire_repeatedly(s, next, dl);
        assert forall|j: int| 0 <= j < p.0.len() implies (#[trigger] p.0[j]).target is None by {
            assert(p.0[j] == (EntityData { tower: p.0[j].tower, ..s[j] }));
            assert(s[j].target is None);
        }
        no_target_no_bullet(p.0, ds.last());
        let t = towers_ticked(p.0, ds.last());
        let r = fire_repeatedly(s, next, ds);
        assert(bullets_for(shots(t, t.len() as int), p.1) =~= Seq::<EntityData>::empty());
        assert(r.0 =~= t);
        assert forall|j: int|
            0 <= j < s.len() && (#[trigger] s[j]).tower is Some implies r.0[j].tower is Some
                && r.0[j].tower->0.shooting_timer.duration == s[j].tower->0.shooting_timer.duration
                && (s[j].tower->0.shooting_timer.wf() ==> r.0[j].tower->0.shooting_timer.wf()) by {
            if s[j].tower->0.shooting_timer.wf() {
                ticked_keeps_wf(p.0[j].tower->0.shooting_timer, ds.last());
            }
        }
        assert forall|j: int| 0 <= j < s.len() implies (#[trigger] r.0[j]) == (EntityData { tower: r.0[j].tower, ..s[j] }) by {
            assert(p.0[j] == (EntityData { tower: p.0[j].tower, ..s[j] }));
        }
        assert forall|j: int| 0 <= j < s.len() && s[j].tower is None implies (#[trigger] r.0[j]).tower is None by {
            assert(p.0[j].tower is None);
        }
    }
}

proof fn lemma_without_from(s: Seq<EntityData>, dead: Set<u64>, n: int)
    requires
        0 <= n <= s.len(),
    ensures
        forall|k: int|
            0 <= k < without(s, dead, n).len() ==> exists|i: int|
                0 <= i < n && s[i] == #[trigger] without(s, dead, n)[k],
    decreases n,
{
    if n > 0 {
        lemma_without_from(s, dead, n - 1);
        let w = without(s, dead, n - 1);
        assert forall|k: int| 0 <= k < without(s, dead, n).len() implies exists|i: int|
            0 <= i < n && s[i] == #[trigger] without(s, dead, n)[k] by {
            if k < w.len() {
                assert(without(s, dead, n)[k] == w[k]);
                let i = choose|i: int| 0 <= i < n - 1 && s[i] == #[trigger] w[k];
            } else {
                assert(without(s, dead, n)[k] == s[n - 1]);
            }
        }
    }
}

/// After a removal, every entity left was there before and lies outside the
/// removed subtrees: a removed entity is not left behind.
pub proof fn despawn_leaves_only_survivors(s: Seq<EntityData>, roots: Set<u64>)
    ensures
        forall|k: int|
            0 <= k < despawned(s, roots).len() ==> !subtree_ids(s, roots, s.len() as int).contains(
                (#[trigger] despawned(s, roots)[k]).id,
            ) && exists|i: int| 0 <= i < s.len() && s[i] == despawned(s, roots)[k],
{
    let n = s.len() as int;
    lemma_without_drops(s, subtree_ids(s, roots, n), n);
    lemma_without_from(s, subtree_ids(s, roots, n), n);
}

/// A firing tick hands out identifiers only from `next` on and never lowers
/// it: every entity afterwards has an identifier it had before, or a fresh
/// one; so an identifier that was removed never comes back.
pub proof fn firing_never_reuses_ids(s: Seq<EntityData>, next: int, delta: int)
    requires
        next >= 0,
        next + s.len() <= u64::MAX,
    ensures
        fire_once(s, next, delta).1 >= next,
        forall|k: int|
            0 <= k < fire_once(s, next, delta).0.len() ==> (#[trigger] fire_once(s, next, delta).0[k]).id
                >= next || exists|i: int|
                0 <= i < s.len() && s[i].id == fire_once(s, next, delta).0[k].id,
{
    let t = towers_ticked(s, delta);
    let r = fire_once(s, next, delta);
    assert forall|k: int| 0 <= k < r.0.len() implies (#[trigger] r.0[k]).id >= next || exists|i: int|
        0 <= i < s.len() && s[i].id == r.0[k].id by {
        if k < t.len() {
            assert(r.0[k] == t[k]);
            assert(s[k].id == r.0[k].id);
        } else {
            let sh = shots(t, t.len() as int);
            crate::firing::lemma_shots_len(t, t.len() as int);
            assert(r.0[k] == bullets_for(sh, next)[k - t.len()]);
        }
    }
}

} // verus!
