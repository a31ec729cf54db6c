use tower_defense::components::{
    Bullet, Health, Lifetime, Target, Tower, TowerBase, BULLET_LIFETIME, BULLET_SPEED,
};
use tower_defense::geometry::{div_round, isqrt, Position, Vector};
use tower_defense::expiry::bullet_despawn;
use tower_defense::firing::{add_barrel, nearest, tower_shooting};
use tower_defense::motion::{move_bullets, move_targets};
use tower_defense::timer::Timer;
use tower_defense::world::{EntityData, World};

const SECOND: u64 = 1_000_000_000;

fn pos(x: i32, y: i32, z: i32) -> Position {
    Position { x, y, z }
}

fn bare(translation: Position, parent: Option<u64>) -> EntityData {
    EntityData {
        id: 0,
        parent,
        translation,
        tower: None,
        tower_base: None,
        target: None,
        health: None,
        bullet: None,
        lifetime: None,
    }
}

fn tower_at(p: Position) -> EntityData {
    EntityData {
        tower: Some(Tower { shooting_timer: Timer::new(SECOND, true), bullet_offset: pos(0, 0, 0) }),
        ..bare(p, None)
    }
}

fn target_at(p: Position, speed: i32) -> EntityData {
    EntityData {
        target: Some(Target { speed }),
        health: Some(Health { value: 3 }),
        ..bare(p, None)
    }
}

fn bullet_at(p: Position, direction: Vector, speed: i32) -> EntityData {
    EntityData {
        bullet: Some(Bullet { direction, speed }),
        lifetime: Some(Lifetime { timer: Timer::new(BULLET_LIFETIME, false) }),
        ..bare(p, None)
    }
}

fn bullets(w: &World) -> usize {
    w.entities.iter().filter(|e| e.bullet.is_some()).count()
}

#[test]
fn one_shot_timer_fires_exactly_once() {
    let d = 2 * SECOND;
    let eps = 1_000;
    let mut t = Timer::new(d, false);
    t.tick(d - eps);
    assert!(!t.just_finished());
    assert!(!t.finished());
    t.tick(eps);
    assert!(t.just_finished());
    assert!(t.finished());
    assert_eq!(t.elapsed(), d);
    for _ in 0..5 {
        t.tick(SECOND);
        assert!(!t.just_finished());
        assert!(t.finished());
    }
    t.reset();
    assert!(!t.finished());
    assert_eq!(t.elapsed(), 0);
}

#[test]
fn zero_tick_never_completes() {
    let mut t = Timer::new(SECOND, false);
    t.tick(0);
    assert!(!t.just_finished());
    let mut r = Timer::new(SECOND, true);
    r.tick(0);
    assert!(!r.just_finished());
}

#[test]
fn repeating_timer_wraps_on_whole_periods() {
    let mut t = Timer::new(SECOND, true);
    t.tick(3 * SECOND);
    assert!(t.just_finished());
    assert_eq!(t.elapsed(), 0);
    t.tick(300_000_000);
    assert!(!t.just_finished());
    t.tick(2 * SECOND);
    assert!(t.just_finished());
    assert_eq!(t.elapsed(), 300_000_000);
    t.tick(SECOND + 100_000_000);
    assert!(t.just_finished());
    assert_eq!(t.elapsed(), 400_000_000);
}

#[test]
fn nearest_target_is_chosen() {
    let mut w = World::new();
    let tower = w.spawn(tower_at(pos(0, 0, 0))).unwrap();
    w.spawn(target_at(pos(5_000, 0, 0), 0)).unwrap();
    w.spawn(target_at(pos(0, 2_000, 0), 0)).unwrap();
    w.spawn(target_at(pos(0, 0, 8_000), 0)).unwrap();
    assert_eq!(nearest(&w.entities, &Vector { x: 0, y: 0, z: 0 }), Some(2));
    tower_shooting(&mut w, SECOND);
    assert_eq!(w.len(), 5);
    let b = w.entities[4];
    assert_eq!(b.id, 4);
    assert_eq!(b.parent, Some(tower));
    assert_eq!(b.translation, pos(0, 0, 0));
    let bullet = b.bullet.unwrap();
    assert_eq!(bullet.direction, Vector { x: 0, y: 2_000, z: 0 });
    assert_eq!(bullet.speed, BULLET_SPEED);
    let life = b.lifetime.unwrap().timer;
    assert_eq!(life.duration(), BULLET_LIFETIME);
    assert!(!life.repeating());
    assert_eq!(w.next_id, 5);
}

#[test]
fn nearest_ties_go_to_the_first() {
    let mut w = World::new();
    w.spawn(target_at(pos(3_000, 0, 0), 0)).unwrap();
    w.spawn(target_at(pos(-3_000, 0, 0), 0)).unwrap();
    w.spawn(bare(pos(0, 0, 0), None)).unwrap();
    assert_eq!(nearest(&w.entities, &Vector { x: 0, y: 0, z: 0 }), Some(0));
    assert_eq!(nearest(&w.entities, &Vector { x: -1, y: 0, z: 0 }), Some(1));
    let empty: Vec<EntityData> = Vec::new();
    assert_eq!(nearest(&empty, &Vector { x: 0, y: 0, z: 0 }), None);
}

#[test]
fn bullet_spawns_at_offset() {
    let mut w = World::new();
    let mut t = tower_at(pos(0, 750, 0));
    t.tower = Some(Tower { shooting_timer: Timer::new(SECOND, true), bullet_offset: pos(0, 500, 0) });
    w.spawn(t).unwrap();
    w.spawn(target_at(pos(-2_000, 500, 1_500), 300)).unwrap();
    tower_shooting(&mut w, SECOND / 2);
    assert_eq!(bullets(&w), 0);
    tower_shooting(&mut w, SECOND / 2);
    assert_eq!(bullets(&w), 1);
    let b = w.entities[2];
    assert_eq!(b.translation, pos(0, 1_250, 0));
    assert_eq!(b.bullet.unwrap().direction, Vector { x: -2_000, y: -750, z: 1_500 });
}

#[test]
fn tower_cooldown_wraps_on_whole_periods() {
    let mut w = World::new();
    w.spawn(tower_at(pos(0, 0, 0))).unwrap();
    tower_shooting(&mut w, 250_000_000);
    tower_shooting(&mut w, 3 * SECOND);
    let timer = w.entities[0].tower.unwrap().shooting_timer;
    assert!(timer.just_finished());
    assert_eq!(timer.elapsed(), 250_000_000);
    assert_eq!(timer.duration(), SECOND);
}

#[test]
fn no_targets_never_fire() {
    let mut w = World::new();
    w.spawn(tower_at(pos(0, 0, 0))).unwrap();
    for _ in 0..10 {
        tower_shooting(&mut w, SECOND);
        assert_eq!(w.len(), 1);
        let timer = w.entities[0].tower.unwrap().shooting_timer;
        assert!(timer.elapsed() < timer.duration());
    }
    assert_eq!(bullets(&w), 0);
    assert_eq!(w.next_id, 1);
}

#[test]
fn target_at_spawn_point_is_not_fired_at() {
    let mut w = World::new();
    w.spawn(tower_at(pos(1_000, 0, 0))).unwrap();
    w.spawn(target_at(pos(1_000, 0, 0), 0)).unwrap();
    tower_shooting(&mut w, SECOND);
    assert_eq!(w.len(), 2);
}

#[test]
fn bullet_moves_along_its_direction() {
    let mut w = World::new();
    w.spawn(bullet_at(pos(0, 0, 0), Vector { x: 1, y: 0, z: 0 }, 2_500)).unwrap();
    move_bullets(&mut w, SECOND);
    assert_eq!(w.entities[0].translation, pos(2_500, 0, 0));

    let mut halves = World::new();
    halves.spawn(bullet_at(pos(0, 0, 0), Vector { x: 1, y: 0, z: 0 }, 2_500)).unwrap();
    move_bullets(&mut halves, SECOND / 2);
    move_bullets(&mut halves, SECOND / 2);
    assert_eq!(halves.entities[0].translation, pos(2_500, 0, 0));
}

#[test]
fn bullet_direction_is_normalised() {
    let mut w = World::new();
    w.spawn(bullet_at(pos(10, 20, 30), Vector { x: 0, y: -3_000, z: 4_000 }, 1_000)).unwrap();
    move_bullets(&mut w, SECOND);
    assert_eq!(w.entities[0].translation, pos(10, -580, 830));
    let mut still = World::new();
    still.spawn(bullet_at(pos(5, 5, 5), Vector { x: 0, y: 0, z: 0 }, 1_000)).unwrap();
    move_bullets(&mut still, SECOND);
    assert_eq!(still.entities[0].translation, pos(5, 5, 5));
}

#[test]
fn bullet_speed_ignores_direction_length() {
    let mut w = World::new();
    w.spawn(bullet_at(pos(0, 0, 0), Vector { x: 1, y: 1, z: 0 }, 2_500)).unwrap();
    w.spawn(bullet_at(pos(0, 0, 0), Vector { x: 1_000, y: 1_000, z: 0 }, 2_500)).unwrap();
    move_bullets(&mut w, SECOND);
    assert_eq!(w.entities[0].translation, pos(1_767, 1_767, 0));
    assert_eq!(w.entities[1].translation, pos(1_767, 1_767, 0));
}

#[test]
fn target_speed_holds_at_frame_rate() {
    let mut w = World::new();
    w.spawn(target_at(pos(0, 0, 0), 300)).unwrap();
    for _ in 0..60 {
        move_targets(&mut w, SECOND / 60);
    }
    assert_eq!(w.entities[0].translation.x, 300);
}

#[test]
fn targets_drift_along_x() {
    let mut w = World::new();
    w.spawn(target_at(pos(-2_000, 500, 1_500), 300)).unwrap();
    w.spawn(target_at(pos(0, 0, 0), -300)).unwrap();
    w.spawn(bare(pos(7, 7, 7), None)).unwrap();
    move_targets(&mut w, SECOND);
    assert_eq!(w.entities[0].translation, pos(-1_700, 500, 1_500));
    assert_eq!(w.entities[1].translation, pos(-300, 0, 0));
    assert_eq!(w.entities[2].translation, pos(7, 7, 7));
    move_targets(&mut w, SECOND / 3);
    assert_eq!(w.entities[0].translation.x, -1_600);
    assert_eq!(w.entities[1].translation.x, -400);
}

#[test]
fn positions_saturate() {
    let mut w = World::new();
    w.spawn(target_at(pos(i32::MAX - 10, 0, 0), 1_000)).unwrap();
    move_targets(&mut w, SECOND);
    assert_eq!(w.entities[0].translation.x, i32::MAX);
}

#[test]
fn lifetime_round_trip() {
    let mut w = World::new();
    let tower = w.spawn(tower_at(pos(0, 0, 0))).unwrap();
    w.spawn(target_at(pos(0, 0, 4_000), 0)).unwrap();
    tower_shooting(&mut w, SECOND);
    assert_eq!(bullets(&w), 1);
    let bullet = w.entities[2].id;
    let mut child = bare(pos(0, 0, 0), Some(bullet));
    child.tower_base = Some(TowerBase {});
    w.spawn(child).unwrap();
    bullet_despawn(&mut w, 2_490_000_000);
    assert!(w.contains(bullet));
    assert_eq!(w.len(), 4);
    bullet_despawn(&mut w, 20_000_000);
    assert!(!w.contains(bullet));
    assert_eq!(w.len(), 2);
    assert!(w.contains(tower));
}

#[test]
fn recursive_despawn_removes_children() {
    let mut w = World::new();
    let root = w.spawn(bare(pos(0, 0, 0), None)).unwrap();
    let other = w.spawn(bare(pos(1, 0, 0), None)).unwrap();
    let child = w.spawn(bare(pos(2, 0, 0), Some(root))).unwrap();
    let grandchild = w.spawn(bare(pos(3, 0, 0), Some(child))).unwrap();
    w.despawn_recursive(root);
    assert!(!w.contains(root));
    assert!(!w.contains(child));
    assert!(!w.contains(grandchild));
    assert!(w.contains(other));
    assert_eq!(w.len(), 1);
    assert_eq!(w.find(other), Some(0));
    move_targets(&mut w, SECOND);
    assert!(!w.contains(child));
}

#[test]
fn spawn_rejects_unknown_parent() {
    let mut w = World::new();
    assert_eq!(w.spawn(bare(pos(0, 0, 0), Some(0))), None);
    assert_eq!(w.len(), 0);
    assert_eq!(w.spawn(bare(pos(0, 0, 0), None)), Some(0));
    assert_eq!(w.spawn(bare(pos(0, 0, 0), Some(0))), Some(1));
}

#[test]
fn barrels_are_mounted_on_bases() {
    let mut w = World::new();
    let mut base = bare(pos(0, 750, 0), None);
    base.tower_base = Some(TowerBase {});
    w.spawn(base).unwrap();
    w.spawn(target_at(pos(-2_000, 500, 1_500), 300)).unwrap();
    add_barrel(&mut w);
    assert_eq!(w.len(), 3);
    let barrel = w.entities[2];
    assert_eq!(barrel.translation, pos(0, 750, 0));
    let t = barrel.tower.unwrap();
    assert_eq!(t.shooting_timer.duration(), SECOND);
    assert!(t.shooting_timer.repeating());
    assert_eq!(t.bullet_offset, pos(0, 500, 0));
}

#[test]
fn integer_helpers() {
    assert_eq!(isqrt(0), 0);
    assert_eq!(isqrt(15), 3);
    assert_eq!(isqrt(16), 4);
    assert_eq!(isqrt(u128::MAX), u64::MAX);
    assert_eq!(div_round(-7, 2), -4);
    assert_eq!(div_round(7, 2), 4);
    assert_eq!(div_round(5, 10), 1);
    assert_eq!(div_round(4, 10), 0);
    assert_eq!(div_round(-14, 10), -1);
}
