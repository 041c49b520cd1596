use survival_core::ai::{AggressiveAi, AggressiveAiState};
use survival_core::combat::{
    resolve_collisions, Bullet, Collision, Enemy, SoundEvent, SpawnedEntiyDeathEvent, XpDropEvent,
};
use survival_core::geometry::Point;
use survival_core::turret::BulletFiredEvent;
use survival_core::world::{notify_spawners, spawn_from_spawners, SpawnerEntity, World};
use survival_core::spawner::SpawnerSpawnTimer;

fn enemy(id: u64, health: i64, spawner: u64) -> Enemy {
    Enemy {
        id,
        position: Point::new(id as i32, 0),
        health,
        max_health: 100,
        iframes: 0,
        spawner,
        ai: AggressiveAi { view_range: 20, state: AggressiveAiState::Stand },
        dead: false,
    }
}

fn bullet(id: u64, damage: u32) -> Bullet {
    Bullet { id, origin: Point::new(-5, -5), damage, lifetime: 30, consumed: false }
}

#[test]
fn hit_reduces_health_and_sounds_damage() {
    let mut es = vec![enemy(1, 100, 50)];
    let mut bs = vec![bullet(10, 30)];
    let ev = resolve_collisions(&mut es, &mut bs, &vec![Collision { a: 1, b: 10 }]);
    assert_eq!(es[0].health, 70);
    assert_eq!(es[0].iframes, 20);
    assert_eq!(es[0].ai.state, AggressiveAiState::CheckLocation(Point::new(-5, -5)));
    assert!(!es[0].dead);
    assert!(bs[0].consumed);
    assert_eq!(ev.sounds, vec![SoundEvent::Damage]);
    assert!(ev.xp_drops.is_empty());
    assert!(ev.deaths.is_empty());
}

#[test]
fn collision_order_does_not_matter() {
    let mut es = vec![enemy(1, 100, 50)];
    let mut bs = vec![bullet(10, 30)];
    resolve_collisions(&mut es, &mut bs, &vec![Collision { a: 10, b: 1 }]);
    assert_eq!(es[0].health, 70);
}

#[test]
fn kill_emits_death_drop_and_notice() {
    let mut es = vec![enemy(1, 20, 50)];
    let mut bs = vec![bullet(10, 20)];
    let ev = resolve_collisions(&mut es, &mut bs, &vec![Collision { a: 1, b: 10 }]);
    assert!(es[0].dead);
    assert_eq!(es[0].health, 0);
    assert_eq!(ev.sounds, vec![SoundEvent::Death]);
    assert_eq!(ev.xp_drops, vec![XpDropEvent { position: Point::new(1, 0), xp: 10 }]);
    assert_eq!(ev.deaths, vec![SpawnedEntiyDeathEvent(50)]);
}

#[test]
fn bullet_is_consumed_by_one_target_only() {
    let mut es = vec![enemy(1, 100, 50), enemy(2, 100, 50)];
    let mut bs = vec![bullet(10, 30)];
    let cs = vec![Collision { a: 1, b: 10 }, Collision { a: 2, b: 10 }, Collision { a: 1, b: 10 }];
    let ev = resolve_collisions(&mut es, &mut bs, &cs);
    assert_eq!(es[0].health, 70);
    assert_eq!(es[1].health, 100);
    assert_eq!(ev.sounds.len(), 1);
}

#[test]
fn damage_sums_over_bullets_and_dead_enemy_is_not_hit_again() {
    let mut es = vec![enemy(1, 50, 7)];
    let mut bs = vec![bullet(10, 20), bullet(11, 20), bullet(12, 20), bullet(13, 20)];
    let cs = vec![
        Collision { a: 1, b: 10 },
        Collision { a: 11, b: 1 },
        Collision { a: 1, b: 12 },
        Collision { a: 1, b: 13 },
    ];
    let ev = resolve_collisions(&mut es, &mut bs, &cs);
    assert_eq!(es[0].health, -10);
    assert!(es[0].dead);
    assert_eq!(ev.sounds, vec![SoundEvent::Damage, SoundEvent::Damage, SoundEvent::Death]);
    assert_eq!(ev.deaths.len(), 1);
    assert!(!bs[3].consumed);
}

#[test]
fn kill_mode_enemy_keeps_mode_when_hit() {
    let mut e = enemy(1, 100, 0);
    e.ai.state = AggressiveAiState::KillMode;
    let mut es = vec![e];
    let mut bs = vec![bullet(10, 1)];
    resolve_collisions(&mut es, &mut bs, &vec![Collision { a: 1, b: 10 }]);
    assert_eq!(es[0].ai.state, AggressiveAiState::KillMode);
}

#[test]
fn unrelated_collisions_change_nothing() {
    let mut es = vec![enemy(1, 100, 50)];
    let mut bs = vec![bullet(10, 30)];
    let ev = resolve_collisions(&mut es, &mut bs, &vec![Collision { a: 1, b: 2 }, Collision { a: 10, b: 11 }]);
    assert_eq!(es, vec![enemy(1, 100, 50)]);
    assert_eq!(bs, vec![bullet(10, 30)]);
    assert!(ev.sounds.is_empty());
}

fn world_with(es: Vec<Enemy>, bs: Vec<Bullet>) -> World {
    let mut w = World::new();
    w.enemies = es;
    w.bullets = bs;
    w.next_id = 1000;
    w
}

#[test]
fn quiet_tick_leaves_world_unchanged() {
    let mut w = world_with(vec![enemy(1, 100, 50), enemy(2, 40, 50)], vec![bullet(10, 30)]);
    let ev = w.apply_collisions(&vec![]);
    assert_eq!(w.enemies, vec![enemy(1, 100, 50), enemy(2, 40, 50)]);
    assert_eq!(w.bullets, vec![bullet(10, 30)]);
    assert!(ev.sounds.is_empty() && ev.xp_drops.is_empty() && ev.deaths.is_empty());
}

#[test]
fn apply_collisions_removes_dead_and_spent() {
    let mut w = world_with(vec![enemy(1, 10, 50), enemy(2, 40, 50)], vec![bullet(10, 30), bullet(11, 5)]);
    w.apply_collisions(&vec![Collision { a: 1, b: 10 }, Collision { a: 2, b: 11 }]);
    assert_eq!(w.enemies.len(), 1);
    assert_eq!(w.enemies[0].id, 2);
    assert_eq!(w.enemies[0].health, 35);
    assert!(w.bullets.is_empty());
}

#[test]
fn notify_spawners_decrements_matching_spawner() {
    let mut t = SpawnerSpawnTimer::new(10_000, 16);
    t.alive_now = 3;
    let mut sp = vec![
        SpawnerEntity { id: 50, position: Point::new(0, 0), timer: t },
        SpawnerEntity { id: 51, position: Point::new(0, 0), timer: t },
    ];
    notify_spawners(&mut sp, &vec![SpawnedEntiyDeathEvent(50), SpawnedEntiyDeathEvent(50), SpawnedEntiyDeathEvent(99)]);
    assert_eq!(sp[0].timer.alive_now, 1);
    assert_eq!(sp[1].timer.alive_now, 3);
    notify_spawners(&mut sp, &vec![SpawnedEntiyDeathEvent(50), SpawnedEntiyDeathEvent(50)]);
    assert_eq!(sp[0].timer.alive_now, 0);
}

#[test]
fn world_tick_spawns_and_tracks_population() {
    let mut w = World::new();
    let sid = w.spawn_spawner(Point::new(0, 0)).unwrap();
    assert_eq!(w.spawners.len(), 1);
    w.tick(&vec![], 9_000);
    assert!(w.enemies.is_empty());
    w.tick(&vec![], 1_000);
    assert_eq!(w.enemies.len(), 1);
    assert_eq!(w.enemies[0].spawner, sid);
    assert_eq!(w.enemies[0].iframes, 0);
    assert_eq!(w.enemies[0].health, 100);
    assert_eq!(w.enemies[0].ai, AggressiveAi::with_view_range(300));
    assert_eq!(w.enemies[0].position, w.spawners[0].position);
    assert_eq!(w.spawners[0].timer.alive_now, 1);
    let eid = w.enemies[0].id;
    let bid = w.fire_bullet(&BulletFiredEvent {
        from: Point::new(0, 0),
        at: Point::new(1, 1),
        acc: 0,
        dmg: 1000,
        lifetime: 30,
        bullet_speed: 1000,
    });
    let ev = w.tick(&vec![Collision { a: eid, b: bid }], 16);
    assert_eq!(ev.deaths, vec![SpawnedEntiyDeathEvent(sid)]);
    assert!(w.enemies.is_empty());
    assert_eq!(w.spawners[0].timer.alive_now, 0);
}

#[test]
fn world_tick_ages_bullets_and_iframes() {
    let mut e = enemy(1, 100, 50);
    e.iframes = 2;
    let mut b = bullet(10, 1);
    b.lifetime = 2;
    let mut w = world_with(vec![e], vec![b]);
    w.tick(&vec![], 16);
    assert_eq!(w.enemies[0].iframes, 1);
    assert_eq!(w.bullets[0].lifetime, 1);
    w.tick(&vec![], 16);
    assert_eq!(w.enemies[0].iframes, 0);
    assert!(w.bullets.is_empty());
    w.tick(&vec![], 16);
    assert_eq!(w.enemies[0].iframes, 0);
}

#[test]
fn spawner_cap_in_world() {
    let mut w = World::new();
    for _ in 0..10 {
        assert!(w.spawn_spawner(Point::new(0, 0)).is_some());
    }
    assert!(w.spawn_spawner(Point::new(0, 0)).is_none());
    assert_eq!(w.spawners.len(), 10);
}

#[test]
fn kill_mode_switches_every_enemy() {
    let mut w = world_with(vec![enemy(1, 100, 50), enemy(2, 40, 50)], vec![]);
    w.kill_mode();
    assert!(w.enemies.iter().all(|e| e.ai.state == AggressiveAiState::KillMode));
    let steers = w.update_ai(Point::new(900, 900));
    assert_eq!(steers.len(), 2);
}

#[test]
fn sound_volumes() {
    assert_eq!(SoundEvent::Damage.volume_permille(), 100);
    assert_eq!(SoundEvent::Death.volume_permille(), 5);
    assert_eq!(SoundEvent::XpPickup.volume_permille(), 300);
    assert_eq!(SoundEvent::AttackTree.volume_permille(), 500);
    assert_eq!(SoundEvent::TreeHitGround.volume_permille(), 700);
    assert_eq!(SoundEvent::PistolShoot.volume_permille(), 500);
    assert_eq!(SoundEvent::MachineGunShoot.volume_permille(), 200);
}

#[test]
fn spawners_spawn_in_order_with_fresh_ids() {
    let t = SpawnerSpawnTimer::new(100, 1);
    let mut sp = vec![
        SpawnerEntity { id: 7, position: Point::new(1, 1), timer: t },
        SpawnerEntity { id: 8, position: Point::new(2, 2), timer: SpawnerSpawnTimer::new(1000, 1) },
        SpawnerEntity { id: 9, position: Point::new(3, 3), timer: t },
    ];
    let mut es = Vec::new();
    let mut next = 50u64;
    spawn_from_spawners(&mut sp, &mut es, &mut next, 100);
    assert_eq!(es.len(), 2);
    assert_eq!((es[0].id, es[0].spawner, es[0].position), (50, 7, Point::new(1, 1)));
    assert_eq!((es[1].id, es[1].spawner, es[1].position), (51, 9, Point::new(3, 3)));
    assert_eq!(next, 52);
    assert_eq!(sp[1].timer.timer.elapsed_ms, 100);
    spawn_from_spawners(&mut sp, &mut es, &mut next, 100);
    assert_eq!(es.len(), 2);
}

#[test]
fn spawner_counts_match_live_enemies_across_ticks() {
    let mut w = World::new();
    w.spawn_spawner(Point::new(0, 0)).unwrap();
    w.spawn_spawner(Point::new(0, 0)).unwrap();
    for round in 0..6 {
        w.tick(&vec![], 10_000);
        if round % 2 == 1 && !w.enemies.is_empty() {
            let target = w.enemies[0].id;
            let bid = w.fire_bullet(&BulletFiredEvent {
                from: Point::new(0, 0),
                at: Point::new(0, 0),
                acc: 0,
                dmg: 1000,
                lifetime: 5,
                bullet_speed: 1,
            });
            w.tick(&vec![Collision { a: bid, b: target }], 1);
        }
        for sp in &w.spawners {
            let live = w.enemies.iter().filter(|e| e.spawner == sp.id && !e.dead).count() as u32;
            assert_eq!(sp.timer.alive_now, live);
        }
    }
}
