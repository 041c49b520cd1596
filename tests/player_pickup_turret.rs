use survival_core::combat::SoundEvent;
use survival_core::geometry::{dist_sq, translate, within, Point};
use survival_core::pickup::{
    adds_fit_check, collect_xp, handle_pickup_taken, in_attraction_range, new_magnet_position, pickup_xp,
    reached_shard_values, take_player_pickups,
    PickupTakenEvent, PickupType, PlayerPickup, XpShard,
};
use survival_core::player::{movement_intent, Player, PLAYER_BULLET_DAMAGE};
use survival_core::progression::XpLevel;
use survival_core::rng::{isqrt, random_offset};
use survival_core::turret::{enemies_in_range, Turret};

#[test]
fn player_spawns_with_starting_stats() {
    let p = Player::spawn(Point::new(0, 0));
    assert_eq!(p.health, 10_000);
    assert_eq!(p.pickup_range, 32);
    assert_eq!(p.gathering.damage, 200);
    assert_eq!(p.gathering.range, 64);
    assert_eq!(p.xp.level, 1);
}

#[test]
fn player_shoots_when_timer_done_and_button_held() {
    let mut p = Player::spawn(Point::new(1, 2));
    assert!(p.shoot(400, true, Point::new(9, 9)).is_none());
    assert!(p.shoot(100, false, Point::new(9, 9)).is_none());
    let shot = p.shoot(0, true, Point::new(9, 9)).unwrap();
    assert_eq!(shot.sound, SoundEvent::PistolShoot);
    let shot = shot.bullet;
    assert_eq!(shot.from, Point::new(1, 2));
    assert_eq!(shot.at, Point::new(9, 9));
    assert_eq!(shot.dmg, PLAYER_BULLET_DAMAGE);
    assert_eq!(shot.lifetime, 120);
    assert!(p.shoot(16, true, Point::new(9, 9)).is_none());
}

#[test]
fn movement_keys_give_direction() {
    let m = movement_intent(true, false, true, false);
    assert_eq!((m.dx, m.dy, m.flip_x), (-1, 1, true));
    let m = movement_intent(true, true, true, true);
    assert_eq!((m.dx, m.dy, m.flip_x), (1, -1, false));
    let m = movement_intent(false, false, false, false);
    assert_eq!((m.dx, m.dy, m.flip_x), (0, 0, false));
}

#[test]
fn pickups_in_reach_are_taken() {
    let ps = vec![
        PlayerPickup { id: 1, position: Point::new(10, 0), kind: PickupType::Item },
        PlayerPickup { id: 2, position: Point::new(100, 0), kind: PickupType::Magnet },
        PlayerPickup { id: 3, position: Point::new(0, 32), kind: PickupType::Magnet },
    ];
    let taken = take_player_pickups(Point::new(0, 0), 32, &ps);
    assert_eq!(taken, vec![PickupTakenEvent(1, PickupType::Item), PickupTakenEvent(3, PickupType::Magnet)]);
}

#[test]
fn magnet_attracts_all_shards_and_pickups_vanish() {
    let mut ps = vec![
        PlayerPickup { id: 1, position: Point::new(10, 0), kind: PickupType::Item },
        PlayerPickup { id: 3, position: Point::new(0, 32), kind: PickupType::Magnet },
        PlayerPickup { id: 4, position: Point::new(900, 0), kind: PickupType::Item },
    ];
    let mut shards = vec![
        XpShard { position: Point::new(500, 0), value: 10, attracted: false },
        XpShard { position: Point::new(-500, 0), value: 10, attracted: false },
    ];
    handle_pickup_taken(&vec![PickupTakenEvent(1, PickupType::Item)], &mut ps, &mut shards);
    assert_eq!(ps.len(), 2);
    assert!(shards.iter().all(|s| !s.attracted));
    handle_pickup_taken(&vec![PickupTakenEvent(3, PickupType::Magnet)], &mut ps, &mut shards);
    assert_eq!(ps, vec![PlayerPickup { id: 4, position: Point::new(900, 0), kind: PickupType::Item }]);
    assert!(shards.iter().all(|s| s.attracted));
}

#[test]
fn shards_in_reach_feed_the_ledger() {
    let mut ledger = XpLevel::with_level(1);
    let mut shards = vec![
        XpShard { position: Point::new(0, 5), value: 60, attracted: false },
        XpShard { position: Point::new(400, 0), value: 10, attracted: false },
        XpShard { position: Point::new(3, 3), value: 60, attracted: true },
    ];
    let sounds = pickup_xp(Point::new(0, 0), 32, &mut ledger, &mut shards);
    assert_eq!(sounds, vec![SoundEvent::XpPickup, SoundEvent::XpPickup]);
    assert_eq!(ledger, XpLevel { xp: 20, xp_to_next: 200, level: 2 });
    assert_eq!(shards.len(), 1);
    assert_eq!(shards[0].position, Point::new(400, 0));
}

#[test]
fn attraction_reaches_twice_pickup_range() {
    assert!(in_attraction_range(Point::new(0, 0), 32, Point::new(64, 0)));
    assert!(!in_attraction_range(Point::new(0, 0), 32, Point::new(65, 0)));
    assert!(in_attraction_range(Point::new(0, 0), u32::MAX, Point::new(i32::MAX, 0)));
}

#[test]
fn magnets_spawn_in_square_up_to_cap() {
    assert!(new_magnet_position(10).is_none());
    for _ in 0..100 {
        let p = new_magnet_position(0).unwrap();
        assert!(p.x >= -10_000 && p.x < 10_000 && p.y >= -10_000 && p.y < 10_000);
    }
}

#[test]
fn turret_idle_without_targets() {
    let mut t = Turret::new(Point::new(0, 0));
    let before = t;
    assert!(t.fire(&vec![Point::new(1000, 0)], 500).is_none());
    assert_eq!(t, before);
}

#[test]
fn turret_fires_at_enemy_in_view_on_delay() {
    let mut t = Turret::new(Point::new(0, 0));
    let enemies = vec![Point::new(1000, 0), Point::new(300, 0), Point::new(0, -350)];
    assert_eq!(enemies_in_range(Point::new(0, 0), 350, &enemies), vec![1, 2]);
    assert!(t.fire(&enemies, 50).is_none());
    let shot = t.fire(&enemies, 50).unwrap();
    assert_eq!(shot.sound, SoundEvent::MachineGunShoot);
    assert_eq!(shot.bullet.acc, 40);
    let shot = shot.bullet;
    assert!(shot.at == Point::new(300, 0) || shot.at == Point::new(0, -350));
    assert_eq!(shot.from, Point::new(0, 0));
    assert_eq!(shot.dmg, 5);
    assert_eq!(shot.lifetime, 30);
    assert_eq!(shot.bullet_speed, 1000);
}

#[test]
fn turret_choice_covers_all_targets() {
    let enemies = vec![Point::new(10, 0), Point::new(0, 10)];
    let mut seen = [false, false];
    for _ in 0..200 {
        let mut t = Turret::new(Point::new(0, 0));
        let shot = t.fire(&enemies, 100).unwrap().bullet;
        if shot.at == enemies[0] {
            seen[0] = true;
        } else {
            seen[1] = true;
        }
    }
    assert!(seen[0] && seen[1]);
}

#[test]
fn geometry_helpers() {
    assert_eq!(dist_sq(Point::new(0, 0), Point::new(3, 4)), 25);
    assert_eq!(dist_sq(Point::new(i32::MIN, i32::MIN), Point::new(i32::MAX, i32::MAX)), 2 * (u32::MAX as u128) * (u32::MAX as u128));
    assert!(within(Point::new(0, 0), Point::new(3, 4), 6));
    assert!(!within(Point::new(0, 0), Point::new(3, 4), 5));
    assert_eq!(translate(Point::new(i32::MAX, 0), Point::new(5, -5)), Point::new(i32::MAX, -5));
}

#[test]
fn integer_square_root() {
    assert_eq!(isqrt(0), 0);
    assert_eq!(isqrt(15), 3);
    assert_eq!(isqrt(16), 4);
    assert_eq!(isqrt(90_000), 300);
}

#[test]
fn random_offsets_have_length_in_band() {
    for _ in 0..300 {
        let d = random_offset(50, 300);
        let l = (d.x as i64) * (d.x as i64) + (d.y as i64) * (d.y as i64);
        assert!(l <= 90_000);
        assert!(l >= 50 * 50);
    }
}

#[test]
fn collect_xp_refuses_overflow_and_changes_nothing() {
    let mut ledger = XpLevel { xp: 50, xp_to_next: 100, level: 1 };
    let mut shards = vec![XpShard { position: Point::new(0, 0), value: u64::MAX - 10, attracted: false }];
    assert!(collect_xp(Point::new(0, 0), 32, &mut ledger, &mut shards).is_none());
    assert_eq!(ledger, XpLevel { xp: 50, xp_to_next: 100, level: 1 });
    assert_eq!(shards.len(), 1);
}

#[test]
fn collect_xp_collects_reachable_shards() {
    let mut ledger = XpLevel::with_level(1);
    let mut shards = vec![
        XpShard { position: Point::new(0, 0), value: 150, attracted: false },
        XpShard { position: Point::new(900, 0), value: u64::MAX, attracted: false },
    ];
    assert_eq!(reached_shard_values(Point::new(0, 0), 32, &shards), vec![150]);
    let sounds = collect_xp(Point::new(0, 0), 32, &mut ledger, &mut shards).unwrap();
    assert_eq!(sounds, vec![SoundEvent::XpPickup]);
    assert_eq!(ledger, XpLevel { xp: 50, xp_to_next: 200, level: 2 });
    assert_eq!(shards.len(), 1);
    assert!(adds_fit_check(XpLevel::with_level(1), &vec![10, 20]));
    assert!(!adds_fit_check(XpLevel::with_level(1), &vec![10, u64::MAX]));
}
