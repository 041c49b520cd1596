use survival_core::progression::{Xp, XpLevel};
use survival_core::weapon::{Cooldown, Weapon};

#[test]
fn with_level_sets_threshold() {
    let l = XpLevel::with_level(4);
    assert_eq!(l, XpLevel { xp: 0, xp_to_next: 400, level: 4 });
}

#[test]
fn add_xp_bulk_levels_in_one_step() {
    let mut l = XpLevel::with_level(1);
    l.add_xp(Xp(250));
    assert_eq!(l.level, 3);
    assert_eq!(l.xp, 50);
    assert_eq!(l.xp_to_next, 300);
}

#[test]
fn add_xp_zero_is_noop() {
    let mut l = XpLevel::with_level(2);
    l.add_xp(Xp(70));
    let before = l;
    l.add_xp(Xp(0));
    assert_eq!(l, before);
}

#[test]
fn add_xp_then_rest_of_threshold_levels_once() {
    for x in [0u64, 1, 37, 99, 100] {
        let mut l = XpLevel::with_level(1);
        let threshold = l.xp_to_next;
        l.add_xp(Xp(x));
        l.add_xp(Xp(threshold - x));
        assert_eq!(l.level, 2, "x = {}", x);
        assert_eq!(l.xp, 0);
        assert_eq!(l.xp_to_next, 200);
    }
}

#[test]
fn add_xp_below_threshold_keeps_level() {
    let mut l = XpLevel::with_level(1);
    l.add_xp(Xp(99));
    assert_eq!(l, XpLevel { xp: 99, xp_to_next: 100, level: 1 });
    assert_eq!(l.progress_percent(), 99);
}

#[test]
fn weapon_new_keeps_parameters() {
    let w = Weapon::new(5, 700, 40, 100);
    assert_eq!(w.damage, 5);
    assert_eq!(w.bullet_velocity, 700);
    assert_eq!(w.accuracy, 40);
    assert_eq!(w.delay, Cooldown { delay_ms: 100, elapsed_ms: 0 });
}

#[test]
fn weapon_fires_once_per_ten_calls() {
    let mut w = Weapon::new(5, 700, 40, 1000);
    let mut shots = Vec::new();
    for call in 1..=50u32 {
        if w.fire(100) {
            shots.push(call);
        }
    }
    assert_eq!(shots, vec![10, 20, 30, 40, 50]);
}

#[test]
fn weapon_large_step_fires_every_call() {
    let mut w = Weapon::new(1, 1, 1, 100);
    assert!(w.fire(250));
    assert!(w.fire(100));
    assert!(!w.fire(99));
    assert!(w.fire(1));
}

#[test]
fn zero_delay_weapon_always_fires() {
    let mut w = Weapon::new(1, 1, 1, 0);
    assert!(w.fire(0));
    assert!(w.fire(0));
}

#[test]
fn cooldown_tick_clamps_at_delay() {
    let mut c = Cooldown::new(500);
    c.tick(200);
    assert_eq!(c.elapsed_ms, 200);
    assert!(!c.finished());
    c.tick(10_000);
    assert_eq!(c.elapsed_ms, 500);
    assert!(c.finished());
    c.reset();
    assert_eq!(c.elapsed_ms, 0);
}

#[test]
fn ledger_handles_large_levels() {
    let mut l = XpLevel::with_level(u32::MAX as u64);
    assert_eq!(l.xp_to_next, u32::MAX as u64 * 100);
    let t = l.xp_to_next;
    l.add_xp(Xp(10));
    l.add_xp(Xp(t - 10));
    assert_eq!(l.level, u32::MAX as u64 + 1);
    assert_eq!(l.xp, 0);
}

#[test]
fn level_zero_ledger_fields() {
    let l = XpLevel::with_level(0);
    assert_eq!(l, XpLevel { xp: 0, xp_to_next: 0, level: 0 });
}
