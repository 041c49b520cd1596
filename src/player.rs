use vstd::prelude::*;

use crate::geometry::Point;
use crate::progression::XpLevel;
use crate::tree::Gathering;
use crate::combat::SoundEvent;
use crate::turret::{BulletFiredEvent, Shot};
use crate::weapon::{tick_spec, Cooldown};

verus! {

/// Walking speed of the player, in world units per second.
pub const PLAYER_SPEED: u32 = 100;

/// The player's starting and maximum health, in tenths of a health point.
pub const PLAYER_HEALTH: i64 = 10_000;

/// Damage of one woodcutting blow, in tenths of a health point.
pub const PLAYER_GATHER_DAMAGE: u32 = 200;

/// How far the player reaches with a woodcutting blow.
pub const PLAYER_GATHER_RANGE: u32 = 64;

/// How close a pickup must come to be taken.
pub const PLAYER_PICKUP_RANGE: u32 = 32;

/// Delay between the player's shots, in milliseconds.
pub const PLAYER_SHOT_DELAY_MS: u64 = 500;

/// Spread of the player's aim, in world units.
pub const PLAYER_ACCURACY: u32 = 20;

/// Damage of the player's bullets, in tenths of a health point.
pub const PLAYER_BULLET_DAMAGE: u32 = 20;

/// Ticks a player bullet lives.
pub const PLAYER_BULLET_LIFETIME: u32 = 120;

/// Speed of a player bullet, in world units per second.
pub const PLAYER_BULLET_SPEED: u32 = 1000;

/// The player's state that the rules read.
#[derive(Debug, Clone, Copy, PartialEq, Eq, Structural)]
pub struct Player {
    pub position: Point,
    pub health: i64,
    pub max_health: i64,
    pub iframes: u32,
    pub pickup_range: u32,
    pub gathering: Gathering,
    pub xp: XpLevel,
    pub attack_timer: Cooldown,
}

/// Which way the movement keys point: each axis is -1, 0 or 1; `flip_x` turns the sprite
/// to face left.
#[derive(Debug, Clone, Copy, PartialEq, Eq, Structural)]
pub struct MoveIntent {
    pub dx: i32,
    pub dy: i32,
    pub flip_x: bool,
}

impl Player {
    pub open spec fn wf(&self) -> bool {
        &&& self.health <= self.max_health
        &&& self.xp.wf()
        &&& self.attack_timer.wf()
    }

    /// A fresh player at `position`, with the starting stats.
    pub fn spawn(position: Point) -> (r: Player)
        ensures
            r.wf(),
            r.position == position,
            r.health == PLAYER_HEALTH && r.max_health == PLAYER_HEALTH,
            r.iframes == 0,
            r.pickup_range == PLAYER_PICKUP_RANGE,
            r.gathering == (Gathering { damage: PLAYER_GATHER_DAMAGE, range: PLAYER_GATHER_RANGE, cooldown: 0 }),
            r.xp == (XpLevel { xp: 0, xp_to_next: 100, level: 1 }),
            r.attack_timer == (Cooldown { delay_ms: PLAYER_SHOT_DELAY_MS, elapsed_ms: 0 }),
    {
        Player {
            position,
            health: PLAYER_HEALTH,
            max_health: PLAYER_HEALTH,
            iframes: 0,
            pickup_range: PLAYER_PICKUP_RANGE,
            gathering: Gathering::new(PLAYER_GATHER_DAMAGE, PLAYER_GATHER_RANGE),
            xp: XpLevel::with_level(1),
            attack_timer: Cooldown::new(PLAYER_SHOT_DELAY_MS),
        }
    }

    /// One tick of the player's gun: the timer always advances; when it has run out and
    /// the fire button is held, a shot goes from the player toward `aim` and the timer
    /// restarts, with the pistol's sound.
    pub fn shoot(&mut self, dt_ms: u64, fire_held: bool, aim: Point) -> (r: Option<Shot>)
        requires
            old(self).wf(),
        ensures
            final(self).wf(),
            final(self).position == old(self).position,
            final(self).xp == old(self).xp,
            ({
                let t = tick_spec(old(self).attack_timer, dt_ms as int);
                if t.elapsed_ms >= t.delay_ms && fire_held {
                    &&& final(self).attack_timer == (Cooldown { elapsed_ms: 0, ..t })
                    &&& r == Some(Shot {
                        bullet: BulletFiredEvent {
                            from: old(self).position,
                            at: aim,
                            acc: PLAYER_ACCURACY,
                            dmg: PLAYER_BULLET_DAMAGE,
                            lifetime: PLAYER_BULLET_LIFETIME,
                            bullet_speed: PLAYER_BULLET_SPEED,
                        },
                        sound: SoundEvent::PistolShoot,
                    })
                } else {
                    final(self).attack_timer == t && r is None
                }
            }),
    {
        self.attack_timer.tick(dt_ms);
        if self.attack_timer.finished() && fire_held {
            self.attack_timer.reset();
            Some(Shot {
                bullet: BulletFiredEvent {
                    from: self.position,
                    at: aim,
                    acc: PLAYER_ACCURACY,
                    dmg: PLAYER_BULLET_DAMAGE,
                    lifetime: PLAYER_BULLET_LIFETIME,
                    bullet_speed: PLAYER_BULLET_SPEED,
                },
                sound: SoundEvent::PistolShoot,
            })
        } else {
            None
        }
    }
}

/// The direction of the held movement keys: up and right are positive; down wins over up
/// and right over left when both are held.
pub fn movement_intent(up: bool, down: bool, left: bool, right: bool) -> (r: MoveIntent)
    ensures
        r.dy == if down { -1i32 } else if up { 1i32 } else { 0i32 },
        r.dx == if right { 1i32 } else if left { -1i32 } else { 0i32 },
        r.flip_x == (r.dx < 0),
{
    let mut dx: i32 = 0;
    let mut dy: i32 = 0;
    if up {
        dy = 1;
    }
    if down {
        dy = -1;
    }
    if left {
        dx = -1;
    }
    if right {
        dx = 1;
    }
    MoveIntent { dx, dy, flip_x: dx < 0 }
}

} // verus!
