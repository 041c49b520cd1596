use vstd::prelude::*;

use crate::combat::SoundEvent;
use crate::geometry::{within_or_at, within_or_at_spec, Point};
use crate::rng::choose_one;
use crate::weapon::{fire_spec, Weapon};

verus! {

/// How far a turret sees.
pub const TURRET_VIEW_RANGE: u32 = 350;

/// Damage of a turret bullet, in tenths of a health point.
pub const TURRET_DAMAGE: u32 = 5;

/// Speed a turret's weapon is rated at.
pub const TURRET_WEAPON_VELOCITY: u32 = 700;

/// Spread of a turret's aim, in world units.
pub const TURRET_ACCURACY: u32 = 40;

/// Delay between turret shots, in milliseconds.
pub const TURRET_FIRE_DELAY_MS: u64 = 100;

/// Speed of a turret bullet, in world units per second.
pub const TURRET_BULLET_SPEED: u32 = 1000;

/// Ticks a turret bullet lives.
pub const TURRET_BULLET_LIFETIME: u32 = 30;

/// A request to fire one bullet.
#[derive(Debug, Clone, Copy, PartialEq, Eq, Structural)]
pub struct BulletFiredEvent {
    pub from: Point,
    pub at: Point,
    pub acc: u32,
    pub dmg: u32,
    pub lifetime: u32,
    pub bullet_speed: u32,
}

/// A shot: the bullet to fire and the sound of the gun.
#[derive(Debug, Clone, Copy, PartialEq, Eq, Structural)]
pub struct Shot {
    pub bullet: BulletFiredEvent,
    pub sound: SoundEvent,
}

/// A placed turret: where it stands, how far it sees, and its gun.
#[derive(Debug, Clone, Copy, PartialEq, Eq, Structural)]
pub struct Turret {
    pub position: Point,
    pub view_range: u32,
    pub weapon: Weapon,
}

/// The indexes of the enemies that lie within `range` of `from`, in order.
pub open spec fn in_range_indexes(from: Point, range: u32, enemies: Seq<Point>, n: int) -> Seq<usize>
    decreases n,
{
    if n <= 0 {
        Seq::empty()
    } else if within_or_at_spec(enemies[n - 1], from, range as int) {
        in_range_indexes(from, range, enemies, n - 1).push((n - 1) as usize)
    } else {
        in_range_indexes(from, range, enemies, n - 1)
    }
}

/// The enemies in view of a turret, by index.
pub fn enemies_in_range(from: Point, range: u32, enemies: &Vec<Point>) -> (r: Vec<usize>)
    ensures
        r@ == in_range_indexes(from, range, enemies@, enemies@.len() as int),
{
    let mut out: Vec<usize> = Vec::new();
    let mut k: usize = 0;
    while k < enemies.len()
        invariant
            k <= enemies@.len(),
            out@ == in_range_indexes(from, range, enemies@, k as int),
        decreases enemies@.len() - k,
    {
        if within_or_at(enemies[k], from, range) {
            out.push(k);
        }
        k = k + 1;
    }
    out
}

proof fn lemma_in_range_sound(from: Point, range: u32, enemies: Seq<Point>, n: int)
    requires
        n <= enemies.len(),
        n <= usize::MAX,
    ensures
        forall|k: int|
            #![trigger in_range_indexes(from, range, enemies, n)[k]]
            0 <= k < in_range_indexes(from, range, enemies, n).len() ==> {
                let i = in_range_indexes(from, range, enemies, n)[k];
                0 <= i < n && within_or_at_spec(enemies[i as int], from, range as int)
            },
    decreases n,
{
    if n > 0 {
        lemma_in_range_sound(from, range, enemies, n - 1);
        let prev = in_range_indexes(from, range, enemies, n - 1);
        if within_or_at_spec(enemies[n - 1], from, range as int) {
            assert forall|k: int| 0 <= k < prev.len() + 1 implies #[trigger] prev.push((n - 1) as usize)[k] == if k < prev.len() {
                prev[k]
            } else {
                (n - 1) as usize
            } by {}
            assert(((n - 1) as usize) as int == n - 1);
        }
    }
}

/// A turret after its gun's timer advanced by `dt`; all else stays.
pub open spec fn turret_after(t: Turret, dt: int) -> Turret {
    Turret { weapon: Weapon { delay: fire_spec(t.weapon.delay, dt).0, ..t.weapon }, ..t }
}

/// The shot a turret fires at `target`: its own aim spread and damage, a turret bullet's
/// lifetime and speed, and the machine-gun sound.
pub open spec fn turret_shot(t: Turret, target: Point) -> Shot {
    Shot {
        bullet: BulletFiredEvent {
            from: t.position,
            at: target,
            acc: t.weapon.accuracy,
            dmg: t.weapon.damage,
            lifetime: TURRET_BULLET_LIFETIME,
            bullet_speed: TURRET_BULLET_SPEED,
        },
        sound: SoundEvent::MachineGunShoot,
    }
}

impl Turret {
    /// The turret that `new` makes.
    pub open spec fn new_spec(position: Point) -> Turret {
        Turret {
            position,
            view_range: TURRET_VIEW_RANGE,
            weapon: Weapon {
                delay: crate::weapon::Cooldown { delay_ms: TURRET_FIRE_DELAY_MS, elapsed_ms: 0 },
                damage: TURRET_DAMAGE,
                bullet_velocity: TURRET_WEAPON_VELOCITY,
                accuracy: TURRET_ACCURACY,
            },
        }
    }

    /// A turret at `position` with the standard sight and gun.
    pub fn new(position: Point) -> (r: Turret)
        ensures
            r == Turret::new_spec(position),
            r.weapon.wf(),
    {
        Turret {
            position,
            view_range: TURRET_VIEW_RANGE,
            weapon: Weapon::new(TURRET_DAMAGE, TURRET_WEAPON_VELOCITY, TURRET_ACCURACY, TURRET_FIRE_DELAY_MS),
        }
    }

    /// Fire at `target`, if the gun allows: the timer advances by `dt_ms`.
    pub fn fire_at(&mut self, target: Point, dt_ms: u64) -> (r: Option<Shot>)
        requires
            old(self).weapon.wf(),
        ensures
            final(self).weapon.wf(),
            *final(self) == turret_after(*old(self), dt_ms as int),
            r is Some <==> fire_spec(old(self).weapon.delay, dt_ms as int).1,
            r matches Some(s) ==> s == turret_shot(*old(self), target),
    {
        if self.weapon.fire(dt_ms) {
            Some(Shot {
                bullet: BulletFiredEvent {
                    from: self.position,
                    at: target,
                    acc: self.weapon.accuracy,
                    dmg: self.weapon.damage,
                    lifetime: TURRET_BULLET_LIFETIME,
                    bullet_speed: TURRET_BULLET_SPEED,
                },
                sound: SoundEvent::MachineGunShoot,
            })
        } else {
            None
        }
    }

    /// One tick of a turret: pick one of the enemies in view at random and fire at it if
    /// the gun allows. With no enemy in view nothing happens, and the timer stands still.
    pub fn fire(&mut self, enemies: &Vec<Point>, dt_ms: u64) -> (r: Option<Shot>)
        requires
            old(self).weapon.wf(),
        ensures
            final(self).weapon.wf(),
            in_range_indexes(old(self).position, old(self).view_range, enemies@, enemies@.len() as int).len() == 0
                ==> *final(self) == *old(self) && r is None,
            in_range_indexes(old(self).position, old(self).view_range, enemies@, enemies@.len() as int).len() > 0
                ==> *final(self) == turret_after(*old(self), dt_ms as int) && (r is Some
                <==> fire_spec(old(self).weapon.delay, dt_ms as int).1),
            r matches Some(s) ==> exists|i: int|
                0 <= i < enemies@.len() && s == turret_shot(*old(self), #[trigger] enemies@[i]) && within_or_at_spec(
                    enemies@[i],
                    old(self).position,
                    old(self).view_range as int,
                ),
    {
        let candidates = enemies_in_range(self.position, self.view_range, enemies);
        proof {
            assert(enemies@.len() <= usize::MAX) by {
                assert(enemies@.len() == enemies.len());
            }
            lemma_in_range_sound(self.position, self.view_range, enemies@, enemies@.len() as int);
        }
        match choose_one(&candidates) {
            None => None,
            Some(i) => {
                proof {
                    let k = choose|k: int| 0 <= k < candidates@.len() && candidates@[k] == i;
                    assert(candidates@[k] == i);
                }
                self.fire_at(enemies[i], dt_ms)
            },
        }
    }
}

/// A turret placed at `pos`, with the standard sight and gun.
pub fn spawn_turret(pos: Point) -> (r: Turret)
    ensures
        r == Turret::new_spec(pos),
{
    Turret::new(pos)
}

} // verus!
