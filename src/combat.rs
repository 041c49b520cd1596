use vstd::prelude::*;

use crate::ai::{on_hit_spec, AggressiveAi};
use crate::geometry::Point;

verus! {

/// Invulnerability that a hit gives an enemy, in hundredths of a second.
pub const HIT_IFRAMES: u32 = 20;

/// Experience dropped by a killed enemy.
pub const KILL_XP: u64 = 10;

/// Health of an enemy that a spawner creates.
pub const ENEMY_HEALTH: i64 = 100;

/// Largest maximum health an enemy may have.
pub const MAX_ENEMY_HEALTH: i64 = 0x100_0000_0000;

/// An enemy: its identity, place, health, invulnerability left, owning spawner and brain.
/// `dead` marks an enemy killed this tick and waiting to be removed.
#[derive(Debug, Clone, Copy, PartialEq, Eq, Structural)]
pub struct Enemy {
    pub id: u64,
    pub position: Point,
    pub health: i64,
    pub max_health: i64,
    pub iframes: u32,
    pub spawner: u64,
    pub ai: AggressiveAi,
    pub dead: bool,
}

/// A bullet: its identity, where it was fired from, its damage and the ticks it has left.
/// `consumed` marks a bullet that hit something this tick and waits to be removed.
#[derive(Debug, Clone, Copy, PartialEq, Eq, Structural)]
pub struct Bullet {
    pub id: u64,
    pub origin: Point,
    pub damage: u32,
    pub lifetime: u32,
    pub consumed: bool,
}

/// Two entities that started touching this tick.
#[derive(Debug, Clone, Copy, PartialEq, Eq, Structural)]
pub struct Collision {
    pub a: u64,
    pub b: u64,
}

/// A sound to play.
#[derive(Debug, Clone, Copy, PartialEq, Eq, Structural)]
pub enum SoundEvent {
    Damage,
    Death,
    XpPickup,
    AttackTree,
    TreeHitGround,
    PistolShoot,
    MachineGunShoot,
}

impl SoundEvent {
    /// Playback volume, in thousandths of full volume.
    pub fn volume_permille(&self) -> (r: u32)
        ensures
            r == match *self {
                SoundEvent::Damage => 100u32,
                SoundEvent::Death => 5u32,
                SoundEvent::XpPickup => 300u32,
                SoundEvent::AttackTree => 500u32,
                SoundEvent::TreeHitGround => 700u32,
                SoundEvent::PistolShoot => 500u32,
                SoundEvent::MachineGunShoot => 200u32,
            },
    {
        match self {
            SoundEvent::Damage => 100,
            SoundEvent::Death => 5,
            SoundEvent::XpPickup => 300,
            SoundEvent::AttackTree => 500,
            SoundEvent::TreeHitGround => 700,
            SoundEvent::PistolShoot => 500,
            SoundEvent::MachineGunShoot => 200,
        }
    }
}

/// Experience to drop at a place.
#[derive(Debug, Clone, Copy, PartialEq, Eq, Structural)]
pub struct XpDropEvent {
    pub position: Point,
    pub xp: u64,
}

/// An enemy owned by the spawner with this identity died.
#[derive(Debug, Clone, Copy, PartialEq, Eq, Structural)]
pub struct SpawnedEntiyDeathEvent(pub u64);

/// One bullet matched to one enemy.
pub ghost struct Hit {
    pub enemy: int,
    pub bullet: int,
    pub damage: int,
    pub killed: bool,
    pub position: Point,
    pub spawner: u64,
}

impl Enemy {
    /// Well-formed: health within its maximum, a live enemy above zero, and a dead one no
    /// further below zero than one hit can take it.
    pub open spec fn wf(&self) -> bool {
        &&& self.health <= self.max_health <= MAX_ENEMY_HEALTH
        &&& !self.dead ==> self.health > 0
        &&& self.health >= -(u32::MAX as int)
    }
}

/// Every enemy of the sequence is well-formed.
pub open spec fn all_wf(es: Seq<Enemy>) -> bool {
    forall|i: int| 0 <= i < es.len() ==> (#[trigger] es[i]).wf()
}

/// Enemy `i` is live and has identity `id`.
pub open spec fn live_enemy(es: Seq<Enemy>, id: u64, i: int) -> bool {
    0 <= i < es.len() && es[i].id == id && !es[i].dead
}

/// Bullet `j` is unspent and has identity `id`.
pub open spec fn open_bullet(bs: Seq<Bullet>, id: u64, j: int) -> bool {
    0 <= j < bs.len() && bs[j].id == id && !bs[j].consumed
}

/// Index of the first live enemy with identity `id`, or -1.
pub open spec fn first_live_enemy(es: Seq<Enemy>, id: u64) -> int {
    if exists|i: int| #[trigger] live_enemy(es, id, i) {
        choose|i: int| #[trigger] live_enemy(es, id, i) && forall|k: int| 0 <= k < i ==> !live_enemy(es, id, k)
    } else {
        -1
    }
}

/// Index of the first unspent bullet with identity `id`, or -1.
pub open spec fn first_open_bullet(bs: Seq<Bullet>, id: u64) -> int {
    if exists|j: int| #[trigger] open_bullet(bs, id, j) {
        choose|j: int| #[trigger] open_bullet(bs, id, j) && forall|k: int| 0 <= k < j ==> !open_bullet(bs, id, k)
    } else {
        -1
    }
}

/// The enemy and the bullet that a collision between `a` and `b` brings together, if any:
/// an enemy `a` with a bullet `b`, else an enemy `b` with a bullet `a`.
pub open spec fn pair_of(es: Seq<Enemy>, bs: Seq<Bullet>, c: Collision) -> Option<(int, int)> {
    let i = first_live_enemy(es, c.a);
    let j = first_open_bullet(bs, c.b);
    let i2 = first_live_enemy(es, c.b);
    let j2 = first_open_bullet(bs, c.a);
    if i >= 0 && j >= 0 {
        Some((i, j))
    } else if i2 >= 0 && j2 >= 0 {
        Some((i2, j2))
    } else {
        None
    }
}

/// Enemy `i` hit by bullet `j`: it loses the bullet's damage, becomes invulnerable for a
/// while, turns to look where the shot came from, and is marked dead at zero health or
/// below; the bullet is spent.
pub open spec fn hit_spec(es: Seq<Enemy>, bs: Seq<Bullet>, i: int, j: int) -> (Seq<Enemy>, Seq<Bullet>, Hit) {
    let e = es[i];
    let b = bs[j];
    let health = e.health - b.damage;
    let killed = health <= 0;
    let e2 = Enemy {
        health: health as i64,
        iframes: HIT_IFRAMES,
        ai: AggressiveAi { state: on_hit_spec(e.ai.state, b.origin), ..e.ai },
        dead: killed,
        ..e
    };
    (
        es.update(i, e2),
        bs.update(j, Bullet { consumed: true, ..b }),
        Hit { enemy: i, bullet: j, damage: b.damage as int, killed, position: e.position, spawner: e.spawner },
    )
}

/// One collision applied.
pub open spec fn collide_spec(es: Seq<Enemy>, bs: Seq<Bullet>, c: Collision) -> (Seq<Enemy>, Seq<Bullet>, Option<Hit>) {
    match pair_of(es, bs, c) {
        Some((i, j)) => {
            let (es2, bs2, h) = hit_spec(es, bs, i, j);
            (es2, bs2, Some(h))
        },
        None => (es, bs, None),
    }
}

/// A tick's collisions applied in order, with the hits they produced.
pub open spec fn resolve_spec(es: Seq<Enemy>, bs: Seq<Bullet>, cs: Seq<Collision>) -> (Seq<Enemy>, Seq<Bullet>, Seq<Hit>)
    decreases cs.len(),
{
    if cs.len() == 0 {
        (es, bs, Seq::empty())
    } else {
        let (es1, bs1, hits) = resolve_spec(es, bs, cs.drop_last());
        let (es2, bs2, h) = collide_spec(es1, bs1, cs.last());
        match h {
            Some(h) => (es2, bs2, hits.push(h)),
            None => (es2, bs2, hits),
        }
    }
}

/// Total damage that the hits dealt to enemy `i`.
pub open spec fn damage_to(hits: Seq<Hit>, i: int) -> int
    decreases hits.len(),
{
    if hits.len() == 0 {
        0
    } else {
        damage_to(hits.drop_last(), i) + if hits.last().enemy == i { hits.last().damage } else { 0 }
    }
}

/// The sound of each hit: a death or a wound.
pub open spec fn sound_of(h: Hit) -> SoundEvent {
    if h.killed { SoundEvent::Death } else { SoundEvent::Damage }
}

/// The experience drops of the killing hits, in order.
pub open spec fn kill_drops(hits: Seq<Hit>) -> Seq<XpDropEvent>
    decreases hits.len(),
{
    if hits.len() == 0 {
        Seq::empty()
    } else if hits.last().killed {
        kill_drops(hits.drop_last()).push(XpDropEvent { position: hits.last().position, xp: KILL_XP })
    } else {
        kill_drops(hits.drop_last())
    }
}

/// The spawner notices of the killing hits, in order.
pub open spec fn kill_notices(hits: Seq<Hit>) -> Seq<SpawnedEntiyDeathEvent>
    decreases hits.len(),
{
    if hits.len() == 0 {
        Seq::empty()
    } else if hits.last().killed {
        kill_notices(hits.drop_last()).push(SpawnedEntiyDeathEvent(hits.last().spawner))
    } else {
        kill_notices(hits.drop_last())
    }
}

/// Find the first live enemy with identity `id`.
pub fn find_live_enemy(es: &Vec<Enemy>, id: u64) -> (r: Option<usize>)
    ensures
        r matches Some(i) ==> i as int == first_live_enemy(es@, id) && live_enemy(es@, id, i as int),
        r is None ==> first_live_enemy(es@, id) == -1,
{
    let mut k: usize = 0;
    while k < es.len()
        invariant
            k <= es@.len(),
            forall|m: int| 0 <= m < k ==> !live_enemy(es@, id, m),
        decreases es@.len() - k,
    {
        if es[k].id == id && !es[k].dead {
            proof {
                assert(live_enemy(es@, id, k as int));
                let c = first_live_enemy(es@, id);
                assert(live_enemy(es@, id, c) && forall|m: int| 0 <= m < c ==> !live_enemy(es@, id, m));
                if c < k {
                } else if c > k {
                }
            }
            return Some(k);
        }
        k = k + 1;
    }
    None
}

/// Find the first unspent bullet with identity `id`.
pub fn find_open_bullet(bs: &Vec<Bullet>, id: u64) -> (r: Option<usize>)
    ensures
        r matches Some(j) ==> j as int == first_open_bullet(bs@, id) && open_bullet(bs@, id, j as int),
        r is None ==> first_open_bullet(bs@, id) == -1,
{
    let mut k: usize = 0;
    while k < bs.len()
        invariant
            k <= bs@.len(),
            forall|m: int| 0 <= m < k ==> !open_bullet(bs@, id, m),
        decreases bs@.len() - k,
    {
        if bs[k].id == id && !bs[k].consumed {
            proof {
                assert(open_bullet(bs@, id, k as int));
                let c = first_open_bullet(bs@, id);
                assert(open_bullet(bs@, id, c) && forall|m: int| 0 <= m < c ==> !open_bullet(bs@, id, m));
                if c < k {
                } else if c > k {
                }
            }
            return Some(k);
        }
        k = k + 1;
    }
    None
}

/// What a hit did, as the caller needs to know it.
#[derive(Debug, Clone, Copy, PartialEq, Eq, Structural)]
pub struct HitReport {
    pub killed: bool,
    pub position: Point,
    pub spawner: u64,
}

/// The events a tick of collisions raised.
#[derive(Debug, PartialEq, Eq)]
pub struct TickEvents {
    pub sounds: Vec<SoundEvent>,
    pub xp_drops: Vec<XpDropEvent>,
    pub deaths: Vec<SpawnedEntiyDeathEvent>,
}

/// The enemy and bullet that a collision brings together, if any.
fn find_pair(es: &Vec<Enemy>, bs: &Vec<Bullet>, c: Collision) -> (r: Option<(usize, usize)>)
    ensures
        r matches Some((i, j)) ==> pair_of(es@, bs@, c) == Some((i as int, j as int)) && i < es@.len()
            && j < bs@.len() && !es@[i as int].dead,
        r is None ==> pair_of(es@, bs@, c) is None,
{
    match (find_live_enemy(es, c.a), find_open_bullet(bs, c.b)) {
        (Some(i), Some(j)) => Some((i, j)),
        (ea, ba) => {
            assert(!(first_live_enemy(es@, c.a) >= 0 && first_open_bullet(bs@, c.b) >= 0)) by {
                if first_live_enemy(es@, c.a) >= 0 {
                    assert(ea is Some);
                }
                if first_open_bullet(bs@, c.b) >= 0 {
                    assert(ba is Some);
                }
            }
            match (find_live_enemy(es, c.b), find_open_bullet(bs, c.a)) {
                (Some(i), Some(j)) => Some((i, j)),
                (eb, bb) => {
                    assert(!(first_live_enemy(es@, c.b) >= 0 && first_open_bullet(bs@, c.a) >= 0)) by {
                        if first_live_enemy(es@, c.b) >= 0 {
                            assert(eb is Some);
                        }
                        if first_open_bullet(bs@, c.a) >= 0 {
                            assert(bb is Some);
                        }
                    }
                    None
                },
            }
        },
    }
}

/// Enemy `i` takes the hit of bullet `j`.
fn apply_hit(es: &mut Vec<Enemy>, bs: &mut Vec<Bullet>, i: usize, j: usize) -> (r: HitReport)
    requires
        all_wf(old(es)@),
        i < old(es)@.len(),
        j < old(bs)@.len(),
        !old(es)@[i as int].dead,
    ensures
        all_wf(final(es)@),
        final(es)@ == hit_spec(old(es)@, old(bs)@, i as int, j as int).0,
        final(bs)@ == hit_spec(old(es)@, old(bs)@, i as int, j as int).1,
        r.killed == hit_spec(old(es)@, old(bs)@, i as int, j as int).2.killed,
        r.position == hit_spec(old(es)@, old(bs)@, i as int, j as int).2.position,
        r.spawner == hit_spec(old(es)@, old(bs)@, i as int, j as int).2.spawner,
{
    let ghost es0 = es@;
    let mut e = es[i];
    let mut b = bs[j];
    assert(e.wf());
    e.health = e.health - b.damage as i64;
    e.iframes = HIT_IFRAMES;
    e.ai.on_hit(b.origin);
    let killed = e.health <= 0;
    e.dead = killed;
    b.consumed = true;
    es.set(i, e);
    bs.set(j, b);
    proof {
        assert forall|k: int| 0 <= k < es@.len() implies (#[trigger] es@[k]).wf() by {
            if k != i {
                assert(es@[k] == es0[k]);
            }
        }
    }
    HitReport { killed, position: e.position, spawner: e.spawner }
}

/// Apply one collision: if it brings a live enemy and an unspent bullet together, the
/// enemy takes the hit and the bullet is spent.
pub fn collide(es: &mut Vec<Enemy>, bs: &mut Vec<Bullet>, c: Collision) -> (r: Option<HitReport>)
    requires
        all_wf(old(es)@),
    ensures
        all_wf(final(es)@),
        final(es)@ == collide_spec(old(es)@, old(bs)@, c).0,
        final(bs)@ == collide_spec(old(es)@, old(bs)@, c).1,
        r is Some <==> collide_spec(old(es)@, old(bs)@, c).2 is Some,
        r matches Some(rep) ==> {
            let h = collide_spec(old(es)@, old(bs)@, c).2->0;
            rep.killed == h.killed && rep.position == h.position && rep.spawner == h.spawner
        },
{
    match find_pair(es, bs, c) {
        None => None,
        Some((i, j)) => Some(apply_hit(es, bs, i, j)),
    }
}

/// Apply a tick's collisions in order and gather the events they raise: for each hit a
/// wound or death sound, and for each kill an experience drop and a notice to the spawner.
pub fn resolve_collisions(es: &mut Vec<Enemy>, bs: &mut Vec<Bullet>, cs: &Vec<Collision>) -> (r: TickEvents)
    requires
        all_wf(old(es)@),
    ensures
        all_wf(final(es)@),
        final(es)@ == resolve_spec(old(es)@, old(bs)@, cs@).0,
        final(bs)@ == resolve_spec(old(es)@, old(bs)@, cs@).1,
        r.sounds@ == resolve_spec(old(es)@, old(bs)@, cs@).2.map_values(|h: Hit| sound_of(h)),
        r.xp_drops@ == kill_drops(resolve_spec(old(es)@, old(bs)@, cs@).2),
        r.deaths@ == kill_notices(resolve_spec(old(es)@, old(bs)@, cs@).2),
{
    let ghost es0 = es@;
    let ghost bs0 = bs@;
    let ghost mut hits: Seq<Hit> = Seq::empty();
    let mut out = TickEvents { sounds: Vec::new(), xp_drops: Vec::new(), deaths: Vec::new() };
    let mut k: usize = 0;
    assert(cs@.take(0) =~= Seq::<Collision>::empty());
    while k < cs.len()
        invariant
            k <= cs@.len(),
            all_wf(es@),
            (es@, bs@, hits) == resolve_spec(es0, bs0, cs@.take(k as int)),
            out.sounds@ == hits.map_values(|h: Hit| sound_of(h)),
            out.xp_drops@ == kill_drops(hits),
            out.deaths@ == kill_notices(hits),
        decreases cs@.len() - k,
    {
        let ghost before_es = es@;
        let ghost before_bs = bs@;
        let c = cs[k];
        let rep = collide(es, bs, c);
        assert(cs@.take(k + 1).drop_last() =~= cs@.take(k as int));
        assert(cs@.take(k + 1).last() == c);
        match rep {
            Some(rep) => {
                let ghost h = collide_spec(before_es, before_bs, c).2->0;
                proof {
                    assert(hits.push(h).drop_last() =~= hits);
                    assert(hits.push(h).map_values(|h: Hit| sound_of(h)) =~= hits.map_values(|h: Hit| sound_of(h)).push(sound_of(h)));
                    hits = hits.push(h);
                }
                if rep.killed {
                    out.sounds.push(SoundEvent::Death);
                    out.xp_drops.push(XpDropEvent { position: rep.position, xp: KILL_XP });
                    out.deaths.push(SpawnedEntiyDeathEvent(rep.spawner));
                } else {
                    out.sounds.push(SoundEvent::Damage);
                }
            },
            None => {},
        }
        k = k + 1;
    }
    assert(cs@.take(cs@.len() as int) =~= cs@);
    out
}

proof fn lemma_least_live(es: Seq<Enemy>, id: u64, i: int)
    requires
        live_enemy(es, id, i),
    ensures
        exists|m: int| #[trigger] live_enemy(es, id, m) && forall|k: int| 0 <= k < m ==> !live_enemy(es, id, k),
    decreases i,
{
    if exists|k: int| 0 <= k < i && #[trigger] live_enemy(es, id, k) {
        let k = choose|k: int| 0 <= k < i && #[trigger] live_enemy(es, id, k);
        lemma_least_live(es, id, k);
    } else {
        assert(live_enemy(es, id, i) && forall|k: int| 0 <= k < i ==> !live_enemy(es, id, k));
    }
}

proof fn lemma_least_open(bs: Seq<Bullet>, id: u64, j: int)
    requires
        open_bullet(bs, id, j),
    ensures
        exists|m: int| #[trigger] open_bullet(bs, id, m) && forall|k: int| 0 <= k < m ==> !open_bullet(bs, id, k),
    decreases j,
{
    if exists|k: int| 0 <= k < j && #[trigger] open_bullet(bs, id, k) {
        let k = choose|k: int| 0 <= k < j && #[trigger] open_bullet(bs, id, k);
        lemma_least_open(bs, id, k);
    } else {
        assert(open_bullet(bs, id, j) && forall|k: int| 0 <= k < j ==> !open_bullet(bs, id, k));
    }
}

proof fn lemma_first_live(es: Seq<Enemy>, id: u64)
    ensures
        first_live_enemy(es, id) >= 0 ==> live_enemy(es, id, first_live_enemy(es, id)),
{
    if exists|i: int| #[trigger] live_enemy(es, id, i) {
        let i = choose|i: int| #[trigger] live_enemy(es, id, i);
        lemma_least_live(es, id, i);
    }
}

proof fn lemma_first_open(bs: Seq<Bullet>, id: u64)
    ensures
        first_open_bullet(bs, id) >= 0 ==> open_bullet(bs, id, first_open_bullet(bs, id)),
{
    if exists|j: int| #[trigger] open_bullet(bs, id, j) {
        let j = choose|j: int| #[trigger] open_bullet(bs, id, j);
        lemma_least_open(bs, id, j);
    }
}

pub proof fn lemma_pair_valid(es: Seq<Enemy>, bs: Seq<Bullet>, c: Collision)
    ensures
        pair_of(es, bs, c) matches Some((i, j)) ==> 0 <= i < es.len() && 0 <= j < bs.len() && !es[i].dead
            && !bs[j].consumed,
{
    lemma_first_live(es, c.a);
    lemma_first_live(es, c.b);
    lemma_first_open(bs, c.a);
    lemma_first_open(bs, c.b);
}

/// What the collision law states of one tick's result.
pub open spec fn accounting_holds(es: Seq<Enemy>, bs: Seq<Bullet>, es2: Seq<Enemy>, bs2: Seq<Bullet>, hits: Seq<Hit>) -> bool {
    &&& es2.len() == es.len()
    &&& bs2.len() == bs.len()
    &&& all_wf(es2)
    &&& forall|i: int|
        #![trigger es2[i]]
        0 <= i < es.len() ==> es2[i].max_health == es[i].max_health && es2[i].health <= es2[i].max_health
            && es[i].health - es2[i].health == damage_to(hits, i)
    &&& forall|p: int|
        #![trigger hits[p]]
        0 <= p < hits.len() ==> 0 <= hits[p].bullet < bs.len() && 0 <= hits[p].enemy < es.len()
            && !bs[hits[p].bullet].consumed && bs2[hits[p].bullet].consumed
            && (hits[p].killed ==> es2[hits[p].enemy].dead)
    &&& forall|p: int, q: int|
        #![trigger hits[p], hits[q]]
        0 <= p < q < hits.len() ==> hits[p].bullet != hits[q].bullet
    &&& forall|p: int, q: int|
        #![trigger hits[p], hits[q]]
        0 <= p < q < hits.len() && hits[p].killed ==> hits[q].enemy != hits[p].enemy
}

proof fn lemma_step_enemies(es: Seq<Enemy>, es1: Seq<Enemy>, bs1: Seq<Bullet>, hits1: Seq<Hit>, i: int, j: int)
    requires
        es1.len() == es.len(),
        all_wf(es1),
        0 <= i < es1.len(),
        0 <= j < bs1.len(),
        !es1[i].dead,
        forall|k: int|
            #![trigger es1[k]]
            0 <= k < es.len() ==> es1[k].max_health == es[k].max_health && es1[k].health <= es1[k].max_health
                && es[k].health - es1[k].health == damage_to(hits1, k),
    ensures
        ({
            let (es2, bs2, h) = hit_spec(es1, bs1, i, j);
            let hits = hits1.push(h);
            &&& all_wf(es2)
            &&& forall|k: int|
                #![trigger es2[k]]
                0 <= k < es.len() ==> es2[k].max_health == es[k].max_health && es2[k].health <= es2[k].max_health
                    && es[k].health - es2[k].health == damage_to(hits, k)
        }),
{
    let (es2, bs2, h) = hit_spec(es1, bs1, i, j);
    let hits = hits1.push(h);
    assert(hits.drop_last() =~= hits1);
    assert(es1[i].wf());
    assert forall|k: int| 0 <= k < es2.len() implies (#[trigger] es2[k]).wf() by {
        if k != i {
            assert(es2[k] == es1[k]);
        }
    }
    assert forall|k: int| #![trigger es2[k]] 0 <= k < es.len() implies es2[k].max_health == es[k].max_health
        && es2[k].health <= es2[k].max_health && es[k].health - es2[k].health == damage_to(hits, k) by {
        assert(es2[k].wf());
        if k != i {
            assert(es2[k] == es1[k]);
        }
        assert(es1[k].max_health == es[k].max_health);
    }
}

proof fn lemma_step_hits(es: Seq<Enemy>, bs: Seq<Bullet>, es1: Seq<Enemy>, bs1: Seq<Bullet>, hits1: Seq<Hit>, i: int, j: int)
    requires
        es1.len() == es.len(),
        bs1.len() == bs.len(),
        forall|k: int| 0 <= k < bs.len() ==> !(#[trigger] bs[k]).consumed,
        0 <= i < es1.len(),
        0 <= j < bs1.len(),
        !es1[i].dead,
        !bs1[j].consumed,
        forall|p: int|
            #![trigger hits1[p]]
            0 <= p < hits1.len() ==> 0 <= hits1[p].bullet < bs.len() && 0 <= hits1[p].enemy < es.len()
                && !bs[hits1[p].bullet].consumed && bs1[hits1[p].bullet].consumed
                && (hits1[p].killed ==> es1[hits1[p].enemy].dead),
        forall|p: int, q: int|
            #![trigger hits1[p], hits1[q]]
            0 <= p < q < hits1.len() ==> hits1[p].bullet != hits1[q].bullet,
        forall|p: int, q: int|
            #![trigger hits1[p], hits1[q]]
            0 <= p < q < hits1.len() && hits1[p].killed ==> hits1[q].enemy != hits1[p].enemy,
    ensures
        ({
            let (es2, bs2, h) = hit_spec(es1, bs1, i, j);
            let hits = hits1.push(h);
            &&& forall|p: int|
                #![trigger hits[p]]
                0 <= p < hits.len() ==> 0 <= hits[p].bullet < bs.len() && 0 <= hits[p].enemy < es.len()
                    && !bs[hits[p].bullet].consumed && bs2[hits[p].bullet].consumed
                    && (hits[p].killed ==> es2[hits[p].enemy].dead)
            &&& forall|p: int, q: int|
                #![trigger hits[p], hits[q]]
                0 <= p < q < hits.len() ==> hits[p].bullet != hits[q].bullet
            &&& forall|p: int, q: int|
                #![trigger hits[p], hits[q]]
                0 <= p < q < hits.len() && hits[p].killed ==> hits[q].enemy != hits[p].enemy
        }),
{
    let (es2, bs2, h) = hit_spec(es1, bs1, i, j);
    let hits = hits1.push(h);
    assert forall|p: int| #![trigger hits[p]] 0 <= p < hits.len() implies 0 <= hits[p].bullet < bs.len()
        && 0 <= hits[p].enemy < es.len() && !bs[hits[p].bullet].consumed && bs2[hits[p].bullet].consumed
        && (hits[p].killed ==> es2[hits[p].enemy].dead) by {
        if p < hits1.len() {
            assert(hits[p] == hits1[p]);
            let q = hits1[p];
            if q.killed {
                assert(es1[q.enemy].dead);
            }
        } else {
            assert(hits[p] == h);
        }
    }
    assert forall|p: int, q: int| #![trigger hits[p], hits[q]] 0 <= p < q < hits.len() implies hits[p].bullet
        != hits[q].bullet by {
        assert(hits[p] == hits1[p]);
        if q < hits1.len() {
            assert(hits[q] == hits1[q]);
        } else {
            assert(hits[q] == h);
            assert(bs1[hits1[p].bullet].consumed);
        }
    }
    assert forall|p: int, q: int| #![trigger hits[p], hits[q]] 0 <= p < q < hits.len() && hits[p].killed implies hits[q].enemy
        != hits[p].enemy by {
        assert(hits[p] == hits1[p]);
        if q < hits1.len() {
            assert(hits[q] == hits1[q]);
        } else {
            assert(hits[q] == h);
            assert(es1[hits1[p].enemy].dead);
        }
    }
}

/// The damage law of a tick: starting from well-formed enemies with no bullet spent yet,
/// every enemy ends with health no more than its maximum, its health falls by exactly the
/// summed damage of the bullets matched to it, every bullet is matched to at most one
/// enemy, and no enemy is hit again after the hit that killed it (so it dies at most once).
pub proof fn law_collision_accounting(es: Seq<Enemy>, bs: Seq<Bullet>, cs: Seq<Collision>)
    requires
        all_wf(es),
        forall|j: int| 0 <= j < bs.len() ==> !(#[trigger] bs[j]).consumed,
    ensures
        accounting_holds(es, bs, resolve_spec(es, bs, cs).0, resolve_spec(es, bs, cs).1, resolve_spec(es, bs, cs).2),
    decreases cs.len(),
{
    if cs.len() > 0 {
        let prev = cs.drop_last();
        law_collision_accounting(es, bs, prev);
        let (es1, bs1, hits1) = resolve_spec(es, bs, prev);
        let c = cs.last();
        lemma_pair_valid(es1, bs1, c);
        match pair_of(es1, bs1, c) {
            Some((i, j)) => {
                lemma_step_enemies(es, es1, bs1, hits1, i, j);
                lemma_step_hits(es, bs, es1, bs1, hits1, i, j);
            },
            None => {},
        }
    }
}

/// A tick without collisions changes nothing: every enemy and bullet stays as it was and
/// no hit is recorded.
pub proof fn law_no_collisions_no_change(es: Seq<Enemy>, bs: Seq<Bullet>)
    ensures
        resolve_spec(es, bs, Seq::empty()) == (es, bs, Seq::<Hit>::empty()),
{
}

} // verus!
