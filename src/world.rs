use vstd::prelude::*;

use crate::ai::{ai_tick_outcome, AggressiveAi, AggressiveAiState};
use crate::combat::{
    all_wf, resolve_collisions, resolve_spec, Bullet, Collision, Enemy, SpawnedEntiyDeathEvent,
    TickEvents, ENEMY_HEALTH,
};
use crate::geometry::{Point, Steer};
use crate::spawner::{new_spawner_position, spawner_tick_spec, SpawnerSpawnTimer, MAX_SPAWNERS, SPAWN_LIMIT, SPAWN_PERIOD_MS};
use crate::turret::BulletFiredEvent;

verus! {

/// How far an enemy made by a spawner sees.
pub const ENEMY_VIEW_RANGE: u32 = 300;

/// A spawner placed in the world.
#[derive(Debug, Clone, Copy, PartialEq, Eq, Structural)]
pub struct SpawnerEntity {
    pub id: u64,
    pub position: Point,
    pub timer: SpawnerSpawnTimer,
}

/// The enemies still standing: those not marked dead, in order.
pub open spec fn kept_enemies(s: Seq<Enemy>) -> Seq<Enemy>
    decreases s.len(),
{
    if s.len() == 0 {
        s
    } else if s.last().dead {
        kept_enemies(s.drop_last())
    } else {
        kept_enemies(s.drop_last()).push(s.last())
    }
}

/// The bullets still in flight: those neither spent nor expired, in order.
pub open spec fn kept_bullets(s: Seq<Bullet>) -> Seq<Bullet>
    decreases s.len(),
{
    if s.len() == 0 {
        s
    } else if s.last().consumed || s.last().lifetime == 0 {
        kept_bullets(s.drop_last())
    } else {
        kept_bullets(s.drop_last()).push(s.last())
    }
}

/// How many notices name the spawner `id`.
pub open spec fn notices_for(ds: Seq<SpawnedEntiyDeathEvent>, id: u64) -> int
    decreases ds.len(),
{
    if ds.len() == 0 {
        0
    } else {
        notices_for(ds.drop_last(), id) + if ds.last().0 == id { 1int } else { 0int }
    }
}

/// A live count lowered by `n`, never below zero.
pub open spec fn lowered(alive: int, n: int) -> int {
    if alive > n { alive - n } else { 0 }
}

/// An enemy after one tick of invulnerability running out.
pub open spec fn iframes_ticked(e: Enemy) -> Enemy {
    Enemy { iframes: if e.iframes > 0 { (e.iframes - 1) as u32 } else { 0 }, ..e }
}

/// A bullet one tick older.
pub open spec fn aged(b: Bullet) -> Bullet {
    Bullet { lifetime: if b.lifetime > 0 { (b.lifetime - 1) as u32 } else { 0 }, ..b }
}

/// A spawner after the death notices of a tick.
pub open spec fn notified_spawner(sp: SpawnerEntity, ds: Seq<SpawnedEntiyDeathEvent>) -> SpawnerEntity {
    SpawnerEntity {
        timer: SpawnerSpawnTimer {
            alive_now: lowered(sp.timer.alive_now as int, notices_for(ds, sp.id)) as u32,
            ..sp.timer
        },
        ..sp
    }
}

/// Remove the enemies marked dead.
pub fn despawn_enemies(es: &Vec<Enemy>) -> (r: Vec<Enemy>)
    ensures
        r@ == kept_enemies(es@),
{
    let mut out: Vec<Enemy> = Vec::new();
    let mut k: usize = 0;
    while k < es.len()
        invariant
            k <= es@.len(),
            out@ == kept_enemies(es@.take(k as int)),
        decreases es@.len() - k,
    {
        assert(es@.take(k + 1).drop_last() =~= es@.take(k as int));
        if !es[k].dead {
            out.push(es[k]);
        }
        k = k + 1;
    }
    assert(es@.take(es@.len() as int) =~= es@);
    out
}

/// Remove the bullets that are spent or expired.
pub fn despawn_bullets(bs: &Vec<Bullet>) -> (r: Vec<Bullet>)
    ensures
        r@ == kept_bullets(bs@),
{
    let mut out: Vec<Bullet> = Vec::new();
    let mut k: usize = 0;
    while k < bs.len()
        invariant
            k <= bs@.len(),
            out@ == kept_bullets(bs@.take(k as int)),
        decreases bs@.len() - k,
    {
        assert(bs@.take(k + 1).drop_last() =~= bs@.take(k as int));
        if !bs[k].consumed && bs[k].lifetime != 0 {
            out.push(bs[k]);
        }
        k = k + 1;
    }
    assert(bs@.take(bs@.len() as int) =~= bs@);
    out
}

/// With no enemy marked dead, removal keeps every enemy.
pub proof fn lemma_kept_enemies_all(s: Seq<Enemy>)
    requires
        forall|i: int| 0 <= i < s.len() ==> !(#[trigger] s[i]).dead,
    ensures
        kept_enemies(s) == s,
    decreases s.len(),
{
    if s.len() > 0 {
        lemma_kept_enemies_all(s.drop_last());
        assert(s.drop_last().push(s.last()) =~= s);
    }
}

/// With no bullet spent or expired, removal keeps every bullet.
pub proof fn lemma_kept_bullets_all(s: Seq<Bullet>)
    requires
        forall|i: int| 0 <= i < s.len() ==> !(#[trigger] s[i]).consumed && s[i].lifetime > 0,
    ensures
        kept_bullets(s) == s,
    decreases s.len(),
{
    if s.len() > 0 {
        lemma_kept_bullets_all(s.drop_last());
        assert(s.drop_last().push(s.last()) =~= s);
    }
}

/// Every enemy loses one hundredth of a second of invulnerability, down to zero.
pub fn tick_iframes(es: &mut Vec<Enemy>)
    requires
        all_wf(old(es)@),
    ensures
        all_wf(final(es)@),
        final(es)@ == old(es)@.map_values(|e: Enemy| iframes_ticked(e)),
{
    let ghost es0 = es@;
    let mut k: usize = 0;
    while k < es.len()
        invariant
            k <= es@.len(),
            es@.len() == es0.len(),
            all_wf(es0),
            forall|i: int|
                #![trigger es@[i]]
                0 <= i < k ==> es@[i] == (Enemy {
                    iframes: if es0[i].iframes > 0 { (es0[i].iframes - 1) as u32 } else { 0 },
                    ..es0[i]
                }),
            forall|i: int| #![trigger es@[i]] k <= i < es@.len() ==> es@[i] == es0[i],
        decreases es@.len() - k,
    {
        let mut e = es[k];
        e.iframes = e.iframes.saturating_sub(1);
        es.set(k, e);
        k = k + 1;
    }
    assert forall|i: int| 0 <= i < es@.len() implies (#[trigger] es@[i]).wf() by {
        assert(es0[i].wf());
    }
    assert(es@ =~= es0.map_values(|e: Enemy| iframes_ticked(e)));
}

/// Every bullet has one tick less to live, down to zero.
pub fn tick_lifetimes(bs: &mut Vec<Bullet>)
    ensures
        final(bs)@ == old(bs)@.map_values(|b: Bullet| aged(b)),
{
    let ghost bs0 = bs@;
    let mut k: usize = 0;
    while k < bs.len()
        invariant
            k <= bs@.len(),
            bs@.len() == bs0.len(),
            forall|i: int|
                #![trigger bs@[i]]
                0 <= i < k ==> bs@[i] == (Bullet {
                    lifetime: if bs0[i].lifetime > 0 { (bs0[i].lifetime - 1) as u32 } else { 0 },
                    ..bs0[i]
                }),
            forall|i: int| #![trigger bs@[i]] k <= i < bs@.len() ==> bs@[i] == bs0[i],
        decreases bs@.len() - k,
    {
        let mut b = bs[k];
        b.lifetime = b.lifetime.saturating_sub(1);
        bs.set(k, b);
        k = k + 1;
    }
    assert(bs@ =~= bs0.map_values(|b: Bullet| aged(b)));
}

/// Hand each death notice to the spawner it names: that spawner counts one live enemy
/// fewer, never below zero. Notices that name no spawner are dropped.
pub fn notify_spawners(spawners: &mut Vec<SpawnerEntity>, deaths: &Vec<SpawnedEntiyDeathEvent>)
    requires
        forall|s: int| 0 <= s < old(spawners)@.len() ==> (#[trigger] old(spawners)@[s]).timer.wf(),
    ensures
        final(spawners)@ == old(spawners)@.map_values(|sp: SpawnerEntity| notified_spawner(sp, deaths@)),
        forall|s: int| 0 <= s < final(spawners)@.len() ==> (#[trigger] final(spawners)@[s]).timer.wf(),
{
    let ghost sp0 = spawners@;
    let mut k: usize = 0;
    assert(deaths@.take(0) =~= Seq::<SpawnedEntiyDeathEvent>::empty());
    while k < deaths.len()
        invariant
            k <= deaths@.len(),
            spawners@.len() == sp0.len(),
            forall|s: int|
                #![trigger spawners@[s]]
                0 <= s < sp0.len() ==> {
                    let o = sp0[s];
                    let n = spawners@[s];
                    &&& n.timer.wf()
                    &&& n.id == o.id && n.position == o.position
                    &&& n.timer.timer == o.timer.timer && n.timer.spawn_limit == o.timer.spawn_limit
                    &&& n.timer.alive_now == lowered(o.timer.alive_now as int, notices_for(deaths@.take(k as int), o.id))
                },
        decreases deaths@.len() - k,
    {
        let target = deaths[k].0;
        assert(deaths@.take(k + 1).drop_last() =~= deaths@.take(k as int));
        let ghost mid = spawners@;
        let mut m: usize = 0;
        while m < spawners.len()
            invariant
                m <= spawners@.len(),
                spawners@.len() == sp0.len(),
                mid.len() == sp0.len(),
                target == deaths@[k as int].0,
                k < deaths@.len(),
                deaths@.take(k + 1).drop_last() == deaths@.take(k as int),
                forall|s: int|
                    #![trigger spawners@[s]]
                    0 <= s < sp0.len() ==> {
                        let o = sp0[s];
                        let n = spawners@[s];
                        &&& n.timer.wf()
                        &&& n.id == o.id && n.position == o.position
                        &&& n.timer.timer == o.timer.timer && n.timer.spawn_limit == o.timer.spawn_limit
                        &&& n.timer.alive_now == if s < m {
                            lowered(o.timer.alive_now as int, notices_for(deaths@.take(k + 1), o.id))
                        } else {
                            lowered(o.timer.alive_now as int, notices_for(deaths@.take(k as int), o.id))
                        }
                    },
            decreases spawners@.len() - m,
        {
            let mut sp = spawners[m];
            proof {
                let o = sp0[m as int];
                let t1 = deaths@.take(k + 1);
                assert(t1.last() == deaths@[k as int]);
                assert(notices_for(t1, o.id) == notices_for(deaths@.take(k as int), o.id) + if target == o.id { 1int } else { 0int });
            }
            if sp.id == target {
                sp.timer.on_death();
            }
            let ghost before = spawners@;
            spawners.set(m, sp);
            proof {
                assert forall|s: int| #![trigger spawners@[s]] 0 <= s < sp0.len() && s != m implies spawners@[s] == before[s] by {}
            }
            m = m + 1;
        }
        k = k + 1;
    }
    assert(deaths@.take(deaths@.len() as int) =~= deaths@);
    assert(spawners@ =~= sp0.map_values(|sp: SpawnerEntity| notified_spawner(sp, deaths@)));
}

/// The enemy that spawner `sp` makes, with identity `id`: at the spawner's place, tagged
/// with it, at full health, not invulnerable, and about to pick a stroll.
pub open spec fn spawned_enemy(sp: SpawnerEntity, id: int) -> Enemy {
    Enemy {
        id: id as u64,
        position: sp.position,
        health: ENEMY_HEALTH,
        max_health: ENEMY_HEALTH,
        iframes: 0,
        spawner: sp.id,
        ai: AggressiveAi { view_range: ENEMY_VIEW_RANGE, state: AggressiveAiState::ImmediateWander },
        dead: false,
    }
}

/// A spawner after one tick of its bookkeeping.
pub open spec fn ticked_spawner(sp: SpawnerEntity, dt: int) -> SpawnerEntity {
    SpawnerEntity { timer: spawner_tick_spec(sp.timer, dt).0, ..sp }
}

/// The enemies that one tick of the spawners makes: one for each spawner whose tick says
/// so, in spawner order, with identities counted up from `id0`.
pub open spec fn spawned_from(sps: Seq<SpawnerEntity>, dt: int, id0: int) -> Seq<Enemy>
    decreases sps.len(),
{
    if sps.len() == 0 {
        Seq::empty()
    } else {
        let prev = spawned_from(sps.drop_last(), dt, id0);
        if spawner_tick_spec(sps.last().timer, dt).1 {
            prev.push(spawned_enemy(sps.last(), id0 + prev.len()))
        } else {
            prev
        }
    }
}

/// Tick every spawner's bookkeeping by `dt_ms`, and make an enemy for each spawner whose
/// tick says so, appended to `enemies` in spawner order with identities from `next_id` up.
pub fn spawn_from_spawners(
    spawners: &mut Vec<SpawnerEntity>,
    enemies: &mut Vec<Enemy>,
    next_id: &mut u64,
    dt_ms: u64,
)
    requires
        forall|s: int| 0 <= s < old(spawners)@.len() ==> (#[trigger] old(spawners)@[s]).timer.wf(),
        all_wf(old(enemies)@),
        *old(next_id) + old(spawners)@.len() <= u64::MAX,
    ensures
        final(spawners)@ == old(spawners)@.map_values(|sp: SpawnerEntity| ticked_spawner(sp, dt_ms as int)),
        forall|s: int| 0 <= s < final(spawners)@.len() ==> (#[trigger] final(spawners)@[s]).timer.wf(),
        final(enemies)@ == old(enemies)@ + spawned_from(old(spawners)@, dt_ms as int, *old(next_id) as int),
        *final(next_id) == *old(next_id) + spawned_from(old(spawners)@, dt_ms as int, *old(next_id) as int).len(),
        all_wf(final(enemies)@),
{
    let ghost sp0 = spawners@;
    let ghost es0 = enemies@;
    let ghost id0 = *next_id as int;
    let mut k: usize = 0;
    assert(sp0.take(0) =~= Seq::<SpawnerEntity>::empty());
    assert(es0 + Seq::<Enemy>::empty() =~= es0);
    while k < spawners.len()
        invariant
            k <= spawners@.len(),
            spawners@.len() == sp0.len(),
            forall|s: int| 0 <= s < sp0.len() ==> (#[trigger] sp0[s]).timer.wf(),
            all_wf(enemies@),
            enemies@ == es0 + spawned_from(sp0.take(k as int), dt_ms as int, id0),
            *next_id == id0 + spawned_from(sp0.take(k as int), dt_ms as int, id0).len(),
            spawned_from(sp0.take(k as int), dt_ms as int, id0).len() <= k,
            id0 + sp0.len() <= u64::MAX,
            forall|s: int|
                #![trigger spawners@[s]]
                0 <= s < k ==> spawners@[s] == ticked_spawner(sp0[s], dt_ms as int) && spawners@[s].timer.wf(),
            forall|s: int| #![trigger spawners@[s]] k <= s < sp0.len() ==> spawners@[s] == sp0[s],
        decreases spawners@.len() - k,
    {
        let mut sp = spawners[k];
        let spawn = sp.timer.tick(dt_ms);
        spawners.set(k, sp);
        let ghost prev = spawned_from(sp0.take(k as int), dt_ms as int, id0);
        proof {
            assert(sp0.take(k + 1).drop_last() =~= sp0.take(k as int));
            assert(sp0.take(k + 1).last() == sp0[k as int]);
        }
        if spawn {
            let e = Enemy {
                id: *next_id,
                position: sp.position,
                health: ENEMY_HEALTH,
                max_health: ENEMY_HEALTH,
                iframes: 0,
                spawner: sp.id,
                ai: AggressiveAi::with_view_range(ENEMY_VIEW_RANGE),
                dead: false,
            };
            let ghost before = enemies@;
            enemies.push(e);
            *next_id = *next_id + 1;
            proof {
                assert(e == spawned_enemy(sp0[k as int], id0 + prev.len()));
                assert(enemies@ =~= es0 + prev.push(e));
                assert forall|i: int| 0 <= i < enemies@.len() implies (#[trigger] enemies@[i]).wf() by {
                    if i < before.len() {
                        assert(enemies@[i] == before[i]);
                    }
                }
            }
        }
        k = k + 1;
    }
    proof {
        assert(sp0.take(sp0.len() as int) =~= sp0);
        assert(spawners@ =~= sp0.map_values(|sp: SpawnerEntity| ticked_spawner(sp, dt_ms as int)));
    }
}

/// Everything removal keeps is not marked dead, and is well-formed when all were.
pub proof fn lemma_kept_enemies_sound(s: Seq<Enemy>)
    ensures
        forall|i: int| 0 <= i < kept_enemies(s).len() ==> !(#[trigger] kept_enemies(s)[i]).dead,
        all_wf(s) ==> all_wf(kept_enemies(s)),
    decreases s.len(),
{
    if s.len() > 0 {
        lemma_kept_enemies_sound(s.drop_last());
        if all_wf(s) {
            assert forall|i: int| 0 <= i < s.drop_last().len() implies (#[trigger] s.drop_last()[i]).wf() by {
                assert(s.drop_last()[i] == s[i]);
            }
            assert(s.last() == s[s.len() - 1]);
        }
    }
}

/// Every bullet that removal keeps is unspent and has ticks left.
pub proof fn lemma_kept_bullets_sound(s: Seq<Bullet>)
    ensures
        forall|i: int|
            0 <= i < kept_bullets(s).len() ==> !(#[trigger] kept_bullets(s)[i]).consumed && kept_bullets(s)[i].lifetime > 0,
    decreases s.len(),
{
    if s.len() > 0 {
        lemma_kept_bullets_sound(s.drop_last());
        let k = kept_bullets(s.drop_last());
        if !(s.last().consumed || s.last().lifetime == 0) {
            assert forall|i: int| 0 <= i < k.push(s.last()).len() implies !(#[trigger] k.push(s.last())[i]).consumed
                && k.push(s.last())[i].lifetime > 0 by {
                if i < k.len() {
                    assert(k.push(s.last())[i] == k[i]);
                }
            }
        }
    }
}

/// How many enemies tagged with spawner `id` are alive.
pub open spec fn live_tagged(es: Seq<Enemy>, id: u64) -> int
    decreases es.len(),
{
    if es.len() == 0 {
        0
    } else {
        live_tagged(es.drop_last(), id) + if !es.last().dead && es.last().spawner == id { 1int } else { 0int }
    }
}

/// How many of the spawners with identity `id` make an enemy this tick.
pub open spec fn spawns_with(sps: Seq<SpawnerEntity>, dt: int, id: u64) -> int
    decreases sps.len(),
{
    if sps.len() == 0 {
        0
    } else {
        spawns_with(sps.drop_last(), dt, id) + if sps.last().id == id && spawner_tick_spec(sps.last().timer, dt).1 {
            1int
        } else {
            0int
        }
    }
}

/// Each spawner's live count is the number of live enemies tagged with it; spawner
/// identities are distinct; and every identity in use lies below `next_id`.
pub open spec fn population_consistent(es: Seq<Enemy>, sp: Seq<SpawnerEntity>, next_id: u64) -> bool {
    &&& forall|s: int|
        0 <= s < sp.len() ==> (#[trigger] sp[s]).timer.alive_now == live_tagged(es, sp[s].id) && sp[s].id < next_id
    &&& forall|s: int, t: int| 0 <= s < t < sp.len() ==> (#[trigger] sp[s]).id != (#[trigger] sp[t]).id
    &&& forall|i: int| 0 <= i < es.len() ==> (#[trigger] es[i]).spawner < next_id
}

proof fn lemma_live_tagged_same(a: Seq<Enemy>, b: Seq<Enemy>, id: u64)
    requires
        a.len() == b.len(),
        forall|i: int| 0 <= i < a.len() ==> (#[trigger] a[i]).spawner == b[i].spawner && a[i].dead == b[i].dead,
    ensures
        live_tagged(a, id) == live_tagged(b, id),
    decreases a.len(),
{
    if a.len() > 0 {
        lemma_live_tagged_same(a.drop_last(), b.drop_last(), id);
        assert(a.last() == a[a.len() - 1] && b.last() == b[b.len() - 1]);
    }
}

proof fn lemma_live_tagged_update(es: Seq<Enemy>, i: int, e: Enemy, id: u64)
    requires
        0 <= i < es.len(),
    ensures
        live_tagged(es.update(i, e), id) == live_tagged(es, id) - (if !es[i].dead && es[i].spawner == id { 1int } else { 0int })
            + (if !e.dead && e.spawner == id { 1int } else { 0int }),
    decreases es.len(),
{
    let u = es.update(i, e);
    if i < es.len() - 1 {
        assert(u.drop_last() =~= es.drop_last().update(i, e));
        lemma_live_tagged_update(es.drop_last(), i, e, id);
        assert(u.last() == es.last());
    } else {
        assert(u.drop_last() =~= es.drop_last());
        assert(u.last() == e);
    }
}

proof fn lemma_live_tagged_kept(s: Seq<Enemy>, id: u64)
    ensures
        live_tagged(kept_enemies(s), id) == live_tagged(s, id),
    decreases s.len(),
{
    if s.len() > 0 {
        lemma_live_tagged_kept(s.drop_last(), id);
        let k = kept_enemies(s.drop_last());
        if !s.last().dead {
            assert(k.push(s.last()).drop_last() =~= k);
        }
    }
}

proof fn lemma_live_tagged_concat(a: Seq<Enemy>, b: Seq<Enemy>, id: u64)
    ensures
        live_tagged(a + b, id) == live_tagged(a, id) + live_tagged(b, id),
    decreases b.len(),
{
    if b.len() > 0 {
        lemma_live_tagged_concat(a, b.drop_last(), id);
        assert((a + b).drop_last() =~= a + b.drop_last());
        assert((a + b).last() == b.last());
    } else {
        assert(a + b =~= a);
    }
}

/// The hits after one more collision.
pub open spec fn hits_after(hits: Seq<crate::combat::Hit>, h: Option<crate::combat::Hit>) -> Seq<crate::combat::Hit> {
    match h {
        Some(h) => hits.push(h),
        None => hits,
    }
}

proof fn lemma_notices_after(hits: Seq<crate::combat::Hit>, h: crate::combat::Hit, id: u64)
    ensures
        notices_for(crate::combat::kill_notices(hits.push(h)), id) == notices_for(crate::combat::kill_notices(hits), id)
            + if h.killed && h.spawner == id { 1int } else { 0int },
{
    assert(hits.push(h).drop_last() =~= hits);
    let n1 = crate::combat::kill_notices(hits);
    if h.killed {
        let n = n1.push(SpawnedEntiyDeathEvent(h.spawner));
        assert(n.drop_last() =~= n1);
    }
}

proof fn lemma_hit_kills(es1: Seq<Enemy>, bs1: Seq<Bullet>, hits1: Seq<crate::combat::Hit>, i: int, j: int, id: u64)
    requires
        0 <= i < es1.len(),
        0 <= j < bs1.len(),
        !es1[i].dead,
    ensures
        ({
            let r = crate::combat::hit_spec(es1, bs1, i, j);
            &&& live_tagged(r.0, id) + notices_for(crate::combat::kill_notices(hits1.push(r.2)), id)
                == live_tagged(es1, id) + notices_for(crate::combat::kill_notices(hits1), id)
            &&& r.0.len() == es1.len()
            &&& forall|k: int| 0 <= k < es1.len() ==> (#[trigger] r.0[k]).spawner == es1[k].spawner
        }),
{
    let r = crate::combat::hit_spec(es1, bs1, i, j);
    let e2 = r.0[i];
    assert(e2.spawner == es1[i].spawner && e2.dead == r.2.killed && r.2.spawner == es1[i].spawner);
    assert(r.0 =~= es1.update(i, e2));
    lemma_live_tagged_update(es1, i, e2, id);
    lemma_notices_after(hits1, r.2, id);
}

proof fn lemma_collide_kills(es1: Seq<Enemy>, bs1: Seq<Bullet>, hits1: Seq<crate::combat::Hit>, c: Collision, id: u64)
    ensures
        ({
            let r = crate::combat::collide_spec(es1, bs1, c);
            let hits2 = hits_after(hits1, r.2);
            &&& live_tagged(r.0, id) + notices_for(crate::combat::kill_notices(hits2), id)
                == live_tagged(es1, id) + notices_for(crate::combat::kill_notices(hits1), id)
            &&& r.0.len() == es1.len()
            &&& forall|k: int| 0 <= k < es1.len() ==> (#[trigger] r.0[k]).spawner == es1[k].spawner
        }),
{
    crate::combat::lemma_pair_valid(es1, bs1, c);
    match crate::combat::pair_of(es1, bs1, c) {
        Some((i, j)) => {
            lemma_hit_kills(es1, bs1, hits1, i, j, id);
        },
        None => {},
    }
}

proof fn lemma_resolve_kills(es: Seq<Enemy>, bs: Seq<Bullet>, cs: Seq<Collision>, id: u64)
    ensures
        live_tagged(resolve_spec(es, bs, cs).0, id) + notices_for(crate::combat::kill_notices(resolve_spec(es, bs, cs).2), id)
            == live_tagged(es, id),
        resolve_spec(es, bs, cs).0.len() == es.len(),
        forall|i: int|
            0 <= i < es.len() ==> (#[trigger] resolve_spec(es, bs, cs).0[i]).spawner == es[i].spawner,
    decreases cs.len(),
{
    if cs.len() > 0 {
        let prev = cs.drop_last();
        lemma_resolve_kills(es, bs, prev, id);
        let r1 = resolve_spec(es, bs, prev);
        lemma_collide_kills(r1.0, r1.1, r1.2, cs.last(), id);
        let r2 = crate::combat::collide_spec(r1.0, r1.1, cs.last());
        assert(resolve_spec(es, bs, cs).0 == r2.0);
        assert(resolve_spec(es, bs, cs).2 == hits_after(r1.2, r2.2));
        assert forall|i: int| 0 <= i < es.len() implies (#[trigger] resolve_spec(es, bs, cs).0[i]).spawner == es[i].spawner by {
            assert(r1.0[i].spawner == es[i].spawner);
        }
    } else {
        assert(notices_for(Seq::<SpawnedEntiyDeathEvent>::empty(), id) == 0);
    }
}

proof fn lemma_spawned_tags(sps: Seq<SpawnerEntity>, dt: int, id0: int, id: u64)
    ensures
        live_tagged(spawned_from(sps, dt, id0), id) == spawns_with(sps, dt, id),
        forall|i: int|
            0 <= i < spawned_from(sps, dt, id0).len() ==> exists|s: int|
                0 <= s < sps.len() && (#[trigger] spawned_from(sps, dt, id0)[i]).spawner == (#[trigger] sps[s]).id,
    decreases sps.len(),
{
    if sps.len() > 0 {
        let d = sps.drop_last();
        lemma_spawned_tags(d, dt, id0, id);
        let prev = spawned_from(d, dt, id0);
        let full = spawned_from(sps, dt, id0);
        if spawner_tick_spec(sps.last().timer, dt).1 {
            assert(full.drop_last() =~= prev);
        }
        assert forall|i: int| 0 <= i < full.len() implies exists|s: int|
            0 <= s < sps.len() && (#[trigger] full[i]).spawner == (#[trigger] sps[s]).id by {
            if i < prev.len() {
                assert(full[i] == prev[i]);
                let s = choose|s: int| 0 <= s < d.len() && (#[trigger] prev[i]).spawner == (#[trigger] d[s]).id;
                assert(sps[s] == d[s]);
            } else {
                assert(full[i].spawner == sps[sps.len() - 1].id);
            }
        }
    }
}

proof fn lemma_spawns_with_distinct(sps: Seq<SpawnerEntity>, dt: int, s: int)
    requires
        0 <= s < sps.len(),
        forall|a: int, b: int| 0 <= a < b < sps.len() ==> (#[trigger] sps[a]).id != (#[trigger] sps[b]).id,
    ensures
        spawns_with(sps, dt, sps[s].id) == if spawner_tick_spec(sps[s].timer, dt).1 { 1int } else { 0int },
    decreases sps.len(),
{
    let d = sps.drop_last();
    if s < sps.len() - 1 {
        assert(d[s] == sps[s]);
        lemma_spawns_with_distinct(d, dt, s);
        assert(sps.last() == sps[sps.len() - 1]);
    } else {
        lemma_spawns_with_none(d, dt, sps[s].id);
    }
}

proof fn lemma_spawns_with_none(sps: Seq<SpawnerEntity>, dt: int, id: u64)
    requires
        forall|a: int| 0 <= a < sps.len() ==> (#[trigger] sps[a]).id != id,
    ensures
        spawns_with(sps, dt, id) == 0,
    decreases sps.len(),
{
    if sps.len() > 0 {
        lemma_spawns_with_none(sps.drop_last(), dt, id);
        assert(sps.last() == sps[sps.len() - 1]);
    }
}

proof fn lemma_notices_nonneg(ds: Seq<SpawnedEntiyDeathEvent>, id: u64)
    ensures
        notices_for(ds, id) >= 0,
    decreases ds.len(),
{
    if ds.len() > 0 {
        lemma_notices_nonneg(ds.drop_last(), id);
    }
}

proof fn lemma_live_tagged_nonneg(es: Seq<Enemy>, id: u64)
    ensures
        live_tagged(es, id) >= 0,
    decreases es.len(),
{
    if es.len() > 0 {
        lemma_live_tagged_nonneg(es.drop_last(), id);
    }
}

proof fn lemma_kept_tags(s: Seq<Enemy>, bound: int)
    requires
        forall|i: int| 0 <= i < s.len() ==> (#[trigger] s[i]).spawner < bound,
    ensures
        forall|i: int| 0 <= i < kept_enemies(s).len() ==> (#[trigger] kept_enemies(s)[i]).spawner < bound,
    decreases s.len(),
{
    if s.len() > 0 {
        let d = s.drop_last();
        assert forall|i: int| 0 <= i < d.len() implies (#[trigger] d[i]).spawner < bound by {
            assert(d[i] == s[i]);
        }
        lemma_kept_tags(d, bound);
        let k = kept_enemies(d);
        if !s.last().dead {
            assert forall|i: int| 0 <= i < k.push(s.last()).len() implies (#[trigger] k.push(s.last())[i]).spawner < bound by {
                if i < k.len() {
                    assert(k.push(s.last())[i] == k[i]);
                } else {
                    assert(s.last() == s[s.len() - 1]);
                }
            }
        }
    }
}

/// One tick keeps every spawner's live count equal to the number of its live enemies.
pub proof fn law_tick_keeps_population(
    es0: Seq<Enemy>,
    bs0: Seq<Bullet>,
    sp0: Seq<SpawnerEntity>,
    id0: u64,
    cs: Seq<Collision>,
    dt: int,
)
    requires
        population_consistent(es0, sp0, id0),
        forall|s: int| 0 <= s < sp0.len() ==> (#[trigger] sp0[s]).timer.wf(),
        id0 + sp0.len() <= u64::MAX,
    ensures
        ({
            let res = resolve_spec(es0, bs0, cs);
            let sp1 = sp0.map_values(|sp: SpawnerEntity| notified_spawner(sp, crate::combat::kill_notices(res.2)));
            let born = spawned_from(sp1, dt, id0 as int);
            population_consistent(
                (kept_enemies(res.0) + born).map_values(|e: Enemy| iframes_ticked(e)),
                sp1.map_values(|sp: SpawnerEntity| ticked_spawner(sp, dt)),
                (id0 + born.len()) as u64,
            )
        }),
{
    let res = resolve_spec(es0, bs0, cs);
    let notices = crate::combat::kill_notices(res.2);
    let sp1 = sp0.map_values(|sp: SpawnerEntity| notified_spawner(sp, notices));
    let es1 = kept_enemies(res.0);
    let born = spawned_from(sp1, dt, id0 as int);
    let mid = es1 + born;
    let es2 = mid.map_values(|e: Enemy| iframes_ticked(e));
    let sp2 = sp1.map_values(|sp: SpawnerEntity| ticked_spawner(sp, dt));
    let next = (id0 + born.len()) as u64;
    lemma_spawned_live(sp1, dt, id0 as int);
    assert forall|a: int, b: int| 0 <= a < b < sp1.len() implies (#[trigger] sp1[a]).id != (#[trigger] sp1[b]).id by {
        assert(sp0[a].id != sp0[b].id);
    }
    assert forall|s: int| 0 <= s < sp2.len() implies (#[trigger] sp2[s]).timer.alive_now == live_tagged(es2, sp2[s].id)
        && sp2[s].id < next by {
        let id = sp0[s].id;
        lemma_resolve_kills(es0, bs0, cs, id);
        lemma_live_tagged_nonneg(res.0, id);
        lemma_live_tagged_kept(res.0, id);
        assert(sp0[s].timer.alive_now == live_tagged(es0, id));
        let n = notices_for(notices, id);
        let lt = live_tagged(res.0, id);
        lemma_notices_nonneg(notices, id);
        assert(lt + n == sp0[s].timer.alive_now);
        assert(lowered(sp0[s].timer.alive_now as int, n) == lt);
        assert(sp1[s] == notified_spawner(sp0[s], notices));
        assert(sp1[s].timer.alive_now == live_tagged(es1, id));
        lemma_live_tagged_concat(es1, born, id);
        lemma_spawned_tags(sp1, dt, id0 as int, id);
        lemma_spawns_with_distinct(sp1, dt, s);
        assert forall|i: int| 0 <= i < es2.len() implies (#[trigger] es2[i]).spawner == mid[i].spawner && es2[i].dead == mid[i].dead by {}
        lemma_live_tagged_same(es2, mid, id);
    }
    lemma_spawned_tags(sp1, dt, id0 as int, 0);
    assert forall|i: int| 0 <= i < res.0.len() implies (#[trigger] res.0[i]).spawner < id0 by {
        lemma_resolve_kills(es0, bs0, cs, 0);
        assert(res.0[i].spawner == es0[i].spawner);
    }
    lemma_kept_tags(res.0, id0 as int);
    assert forall|i: int| 0 <= i < es2.len() implies (#[trigger] es2[i]).spawner < next by {
        assert(es2[i].spawner == mid[i].spawner);
        if i < es1.len() {
            assert(mid[i] == es1[i]);
        } else {
            assert(mid[i] == born[i - es1.len()]);
            let s = choose|s: int| 0 <= s < sp1.len() && (#[trigger] born[i - es1.len()]).spawner == (#[trigger] sp1[s]).id;
            assert(sp1[s].id == sp0[s].id);
        }
    }
    assert forall|a: int, b: int| 0 <= a < b < sp2.len() implies (#[trigger] sp2[a]).id != (#[trigger] sp2[b]).id by {
        assert(sp0[a].id != sp0[b].id);
    }
}

/// The live part of the simulation: enemies, bullets in flight, spawners, and the next
/// free identity.
#[derive(Debug)]
pub struct World {
    pub enemies: Vec<Enemy>,
    pub bullets: Vec<Bullet>,
    pub spawners: Vec<SpawnerEntity>,
    pub next_id: u64,
}

/// Between ticks: enemies well-formed and none dead, bullets unspent with ticks left,
/// spawner timers well-formed.
pub open spec fn world_wf(es: Seq<Enemy>, bs: Seq<Bullet>, sp: Seq<SpawnerEntity>) -> bool {
    &&& all_wf(es)
    &&& forall|i: int| 0 <= i < es.len() ==> !(#[trigger] es[i]).dead
    &&& forall|i: int| 0 <= i < bs.len() ==> !(#[trigger] bs[i]).consumed && bs[i].lifetime > 0
    &&& forall|s: int| 0 <= s < sp.len() ==> (#[trigger] sp[s]).timer.wf()
}

/// A tick without collisions leaves enemies and bullets exactly as they were: no health
/// changes and nothing is removed.
pub proof fn law_quiet_tick_is_identity(es: Seq<Enemy>, bs: Seq<Bullet>, sp: Seq<SpawnerEntity>)
    requires
        world_wf(es, bs, sp),
    ensures
        kept_enemies(resolve_spec(es, bs, Seq::empty()).0) == es,
        kept_bullets(resolve_spec(es, bs, Seq::empty()).1) == bs,
{
    lemma_kept_enemies_all(es);
    lemma_kept_bullets_all(bs);
}

proof fn lemma_live_tagged_none(es: Seq<Enemy>, id: u64)
    requires
        forall|i: int| 0 <= i < es.len() ==> (#[trigger] es[i]).spawner < id,
    ensures
        live_tagged(es, id) == 0,
    decreases es.len(),
{
    if es.len() > 0 {
        lemma_live_tagged_none(es.drop_last(), id);
        assert(es.last() == es[es.len() - 1]);
    }
}

proof fn lemma_population_same_tags(a: Seq<Enemy>, b: Seq<Enemy>, sp: Seq<SpawnerEntity>, next_id: u64)
    requires
        population_consistent(a, sp, next_id),
        a.len() == b.len(),
        forall|i: int| 0 <= i < a.len() ==> (#[trigger] a[i]).spawner == b[i].spawner && a[i].dead == b[i].dead,
    ensures
        population_consistent(b, sp, next_id),
{
    assert forall|s: int| 0 <= s < sp.len() implies (#[trigger] sp[s]).timer.alive_now == live_tagged(b, sp[s].id) by {
        lemma_live_tagged_same(a, b, sp[s].id);
    }
    assert forall|i: int| 0 <= i < b.len() implies (#[trigger] b[i]).spawner < next_id by {
        assert(a[i].spawner == b[i].spawner);
    }
}

impl World {
    pub open spec fn wf(&self) -> bool {
        world_wf(self.enemies@, self.bullets@, self.spawners@)
    }

    /// Each spawner's live count equals the number of its live enemies.
    pub open spec fn population_consistent(&self) -> bool {
        population_consistent(self.enemies@, self.spawners@, self.next_id)
    }

    pub fn new() -> (r: World)
        ensures
            r.wf(),
            r.population_consistent(),
            r.enemies@.len() == 0,
            r.bullets@.len() == 0,
            r.spawners@.len() == 0,
            r.next_id == 0,
    {
        World { enemies: Vec::new(), bullets: Vec::new(), spawners: Vec::new(), next_id: 0 }
    }

    /// Resolve a tick's collisions, then remove the enemies killed and the bullets spent.
    /// The spawners learn of the deaths only when the returned notices reach
    /// `notify_spawners`, as `tick` does.
    pub fn apply_collisions(&mut self, cs: &Vec<Collision>) -> (r: TickEvents)
        requires
            old(self).wf(),
        ensures
            final(self).wf(),
            final(self).enemies@ == kept_enemies(resolve_spec(old(self).enemies@, old(self).bullets@, cs@).0),
            final(self).bullets@ == kept_bullets(resolve_spec(old(self).enemies@, old(self).bullets@, cs@).1),
            final(self).spawners@ == old(self).spawners@,
            final(self).next_id == old(self).next_id,
            r.sounds@ == resolve_spec(old(self).enemies@, old(self).bullets@, cs@).2.map_values(
                |h: crate::combat::Hit| crate::combat::sound_of(h),
            ),
            r.xp_drops@ == crate::combat::kill_drops(resolve_spec(old(self).enemies@, old(self).bullets@, cs@).2),
            r.deaths@ == crate::combat::kill_notices(resolve_spec(old(self).enemies@, old(self).bullets@, cs@).2),
    {
        let events = resolve_collisions(&mut self.enemies, &mut self.bullets, cs);
        let es = despawn_enemies(&self.enemies);
        let bs = despawn_bullets(&self.bullets);
        proof {
            lemma_kept_enemies_sound(self.enemies@);
            lemma_kept_bullets_sound(self.bullets@);
        }
        self.enemies = es;
        self.bullets = bs;
        events
    }

    /// Put every enemy into kill mode.
    pub fn kill_mode(&mut self)
        requires
            old(self).wf(),
        ensures
            old(self).population_consistent() ==> final(self).population_consistent(),
            final(self).wf(),
            final(self).enemies@.len() == old(self).enemies@.len(),
            forall|i: int|
                #![trigger final(self).enemies@[i]]
                0 <= i < old(self).enemies@.len() ==> final(self).enemies@[i] == (Enemy {
                    ai: AggressiveAi { state: AggressiveAiState::KillMode, ..old(self).enemies@[i].ai },
                    ..old(self).enemies@[i]
                }),
            final(self).bullets@ == old(self).bullets@,
            final(self).spawners@ == old(self).spawners@,
            final(self).next_id == old(self).next_id,
    {
        let ghost es0 = self.enemies@;
        let ghost bs0 = self.bullets@;
        let ghost sp0 = self.spawners@;
        let ghost id0 = self.next_id;
        let mut k: usize = 0;
        while k < self.enemies.len()
            invariant
                k <= self.enemies@.len(),
                self.enemies@.len() == es0.len(),
                self.bullets@ == bs0,
                self.spawners@ == sp0,
                self.next_id == id0,
                world_wf(es0, bs0, sp0),
                forall|i: int|
                    #![trigger self.enemies@[i]]
                    0 <= i < k ==> self.enemies@[i] == (Enemy {
                        ai: AggressiveAi { state: AggressiveAiState::KillMode, ..es0[i].ai },
                        ..es0[i]
                    }),
                forall|i: int| #![trigger self.enemies@[i]] k <= i < self.enemies@.len() ==> self.enemies@[i] == es0[i],
            decreases self.enemies@.len() - k,
        {
            let mut e = self.enemies[k];
            e.ai.enter_kill_mode();
            self.enemies.set(k, e);
            k = k + 1;
        }
        proof {
            assert forall|i: int| 0 <= i < self.enemies@.len() implies (#[trigger] self.enemies@[i]).wf() by {
                assert(es0[i].wf());
            }
            assert forall|i: int| 0 <= i < self.enemies@.len() implies !(#[trigger] self.enemies@[i]).dead by {
                assert(!es0[i].dead);
            }
            if population_consistent(es0, sp0, id0) {
                lemma_population_same_tags(es0, self.enemies@, sp0, id0);
            }
        }
    }

    /// Run every enemy's brain for one tick against the player at `player`; return where
    /// each enemy should head, in the order of `enemies`.
    pub fn update_ai(&mut self, player: Point) -> (r: Vec<Steer>)
        requires
            old(self).wf(),
        ensures
            old(self).population_consistent() ==> final(self).population_consistent(),
            final(self).wf(),
            r@.len() == old(self).enemies@.len(),
            final(self).enemies@.len() == old(self).enemies@.len(),
            forall|i: int|
                #![trigger final(self).enemies@[i]]
                0 <= i < old(self).enemies@.len() ==> final(self).enemies@[i] == (Enemy {
                    ai: AggressiveAi { state: final(self).enemies@[i].ai.state, ..old(self).enemies@[i].ai },
                    ..old(self).enemies@[i]
                }),
            forall|i: int|
                #![trigger r@[i]]
                0 <= i < old(self).enemies@.len() ==> ai_tick_outcome(
                    old(self).enemies@[i].ai,
                    old(self).enemies@[i].position,
                    player,
                    final(self).enemies@[i].ai.state,
                    r@[i],
                ),
            final(self).bullets@ == old(self).bullets@,
            final(self).spawners@ == old(self).spawners@,
            final(self).next_id == old(self).next_id,
    {
        let ghost es0 = self.enemies@;
        let ghost bs0 = self.bullets@;
        let ghost sp0 = self.spawners@;
        let ghost id0 = self.next_id;
        let mut out: Vec<Steer> = Vec::new();
        let mut k: usize = 0;
        while k < self.enemies.len()
            invariant
                k <= self.enemies@.len(),
                self.enemies@.len() == es0.len(),
                self.bullets@ == bs0,
                self.spawners@ == sp0,
                self.next_id == id0,
                world_wf(es0, bs0, sp0),
                out@.len() == k,
                forall|i: int|
                    #![trigger self.enemies@[i]]
                    0 <= i < k ==> self.enemies@[i] == (Enemy {
                        ai: AggressiveAi { state: self.enemies@[i].ai.state, ..es0[i].ai },
                        ..es0[i]
                    }),
                forall|i: int| #![trigger self.enemies@[i]] k <= i < self.enemies@.len() ==> self.enemies@[i] == es0[i],
                forall|i: int|
                    #![trigger out@[i]]
                    0 <= i < k ==> ai_tick_outcome(es0[i].ai, es0[i].position, player, self.enemies@[i].ai.state, out@[i]),
            decreases self.enemies@.len() - k,
        {
            let mut e = self.enemies[k];
            let steer = e.ai.tick(e.position, player);
            let ghost before = self.enemies@;
            self.enemies.set(k, e);
            out.push(steer);
            proof {
                assert forall|i: int| #![trigger out@[i]] 0 <= i < k + 1 implies ai_tick_outcome(
                    es0[i].ai,
                    es0[i].position,
                    player,
                    self.enemies@[i].ai.state,
                    out@[i],
                ) by {
                    if i < k {
                        assert(self.enemies@[i] == before[i]);
                    }
                }
            }
            k = k + 1;
        }
        proof {
            assert forall|i: int| 0 <= i < self.enemies@.len() implies (#[trigger] self.enemies@[i]).wf() by {
                assert(es0[i].wf());
            }
            assert forall|i: int| 0 <= i < self.enemies@.len() implies !(#[trigger] self.enemies@[i]).dead by {
                assert(!es0[i].dead);
            }
            if population_consistent(es0, sp0, id0) {
                lemma_population_same_tags(es0, self.enemies@, sp0, id0);
            }
        }
        out
    }

    /// Put a fired bullet into the world with the next free identity, and return it.
    pub fn fire_bullet(&mut self, ev: &BulletFiredEvent) -> (r: u64)
        requires
            old(self).wf(),
            old(self).next_id < u64::MAX,
            ev.lifetime > 0,
        ensures
            old(self).population_consistent() ==> final(self).population_consistent(),
            final(self).wf(),
            r == old(self).next_id,
            final(self).next_id == old(self).next_id + 1,
            final(self).bullets@ == old(self).bullets@.push(Bullet {
                id: r,
                origin: ev.from,
                damage: ev.dmg,
                lifetime: ev.lifetime,
                consumed: false,
            }),
            final(self).enemies@ == old(self).enemies@,
            final(self).spawners@ == old(self).spawners@,
    {
        let id = self.next_id;
        self.bullets.push(Bullet { id, origin: ev.from, damage: ev.dmg, lifetime: ev.lifetime, consumed: false });
        self.next_id = self.next_id + 1;
        id
    }

    /// Place a new spawner near the player if there are fewer than `MAX_SPAWNERS`; return
    /// its identity.
    pub fn spawn_spawner(&mut self, player: Point) -> (r: Option<u64>)
        requires
            old(self).wf(),
            old(self).next_id < u64::MAX,
        ensures
            old(self).population_consistent() ==> final(self).population_consistent(),
            final(self).wf(),
            r is Some <==> old(self).spawners@.len() < MAX_SPAWNERS,
            r is None ==> final(self).spawners@ == old(self).spawners@ && final(self).next_id == old(self).next_id,
            r matches Some(id) ==> id == old(self).next_id && final(self).next_id == old(self).next_id + 1
                && final(self).spawners@.len() == old(self).spawners@.len() + 1
                && final(self).spawners@.drop_last() == old(self).spawners@
                && final(self).spawners@.last().id == id
                && (exists|d: Point|
                    #![trigger crate::geometry::translate_spec(player, d)]
                    final(self).spawners@.last().position == crate::geometry::translate_spec(player, d)
                        && crate::spawner::new_spawner_offset(d))
                && final(self).spawners@.last().timer == (SpawnerSpawnTimer {
                    timer: crate::spawner::RepeatingTimer { period_ms: SPAWN_PERIOD_MS, elapsed_ms: 0 },
                    spawn_limit: SPAWN_LIMIT,
                    alive_now: 0,
                }),
            final(self).enemies@ == old(self).enemies@,
            final(self).bullets@ == old(self).bullets@,
    {
        match new_spawner_position(self.spawners.len(), player) {
            None => None,
            Some(position) => {
                let id = self.next_id;
                let ghost sp0 = self.spawners@;
                self.spawners.push(SpawnerEntity { id, position, timer: SpawnerSpawnTimer::new(SPAWN_PERIOD_MS, SPAWN_LIMIT) });
                self.next_id = self.next_id + 1;
                proof {
                    assert(self.spawners@.drop_last() =~= sp0);
                    if population_consistent(self.enemies@, sp0, id) {
                        lemma_live_tagged_none(self.enemies@, id);
                        assert forall|a: int, b: int| 0 <= a < b < self.spawners@.len() implies (#[trigger] self.spawners@[a]).id
                            != (#[trigger] self.spawners@[b]).id by {
                            assert(self.spawners@[a] == sp0[a]);
                            if b < sp0.len() {
                                assert(self.spawners@[b] == sp0[b]);
                            }
                        }
                        assert forall|t: int| 0 <= t < self.spawners@.len() implies (#[trigger] self.spawners@[t]).timer.alive_now
                            == live_tagged(self.enemies@, self.spawners@[t].id) && self.spawners@[t].id < self.next_id by {
                            if t < sp0.len() {
                                assert(self.spawners@[t] == sp0[t]);
                            }
                        }
                    }
                    assert forall|s: int| 0 <= s < self.spawners@.len() implies (#[trigger] self.spawners@[s]).timer.wf() by {
                        if s < sp0.len() {
                            assert(self.spawners@[s] == sp0[s]);
                        }
                    }
                }
                Some(id)
            },
        }
    }

    /// One full tick of the combat core, in order: collisions and removals, death notices
    /// to spawners, spawning, invulnerability running out, and bullets ageing (those that
    /// run out of time are removed).
    pub fn tick(&mut self, cs: &Vec<Collision>, dt_ms: u64) -> (r: TickEvents)
        requires
            old(self).wf(),
            old(self).next_id + old(self).spawners@.len() <= u64::MAX,
        ensures
            final(self).wf(),
            old(self).population_consistent() ==> final(self).population_consistent(),
            ({
                let res = resolve_spec(old(self).enemies@, old(self).bullets@, cs@);
                let sp1 = old(self).spawners@.map_values(
                    |sp: SpawnerEntity| notified_spawner(sp, crate::combat::kill_notices(res.2)),
                );
                let born = spawned_from(sp1, dt_ms as int, old(self).next_id as int);
                &&& final(self).spawners@ == sp1.map_values(|sp: SpawnerEntity| ticked_spawner(sp, dt_ms as int))
                &&& final(self).enemies@ == (kept_enemies(res.0) + born).map_values(|e: Enemy| iframes_ticked(e))
                &&& final(self).bullets@ == kept_bullets(kept_bullets(res.1).map_values(|b: Bullet| aged(b)))
                &&& final(self).next_id == old(self).next_id + born.len()
                &&& r.sounds@ == res.2.map_values(|h: crate::combat::Hit| crate::combat::sound_of(h))
                &&& r.xp_drops@ == crate::combat::kill_drops(res.2)
                &&& r.deaths@ == crate::combat::kill_notices(res.2)
            }),
    {
        let ghost es0 = self.enemies@;
        let ghost bs0 = self.bullets@;
        let ghost sp0 = self.spawners@;
        let ghost id0 = self.next_id;
        proof {
            if population_consistent(es0, sp0, id0) {
                law_tick_keeps_population(es0, bs0, sp0, id0, cs@, dt_ms as int);
            }
        }
        let events = self.apply_collisions(cs);
        notify_spawners(&mut self.spawners, &events.deaths);
        let ghost es_before = self.enemies@;
        let ghost sp_before = self.spawners@;
        let ghost id_before = self.next_id;
        spawn_from_spawners(&mut self.spawners, &mut self.enemies, &mut self.next_id, dt_ms);
        proof {
            let born = spawned_from(sp_before, dt_ms as int, id_before as int);
            assert forall|i: int| 0 <= i < self.enemies@.len() implies !(#[trigger] self.enemies@[i]).dead by {
                if i < es_before.len() {
                    assert(self.enemies@[i] == es_before[i]);
                } else {
                    lemma_spawned_live(sp_before, dt_ms as int, id_before as int);
                    assert(self.enemies@[i] == born[i - es_before.len()]);
                }
            }
        }
        let ghost es_spawned = self.enemies@;
        tick_iframes(&mut self.enemies);
        proof {
            assert forall|i: int| 0 <= i < self.enemies@.len() implies !(#[trigger] self.enemies@[i]).dead by {
                assert(self.enemies@[i] == iframes_ticked(es_spawned[i]));
            }
        }
        tick_lifetimes(&mut self.bullets);
        let bs = despawn_bullets(&self.bullets);
        proof {
            lemma_kept_bullets_sound(self.bullets@);
        }
        self.bullets = bs;
        events
    }
}

/// The enemies a spawner tick makes are alive.
proof fn lemma_spawned_live(sps: Seq<SpawnerEntity>, dt: int, id0: int)
    ensures
        forall|i: int| 0 <= i < spawned_from(sps, dt, id0).len() ==> !(#[trigger] spawned_from(sps, dt, id0)[i]).dead,
        spawned_from(sps, dt, id0).len() <= sps.len(),
    decreases sps.len(),
{
    if sps.len() > 0 {
        lemma_spawned_live(sps.drop_last(), dt, id0);
        let prev = spawned_from(sps.drop_last(), dt, id0);
        if spawner_tick_spec(sps.last().timer, dt).1 {
            let e = spawned_enemy(sps.last(), id0 + prev.len());
            assert forall|i: int| 0 <= i < prev.push(e).len() implies !(#[trigger] prev.push(e)[i]).dead by {
                if i < prev.len() {
                    assert(prev.push(e)[i] == prev[i]);
                }
            }
        }
    }
}

} // verus!
