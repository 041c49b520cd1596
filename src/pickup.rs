use vstd::prelude::*;

use crate::combat::{SoundEvent, XpDropEvent, KILL_XP};
use crate::geometry::{within_or_at, within_or_at_spec, Point, Steer};
use crate::progression::{add_xp_spec, Xp, XpLevel};
use crate::rng::random_in_range;

verus! {

/// Most magnets lying in the world at once.
pub const MAX_MAGNETS: usize = 10;

/// Magnets appear within this distance of the origin on each axis.
pub const MAGNET_SPAWN_RANGE: i32 = 10_000;

/// Speed at which attracted items fly to the player, in world units per second.
pub const ATTRACT_SPEED: u32 = 1000;

/// The kinds of things the player can pick up.
#[derive(Debug, Clone, Copy, PartialEq, Eq, Structural)]
pub enum PickupType {
    /// Pulls every experience shard toward the player.
    Magnet,
    /// A resource such as wood.
    Item,
}

/// A pickup lying in the world.
#[derive(Debug, Clone, Copy, PartialEq, Eq, Structural)]
pub struct PlayerPickup {
    pub id: u64,
    pub position: Point,
    pub kind: PickupType,
}

/// The player took the pickup with this identity, of this kind.
#[derive(Debug, Clone, Copy, PartialEq, Eq, Structural)]
pub struct PickupTakenEvent(pub u64, pub PickupType);

/// An experience shard lying in the world.
#[derive(Debug, Clone, Copy, PartialEq, Eq, Structural)]
pub struct XpShard {
    pub position: Point,
    pub value: u64,
    pub attracted: bool,
}

/// The pickups within reach of the player, in order, as taken events.
pub open spec fn taken_spec(player: Point, range: u32, ps: Seq<PlayerPickup>) -> Seq<PickupTakenEvent>
    decreases ps.len(),
{
    if ps.len() == 0 {
        Seq::empty()
    } else if within_or_at_spec(ps.last().position, player, range as int) {
        taken_spec(player, range, ps.drop_last()).push(PickupTakenEvent(ps.last().id, ps.last().kind))
    } else {
        taken_spec(player, range, ps.drop_last())
    }
}

/// Every pickup within `range` of the player is taken.
pub fn take_player_pickups(player: Point, range: u32, pickups: &Vec<PlayerPickup>) -> (r: Vec<PickupTakenEvent>)
    ensures
        r@ == taken_spec(player, range, pickups@),
{
    let mut out: Vec<PickupTakenEvent> = Vec::new();
    let mut k: usize = 0;
    while k < pickups.len()
        invariant
            k <= pickups@.len(),
            out@ == taken_spec(player, range, pickups@.take(k as int)),
        decreases pickups@.len() - k,
    {
        assert(pickups@.take(k + 1).drop_last() =~= pickups@.take(k as int));
        let p = pickups[k];
        if within_or_at(p.position, player, range) {
            out.push(PickupTakenEvent(p.id, p.kind));
        }
        k = k + 1;
    }
    assert(pickups@.take(pickups@.len() as int) =~= pickups@);
    out
}

/// A magnet sets every shard moving toward the player.
pub fn attract_all_shards(shards: &mut Vec<XpShard>)
    ensures
        final(shards)@.len() == old(shards)@.len(),
        forall|i: int|
            #![trigger final(shards)@[i]]
            0 <= i < old(shards)@.len() ==> final(shards)@[i] == (XpShard { attracted: true, ..old(shards)@[i] }),
{
    let ghost s0 = shards@;
    let mut k: usize = 0;
    while k < shards.len()
        invariant
            k <= shards@.len(),
            shards@.len() == s0.len(),
            forall|i: int| #![trigger shards@[i]] 0 <= i < k ==> shards@[i] == (XpShard { attracted: true, ..s0[i] }),
            forall|i: int| #![trigger shards@[i]] k <= i < shards@.len() ==> shards@[i] == s0[i],
        decreases shards@.len() - k,
    {
        let mut s = shards[k];
        s.attracted = true;
        shards.set(k, s);
        k = k + 1;
    }
}

/// Whether any of the events took a magnet.
pub open spec fn took_magnet(events: Seq<PickupTakenEvent>) -> bool {
    exists|i: int| 0 <= i < events.len() && (#[trigger] events[i]).1 == PickupType::Magnet
}

/// Whether some event names the pickup `id`.
pub open spec fn taken_id(events: Seq<PickupTakenEvent>, id: u64) -> bool {
    exists|i: int| 0 <= i < events.len() && (#[trigger] events[i]).0 == id
}

/// The pickups that no event names, in order.
pub open spec fn untaken(ps: Seq<PlayerPickup>, events: Seq<PickupTakenEvent>) -> Seq<PlayerPickup>
    decreases ps.len(),
{
    if ps.len() == 0 {
        ps
    } else if taken_id(events, ps.last().id) {
        untaken(ps.drop_last(), events)
    } else {
        untaken(ps.drop_last(), events).push(ps.last())
    }
}

fn is_taken(events: &Vec<PickupTakenEvent>, id: u64) -> (r: bool)
    ensures
        r == taken_id(events@, id),
{
    let mut k: usize = 0;
    while k < events.len()
        invariant
            k <= events@.len(),
            forall|i: int| 0 <= i < k ==> (#[trigger] events@[i]).0 != id,
        decreases events@.len() - k,
    {
        if events[k].0 == id {
            return true;
        }
        k = k + 1;
    }
    false
}

/// Apply the pickups taken this tick: a magnet sets every shard moving toward the
/// player, and every pickup taken is removed.
pub fn handle_pickup_taken(
    events: &Vec<PickupTakenEvent>,
    pickups: &mut Vec<PlayerPickup>,
    shards: &mut Vec<XpShard>,
)
    ensures
        final(pickups)@ == untaken(old(pickups)@, events@),
        final(shards)@.len() == old(shards)@.len(),
        forall|i: int|
            #![trigger final(shards)@[i]]
            0 <= i < old(shards)@.len() ==> final(shards)@[i] == if took_magnet(events@) {
                XpShard { attracted: true, ..old(shards)@[i] }
            } else {
                old(shards)@[i]
            },
{
    let mut magnet = false;
    let mut k: usize = 0;
    while k < events.len()
        invariant
            k <= events@.len(),
            magnet <==> exists|i: int| 0 <= i < k && (#[trigger] events@[i]).1 == PickupType::Magnet,
        decreases events@.len() - k,
    {
        if events[k].1 == PickupType::Magnet {
            magnet = true;
        }
        k = k + 1;
    }
    if magnet {
        attract_all_shards(shards);
    }
    let mut kept: Vec<PlayerPickup> = Vec::new();
    let mut m: usize = 0;
    while m < pickups.len()
        invariant
            m <= pickups@.len(),
            kept@ == untaken(pickups@.take(m as int), events@),
        decreases pickups@.len() - m,
    {
        assert(pickups@.take(m + 1).drop_last() =~= pickups@.take(m as int));
        if !is_taken(events, pickups[m].id) {
            kept.push(pickups[m]);
        }
        m = m + 1;
    }
    assert(pickups@.take(pickups@.len() as int) =~= pickups@);
    *pickups = kept;
}

/// The values of the shards within reach, in order.
pub open spec fn reached_values(player: Point, range: u32, s: Seq<XpShard>) -> Seq<u64>
    decreases s.len(),
{
    if s.len() == 0 {
        Seq::empty()
    } else if within_or_at_spec(s.last().position, player, range as int) {
        reached_values(player, range, s.drop_last()).push(s.last().value)
    } else {
        reached_values(player, range, s.drop_last())
    }
}

/// The shards out of reach, in order.
pub open spec fn out_of_reach(player: Point, range: u32, s: Seq<XpShard>) -> Seq<XpShard>
    decreases s.len(),
{
    if s.len() == 0 {
        s
    } else if within_or_at_spec(s.last().position, player, range as int) {
        out_of_reach(player, range, s.drop_last())
    } else {
        out_of_reach(player, range, s.drop_last()).push(s.last())
    }
}

/// The ledger after adding each value in order.
pub open spec fn add_all(l: XpLevel, vs: Seq<u64>) -> XpLevel
    decreases vs.len(),
{
    if vs.len() == 0 {
        l
    } else {
        add_xp_spec(add_all(l, vs.drop_last()), vs.last() as int)
    }
}

/// Every addition of the values, in order, fits: `add_xp` may be called for each.
pub open spec fn adds_fit(l: XpLevel, vs: Seq<u64>) -> bool
    decreases vs.len(),
{
    if vs.len() == 0 {
        true
    } else {
        adds_fit(l, vs.drop_last()) && add_all(l, vs.drop_last()).can_add(vs.last() as int)
    }
}

proof fn lemma_adds_fit_prefix(l: XpLevel, vs: Seq<u64>, j: int)
    requires
        adds_fit(l, vs),
        0 <= j <= vs.len(),
    ensures
        adds_fit(l, vs.take(j)),
    decreases vs.len() - j,
{
    if j < vs.len() {
        assert(vs.drop_last().take(j) =~= vs.take(j));
        lemma_adds_fit_prefix(l, vs.drop_last(), j);
    } else {
        assert(vs.take(j) =~= vs);
    }
}

proof fn lemma_reached_prefix(player: Point, range: u32, s: Seq<XpShard>, k: int)
    requires
        0 <= k <= s.len(),
    ensures
        reached_values(player, range, s.take(k)).len() <= reached_values(player, range, s).len(),
        reached_values(player, range, s).take(reached_values(player, range, s.take(k)).len() as int)
            == reached_values(player, range, s.take(k)),
    decreases s.len() - k,
{
    let full = reached_values(player, range, s);
    if k < s.len() {
        assert(s.drop_last().take(k) =~= s.take(k));
        lemma_reached_prefix(player, range, s.drop_last(), k);
        let part = reached_values(player, range, s.take(k));
        let prev = reached_values(player, range, s.drop_last());
        assert(prev.take(part.len() as int) == part);
        if within_or_at_spec(s.last().position, player, range as int) {
            assert(full == prev.push(s.last().value));
            assert(full.take(part.len() as int) =~= prev.take(part.len() as int));
        }
    } else {
        assert(s.take(k) =~= s);
        assert(full.take(full.len() as int) =~= full);
    }
}

/// Collect every shard within reach of the player into the ledger, in order, and remove
/// them; return one pickup sound for each shard collected.
pub fn pickup_xp(player: Point, range: u32, ledger: &mut XpLevel, shards: &mut Vec<XpShard>) -> (r: Vec<SoundEvent>)
    requires
        old(ledger).wf(),
        adds_fit(*old(ledger), reached_values(player, range, old(shards)@)),
    ensures
        final(ledger).wf(),
        *final(ledger) == add_all(*old(ledger), reached_values(player, range, old(shards)@)),
        final(shards)@ == out_of_reach(player, range, old(shards)@),
        r@.len() == reached_values(player, range, old(shards)@).len(),
        forall|k: int| 0 <= k < r@.len() ==> #[trigger] r@[k] == SoundEvent::XpPickup,
{
    let ghost s0 = shards@;
    let ghost all = reached_values(player, range, s0);
    let mut kept: Vec<XpShard> = Vec::new();
    let mut sounds: Vec<SoundEvent> = Vec::new();
    let mut k: usize = 0;
    while k < shards.len()
        invariant
            k <= shards@.len(),
            shards@ == s0,
            all == reached_values(player, range, s0),
            adds_fit(*old(ledger), all),
            ledger.wf(),
            *ledger == add_all(*old(ledger), reached_values(player, range, s0.take(k as int))),
            kept@ == out_of_reach(player, range, s0.take(k as int)),
            sounds@.len() == reached_values(player, range, s0.take(k as int)).len(),
            forall|m: int| 0 <= m < sounds@.len() ==> #[trigger] sounds@[m] == SoundEvent::XpPickup,
        decreases shards@.len() - k,
    {
        let s = shards[k];
        proof {
            let t1 = s0.take(k + 1);
            assert(t1.drop_last() =~= s0.take(k as int));
            assert(t1.last() == s);
        }
        if within_or_at(s.position, player, range) {
            proof {
                let vs = reached_values(player, range, s0.take(k as int));
                let vs1 = reached_values(player, range, s0.take(k + 1));
                assert(vs1 == vs.push(s.value));
                assert(vs1.drop_last() =~= vs);
                lemma_reached_prefix(player, range, s0, k + 1);
                assert(all.take(vs1.len() as int) == vs1);
                lemma_adds_fit_prefix(*old(ledger), all, vs1.len() as int);
            }
            ledger.add_xp(Xp(s.value));
            sounds.push(SoundEvent::XpPickup);
        } else {
            kept.push(s);
        }
        k = k + 1;
    }
    assert(s0.take(s0.len() as int) =~= s0);
    *shards = kept;
    sounds
}

/// The values of the shards within reach of the player, in order.
pub fn reached_shard_values(player: Point, range: u32, shards: &Vec<XpShard>) -> (r: Vec<u64>)
    ensures
        r@ == reached_values(player, range, shards@),
{
    let mut out: Vec<u64> = Vec::new();
    let mut k: usize = 0;
    while k < shards.len()
        invariant
            k <= shards@.len(),
            out@ == reached_values(player, range, shards@.take(k as int)),
        decreases shards@.len() - k,
    {
        assert(shards@.take(k + 1).drop_last() =~= shards@.take(k as int));
        if within_or_at(shards[k].position, player, range) {
            out.push(shards[k].value);
        }
        k = k + 1;
    }
    assert(shards@.take(shards@.len() as int) =~= shards@);
    out
}

/// Whether adding `amount` to the ledger fits in a `u64`.
fn add_fits(l: XpLevel, amount: u64) -> (r: bool)
    requires
        l.wf(),
    ensures
        r == l.can_add(amount as int),
{
    if amount > u64::MAX - l.xp {
        return false;
    }
    let now = l.xp + amount;
    let gained = now / l.xp_to_next;
    if gained > u64::MAX - l.level {
        assert(crate::progression::threshold_of(l.level + gained) > u64::MAX);
        return false;
    }
    let level = l.level + gained;
    let fits = level <= u64::MAX / 100;
    assert(fits == (crate::progression::threshold_of(level as int) <= u64::MAX)) by (nonlinear_arith)
        requires fits == (level <= u64::MAX / 100), level >= 0;
    fits
}

/// Whether each value can be added to the ledger in turn without leaving a `u64`.
pub fn adds_fit_check(l: XpLevel, values: &Vec<u64>) -> (r: bool)
    requires
        l.wf(),
    ensures
        r == adds_fit(l, values@),
{
    let mut cur = l;
    let mut k: usize = 0;
    while k < values.len()
        invariant
            k <= values@.len(),
            l.wf(),
            cur.wf(),
            cur == add_all(l, values@.take(k as int)),
            adds_fit(l, values@.take(k as int)),
        decreases values@.len() - k,
    {
        let v = values[k];
        assert(values@.take(k + 1).drop_last() =~= values@.take(k as int));
        if !add_fits(cur, v) {
            proof {
                if adds_fit(l, values@) {
                    lemma_adds_fit_prefix(l, values@, k + 1);
                }
            }
            return false;
        }
        cur.add_xp(Xp(v));
        k = k + 1;
    }
    assert(values@.take(values@.len() as int) =~= values@);
    true
}

/// Collect the shards within reach into the ledger as `pickup_xp` does, when every addition
/// fits in a `u64`; otherwise change nothing and return `None`.
pub fn collect_xp(player: Point, range: u32, ledger: &mut XpLevel, shards: &mut Vec<XpShard>) -> (r: Option<Vec<SoundEvent>>)
    requires
        old(ledger).wf(),
    ensures
        final(ledger).wf(),
        r is Some <==> adds_fit(*old(ledger), reached_values(player, range, old(shards)@)),
        r is None ==> *final(ledger) == *old(ledger) && final(shards)@ == old(shards)@,
        r matches Some(sounds) ==> {
            &&& *final(ledger) == add_all(*old(ledger), reached_values(player, range, old(shards)@))
            &&& final(shards)@ == out_of_reach(player, range, old(shards)@)
            &&& sounds@.len() == reached_values(player, range, old(shards)@).len()
            &&& forall|k: int| 0 <= k < sounds@.len() ==> #[trigger] sounds@[k] == SoundEvent::XpPickup
        },
{
    let values = reached_shard_values(player, range, shards);
    if adds_fit_check(*ledger, &values) {
        Some(pickup_xp(player, range, ledger, shards))
    } else {
        None
    }
}

/// Whether an item at `item` is close enough to the player to be pulled in: within twice
/// the pickup range.
pub fn in_attraction_range(player: Point, pickup_range: u32, item: Point) -> (r: bool)
    ensures
        r == within_or_at_spec(item, player, 2 * pickup_range as int),
{
    if pickup_range > u32::MAX / 2 {
        proof {
            crate::geometry::lemma_dist_sq_bound(item, player);
        }
        let d = crate::geometry::dist_sq(item, player);
        let r2: u128 = 2 * pickup_range as u128;
        assert(r2 * r2 <= 0x4_0000_0000_0000_0000) by (nonlinear_arith)
            requires r2 <= 0x2_0000_0000;
        d <= r2 * r2
    } else {
        within_or_at(item, player, 2 * pickup_range)
    }
}

/// Where a new magnet goes, if the cap allows one more: anywhere in the square of half
/// side `MAGNET_SPAWN_RANGE` around the origin.
pub fn new_magnet_position(magnet_count: usize) -> (r: Option<Point>)
    ensures
        r is Some <==> magnet_count < MAX_MAGNETS,
        r matches Some(p) ==> -MAGNET_SPAWN_RANGE <= p.x < MAGNET_SPAWN_RANGE && -MAGNET_SPAWN_RANGE <= p.y
            < MAGNET_SPAWN_RANGE,
{
    if magnet_count < MAX_MAGNETS {
        let x = random_in_range(-MAGNET_SPAWN_RANGE, MAGNET_SPAWN_RANGE - 1);
        let y = random_in_range(-MAGNET_SPAWN_RANGE, MAGNET_SPAWN_RANGE - 1);
        Some(Point { x, y })
    } else {
        None
    }
}

/// An experience shard of the given value at a place, not yet attracted.
pub fn drop_xp(xp: Xp, position: Point) -> (r: XpShard)
    ensures
        r == (XpShard { position, value: xp.0, attracted: false }),
{
    XpShard { position, value: xp.0, attracted: false }
}

/// A shard for each experience drop, in order, at the drop's place. Every shard an enemy
/// drops is worth `KILL_XP`, whatever the event carries.
pub fn spawn_xp(events: &Vec<XpDropEvent>) -> (r: Vec<XpShard>)
    ensures
        r@.len() == events@.len(),
        forall|k: int|
            0 <= k < r@.len() ==> #[trigger] r@[k] == (XpShard { position: events@[k].position, value: KILL_XP, attracted: false }),
{
    let mut out: Vec<XpShard> = Vec::new();
    let mut k: usize = 0;
    while k < events.len()
        invariant
            k <= events@.len(),
            out@.len() == k,
            forall|m: int|
                0 <= m < out@.len() ==> #[trigger] out@[m] == (XpShard { position: events@[m].position, value: KILL_XP, attracted: false }),
        decreases events@.len() - k,
    {
        out.push(drop_xp(Xp(KILL_XP), events[k].position));
        k = k + 1;
    }
    out
}

/// Where each shard should head: straight at the player at `ATTRACT_SPEED` once
/// attracted; otherwise its velocity is left alone.
pub fn attract_all_items(player: Point, shards: &Vec<XpShard>) -> (r: Vec<Steer>)
    ensures
        r@.len() == shards@.len(),
        forall|k: int|
            0 <= k < r@.len() ==> #[trigger] r@[k] == if shards@[k].attracted {
                Steer::Toward(player, ATTRACT_SPEED)
            } else {
                Steer::Keep
            },
{
    let mut out: Vec<Steer> = Vec::new();
    let mut k: usize = 0;
    while k < shards.len()
        invariant
            k <= shards@.len(),
            out@.len() == k,
            forall|m: int|
                0 <= m < out@.len() ==> #[trigger] out@[m] == if shards@[m].attracted {
                    Steer::Toward(player, ATTRACT_SPEED)
                } else {
                    Steer::Keep
                },
        decreases shards@.len() - k,
    {
        if shards[k].attracted {
            out.push(Steer::Toward(player, ATTRACT_SPEED));
        } else {
            out.push(Steer::Keep);
        }
        k = k + 1;
    }
    out
}

} // verus!
