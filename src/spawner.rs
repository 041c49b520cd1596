use vstd::prelude::*;

use crate::geometry::{translate, translate_spec, Point};
use crate::rng::random_offset;

verus! {

/// Most spawners that exist at once.
pub const MAX_SPAWNERS: usize = 10;

/// Period of a spawner's timer, in milliseconds.
pub const SPAWN_PERIOD_MS: u64 = 10_000;

/// How many live enemies one spawner may have.
pub const SPAWN_LIMIT: u32 = 16;

/// Nearest distance from the player at which a spawner is placed.
pub const SPAWNER_MIN_DISTANCE: i32 = 2000;

/// Farthest distance from the player at which a spawner is placed.
pub const SPAWNER_MAX_DISTANCE: i32 = 8000;

/// A timer that fires every `period_ms` milliseconds and starts over.
#[derive(Debug, Clone, Copy, PartialEq, Eq, Structural)]
pub struct RepeatingTimer {
    pub period_ms: u64,
    pub elapsed_ms: u64,
}

/// The timer after `dt` more milliseconds, and whether it completed a period.
pub open spec fn repeating_tick_spec(t: RepeatingTimer, dt: int) -> (RepeatingTimer, bool) {
    let total = t.elapsed_ms + dt;
    (RepeatingTimer { elapsed_ms: (total % (t.period_ms as int)) as u64, ..t }, total >= t.period_ms)
}

impl RepeatingTimer {
    pub open spec fn wf(&self) -> bool {
        self.period_ms > 0 && self.elapsed_ms < self.period_ms
    }

    pub fn new(period_ms: u64) -> (r: RepeatingTimer)
        requires
            period_ms > 0,
        ensures
            r.wf(),
            r.period_ms == period_ms,
            r.elapsed_ms == 0,
    {
        RepeatingTimer { period_ms, elapsed_ms: 0 }
    }

    /// Advance by `dt_ms`; true when at least one period completed.
    pub fn tick(&mut self, dt_ms: u64) -> (r: bool)
        requires
            old(self).wf(),
        ensures
            (*final(self), r) == repeating_tick_spec(*old(self), dt_ms as int),
            final(self).wf(),
    {
        let rest: u64 = self.period_ms - self.elapsed_ms;
        if dt_ms >= rest {
            let over: u64 = dt_ms - rest;
            let e: u64 = over % self.period_ms;
            assert(e == (self.elapsed_ms + dt_ms) % (self.period_ms as int)) by (nonlinear_arith)
                requires
                    over == self.elapsed_ms + dt_ms - self.period_ms,
                    e == (over as int) % (self.period_ms as int),
                    self.period_ms > 0,
                    over >= 0;
            self.elapsed_ms = e;
            true
        } else {
            let e: u64 = self.elapsed_ms + dt_ms;
            assert(e == (self.elapsed_ms + dt_ms) % (self.period_ms as int)) by (nonlinear_arith)
                requires e == self.elapsed_ms + dt_ms, 0 <= e < self.period_ms;
            self.elapsed_ms = e;
            false
        }
    }
}

/// A spawner's bookkeeping: its timer, its cap, and how many of its enemies are alive.
#[derive(Debug, Clone, Copy, PartialEq, Eq, Structural)]
pub struct SpawnerSpawnTimer {
    pub timer: RepeatingTimer,
    pub spawn_limit: u32,
    pub alive_now: u32,
}

/// One event in a spawner's life.
#[derive(Debug, Clone, Copy, PartialEq, Eq, Structural)]
pub enum PopulationEvent {
    /// The spawner produced an enemy.
    Spawned,
    /// One of its enemies died.
    Died,
}

/// The live count after one event.
pub open spec fn population_step(alive: int, e: PopulationEvent) -> int {
    match e {
        PopulationEvent::Spawned => alive + 1,
        PopulationEvent::Died => if alive > 0 { alive - 1 } else { 0 },
    }
}

/// The live count after a sequence of events.
pub open spec fn population_after(alive: int, events: Seq<PopulationEvent>) -> int
    decreases events.len(),
{
    if events.len() == 0 {
        alive
    } else {
        population_step(population_after(alive, events.drop_last()), events.last())
    }
}

/// How many events of a sequence are `e`.
pub open spec fn count_of(events: Seq<PopulationEvent>, e: PopulationEvent) -> int
    decreases events.len(),
{
    if events.len() == 0 {
        0
    } else {
        count_of(events.drop_last(), e) + if events.last() == e { 1int } else { 0int }
    }
}

/// Every death refers to an enemy spawned earlier in the sequence and not yet dead.
pub open spec fn deaths_matched(events: Seq<PopulationEvent>) -> bool {
    forall|k: int|
        0 <= k <= events.len() ==> #[trigger] count_of(events.take(k), PopulationEvent::Died) <= count_of(
            events.take(k),
            PopulationEvent::Spawned,
        )
}

/// One tick of a spawner's bookkeeping: the timer advances, and when it completes a period
/// while the spawner is under its cap, one more enemy counts as alive; the flag says
/// whether an enemy is to be made.
pub open spec fn spawner_tick_spec(t: SpawnerSpawnTimer, dt: int) -> (SpawnerSpawnTimer, bool) {
    let (timer, done) = repeating_tick_spec(t.timer, dt);
    let spawn = done && t.alive_now < t.spawn_limit;
    (
        SpawnerSpawnTimer { timer, alive_now: if spawn { (t.alive_now + 1) as u32 } else { t.alive_now }, ..t },
        spawn,
    )
}

impl SpawnerSpawnTimer {
    pub open spec fn wf(&self) -> bool {
        self.timer.wf() && self.alive_now <= self.spawn_limit
    }

    pub fn new(period_ms: u64, spawn_limit: u32) -> (r: SpawnerSpawnTimer)
        requires
            period_ms > 0,
        ensures
            r.wf(),
            r.timer == (RepeatingTimer { period_ms, elapsed_ms: 0 }),
            r.spawn_limit == spawn_limit,
            r.alive_now == 0,
    {
        SpawnerSpawnTimer { timer: RepeatingTimer::new(period_ms), spawn_limit, alive_now: 0 }
    }

    /// Advance the timer; when it completes and the cap allows, count one more live enemy
    /// and return true: the caller then creates that enemy.
    pub fn tick(&mut self, dt_ms: u64) -> (r: bool)
        requires
            old(self).wf(),
        ensures
            final(self).wf(),
            (*final(self), r) == spawner_tick_spec(*old(self), dt_ms as int),
            final(self).timer == repeating_tick_spec(old(self).timer, dt_ms as int).0,
            final(self).spawn_limit == old(self).spawn_limit,
            r == (repeating_tick_spec(old(self).timer, dt_ms as int).1 && old(self).alive_now
                < old(self).spawn_limit),
            final(self).alive_now == if r {
                population_step(old(self).alive_now as int, PopulationEvent::Spawned)
            } else {
                old(self).alive_now as int
            },
    {
        let done = self.timer.tick(dt_ms);
        if done && self.alive_now < self.spawn_limit {
            self.alive_now = self.alive_now + 1;
            true
        } else {
            false
        }
    }

    /// One of this spawner's enemies died: count one fewer, never below zero.
    pub fn on_death(&mut self)
        requires
            old(self).wf(),
        ensures
            final(self).wf(),
            final(self).timer == old(self).timer,
            final(self).spawn_limit == old(self).spawn_limit,
            final(self).alive_now == population_step(old(self).alive_now as int, PopulationEvent::Died),
    {
        self.alive_now = self.alive_now.saturating_sub(1);
    }
}

/// Starting from no live enemies, when every death matches an earlier spawn, the live
/// count is the number of spawns less the number of deaths.
pub proof fn law_population_balance(events: Seq<PopulationEvent>)
    requires
        deaths_matched(events),
    ensures
        population_after(0, events) == count_of(events, PopulationEvent::Spawned) - count_of(
            events,
            PopulationEvent::Died,
        ),
    decreases events.len(),
{
    if events.len() > 0 {
        let prefix = events.drop_last();
        assert forall|k: int| 0 <= k <= prefix.len() implies #[trigger] count_of(
            prefix.take(k),
            PopulationEvent::Died,
        ) <= count_of(prefix.take(k), PopulationEvent::Spawned) by {
            assert(prefix.take(k) == events.take(k));
            assert(count_of(events.take(k), PopulationEvent::Died) <= count_of(
                events.take(k),
                PopulationEvent::Spawned,
            ));
        }
        law_population_balance(prefix);
        assert(events.take(events.len() as int) == events);
        assert(count_of(events.take(events.len() as int), PopulationEvent::Died) <= count_of(
            events.take(events.len() as int),
            PopulationEvent::Spawned,
        ));
    }
}

/// An offset at which a spawner may be placed from the player: at least
/// `SPAWNER_MIN_DISTANCE` and less than `SPAWNER_MAX_DISTANCE` long.
pub open spec fn new_spawner_offset(d: Point) -> bool {
    SPAWNER_MIN_DISTANCE * SPAWNER_MIN_DISTANCE <= d.x * d.x + d.y * d.y
        < SPAWNER_MAX_DISTANCE * SPAWNER_MAX_DISTANCE
}

/// Where a new spawner goes, if the cap allows one more: at a random distance between
/// `SPAWNER_MIN_DISTANCE` and `SPAWNER_MAX_DISTANCE` from the player.
pub fn new_spawner_position(spawner_count: usize, player: Point) -> (r: Option<Point>)
    ensures
        r is Some <==> spawner_count < MAX_SPAWNERS,
        r matches Some(p) ==> exists|d: Point|
            #![trigger translate_spec(player, d)]
            p == translate_spec(player, d) && new_spawner_offset(d),
{
    if spawner_count < MAX_SPAWNERS {
        let d = random_offset(SPAWNER_MIN_DISTANCE, SPAWNER_MAX_DISTANCE - 1);
        Some(translate(player, d))
    } else {
        None
    }
}

} // verus!
