use vstd::prelude::*;


verus! {

/// A one-shot countdown in milliseconds: it counts up to `delay_ms` and stays there
/// until it is reset.
#[derive(Debug, Clone, Copy, PartialEq, Eq, Structural)]
pub struct Cooldown {
    pub delay_ms: u64,
    pub elapsed_ms: u64,
}

/// The countdown after `dt` more milliseconds.
pub open spec fn tick_spec(c: Cooldown, dt: int) -> Cooldown {
    Cooldown {
        elapsed_ms: if c.elapsed_ms + dt >= c.delay_ms { c.delay_ms } else { (c.elapsed_ms + dt) as u64 },
        ..c
    }
}

/// One call of `fire`: advance by `dt`; when the delay is reached, reset and allow a shot.
pub open spec fn fire_spec(c: Cooldown, dt: int) -> (Cooldown, bool) {
    let t = tick_spec(c, dt);
    if t.elapsed_ms >= t.delay_ms {
        (Cooldown { elapsed_ms: 0, ..t }, true)
    } else {
        (t, false)
    }
}

/// The countdown after `n` calls of `fire` with the same `dt`.
pub open spec fn fire_run(c: Cooldown, dt: int, n: nat) -> Cooldown
    decreases n,
{
    if n == 0 {
        c
    } else {
        fire_spec(fire_run(c, dt, (n - 1) as nat), dt).0
    }
}

/// How many of `n` calls of `fire` with the same `dt` allowed a shot.
pub open spec fn shots_in_run(c: Cooldown, dt: int, n: nat) -> nat
    decreases n,
{
    if n == 0 {
        0
    } else {
        shots_in_run(c, dt, (n - 1) as nat) + if fire_spec(fire_run(c, dt, (n - 1) as nat), dt).1 {
            1nat
        } else {
            0nat
        }
    }
}

impl Cooldown {
    pub open spec fn wf(&self) -> bool {
        self.elapsed_ms <= self.delay_ms
    }

    pub fn new(delay_ms: u64) -> (r: Cooldown)
        ensures
            r.wf(),
            r.delay_ms == delay_ms,
            r.elapsed_ms == 0,
    {
        Cooldown { delay_ms, elapsed_ms: 0 }
    }

    pub fn tick(&mut self, dt_ms: u64)
        requires
            old(self).wf(),
        ensures
            *final(self) == tick_spec(*old(self), dt_ms as int),
            final(self).wf(),
    {
        if dt_ms >= self.delay_ms - self.elapsed_ms {
            self.elapsed_ms = self.delay_ms;
        } else {
            self.elapsed_ms = self.elapsed_ms + dt_ms;
        }
    }

    pub fn finished(&self) -> (r: bool)
        ensures
            r == (self.elapsed_ms >= self.delay_ms),
    {
        self.elapsed_ms >= self.delay_ms
    }

    pub fn reset(&mut self)
        ensures
            final(self).delay_ms == old(self).delay_ms,
            final(self).elapsed_ms == 0,
    {
        self.elapsed_ms = 0;
    }

    /// Advance by `dt_ms`; if the delay has been reached, reset and return true.
    pub fn fire(&mut self, dt_ms: u64) -> (r: bool)
        requires
            old(self).wf(),
        ensures
            (*final(self), r) == fire_spec(*old(self), dt_ms as int),
            final(self).wf(),
    {
        self.tick(dt_ms);
        if self.finished() {
            self.reset();
            true
        } else {
            false
        }
    }
}

/// A gun: the damage of its bullets, their speed, the spread of its aim and its fire timer.
#[derive(Debug, Clone, Copy, PartialEq, Eq, Structural)]
pub struct Weapon {
    pub delay: Cooldown,
    pub damage: u32,
    pub bullet_velocity: u32,
    pub accuracy: u32,
}

impl Weapon {
    pub open spec fn wf(&self) -> bool {
        self.delay.wf()
    }

    pub fn new(damage: u32, bullet_velocity: u32, accuracy: u32, fire_delay_ms: u64) -> (r: Weapon)
        ensures
            r.wf(),
            r.damage == damage,
            r.bullet_velocity == bullet_velocity,
            r.accuracy == accuracy,
            r.delay == (Cooldown { delay_ms: fire_delay_ms, elapsed_ms: 0 }),
    {
        Weapon { delay: Cooldown::new(fire_delay_ms), damage, bullet_velocity, accuracy }
    }

    /// Advance the fire timer by `dt_ms` and say whether a shot may be fired now.
    pub fn fire(&mut self, dt_ms: u64) -> (r: bool)
        requires
            old(self).wf(),
        ensures
            (final(self).delay, r) == fire_spec(old(self).delay, dt_ms as int),
            final(self).damage == old(self).damage,
            final(self).bullet_velocity == old(self).bullet_velocity,
            final(self).accuracy == old(self).accuracy,
            final(self).wf(),
    {
        self.delay.fire(dt_ms)
    }
}

proof fn lemma_run_step(c: Cooldown, d: int, n: nat)
    requires
        d > 0,
        c.delay_ms == 10 * d,
        c.elapsed_ms == 0,
    ensures
        fire_run(c, d, n).delay_ms == c.delay_ms,
        fire_run(c, d, n).elapsed_ms == (n % 10) * d,
        shots_in_run(c, d, n) == n / 10,
    decreases n,
{
    if n > 0 {
        let m = (n - 1) as nat;
        lemma_run_step(c, d, m);
        let prev = fire_run(c, d, m);
        assert(0 <= m % 10 < 10);
        assert((m % 10) * d + d == (m % 10 + 1) * d) by (nonlinear_arith);
        let t = tick_spec(prev, d);
        assert(fire_run(c, d, n) == fire_spec(prev, d).0);
        if m % 10 == 9 {
            assert(n % 10 == 0 && n / 10 == m / 10 + 1);
            assert((m % 10 + 1) * d == 10 * d);
            assert(t.elapsed_ms == t.delay_ms);
            assert(fire_run(c, d, n).elapsed_ms == 0);
            assert((n % 10) * d == 0);
        } else {
            assert(n % 10 == m % 10 + 1 && n / 10 == m / 10);
            assert((m % 10 + 1) * d < 10 * d) by (nonlinear_arith)
                requires m % 10 + 1 < 10, d > 0;
            assert(t.elapsed_ms == (n % 10) * d);
        }
    } else {
        assert(n % 10 == 0);
        assert((n % 10) * d == 0) by (nonlinear_arith)
            requires n % 10 == 0;
    }
}

/// Fired every tick with a step of a tenth of the delay, starting from rest, the timer
/// allows exactly one shot in every ten calls: the tenth, the twentieth, and so on.
pub proof fn law_one_shot_per_ten_calls(c: Cooldown, n: nat)
    requires
        c.delay_ms > 0,
        c.delay_ms % 10 == 0,
        c.elapsed_ms == 0,
    ensures
        shots_in_run(c, c.delay_ms as int / 10, n) == n / 10,
        fire_spec(fire_run(c, c.delay_ms as int / 10, n), c.delay_ms as int / 10).1 <==> (n + 1) % 10 == 0,
{
    let d = c.delay_ms as int / 10;
    lemma_run_step(c, d, n);
    assert((n % 10) * d + d == (n % 10 + 1) * d) by (nonlinear_arith);
    if n % 10 == 9 {
        assert((n % 10 + 1) * d == 10 * d);
    } else {
        assert((n % 10 + 1) * d < 10 * d) by (nonlinear_arith)
            requires n % 10 + 1 < 10, d > 0;
    }
}

} // verus!
