use vstd::prelude::*;


verus! {

/// Experience needed per level: the threshold of level `n` is `n * XP_PER_LEVEL`.
pub const XP_PER_LEVEL: u64 = 100;

/// An amount of experience.
#[derive(Debug, Clone, Copy, PartialEq, Eq, Structural)]
pub struct Xp(pub u64);

/// The player's progression: experience toward the next level, the threshold, and the level.
#[derive(Debug, Clone, Copy, PartialEq, Eq, Structural)]
pub struct XpLevel {
    pub xp: u64,
    pub xp_to_next: u64,
    pub level: u64,
}

/// Threshold of a level.
pub open spec fn threshold_of(level: int) -> int {
    level * XP_PER_LEVEL
}

/// The ledger after adding `amount`: the level rises by the whole multiples of the
/// threshold, the remainder is kept, and the threshold follows the new level.
pub open spec fn add_xp_spec(l: XpLevel, amount: int) -> XpLevel {
    let now = l.xp as int + amount;
    let level = l.level + now / (l.xp_to_next as int);
    XpLevel {
        xp: (now % (l.xp_to_next as int)) as u64,
        xp_to_next: threshold_of(level) as u64,
        level: level as u64,
    }
}

impl XpLevel {
    /// Well-formed: a positive level, its threshold, and experience below the threshold.
    pub open spec fn wf(&self) -> bool {
        &&& 1 <= self.level
        &&& self.xp_to_next == threshold_of(self.level as int)
        &&& self.xp < self.xp_to_next
    }

    /// Whether adding `amount` fits: the sum of experience and the new threshold both
    /// fit in a `u64`.
    pub open spec fn can_add(&self, amount: int) -> bool {
        &&& self.xp + amount <= u64::MAX
        &&& threshold_of(self.level + (self.xp as int + amount) / (self.xp_to_next as int)) <= u64::MAX
    }

    pub fn with_level(level: u64) -> (r: XpLevel)
        requires
            threshold_of(level as int) <= u64::MAX,
        ensures
            level >= 1 ==> r.wf(),
            r.level == level,
            r.xp == 0,
            r.xp_to_next == level * XP_PER_LEVEL,
    {
        XpLevel { xp: 0, xp_to_next: level * XP_PER_LEVEL, level }
    }

    pub fn add_xp(&mut self, xp: Xp)
        requires
            old(self).wf(),
            old(self).can_add(xp.0 as int),
        ensures
            *final(self) == add_xp_spec(*old(self), xp.0 as int),
            final(self).wf(),
    {
        let now = self.xp + xp.0;
        let gained = now / self.xp_to_next;
        assert(self.level + gained <= threshold_of(self.level + gained)) by (nonlinear_arith)
            requires self.level >= 1, gained >= 0;
        let level = self.level + gained;
        let rest = now % self.xp_to_next;
        assert(rest < self.xp_to_next);
        assert(self.xp_to_next <= level * XP_PER_LEVEL) by (nonlinear_arith)
            requires self.xp_to_next == self.level * 100, self.level <= level;
        self.xp = rest;
        self.level = level;
        self.xp_to_next = level * XP_PER_LEVEL;
    }

    /// Percentage of the way to the next level, rounded down.
    pub fn progress_percent(&self) -> (r: u64)
        requires
            self.wf(),
        ensures
            r == (self.xp as int) * 100 / (self.xp_to_next as int),
            r < 100,
    {
        let scaled: u128 = self.xp as u128 * 100;
        let q: u128 = scaled / self.xp_to_next as u128;
        assert(q < 100) by (nonlinear_arith)
            requires q == (self.xp as int) * 100 / (self.xp_to_next as int), self.xp < self.xp_to_next, self.xp_to_next > 0;
        q as u64
    }
}

/// Adding no experience leaves a well-formed ledger as it was.
pub proof fn law_add_zero_is_noop(l: XpLevel)
    requires
        l.wf(),
    ensures
        add_xp_spec(l, 0) == l,
{
    assert((l.xp as int) / (l.xp_to_next as int) == 0) by (nonlinear_arith)
        requires 0 <= l.xp < l.xp_to_next;
    assert((l.xp as int) % (l.xp_to_next as int) == l.xp) by (nonlinear_arith)
        requires 0 <= l.xp < l.xp_to_next;
}

/// From an empty ledger, adding `x` and then the rest of the threshold gives exactly one
/// level and leaves no experience over.
pub proof fn law_fill_threshold_levels_once(l: XpLevel, x: int)
    requires
        l.wf(),
        l.xp == 0,
        0 <= x <= l.xp_to_next,
        threshold_of(l.level + 1) <= u64::MAX,
    ensures
        add_xp_spec(add_xp_spec(l, x), l.xp_to_next - x).level == l.level + 1,
        add_xp_spec(add_xp_spec(l, x), l.xp_to_next - x).xp == 0,
        add_xp_spec(add_xp_spec(l, x), l.xp_to_next - x).wf(),
{
    let t = l.xp_to_next as int;
    let m = add_xp_spec(l, x);
    if x < t {
        assert(x / t == 0) by (nonlinear_arith) requires 0 <= x < t;
        assert(x % t == x) by (nonlinear_arith) requires 0 <= x < t;
        assert(m == XpLevel { xp: x as u64, ..l });
        assert(t / t == 1) by (nonlinear_arith) requires t > 0;
        assert(t % t == 0) by (nonlinear_arith) requires t > 0;
    } else {
        assert(t / t == 1) by (nonlinear_arith) requires t > 0;
        assert(t % t == 0) by (nonlinear_arith) requires t > 0;
        let m_t = m.xp_to_next as int;
        assert(m.xp == 0);
        assert(m_t > 0) by (nonlinear_arith) requires m_t == (l.level + 1) * 100, l.level >= 1;
        assert(0int / m_t == 0) by (nonlinear_arith) requires m_t > 0;
        assert(0int % m_t == 0) by (nonlinear_arith) requires m_t > 0;
    }
    let f = add_xp_spec(m, t - x);
    assert(f.xp_to_next == threshold_of(f.level as int));
}

} // verus!
