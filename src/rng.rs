use vstd::prelude::*;
use rand::seq::SliceRandom;
use rand::Rng;

use crate::geometry::Point;

verus! {

/// Relies on rand's `Rng::gen_range` over an inclusive range: the value lies in `lo..=hi`.
/// It panics on an empty range, so `lo <= hi` is required.
#[verifier::external_body]
pub fn random_in_range(lo: i32, hi: i32) -> (r: i32)
    requires
        lo <= hi,
    ensures
        lo <= r <= hi,
{
    rand::thread_rng().gen_range(lo..=hi)
}

/// Relies on rand's `Rng::gen_ratio(1, n)`: a draw that is true with probability `1 / n`.
/// It panics when the denominator is zero, so `n >= 1` is required.
#[verifier::external_body]
pub fn chance_one_in(n: u32) -> (r: bool)
    requires
        n >= 1,
{
    rand::thread_rng().gen_ratio(1, n)
}

/// Relies on rand's `SliceRandom::choose`: `None` on an empty slice, else one of its elements.
#[verifier::external_body]
pub(crate) fn choose_one(items: &Vec<usize>) -> (r: Option<usize>)
    ensures
        r is None <==> items@.len() == 0,
        r matches Some(x) ==> items@.contains(x),
{
    items.choose(&mut rand::thread_rng()).copied()
}

/// Largest `s` with `s * s <= n`.
pub fn isqrt(n: u32) -> (s: u32)
    ensures
        s * s <= n,
        n < (s + 1) * (s + 1),
{
    let mut s: u32 = 0;
    loop
        invariant
            s * s <= n,
        decreases n - s,
    {
        assert((s as u128 + 1) * (s as u128 + 1) <= 0x1_0000_0000_0000_0000) by (nonlinear_arith)
            requires s <= 0xffff_ffff;
        let next: u128 = (s as u128 + 1) * (s as u128 + 1);
        if next > n as u128 {
            return s;
        }
        assert(s + 1 <= (s + 1) * (s + 1)) by (nonlinear_arith);
        s = s + 1;
    }
}

/// An offset in a random direction whose length lies between `min_r` and `max_r`. The
/// radius is drawn above `min_r`, so rounding the length down to whole units never takes
/// it below `min_r`.
pub fn random_offset(min_r: i32, max_r: i32) -> (p: Point)
    requires
        0 <= min_r < max_r <= 40_000,
    ensures
        min_r * min_r <= p.x * p.x + p.y * p.y <= max_r * max_r,
        -max_r <= p.x <= max_r,
        -max_r <= p.y <= max_r,
{
    let r = random_in_range(min_r + 1, max_r);
    let dx = random_in_range(-r, r);
    assert(dx * dx <= r * r) by (nonlinear_arith)
        requires -r <= dx <= r;
    assert(r * r <= 1_600_000_000) by (nonlinear_arith)
        requires 0 <= r <= 40_000;
    assert(dx * dx >= 0) by (nonlinear_arith);
    let r2: i64 = r as i64 * r as i64;
    let dx2: i64 = dx as i64 * dx as i64;
    let rest: u32 = (r2 - dx2) as u32;
    let s = isqrt(rest);
    assert(s <= r) by (nonlinear_arith)
        requires s * s <= r * r - dx * dx, 0 <= s, 0 <= r, dx * dx >= 0;
    let dy: i32 = if chance_one_in(2) { s as i32 } else { -(s as i32) };
    assert(r * r <= max_r * max_r) by (nonlinear_arith)
        requires 0 <= r <= max_r;
    assert(dy * dy == s * s) by (nonlinear_arith)
        requires dy == s || dy == -s;
    assert((r - 1) * (r - 1) <= dx * dx + s * s) by (nonlinear_arith)
        requires
            s * s <= r * r - dx * dx,
            r * r - dx * dx < (s + 1) * (s + 1),
            0 <= s <= r,
            r >= 1;
    assert(min_r * min_r <= (r - 1) * (r - 1)) by (nonlinear_arith)
        requires 0 <= min_r <= r - 1;
    Point { x: dx, y: dy }
}

} // verus!
