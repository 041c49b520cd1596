use vstd::prelude::*;

verus! {

/// A point of the world plane, in whole world units.
#[derive(Debug, Clone, Copy, PartialEq, Eq, Structural)]
pub struct Point {
    pub x: i32,
    pub y: i32,
}

/// Squared Euclidean distance between two points.
pub open spec fn dist_sq_spec(a: Point, b: Point) -> int {
    (a.x - b.x) * (a.x - b.x) + (a.y - b.y) * (a.y - b.y)
}

/// True when `b` lies strictly closer to `a` than `range`.
pub open spec fn within_spec(a: Point, b: Point, range: int) -> bool {
    dist_sq_spec(a, b) < range * range
}

/// True when `b` lies no farther from `a` than `range`.
pub open spec fn within_or_at_spec(a: Point, b: Point, range: int) -> bool {
    dist_sq_spec(a, b) <= range * range
}

/// True when `b` lies strictly farther from `a` than one and a half times `range`.
pub open spec fn beyond_one_and_half_spec(a: Point, b: Point, range: int) -> bool {
    4 * dist_sq_spec(a, b) > 9 * (range * range)
}

impl Point {
    pub fn new(x: i32, y: i32) -> (r: Point)
        ensures
            r.x == x,
            r.y == y,
    {
        Point { x, y }
    }
}

pub fn dist_sq(a: Point, b: Point) -> (r: u128)
    ensures
        r == dist_sq_spec(a, b),
        r <= 0x2_0000_0000_0000_0000,
{
    let dx: i128 = a.x as i128 - b.x as i128;
    let dy: i128 = a.y as i128 - b.y as i128;
    assert(dx * dx <= 0x1_0000_0000_0000_0000) by (nonlinear_arith)
        requires -0x1_0000_0000 <= dx <= 0x1_0000_0000;
    assert(dy * dy <= 0x1_0000_0000_0000_0000) by (nonlinear_arith)
        requires -0x1_0000_0000 <= dy <= 0x1_0000_0000;
    assert(dx * dx >= 0 && dy * dy >= 0) by (nonlinear_arith);
    (dx * dx + dy * dy) as u128
}

} // verus!

verus! {

/// Where a mover should head this tick.
#[derive(Debug, Clone, Copy, PartialEq, Eq, Structural)]
pub enum Steer {
    /// Leave the current velocity as it is.
    Keep,
    /// Set the velocity to zero.
    Stop,
    /// Head straight for the point at the given speed, in world units per second.
    Toward(Point, u32),
}

/// Clamp an integer into the range of `i32`.
pub open spec fn clamp_i32(v: int) -> i32 {
    if v < i32::MIN { i32::MIN } else if v > i32::MAX { i32::MAX } else { v as i32 }
}

/// `p` moved by `d`, each coordinate held at the edge of the representable world.
pub open spec fn translate_spec(p: Point, d: Point) -> Point {
    Point { x: clamp_i32(p.x + d.x), y: clamp_i32(p.y + d.y) }
}

pub fn translate(p: Point, d: Point) -> (r: Point)
    ensures
        r == translate_spec(p, d),
{
    let x: i64 = p.x as i64 + d.x as i64;
    let y: i64 = p.y as i64 + d.y as i64;
    let cx: i32 = if x < i32::MIN as i64 { i32::MIN } else if x > i32::MAX as i64 { i32::MAX } else { x as i32 };
    let cy: i32 = if y < i32::MIN as i64 { i32::MIN } else if y > i32::MAX as i64 { i32::MAX } else { y as i32 };
    Point { x: cx, y: cy }
}

/// A squared distance is never negative.
pub proof fn lemma_dist_sq_bound(a: Point, b: Point)
    ensures
        0 <= dist_sq_spec(a, b),
{
    assert((a.x - b.x) * (a.x - b.x) >= 0) by (nonlinear_arith);
    assert((a.y - b.y) * (a.y - b.y) >= 0) by (nonlinear_arith);
}

proof fn lemma_square_u32(r: u32)
    ensures
        0 <= (r as u128) * (r as u128) <= 0x1_0000_0000_0000_0000,
{
    assert(0 <= (r as u128) * (r as u128) <= 0x1_0000_0000_0000_0000) by (nonlinear_arith)
        requires r <= 0xffff_ffff;
}

/// Whether `b` lies strictly closer to `a` than `range`.
pub fn within(a: Point, b: Point, range: u32) -> (r: bool)
    ensures
        r == within_spec(a, b, range as int),
{
    let d = dist_sq(a, b);
    proof { lemma_square_u32(range); }
    d < range as u128 * range as u128
}

/// Whether `b` lies no farther from `a` than `range`.
pub fn within_or_at(a: Point, b: Point, range: u32) -> (r: bool)
    ensures
        r == within_or_at_spec(a, b, range as int),
{
    let d = dist_sq(a, b);
    proof { lemma_square_u32(range); }
    d <= range as u128 * range as u128
}

/// Whether `b` lies strictly farther from `a` than one and a half times `range`.
pub fn beyond_one_and_half(a: Point, b: Point, range: u32) -> (r: bool)
    ensures
        r == beyond_one_and_half_spec(a, b, range as int),
{
    let d = dist_sq(a, b);
    proof { lemma_square_u32(range); }
    4 * d > 9 * (range as u128 * range as u128)
}

} // verus!
