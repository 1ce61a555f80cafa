use vstd::prelude::*;

verus! {

/// A point, an extent or a velocity in world space, in thousandths of a pixel.
#[derive(Clone, Copy, Debug, PartialEq, Eq, Structural)]
pub struct Vec2 {
    pub x: i32,
    pub y: i32,
}

impl Vec2 {
    pub fn new(x: i32, y: i32) -> (r: Vec2)
        ensures
            r.x == x,
            r.y == y,
    {
        Vec2 { x, y }
    }
}

/// Twice the overlap of two intervals on one axis: positive when their
/// interiors intersect, zero when they only touch.
pub open spec fn overlap_margin(ca: int, sa: int, cb: int, sb: int) -> int {
    (sa + sb) - 2 * abs_int(ca - cb)
}

pub open spec fn abs_int(v: int) -> int {
    if v < 0 {
        -v
    } else {
        v
    }
}

/// Absolute value of a component whose negation fits.
pub fn abs_i32(v: i32) -> (r: i32)
    requires
        v > i32::MIN,
    ensures
        r == abs_int(v as int),
{
    if v < 0 {
        -v
    } else {
        v
    }
}

/// Two axis-aligned rectangles, given by centre and full extent, overlap
/// strictly on both axes.
pub open spec fn overlaps(pa: Vec2, sa: Vec2, pb: Vec2, sb: Vec2) -> bool {
    &&& 2 * pa.x - sa.x < 2 * pb.x + sb.x
    &&& 2 * pa.x + sa.x > 2 * pb.x - sb.x
    &&& 2 * pa.y - sa.y < 2 * pb.y + sb.y
    &&& 2 * pa.y + sa.y > 2 * pb.y - sb.y
}

/// Overlap test between two axis-aligned rectangles given by centre and full
/// extent. Rectangles whose edges merely touch do not collide.
pub fn aabb_collision(pos_a: Vec2, size_a: Vec2, pos_b: Vec2, size_b: Vec2) -> (r: bool)
    ensures
        r == overlaps(pos_a, size_a, pos_b, size_b),
{
    let ax2 = 2 * (pos_a.x as i64);
    let ay2 = 2 * (pos_a.y as i64);
    let bx2 = 2 * (pos_b.x as i64);
    let by2 = 2 * (pos_b.y as i64);
    ax2 - (size_a.x as i64) < bx2 + (size_b.x as i64) && ax2 + (size_a.x as i64) > bx2
        - (size_b.x as i64) && ay2 - (size_a.y as i64) < by2 + (size_b.y as i64) && ay2
        + (size_a.y as i64) > by2 - (size_b.y as i64)
}

/// Rectangles that only touch along an edge (zero overlap on an axis) never
/// collide; rectangles that overlap by a positive amount on both axes always do.
pub proof fn lemma_overlap_tie_break(pa: Vec2, sa: Vec2, pb: Vec2, sb: Vec2)
    ensures
        overlap_margin(pa.x as int, sa.x as int, pb.x as int, sb.x as int) <= 0
            || overlap_margin(pa.y as int, sa.y as int, pb.y as int, sb.y as int) <= 0
            ==> !overlaps(pa, sa, pb, sb),
        overlap_margin(pa.x as int, sa.x as int, pb.x as int, sb.x as int) > 0
            && overlap_margin(pa.y as int, sa.y as int, pb.y as int, sb.y as int) > 0
            ==> overlaps(pa, sa, pb, sb),
{
}

/// Truncating division of an integer by a positive integer, rounding toward zero.
pub open spec fn div_trunc(a: int, d: int) -> int {
    if a >= 0 {
        a / d
    } else {
        -((-a) / d)
    }
}

/// `v * num / den`, rounded toward zero.
pub fn scale_trunc(v: i64, num: u64, den: u64) -> (r: i128)
    requires
        den > 0,
    ensures
        r == div_trunc(v * num, den as int),
{
    let mag: u128 = if v < 0 {
        (-(v as i128)) as u128
    } else {
        v as u128
    };
    proof {
        assert(mag * (num as int) <= 0x8000_0000_0000_0000 * 0xffff_ffff_ffff_ffff) by (nonlinear_arith)
            requires
                mag <= 0x8000_0000_0000_0000,
                num <= 0xffff_ffff_ffff_ffff,
                mag >= 0,
        ;
    }
    let q: u128 = mag * (num as u128) / (den as u128);
    proof {
        assert(q <= mag * num) by (nonlinear_arith)
            requires
                q == mag * num / (den as int),
                den >= 1,
                mag * num >= 0,
        ;
        if v < 0 {
            assert(v * num == -(mag * num)) by (nonlinear_arith)
                requires
                    mag == -v,
            ;
        } else {
            assert(v * num == mag * num);
        }
    }
    if v < 0 {
        -(q as i128)
    } else {
        q as i128
    }
}

/// Largest integer whose square does not exceed `n`.
pub open spec fn is_floor_sqrt(r: int, n: int) -> bool {
    r >= 0 && r * r <= n < (r + 1) * (r + 1)
}

/// Integer square root, rounded down.
pub fn isqrt(n: u64) -> (r: u64)
    ensures
        is_floor_sqrt(r as int, n as int),
{
    let mut lo: u64 = 0;
    let mut hi: u64 = 0x1_0000_0000;
    // lo * lo <= n < hi * hi
    while hi - lo > 1
        invariant
            lo < hi <= 0x1_0000_0000,
            lo * lo <= n,
            n < hi * hi,
        decreases hi - lo,
    {
        let mid: u64 = lo + (hi - lo) / 2;
        proof {
            assert(mid * mid <= 0x1_0000_0000 * 0x1_0000_0000) by (nonlinear_arith)
                requires
                    mid <= 0x1_0000_0000,
            ;
        }
        if (mid as u128) * (mid as u128) <= n as u128 {
            lo = mid;
        } else {
            hi = mid;
        }
    }
    lo
}

} // verus!
