use vstd::prelude::*;

use crate::components::{Ball, CollisionEvent, Paddle};
use crate::constants::{BALL_SIZE, PADDLE_HEIGHT, PADDLE_SPEED, PADDLE_WIDTH, WALL_THICKNESS, WINDOW_WIDTH};
use crate::powerup::{advance, moved};
use crate::geometry::{aabb_collision, abs_int, is_floor_sqrt, isqrt, overlaps, Vec2};

verus! {

/// Squared length of a velocity.
pub open spec fn sq_len(v: Vec2) -> int {
    v.x * v.x + v.y * v.y
}

/// A velocity whose length fits a component.
pub open spec fn speed_ok(v: Vec2) -> bool {
    sq_len(v) <= i32::MAX * i32::MAX
}

pub open spec fn floor_sqrt(n: int) -> int {
    choose|r: int| is_floor_sqrt(r, n)
}

/// Smallest integer whose square is at least `n`.
pub open spec fn is_ceil_sqrt(r: int, n: int) -> bool {
    r >= 1 && (r - 1) * (r - 1) < n <= r * r
}

pub open spec fn ceil_sqrt(n: int) -> int {
    choose|r: int| is_ceil_sqrt(r, n)
}

pub proof fn lemma_floor_sqrt_unique(r: int, n: int)
    requires
        is_floor_sqrt(r, n),
    ensures
        floor_sqrt(n) == r,
{
    let q = floor_sqrt(n);
    assert(is_floor_sqrt(q, n));
    if q < r {
        assert((q + 1) * (q + 1) <= r * r) by (nonlinear_arith)
            requires
                0 <= q + 1 <= r,
        ;
    } else if q > r {
        assert((r + 1) * (r + 1) <= q * q) by (nonlinear_arith)
            requires
                0 <= r + 1 <= q,
        ;
    }
}

pub proof fn lemma_ceil_sqrt_unique(r: int, n: int)
    requires
        is_ceil_sqrt(r, n),
    ensures
        ceil_sqrt(n) == r,
{
    let q = ceil_sqrt(n);
    assert(is_ceil_sqrt(q, n));
    if q < r {
        assert(q * q <= (r - 1) * (r - 1)) by (nonlinear_arith)
            requires
                1 <= q <= r - 1,
        ;
    } else if q > r {
        assert(r * r <= (q - 1) * (q - 1)) by (nonlinear_arith)
            requires
                1 <= r <= q - 1,
        ;
    }
}

/// Integer square root of a 128-bit value, rounded down.
pub fn isqrt_wide(n: u128) -> (r: u128)
    ensures
        is_floor_sqrt(r as int, n as int),
        r <= 0xffff_ffff_ffff_ffff,
{
    let mut lo: u128 = 0;
    let mut hi: u128 = 0x1_0000_0000_0000_0000;
    while hi - lo > 1
        invariant
            lo < hi <= 0x1_0000_0000_0000_0000,
            lo * lo <= n,
            n < hi * hi,
        decreases hi - lo,
    {
        let mid: u128 = lo + (hi - lo) / 2;
        proof {
            assert(mid * mid <= 0x1_0000_0000_0000_0000 * 0x1_0000_0000_0000_0000) by (nonlinear_arith)
                requires
                    mid <= 0x1_0000_0000_0000_0000,
            ;
        }
        if mid <= n / mid {
            proof {
                assert(mid * mid <= n) by (nonlinear_arith)
                    requires
                        mid > 0,
                        mid <= n / mid,
            ;
            }
            lo = mid;
        } else {
            proof {
                assert(n < mid * mid) by (nonlinear_arith)
                    requires
                        mid > 0,
                        mid > n / mid,
            ;
            }
            hi = mid;
        }
    }
    lo
}

/// Integer square root of a positive 128-bit value, rounded up.
pub fn ceil_sqrt_wide(n: u128) -> (r: u128)
    requires
        n >= 1,
    ensures
        is_ceil_sqrt(r as int, n as int),
        r <= 0x1_0000_0000_0000_0000,
{
    let f = isqrt_wide(n);
    proof {
        assert(f * f <= 0xffff_ffff_ffff_ffff * 0xffff_ffff_ffff_ffff) by (nonlinear_arith)
            requires
                f <= 0xffff_ffff_ffff_ffff,
        ;
    }
    if f * f == n {
        proof {
            assert(f >= 1) by (nonlinear_arith)
                requires
                    f * f == n,
                    n >= 1,
            ;
            assert((f - 1) * (f - 1) < f * f) by (nonlinear_arith)
                requires
                    f >= 1,
            ;
        }
        f
    } else {
        proof {
            assert(f * f < n);
        }
        f + 1
    }
}

/// The ball's speed, rounded down.
pub open spec fn speed_of(v: Vec2) -> int {
    floor_sqrt(sq_len(v))
}

/// Division rounded up, for a non-negative numerator and a positive divisor.
pub open spec fn div_ceil(a: int, d: int) -> int {
    (a + d - 1) / d
}

pub open spec fn sign_of(v: int) -> int {
    if v > 0 {
        1
    } else if v < 0 {
        -1
    } else {
        0
    }
}

/// Offset of the ball from the paddle centre.
pub open spec fn hit_offset(b: Ball, p: Paddle) -> int {
    b.position.x - p.position.x
}

/// Size of the horizontal velocity a paddle hit steers the ball to: the hit
/// offset as a fraction of the half width, times the speed and the steering
/// factor four fifths, rounded up.
pub open spec fn steered_size(b: Ball, p: Paddle) -> int {
    div_ceil(abs_int(hit_offset(b, p)) * speed_of(b.velocity) * 8, 5 * p.width as int)
}

/// The steered velocity is scaled up to about 2^62 before its length is taken,
/// so that rounding the length to a whole number costs no precision.
pub const SCALE_TARGET: u128 = 0x4000_0000_0000_0000;

pub open spec fn bounce_scale(b: Ball, p: Paddle) -> int {
    let x1 = steered_size(b, p);
    let y1 = -b.velocity.y;
    (SCALE_TARGET as int) / (if x1 > y1 { x1 } else { y1 })
}

/// The scaled steered velocity's length, rounded up.
pub open spec fn bounce_length(b: Ball, p: Paddle) -> int {
    let k = bounce_scale(b, p);
    let x = steered_size(b, p) * k;
    let y = -b.velocity.y * k;
    ceil_sqrt(x * x + y * y)
}

/// Velocity after a paddle bounce: upward, steered sideways by the hit
/// offset, then rescaled to the ball's speed, each component rounded away
/// from zero (so it keeps its direction).
pub open spec fn bounced_off_paddle(b: Ball, p: Paddle) -> Vec2 {
    let s = speed_of(b.velocity);
    let k = bounce_scale(b, p);
    let x = steered_size(b, p) * k;
    let y = -b.velocity.y * k;
    let l = bounce_length(b, p);
    Vec2 {
        x: (sign_of(hit_offset(b, p)) * div_ceil(x * s, l)) as i32,
        y: div_ceil(y * s, l) as i32,
    }
}

/// A bounce keeps the speed up to the rounding of each component to a whole
/// number: the new speed is at least the old one (rounded down) less one, and
/// taking one off the size of each non-zero component brings it to at most
/// the old one.
pub open spec fn speed_kept_up_to_rounding(b: Ball, v: Vec2) -> bool {
    let s = speed_of(b.velocity);
    let ax = abs_int(v.x as int);
    let ex = if ax > 0 { ax - 1 } else { 0 };
    &&& sq_len(v) >= (s - 1) * (s - 1)
    &&& ex * ex + (v.y - 1) * (v.y - 1) <= s * s
}

/// Rescaling `(x, y)` of length about `l` to speed `s`, rounding up.
proof fn lemma_rescale_bounds(x: int, y: int, s: int, l: int, a: int, c: int)
    requires
        x >= 0,
        y >= 1,
        s >= 1,
        l >= s,
        (l - 1) * (l - 1) < x * x + y * y,
        x * x + y * y <= l * l,
        a == (x * s + l - 1) / l,
        c == (y * s + l - 1) / l,
    ensures
        0 <= a <= s,
        1 <= c <= s,
        a >= 1 <==> x >= 1,
        a * a + c * c >= (s - 1) * (s - 1),
        (if a > 0 { a - 1 } else { 0 }) * (if a > 0 { a - 1 } else { 0 }) + (c - 1) * (c - 1) <= s * s,
{
    let xs = x * s;
    let ys = y * s;
    assert(xs >= 0 && ys >= 1) by (nonlinear_arith) requires xs == x * s, ys == y * s, x >= 0, y >= 1, s >= 1;
    vstd::arithmetic::div_mod::lemma_fundamental_div_mod(xs + l - 1, l);
    vstd::arithmetic::div_mod::lemma_fundamental_div_mod(ys + l - 1, l);
    let ra = (xs + l - 1) % l;
    let rc = (ys + l - 1) % l;
    assert(0 <= ra < l && 0 <= rc < l);
    // ceiling: a * l covers x * s by less than l
    assert(a * l == xs + l - 1 - ra) by (nonlinear_arith) requires l * a + ra == xs + l - 1;
    assert(c * l == ys + l - 1 - rc) by (nonlinear_arith) requires l * c + rc == ys + l - 1;
    assert(x * x <= l * l && y * y <= l * l) by (nonlinear_arith)
        requires x * x + y * y <= l * l, x >= 0, y >= 0;
    assert(x <= l) by (nonlinear_arith) requires x * x <= l * l, x >= 0, l >= 1;
    assert(y <= l) by (nonlinear_arith) requires y * y <= l * l, y >= 0, l >= 1;
    assert(xs <= l * s) by (nonlinear_arith) requires xs == x * s, x <= l, s >= 0;
    assert(ys <= l * s) by (nonlinear_arith) requires ys == y * s, y <= l, s >= 0;
    assert(a <= s) by (nonlinear_arith) requires a * l <= xs + l - 1, xs <= l * s, l >= 1;
    assert(c <= s) by (nonlinear_arith) requires c * l <= ys + l - 1, ys <= l * s, l >= 1;
    assert(a >= 0) by (nonlinear_arith) requires a * l >= xs, xs >= 0, l >= 1;
    assert(c >= 1) by (nonlinear_arith) requires c * l >= ys, ys >= 1, l >= 1;
    if x >= 1 {
        assert(xs >= 1) by (nonlinear_arith) requires xs == x * s, x >= 1, s >= 1;
        assert(a >= 1) by (nonlinear_arith) requires a * l >= xs, xs >= 1, l >= 1;
    } else {
        assert(xs == 0) by (nonlinear_arith) requires xs == x * s, x == 0;
        assert(a == 0) by (nonlinear_arith) requires a * l <= l - 1, a >= 0, l >= 1;
    }
    // lower bound
    assert(a * a * (l * l) >= xs * xs) by (nonlinear_arith) requires a * l >= xs, xs >= 0, a >= 0, l >= 1;
    assert(c * c * (l * l) >= ys * ys) by (nonlinear_arith) requires c * l >= ys, ys >= 0, c >= 0, l >= 1;
    assert(xs * xs + ys * ys == (x * x + y * y) * (s * s)) by (nonlinear_arith) requires xs == x * s, ys == y * s;
    assert((x * x + y * y) * (s * s) >= (l - 1) * (l - 1) * (s * s)) by (nonlinear_arith)
        requires (l - 1) * (l - 1) < x * x + y * y, s >= 1;
    assert((l - 1) * s >= (s - 1) * l) by (nonlinear_arith) requires l >= s;
    assert((l - 1) * (l - 1) * (s * s) >= (s - 1) * (s - 1) * (l * l)) by (nonlinear_arith)
        requires (l - 1) * s >= (s - 1) * l, (s - 1) * l >= 0, s >= 1, l >= 1;
    assert((a * a + c * c) * (l * l) >= (s - 1) * (s - 1) * (l * l)) by (nonlinear_arith)
        requires
            a * a * (l * l) >= xs * xs,
            c * c * (l * l) >= ys * ys,
            xs * xs + ys * ys == (x * x + y * y) * (s * s),
            (x * x + y * y) * (s * s) >= (l - 1) * (l - 1) * (s * s),
            (l - 1) * (l - 1) * (s * s) >= (s - 1) * (s - 1) * (l * l);
    assert(a * a + c * c >= (s - 1) * (s - 1)) by (nonlinear_arith)
        requires
            (a * a + c * c) * (l * l) >= (s - 1) * (s - 1) * (l * l),
            l >= 1;
    // upper bound
    let ea = if a > 0 { a - 1 } else { 0 };
    assert(ea * l <= xs) by (nonlinear_arith) requires ea == (if a > 0 { a - 1 } else { 0 }), a * l == xs + l - 1 - ra, 0 <= ra, xs >= 0, l >= 1, a >= 0, a == 0 ==> xs == 0;
    assert((c - 1) * l <= ys) by (nonlinear_arith) requires c * l == ys + l - 1 - rc, 0 <= rc;
    assert(ea * ea * (l * l) <= xs * xs) by (nonlinear_arith) requires 0 <= ea * l, ea * l <= xs, ea >= 0, l >= 1;
    assert((c - 1) * (c - 1) * (l * l) <= ys * ys) by (nonlinear_arith) requires 0 <= (c - 1) * l, (c - 1) * l <= ys, c >= 1, l >= 1;
    assert((x * x + y * y) * (s * s) <= (l * l) * (s * s)) by (nonlinear_arith) requires x * x + y * y <= l * l;
    assert((ea * ea + (c - 1) * (c - 1)) * (l * l) <= (l * l) * (s * s)) by (nonlinear_arith)
        requires
            ea * ea * (l * l) <= xs * xs,
            (c - 1) * (c - 1) * (l * l) <= ys * ys,
            xs * xs + ys * ys == (x * x + y * y) * (s * s),
            (x * x + y * y) * (s * s) <= (l * l) * (s * s);
    assert(ea * ea + (c - 1) * (c - 1) <= s * s) by (nonlinear_arith)
        requires
            (ea * ea + (c - 1) * (c - 1)) * (l * l) <= (l * l) * (s * s),
            l >= 1;
}

pub open spec fn paddle_extent(p: Paddle) -> Vec2 {
    Vec2 { x: p.width, y: PADDLE_HEIGHT }
}

pub open spec fn touches_paddle(b: Ball, p: Paddle) -> bool {
    overlaps(b.position, Vec2 { x: BALL_SIZE, y: BALL_SIZE }, p.position, paddle_extent(p))
}

/// The ball bounces: it touches the paddle while moving down.
pub open spec fn bounces(b: Ball, p: Paddle) -> bool {
    touches_paddle(b, p) && b.velocity.y < 0
}

/// Number of balls that bounce off the paddle.
pub open spec fn bounce_count(balls: Seq<Ball>, p: Paddle) -> nat
    decreases balls.len(),
{
    if balls.len() == 0 {
        0
    } else {
        bounce_count(balls.drop_last(), p) + if bounces(balls.last(), p) {
            1nat
        } else {
            0nat
        }
    }
}

/// Bounces one ball off the paddle. Returns the new velocity.
fn bounce(b: Ball, p: &Paddle) -> (v: Vec2)
    requires
        speed_ok(b.velocity),
        b.velocity.y < 0,
        p.width > 0,
        touches_paddle(b, *p),
    ensures
        v == bounced_off_paddle(b, *p),
        speed_kept_up_to_rounding(b, v),
        v.y >= 1,
        sign_of(v.x as int) == sign_of(hit_offset(b, *p)),
        abs_int(v.x as int) <= speed_of(b.velocity),
        v.y <= speed_of(b.velocity),
{
    let vx = b.velocity.x as i64;
    let vy = b.velocity.y as i64;
    proof {
        assert(0 <= vx * vx <= 0x4000_0000_0000_0000) by (nonlinear_arith)
            requires -0x8000_0000 <= vx <= 0x7fff_ffff;
        assert(1 <= vy * vy <= 0x4000_0000_0000_0000) by (nonlinear_arith)
            requires -0x8000_0000 <= vy <= -1;
    }
    let sq: u64 = (vx * vx) as u64 + (vy * vy) as u64;
    let s = isqrt(sq);
    proof {
        lemma_floor_sqrt_unique(s as int, sq as int);
        assert(s <= 0x7fff_ffff) by (nonlinear_arith)
            requires s * s <= sq, sq <= 0x7fff_ffff * 0x7fff_ffff, s >= 0;
        assert(s >= 1) by (nonlinear_arith) requires sq < (s + 1) * (s + 1), sq >= 1, s >= 0;
        assert(sq == sq_len(b.velocity));
    }
    let hit: i64 = b.position.x as i64 - p.position.x as i64;
    let ah: u128 = if hit < 0 { (-hit) as u128 } else { hit as u128 };
    let w: u128 = p.width as u128;
    // overlap with the paddle bounds the offset: 2 |hit| < ball + width
    assert(2 * ah < BALL_SIZE + w);
    proof {
        assert(ah * (s as int) * 8 <= 0x1_0000_0000 * 0x8000_0000 * 8) by (nonlinear_arith)
            requires 0 <= ah <= 0x1_0000_0000, 0 <= s <= 0x7fff_ffff;
        assert(ah * (s as int) * 8 >= 0) by (nonlinear_arith) requires ah >= 0, s >= 0;
    }
    let num: u128 = ah * (s as u128) * 8;
    let den: u128 = 5 * w;
    let x1: u128 = (num + den - 1) / den;
    proof {
        // the steered size is at most about twelve thousand times the speed
        assert(num < 4 * 15_001 * w * (s as int)) by (nonlinear_arith)
            requires num == ah * (s as int) * 8, 2 * ah < 15_000 + w, w >= 1, s >= 1, ah >= 0;
        assert(x1 * den <= num + den - 1) by (nonlinear_arith) requires x1 == (num + den - 1) as int / (den as int), den >= 1, num >= 0;
        assert(x1 <= 12_001 * (s as int)) by (nonlinear_arith)
            requires x1 * den <= num + den - 1, den == 5 * w, num < 4 * 15_001 * w * (s as int), w >= 1, s >= 1;
        assert(x1 <= 0x2000_0000_0000) by (nonlinear_arith) requires x1 <= 12_001 * (s as int), s <= 0x7fff_ffff;
        assert(x1 == steered_size(b, *p));
        if ah == 0 {
            assert(num == 0) by (nonlinear_arith) requires num == ah * (s as int) * 8, ah == 0;
            assert(x1 == 0) by (nonlinear_arith) requires x1 * den <= num + den - 1, num == 0, den >= 1, x1 >= 0;
        } else {
            assert(num >= 1) by (nonlinear_arith) requires num == ah * (s as int) * 8, ah >= 1, s >= 1;
            assert(x1 >= 1) by (nonlinear_arith) requires x1 == (num + den - 1) as int / (den as int), den >= 1, num >= 1;
        }
    }
    let y1: u128 = (-vy) as u128;
    let m: u128 = if x1 > y1 { x1 } else { y1 };
    let k: u128 = SCALE_TARGET / m;
    proof {
        assert(k >= 1) by (nonlinear_arith) requires k == (SCALE_TARGET as int) / (m as int), 1 <= m <= 0x2000_0000_0000;
        assert(m * k <= SCALE_TARGET) by (nonlinear_arith) requires k == (SCALE_TARGET as int) / (m as int), m >= 1;
        assert(m * k > SCALE_TARGET - m) by (nonlinear_arith) requires k == (SCALE_TARGET as int) / (m as int), m >= 1;
        assert(x1 * k <= m * k && y1 * k <= m * k) by (nonlinear_arith) requires x1 <= m, y1 <= m, k >= 0;
        assert(x1 * k >= 0 && y1 * k >= 1) by (nonlinear_arith) requires x1 >= 0, y1 >= 1, k >= 1;
        assert(k >= 1) by (nonlinear_arith) requires k == (SCALE_TARGET as int) / (m as int), 1 <= m <= 0x2000_0000_0000;
    }
    let x: u128 = x1 * k;
    let y: u128 = y1 * k;
    proof {
        assert(x * x <= SCALE_TARGET * SCALE_TARGET && y * y <= SCALE_TARGET * SCALE_TARGET) by (nonlinear_arith)
            requires 0 <= x <= SCALE_TARGET, 0 <= y <= SCALE_TARGET;
        assert(x * x >= 0 && y * y >= 1) by (nonlinear_arith) requires x >= 0, y >= 1;
    }
    let n: u128 = x * x + y * y;
    let l = ceil_sqrt_wide(n);
    proof {
        lemma_ceil_sqrt_unique(l as int, n as int);
        // the length is at least the larger scaled component, about 2^62
        let big = m * k;
        assert(big == x || big == y);
        assert(big * big <= n);
        assert(l >= big) by (nonlinear_arith) requires big * big <= l * l, big >= 0, l >= 1;
        assert(l >= 0x2000_0000_0000_0000);
        assert(x * (s as int) <= SCALE_TARGET * 0x8000_0000) by (nonlinear_arith)
            requires 0 <= x <= SCALE_TARGET, 0 <= s <= 0x7fff_ffff;
        assert(y * (s as int) <= SCALE_TARGET * 0x8000_0000) by (nonlinear_arith)
            requires 0 <= y <= SCALE_TARGET, 0 <= s <= 0x7fff_ffff;
    }
    let a: u128 = (x * (s as u128) + l - 1) / l;
    let c: u128 = (y * (s as u128) + l - 1) / l;
    proof {
        lemma_rescale_bounds(x as int, y as int, s as int, l as int, a as int, c as int);
    }
    let vx_new: i32 = if hit < 0 { -(a as i32) } else { a as i32 };
    let v = Vec2 { x: vx_new, y: c as i32 };
    proof {
        assert(k == bounce_scale(b, *p));
        assert(l == bounce_length(b, *p));
        assert(hit == hit_offset(b, *p));
        assert(hit != 0 <==> x1 >= 1);
        assert(x1 >= 1 <==> x >= 1) by (nonlinear_arith) requires x == x1 * k, k >= 1, x1 >= 0;
        assert(vx_new * vx_new == a * a) by (nonlinear_arith) requires vx_new == a || vx_new == -a;
        assert(s as int == speed_of(b.velocity));
        assert(x as int == steered_size(b, *p) * bounce_scale(b, *p));
        assert(y as int == -b.velocity.y * bounce_scale(b, *p));
        assert(a as int == div_ceil(x * (s as int), l as int));
        assert(c as int == div_ceil(y * (s as int), l as int));
        if hit > 0 {
            assert(sign_of(hit_offset(b, *p)) == 1);
        } else if hit < 0 {
            assert(sign_of(hit_offset(b, *p)) == -1);
        } else {
            assert(a == 0);
            assert(sign_of(hit_offset(b, *p)) == 0);
        }
        assert(vx_new as int == sign_of(hit_offset(b, *p)) * (a as int));
        assert(v.x == bounced_off_paddle(b, *p).x);
        assert(v.y == bounced_off_paddle(b, *p).y);
        assert(v == bounced_off_paddle(b, *p));
    }
    v
}

/// One frame of ball-paddle collisions: every ball that overlaps the paddle
/// while moving down bounces (see `bounced_off_paddle`), emitting a paddle
/// event; other balls are left alone.
pub fn ball_paddle_collision(balls: &mut Vec<Ball>, paddle: &Paddle) -> (events: Vec<CollisionEvent>)
    requires
        paddle.width > 0,
        forall|i: int| 0 <= i < old(balls)@.len() ==> speed_ok(#[trigger] old(balls)@[i].velocity),
    ensures
        final(balls)@.len() == old(balls)@.len(),
        forall|i: int|
            0 <= i < old(balls)@.len() ==> #[trigger] final(balls)@[i] == if touches_paddle(
                old(balls)@[i],
                *paddle,
            ) && old(balls)@[i].velocity.y < 0 {
                Ball { velocity: bounced_off_paddle(old(balls)@[i], *paddle), ..old(balls)@[i] }
            } else {
                old(balls)@[i]
            },
        forall|i: int|
            0 <= i < old(balls)@.len() && bounces(old(balls)@[i], *paddle) ==> {
                let v = (#[trigger] final(balls)@[i]).velocity;
                &&& speed_kept_up_to_rounding(old(balls)@[i], v)
                &&& v.y >= 1
                &&& sign_of(v.x as int) == sign_of(hit_offset(old(balls)@[i], *paddle))
            },
        events@ == Seq::new(bounce_count(old(balls)@, *paddle), |k: int| CollisionEvent::Paddle),
{
    let ghost balls0 = balls@;
    let mut events: Vec<CollisionEvent> = Vec::new();
    let mut i: usize = 0;
    while i < balls.len()
        invariant
            paddle.width > 0,
            balls@.len() == balls0.len(),
            i <= balls@.len(),
            forall|q: int| 0 <= q < balls0.len() ==> speed_ok(#[trigger] balls0[q].velocity),
            forall|q: int| i <= q < balls@.len() ==> #[trigger] balls@[q] == balls0[q],
            forall|q: int|
                0 <= q < i ==> #[trigger] balls@[q] == if touches_paddle(balls0[q], *paddle)
                    && balls0[q].velocity.y < 0 {
                    Ball { velocity: bounced_off_paddle(balls0[q], *paddle), ..balls0[q] }
                } else {
                    balls0[q]
                },
            forall|q: int|
                0 <= q < i && bounces(balls0[q], *paddle) ==> {
                    let v = (#[trigger] balls@[q]).velocity;
                    &&& speed_kept_up_to_rounding(balls0[q], v)
                    &&& v.y >= 1
                    &&& sign_of(v.x as int) == sign_of(hit_offset(balls0[q], *paddle))
                },
            events@ == Seq::new(bounce_count(balls0.take(i as int), *paddle), |k: int| CollisionEvent::Paddle),
        decreases balls@.len() - i,
    {
        let b = balls[i];
        assert(balls0.take(i + 1).drop_last() =~= balls0.take(i as int));
        if aabb_collision(
            b.position,
            Vec2 { x: BALL_SIZE, y: BALL_SIZE },
            paddle.position,
            Vec2 { x: paddle.width, y: PADDLE_HEIGHT },
        ) && b.velocity.y < 0 {
            let v = bounce(b, paddle);
            balls.set(i, Ball { velocity: v, ..b });
            events.push(CollisionEvent::Paddle);
        }
        assert(events@ =~= Seq::new(bounce_count(balls0.take(i + 1), *paddle), |k: int| CollisionEvent::Paddle));
        i = i + 1;
    }
    assert(balls0.take(i as int) =~= balls0);
    events
}


/// Farthest the paddle centre may go from the middle of the field.
pub open spec fn paddle_limit() -> int {
    WINDOW_WIDTH / 2 - WALL_THICKNESS - PADDLE_WIDTH / 2
}

pub open spec fn clamp_to(v: int, lo: int, hi: int) -> int {
    if v < lo {
        lo
    } else if v > hi {
        hi
    } else {
        v
    }
}

/// Paddle velocity from the arrow keys.
pub open spec fn key_speed(left: bool, right: bool) -> i32 {
    if left && !right {
        (-PADDLE_SPEED) as i32
    } else if right && !left {
        PADDLE_SPEED
    } else {
        0
    }
}

/// Paddle input for one frame: a touch moves the paddle straight to the touch
/// point; otherwise the left and right keys move it at paddle speed for
/// `delta` nanoseconds (both together cancel out). Either way it stays
/// between the walls.
pub fn paddle_input(paddle: &mut Paddle, left: bool, right: bool, touch_x: Option<i32>, delta: u64)
    ensures
        final(paddle).width == old(paddle).width,
        final(paddle).position.y == old(paddle).position.y,
        final(paddle).effects == old(paddle).effects,
        final(paddle).position.x == clamp_to(
            match touch_x {
                Some(x) => x as int,
                None => moved(
                    old(paddle).position.x,
                    key_speed(left, right),
                    delta,
                ),
            },
            -paddle_limit(),
            paddle_limit(),
        ),
{
    let limit: i32 = WINDOW_WIDTH / 2 - WALL_THICKNESS - PADDLE_WIDTH / 2;
    let target: i32 = match touch_x {
        Some(x) => x,
        None => {
            let speed: i32 = if left && !right {
                -PADDLE_SPEED
            } else if right && !left {
                PADDLE_SPEED
            } else {
                0
            };
            advance(paddle.position.x, speed, delta)
        },
    };
    paddle.position.x = if target < -limit {
        -limit
    } else if target > limit {
        limit
    } else {
        target
    };
}

} // verus!
