use vstd::prelude::*;

use crate::components::{ActiveEffect, Ball, Paddle, PowerUp, PowerUpEffects, PowerUpType};
use crate::constants::{
    FIREBALL_DURATION, NANOS_PER_SECOND, PADDLE_HEIGHT, PADDLE_WIDTH, POWERUP_SIZE,
    SLOW_BALL_DURATION, SLOW_BALL_FIFTHS, WIDE_PADDLE_DURATION, WIDE_PADDLE_WIDTH, WINDOW_HEIGHT,
};
use crate::geometry::{aabb_collision, div_trunc, overlaps, scale_trunc, Vec2};
use crate::resources::{spec_level_speed, Level, MAX_LEVEL};
use crate::paddle::{ceil_sqrt, ceil_sqrt_wide, lemma_ceil_sqrt_unique, sq_len, speed_ok};
use crate::timer::Timer;

verus! {

/// The paddle's active effects; none when the list is absent.
pub open spec fn effects_of(p: Paddle) -> Seq<ActiveEffect> {
    match p.effects {
        Some(e) => e.effects@,
        None => Seq::empty(),
    }
}

pub open spec fn has_effect(effects: Seq<ActiveEffect>, t: PowerUpType) -> bool {
    exists|i: int| 0 <= i < effects.len() && (#[trigger] effects[i]).effect_type == t
}

/// The effects other than those of type `t`, in order.
pub open spec fn without_type(effects: Seq<ActiveEffect>, t: PowerUpType) -> Seq<ActiveEffect>
    decreases effects.len(),
{
    if effects.len() == 0 {
        Seq::empty()
    } else {
        let rest = without_type(effects.drop_last(), t);
        if effects.last().effect_type == t {
            rest
        } else {
            rest.push(effects.last())
        }
    }
}

/// An effect of type `t` with its full duration ahead of it.
pub open spec fn fresh_effect(t: PowerUpType, duration: u64) -> ActiveEffect {
    ActiveEffect { effect_type: t, timer: Timer { duration, elapsed: 0, just_finished: false } }
}

/// The paddle's effects after a pickup of type `t`: any entry of that type is
/// replaced by a fresh one, placed last.
pub open spec fn refreshed(before: Paddle, after: Paddle, t: PowerUpType, duration: u64) -> bool {
    &&& after.effects is Some
    &&& effects_of(after) == without_type(effects_of(before), t).push(fresh_effect(t, duration))
    &&& after.position == before.position
}

pub proof fn lemma_without_type(effects: Seq<ActiveEffect>, t: PowerUpType)
    ensures
        !has_effect(without_type(effects, t), t),
    decreases effects.len(),
{
    if effects.len() > 0 {
        lemma_without_type(effects.drop_last(), t);
        let rest = without_type(effects.drop_last(), t);
        let w = without_type(effects, t);
        if has_effect(w, t) {
            let k = choose|k: int| 0 <= k < w.len() && (#[trigger] w[k]).effect_type == t;
            if k < rest.len() {
                assert(rest[k].effect_type == t);
            }
        }
    }
}

proof fn lemma_without_type_keeps(effects: Seq<ActiveEffect>, u: PowerUpType, t: PowerUpType)
    requires
        t != u,
        has_effect(effects, t),
    ensures
        has_effect(without_type(effects, u), t),
    decreases effects.len(),
{
    let rest = without_type(effects.drop_last(), u);
    let w = without_type(effects, u);
    let i = choose|i: int| 0 <= i < effects.len() && (#[trigger] effects[i]).effect_type == t;
    if i == effects.len() - 1 {
        assert(w[w.len() - 1].effect_type == t);
    } else {
        assert(effects.drop_last()[i].effect_type == t);
        lemma_without_type_keeps(effects.drop_last(), u, t);
        let k = choose|k: int| 0 <= k < rest.len() && (#[trigger] rest[k]).effect_type == t;
        assert(w[k] == rest[k]);
    }
}

/// After a refresh of type `u`, that effect is active and so is every effect
/// that was.
pub proof fn lemma_refresh_keeps(before: Paddle, after: Paddle, u: PowerUpType, duration: u64, t: PowerUpType)
    requires
        refreshed(before, after, u, duration),
        t == u || has_effect(effects_of(before), t),
    ensures
        has_effect(effects_of(after), t),
{
    let e = effects_of(after);
    if t == u {
        assert(e[e.len() - 1].effect_type == t);
    } else {
        lemma_without_type_keeps(effects_of(before), u, t);
        let w = without_type(effects_of(before), u);
        let k = choose|k: int| 0 <= k < w.len() && (#[trigger] w[k]).effect_type == t;
        assert(e[k] == w[k]);
    }
}

fn same_type(a: PowerUpType, b: PowerUpType) -> (r: bool)
    ensures
        r == (a == b),
{
    match (a, b) {
        (PowerUpType::WidePaddle, PowerUpType::WidePaddle) => true,
        (PowerUpType::MultiBall, PowerUpType::MultiBall) => true,
        (PowerUpType::SlowBall, PowerUpType::SlowBall) => true,
        (PowerUpType::FireBall, PowerUpType::FireBall) => true,
        _ => false,
    }
}

/// Starts or restarts the timed effect of type `t` on the paddle. Returns
/// whether it was already active.
pub fn refresh_effect(paddle: &mut Paddle, t: PowerUpType, duration: u64) -> (was_active: bool)
    ensures
        was_active == has_effect(effects_of(*old(paddle)), t),
        refreshed(*old(paddle), *final(paddle), t, duration),
        final(paddle).width == old(paddle).width,
{
    let mut kept: Vec<ActiveEffect> = Vec::new();
    let mut was_active = false;
    let ghost e0 = effects_of(*paddle);
    match &paddle.effects {
        Some(list) => {
            let mut i: usize = 0;
            while i < list.effects.len()
                invariant
                    e0 == list.effects@,
                    i <= list.effects@.len(),
                    kept@ == without_type(list.effects@.take(i as int), t),
                    was_active == has_effect(list.effects@.take(i as int), t),
                decreases list.effects@.len() - i,
            {
                let e = list.effects[i];
                let ghost pre = list.effects@.take(i as int);
                let ghost nxt = list.effects@.take(i + 1);
                assert(nxt.drop_last() =~= pre);
                if same_type(e.effect_type, t) {
                    was_active = true;
                    assert(nxt[i as int].effect_type == t);
                } else {
                    kept.push(e);
                    proof {
                        if has_effect(nxt, t) {
                            let k = choose|k: int| 0 <= k < nxt.len() && (#[trigger] nxt[k]).effect_type == t;
                            assert(pre[k].effect_type == t);
                        }
                    }
                }
                proof {
                    if was_active {
                        if has_effect(pre, t) {
                            let k = choose|k: int| 0 <= k < pre.len() && (#[trigger] pre[k]).effect_type == t;
                            assert(nxt[k].effect_type == t);
                        }
                    }
                }
                i = i + 1;
            }
            assert(list.effects@.take(i as int) =~= list.effects@);
        },
        None => {
            assert(kept@ =~= without_type(e0, t));
        },
    }
    kept.push(ActiveEffect { effect_type: t, timer: Timer::from_nanos(duration) });
    paddle.effects = Some(PowerUpEffects { effects: kept });
    was_active
}

/// A wide-paddle pickup: widens the paddle unless the effect is already
/// active, and (re)starts the effect's full duration either way.
pub open spec fn wide_paddle_applied(before: Paddle, after: Paddle) -> bool {
    &&& refreshed(before, after, PowerUpType::WidePaddle, WIDE_PADDLE_DURATION)
    &&& after.width == if has_effect(effects_of(before), PowerUpType::WidePaddle) {
        before.width
    } else {
        WIDE_PADDLE_WIDTH
    }
}

pub fn apply_wide_paddle(paddle: &mut Paddle)
    ensures
        wide_paddle_applied(*old(paddle), *final(paddle)),
{
    let was_active = refresh_effect(paddle, PowerUpType::WidePaddle, WIDE_PADDLE_DURATION);
    if !was_active {
        paddle.width = WIDE_PADDLE_WIDTH;
    }
}

/// A second wide-paddle pickup before the first expires leaves the width as
/// the first one set it, and restarts the effect at its full duration, as the
/// only wide-paddle entry.
pub proof fn lemma_wide_paddle_twice(before: Paddle, after: Paddle, again: Paddle)
    requires
        wide_paddle_applied(before, after),
        wide_paddle_applied(after, again),
    ensures
        again.width == after.width,
        effects_of(again).last() == fresh_effect(PowerUpType::WidePaddle, WIDE_PADDLE_DURATION),
        !has_effect(effects_of(again).drop_last(), PowerUpType::WidePaddle),
{
    let e1 = effects_of(after);
    assert(e1[e1.len() - 1].effect_type == PowerUpType::WidePaddle);
    assert(has_effect(e1, PowerUpType::WidePaddle));
    lemma_without_type(e1, PowerUpType::WidePaddle);
    assert(effects_of(again).drop_last() =~= without_type(e1, PowerUpType::WidePaddle));
}

/// Velocity slowed to three fifths, each component rounded toward zero.
pub open spec fn slowed(v: Vec2) -> Vec2 {
    Vec2 {
        x: div_trunc(v.x * SLOW_BALL_FIFTHS, 5) as i32,
        y: div_trunc(v.y * SLOW_BALL_FIFTHS, 5) as i32,
    }
}

fn slow_component(c: i32) -> (r: i32)
    ensures
        r == div_trunc(c * SLOW_BALL_FIFTHS, 5),
{
    let f: i64 = SLOW_BALL_FIFTHS as i64;
    assert(-0x2_0000_0000 <= c as i64 * f <= 0x2_0000_0000) by (nonlinear_arith)
        requires
            f == 3,
            -0x8000_0000 <= c <= 0x7fff_ffff,
    ;
    let m: i64 = c as i64 * f;
    if m < 0 {
        (-((-m) / 5)) as i32
    } else {
        (m / 5) as i32
    }
}

/// A slow-ball pickup: slows every ball unless the effect is already active,
/// and (re)starts the effect's full duration either way.
pub fn apply_slow_ball(paddle: &mut Paddle, balls: &mut Vec<Ball>)
    ensures
        refreshed(*old(paddle), *final(paddle), PowerUpType::SlowBall, SLOW_BALL_DURATION),
        final(paddle).width == old(paddle).width,
        final(balls)@.len() == old(balls)@.len(),
        forall|i: int|
            0 <= i < old(balls)@.len() ==> #[trigger] final(balls)@[i] == if has_effect(
                effects_of(*old(paddle)),
                PowerUpType::SlowBall,
            ) {
                old(balls)@[i]
            } else {
                Ball { velocity: slowed(old(balls)@[i].velocity), ..old(balls)@[i] }
            },
{
    let was_active = refresh_effect(paddle, PowerUpType::SlowBall, SLOW_BALL_DURATION);
    if !was_active {
        let ghost b0 = balls@;
        let mut i: usize = 0;
        while i < balls.len()
            invariant
                balls@.len() == b0.len(),
                i <= balls@.len(),
                forall|q: int| i <= q < balls@.len() ==> #[trigger] balls@[q] == b0[q],
                forall|q: int|
                    0 <= q < i ==> #[trigger] balls@[q] == (Ball { velocity: slowed(b0[q].velocity), ..b0[q] }),
            decreases balls@.len() - i,
        {
            let b = balls[i];
            let v = Vec2 { x: slow_component(b.velocity.x), y: slow_component(b.velocity.y) };
            balls.set(i, Ball { velocity: v, ..b });
            i = i + 1;
        }
    }
}


/// Rotating a vector scales its squared length by `c * c + s * s`.
proof fn lemma_rotation_norm(x: int, y: int, c: int, s: int)
    ensures
        (x * c - y * s) * (x * c - y * s) + (x * s + y * c) * (x * s + y * c) == (x * x + y * y) * (
        c * c + s * s),
{
    let p = x * c;
    let q = y * s;
    let r = x * s;
    let t = y * c;
    assert((p - q) * (p - q) == p * p - 2 * (p * q) + q * q) by (nonlinear_arith);
    assert((r + t) * (r + t) == r * r + 2 * (r * t) + t * t) by (nonlinear_arith);
    vstd::arithmetic::mul::lemma_mul_is_associative(x, c, y * s);
    vstd::arithmetic::mul::lemma_mul_is_associative(x, s, y * c);
    assert(c * (y * s) == s * (y * c)) by (nonlinear_arith);
    assert(p * q == r * t);
    assert(p * p == (x * x) * (c * c)) by (nonlinear_arith) requires p == x * c;
    assert(q * q == (y * y) * (s * s)) by (nonlinear_arith) requires q == y * s;
    assert(r * r == (x * x) * (s * s)) by (nonlinear_arith) requires r == x * s;
    assert(t * t == (y * y) * (c * c)) by (nonlinear_arith) requires t == y * c;
    assert((x * x + y * y) * (c * c + s * s) == (x * x) * (c * c) + (x * x) * (s * s) + (y * y) * (
    c * c) + (y * y) * (s * s)) by (nonlinear_arith);
}

/// Cosine and sine of the multi-ball spread angle (30 degrees), in
/// millionths.
pub const SPREAD_COS: i64 = 866_025;
pub const SPREAD_SIN: i64 = 500_000;

/// The velocity turned by the spread angle, counter-clockwise when `ccw`,
/// each component rounded toward zero.
pub open spec fn rotated(v: Vec2, ccw: bool) -> Vec2 {
    let s: int = if ccw { SPREAD_SIN as int } else { -SPREAD_SIN };
    Vec2 {
        x: div_trunc(v.x * SPREAD_COS - v.y * s, 1_000_000) as i32,
        y: div_trunc(v.x * s + v.y * SPREAD_COS, 1_000_000) as i32,
    }
}

fn trunc_million(a: i64) -> (r: i64)
    ensures
        r == div_trunc(a as int, 1_000_000),
{
    if a < 0 {
        -((-(a as i128)) / 1_000_000) as i64
    } else {
        a / 1_000_000
    }
}

#[verifier::spinoff_prover]
#[verifier::rlimit(50)]
fn rotate(v: Vec2, ccw: bool) -> (r: Vec2)
    requires
        speed_ok(v),
    ensures
        r == rotated(v, ccw),
        speed_ok(r),
        sq_len(r) <= sq_len(v),
{
    let c: i64 = SPREAD_COS;
    let s: i64 = if ccw { SPREAD_SIN } else { -SPREAD_SIN };
    let vx = v.x as i64;
    let vy = v.y as i64;
    proof {
        assert(-0x10_0000_0000_0000 <= vx * c <= 0x10_0000_0000_0000) by (nonlinear_arith)
            requires -0x8000_0000 <= vx <= 0x8000_0000, c == 866_025;
        assert(-0x10_0000_0000_0000 <= vy * s <= 0x10_0000_0000_0000) by (nonlinear_arith)
            requires -0x8000_0000 <= vy <= 0x8000_0000, s == 500_000 || s == -500_000;
        assert(-0x10_0000_0000_0000 <= vx * s <= 0x10_0000_0000_0000) by (nonlinear_arith)
            requires -0x8000_0000 <= vx <= 0x8000_0000, s == 500_000 || s == -500_000;
        assert(-0x10_0000_0000_0000 <= vy * c <= 0x10_0000_0000_0000) by (nonlinear_arith)
            requires -0x8000_0000 <= vy <= 0x8000_0000, c == 866_025;
    }
    let a = vx * c - vy * s;
    let b = vx * s + vy * c;
    let nx = trunc_million(a);
    let ny = trunc_million(b);
    proof {
        let n2 = vx * vx + vy * vy;
        lemma_rotation_norm(vx as int, vy as int, c as int, s as int);
        assert(c * c + s * s <= 1_000_000_000_000) by (nonlinear_arith)
            requires c == 866_025, s == 500_000 || s == -500_000;
        assert(n2 >= 0) by (nonlinear_arith) requires n2 == vx * vx + vy * vy;
        assert(a * a + b * b <= n2 * 1_000_000_000_000) by (nonlinear_arith)
            requires a * a + b * b == n2 * (c * c + s * s), c * c + s * s <= 1_000_000_000_000, n2 >= 0;
        assert(nx * nx * 1_000_000_000_000 <= a * a) by (nonlinear_arith)
            requires nx == div_trunc(a as int, 1_000_000);
        assert(ny * ny * 1_000_000_000_000 <= b * b) by (nonlinear_arith)
            requires ny == div_trunc(b as int, 1_000_000);
        assert(nx * nx + ny * ny <= n2) by (nonlinear_arith)
            requires
                nx * nx * 1_000_000_000_000 <= a * a,
                ny * ny * 1_000_000_000_000 <= b * b,
                a * a + b * b <= n2 * 1_000_000_000_000;
        assert(nx * nx >= 0 && ny * ny >= 0) by (nonlinear_arith);
        assert(n2 == sq_len(v));
        assert(nx * nx <= 0x7fff_ffff * 0x7fff_ffff);
        assert(ny * ny <= 0x7fff_ffff * 0x7fff_ffff);
        assert(-0x7fff_ffff <= nx <= 0x7fff_ffff) by (nonlinear_arith)
            requires nx * nx <= 0x7fff_ffff * 0x7fff_ffff;
        assert(-0x7fff_ffff <= ny <= 0x7fff_ffff) by (nonlinear_arith)
            requires ny * ny <= 0x7fff_ffff * 0x7fff_ffff;
    }
    Vec2 { x: nx as i32, y: ny as i32 }
}

/// Multi-ball: two more balls start from the first ball's position, its
/// velocity turned one way and the other by the spread angle. Without a ball
/// nothing happens.
pub fn spawn_extra_balls(balls: &mut Vec<Ball>)
    requires
        forall|i: int| 0 <= i < old(balls)@.len() ==> speed_ok(#[trigger] old(balls)@[i].velocity),
    ensures
        old(balls)@.len() == 0 ==> final(balls)@ == old(balls)@,
        old(balls)@.len() > 0 ==> final(balls)@ == old(balls)@.push(
            Ball { position: old(balls)@[0].position, velocity: rotated(old(balls)@[0].velocity, true) },
        ).push(
            Ball { position: old(balls)@[0].position, velocity: rotated(old(balls)@[0].velocity, false) },
        ),
        forall|i: int| 0 <= i < final(balls)@.len() ==> speed_ok(#[trigger] final(balls)@[i].velocity),
{
    if balls.len() == 0 {
        return ;
    }
    let first = balls[0];
    let a = rotate(first.velocity, true);
    let b = rotate(first.velocity, false);
    balls.push(Ball { position: first.position, velocity: a });
    balls.push(Ball { position: first.position, velocity: b });
}

/// A new ball at the centre of the field, heading down and slightly right
/// (0.15 across for each unit down) at the level's speed.
pub fn spawn_ball(level: &Level) -> (b: Ball)
    requires
        1 <= level.current <= MAX_LEVEL,
    ensures
        b.position == (Vec2 { x: 0, y: 0 }),
        b.velocity == rescaled(Vec2 { x: 150_000, y: -1_000_000i32 }, spec_level_speed(level.current) as i32),
        speed_ok(b.velocity),
{
    let speed = level.ball_speed();
    let dir = Vec2 { x: 150_000, y: -1_000_000 };
    assert(dir.x * dir.x + dir.y * dir.y == 1_022_500_000_000) by (nonlinear_arith)
        requires
            dir.x == 150_000,
            dir.y == -1_000_000,
    ;
    Ball { position: Vec2 { x: 0, y: 0 }, velocity: rescale(dir, speed) }
}

/// A velocity turned to the same direction with length `target`, each
/// component rounded toward zero; a zero velocity stays zero.
pub open spec fn rescaled(v: Vec2, target: i32) -> Vec2 {
    if v.x == 0 && v.y == 0 {
        v
    } else {
        let l = ceil_sqrt(sq_len(v));
        Vec2 { x: div_trunc(v.x * target, l) as i32, y: div_trunc(v.y * target, l) as i32 }
    }
}

fn scale_component(c: i32, target: i32, l: u128) -> (r: i32)
    requires
        1 <= l <= 0x1_0000_0000_0000_0000,
        target >= 0,
        c * c <= l * l,
    ensures
        r == div_trunc(c * target, l as int),
        r * r * (l * l) <= c * c * target * target,
{
    let li = l as i128;
    proof {
        assert(-0x8000_0000 * 0x8000_0000 <= c * target <= 0x8000_0000 * 0x8000_0000) by (nonlinear_arith)
            requires -0x8000_0000 <= c <= 0x8000_0000, 0 <= target <= 0x8000_0000;
    }
    let p = c as i128 * target as i128;
    let ap: i128 = if p < 0 { -p } else { p };
    let q = ap / li;
    proof {
        let ac = if c < 0 { -(c as int) } else { c as int };
        assert(ap == ac * target) by (nonlinear_arith)
            requires p == c * target, ap == if p < 0 { -(p as int) } else { p as int }, ac == if c < 0 { -(c as int) } else { c as int }, target >= 0;
        assert(ac <= l) by (nonlinear_arith) requires ac == if c < 0 { -(c as int) } else { c as int }, c * c <= l * l, l >= 1;
        assert(q <= target) by (nonlinear_arith) requires q == (ap as int) / (li as int), ap == ac * target, ac <= l, li == l, l >= 1, target >= 0, ac >= 0;
        assert(q >= 0) by (nonlinear_arith) requires q == (ap as int) / (li as int), ap >= 0, li >= 1;
        assert(q * li <= ap) by (nonlinear_arith) requires q == (ap as int) / (li as int), ap >= 0, li >= 1;
        assert(ac * ac == c * c) by (nonlinear_arith) requires ac == if c < 0 { -(c as int) } else { c as int };
        assert(q * q * (l * l) <= c * c * target * target) by (nonlinear_arith)
            requires 0 <= q * li <= ap, q >= 0, li == l, ap == ac * target, ac * ac == c * c, target >= 0, ac >= 0;
    }
    let r: i32 = if p < 0 { -(q as i32) } else { q as i32 };
    proof {
        assert(r * r == q * q) by (nonlinear_arith) requires r == q || r == -q;
    }
    r
}

pub fn rescale(v: Vec2, target: i32) -> (r: Vec2)
    requires
        speed_ok(v),
        target >= 0,
    ensures
        r == rescaled(v, target),
        sq_len(r) <= target * target,
        speed_ok(r),
{
    if v.x == 0 && v.y == 0 {
        proof {
            assert(sq_len(v) == 0);
            assert(target * target >= 0) by (nonlinear_arith);
        }
        return v;
    }
    let vx = v.x as i128;
    let vy = v.y as i128;
    proof {
        assert(0 <= vx * vx <= 0x4000_0000_0000_0000) by (nonlinear_arith) requires -0x8000_0000 <= vx <= 0x8000_0000;
        assert(0 <= vy * vy <= 0x4000_0000_0000_0000) by (nonlinear_arith) requires -0x8000_0000 <= vy <= 0x8000_0000;
        assert(vx * vx + vy * vy >= 1) by (nonlinear_arith) requires vx != 0 || vy != 0;
    }
    let n: u128 = (vx * vx) as u128 + (vy * vy) as u128;
    let l = ceil_sqrt_wide(n);
    proof {
        lemma_ceil_sqrt_unique(l as int, n as int);
        assert(vx * vx <= l * l && vy * vy <= l * l);
    }
    let x = scale_component(v.x, target, l);
    let y = scale_component(v.y, target, l);
    proof {
        let t2 = (target as int) * (target as int);
        assert((x * x + y * y) * (l * l) <= (vx * vx + vy * vy) * t2) by (nonlinear_arith)
            requires
                x * x * (l * l) <= vx * vx * target * target,
                y * y * (l * l) <= vy * vy * target * target,
                t2 == (target as int) * (target as int);
        assert(x * x + y * y <= t2) by (nonlinear_arith)
            requires
                (x * x + y * y) * (l * l) <= (vx * vx + vy * vy) * t2,
                vx * vx + vy * vy <= l * l,
                l >= 1,
                t2 >= 0;
        assert(t2 <= 0x7fff_ffff * 0x7fff_ffff) by (nonlinear_arith) requires 0 <= target <= 0x7fff_ffff, t2 == (target as int) * (target as int);
    }
    Vec2 { x, y }
}


/// Every effect timer is well formed.
pub open spec fn effects_wf(effects: Seq<ActiveEffect>) -> bool {
    forall|i: int| 0 <= i < effects.len() ==> (#[trigger] effects[i]).timer.wf()
}

/// The effects after `delta` more nanoseconds.
pub open spec fn ticked(effects: Seq<ActiveEffect>, delta: u64) -> Seq<ActiveEffect> {
    Seq::new(
        effects.len(),
        |i: int| ActiveEffect { effect_type: effects[i].effect_type, timer: effects[i].timer.spec_tick(delta) },
    )
}

/// Ticked effects that did not finish on this tick, in order.
pub open spec fn still_running(effects: Seq<ActiveEffect>) -> Seq<ActiveEffect>
    decreases effects.len(),
{
    if effects.len() == 0 {
        Seq::empty()
    } else {
        let rest = still_running(effects.drop_last());
        if effects.last().timer.just_finished {
            rest
        } else {
            rest.push(effects.last())
        }
    }
}

/// Some effect of type `t` finished on this tick.
pub open spec fn expired(effects: Seq<ActiveEffect>, t: PowerUpType) -> bool {
    exists|i: int| 0 <= i < effects.len() && (#[trigger] effects[i]).timer.just_finished && effects[i].effect_type == t
}

/// Advances every active effect by `delta` nanoseconds and reverts those that
/// run out: the paddle returns to its base width when the wide paddle ends,
/// and every ball is set to the level's canonical speed, keeping its
/// direction, when the slow ball ends. Effects that ran out are dropped, and
/// the effect list itself is removed once it is empty.
pub fn update_powerup_effects(paddle: &mut Paddle, balls: &mut Vec<Ball>, level: &Level, delta: u64)
    requires
        effects_wf(effects_of(*old(paddle))),
        1 <= level.current <= MAX_LEVEL,
        forall|i: int| 0 <= i < old(balls)@.len() ==> speed_ok(#[trigger] old(balls)@[i].velocity),
    ensures
        final(paddle).position == old(paddle).position,
        final(balls)@.len() == old(balls)@.len(),
        forall|i: int| 0 <= i < final(balls)@.len() ==> speed_ok(#[trigger] final(balls)@[i].velocity),
        old(paddle).effects is None ==> final(paddle).width == old(paddle).width && final(paddle).effects is None
            && final(balls)@ == old(balls)@,
        old(paddle).effects is Some ==> {
            let t = ticked(effects_of(*old(paddle)), delta);
            &&& effects_of(*final(paddle)) == still_running(t)
            &&& (final(paddle).effects is None <==> still_running(t).len() == 0)
            &&& final(paddle).width == if expired(t, PowerUpType::WidePaddle) {
                PADDLE_WIDTH
            } else {
                old(paddle).width
            }
            &&& forall|i: int|
                0 <= i < old(balls)@.len() ==> #[trigger] final(balls)@[i] == if expired(t, PowerUpType::SlowBall) {
                    Ball { velocity: rescaled(old(balls)@[i].velocity, spec_level_speed(level.current) as i32), ..old(balls)@[i] }
                } else {
                    old(balls)@[i]
                }
        },
{
    let ghost e0 = effects_of(*paddle);
    let ghost t = ticked(e0, delta);
    let mut kept: Vec<ActiveEffect> = Vec::new();
    let mut wide_expired = false;
    let mut slow_expired = false;
    match &paddle.effects {
        None => {
            return ;
        },
        Some(list) => {
            let mut i: usize = 0;
            while i < list.effects.len()
                invariant
                    e0 == list.effects@,
                    t == ticked(e0, delta),
                    effects_wf(e0),
                    i <= e0.len(),
                    kept@ == still_running(t.take(i as int)),
                    wide_expired == expired(t.take(i as int), PowerUpType::WidePaddle),
                    slow_expired == expired(t.take(i as int), PowerUpType::SlowBall),
                decreases e0.len() - i,
            {
                let mut e = list.effects[i];
                e.timer.tick(delta);
                let ghost pre = t.take(i as int);
                let ghost nxt = t.take(i + 1);
                assert(nxt.drop_last() =~= pre);
                assert(nxt.last() == e);
                if e.timer.just_finished {
                    if same_type(e.effect_type, PowerUpType::WidePaddle) {
                        wide_expired = true;
                    }
                    if same_type(e.effect_type, PowerUpType::SlowBall) {
                        slow_expired = true;
                    }
                } else {
                    kept.push(e);
                }
                proof {
                    assert forall|u: PowerUpType| expired(nxt, u) == (expired(pre, u) || (e.timer.just_finished && e.effect_type == u)) by {
                        if expired(nxt, u) {
                            let k = choose|k: int| 0 <= k < nxt.len() && (#[trigger] nxt[k]).timer.just_finished && nxt[k].effect_type == u;
                            if k < pre.len() {
                                assert(pre[k] == nxt[k]);
                            }
                        }
                        if expired(pre, u) {
                            let k = choose|k: int| 0 <= k < pre.len() && (#[trigger] pre[k]).timer.just_finished && pre[k].effect_type == u;
                            assert(nxt[k] == pre[k]);
                        }
                    }
                }
                i = i + 1;
            }
            assert(t.take(i as int) =~= t);
        },
    }
    if wide_expired {
        paddle.width = PADDLE_WIDTH;
    }
    if slow_expired {
        let target = level.ball_speed();
        let ghost b0 = balls@;
        let mut i: usize = 0;
        while i < balls.len()
            invariant
                balls@.len() == b0.len(),
                i <= balls@.len(),
                target == spec_level_speed(level.current),
                target > 0,
                forall|q: int| 0 <= q < b0.len() ==> speed_ok(#[trigger] b0[q].velocity),
                forall|q: int| i <= q < balls@.len() ==> #[trigger] balls@[q] == b0[q],
                forall|q: int| 0 <= q < i ==> #[trigger] balls@[q] == (Ball { velocity: rescaled(b0[q].velocity, target), ..b0[q] }),
                forall|q: int| 0 <= q < balls@.len() ==> speed_ok(#[trigger] balls@[q].velocity),
            decreases balls@.len() - i,
        {
            let b = balls[i];
            let v = rescale(b.velocity, target);
            balls.set(i, Ball { velocity: v, ..b });
            i = i + 1;
        }
    }
    if kept.len() == 0 {
        paddle.effects = None;
    } else {
        paddle.effects = Some(PowerUpEffects { effects: kept });
    }
}

/// A pickup touches the paddle.
pub open spec fn caught(p: PowerUp, paddle_pos: Vec2, width: i32) -> bool {
    overlaps(p.position, Vec2 { x: POWERUP_SIZE, y: POWERUP_SIZE }, paddle_pos, Vec2 { x: width, y: PADDLE_HEIGHT })
}

/// The pickups that do not touch the paddle, in order.
pub open spec fn uncaught(ps: Seq<PowerUp>, paddle_pos: Vec2, width: i32) -> Seq<PowerUp>
    decreases ps.len(),
{
    if ps.len() == 0 {
        Seq::empty()
    } else {
        let rest = uncaught(ps.drop_last(), paddle_pos, width);
        if caught(ps.last(), paddle_pos, width) {
            rest
        } else {
            rest.push(ps.last())
        }
    }
}

/// Every ball slowed to three fifths.
pub open spec fn slowed_balls(balls: Seq<Ball>) -> Seq<Ball> {
    Seq::new(balls.len(), |i: int| Ball { velocity: slowed(balls[i].velocity), ..balls[i] })
}

/// The balls after a multi-ball pickup: two more from the first ball, turned
/// one way and the other; none without a ball.
pub open spec fn with_extra_balls(balls: Seq<Ball>) -> Seq<Ball> {
    if balls.len() == 0 {
        balls
    } else {
        balls.push(Ball { position: balls[0].position, velocity: rotated(balls[0].velocity, true) }).push(
            Ball { position: balls[0].position, velocity: rotated(balls[0].velocity, false) },
        )
    }
}

/// The paddle and balls after one pickup of kind `t`: the wide paddle widens
/// the paddle unless already active; multi-ball adds two balls and leaves the
/// paddle as it was; the slow ball slows every ball unless already active;
/// the fireball only starts its effect. Each timed kind (re)starts its effect.
pub open spec fn powerup_applied(t: PowerUpType, paddle: Paddle, balls: Seq<Ball>, paddle2: Paddle, balls2: Seq<Ball>) -> bool {
    match t {
        PowerUpType::WidePaddle => wide_paddle_applied(paddle, paddle2) && balls2 == balls,
        PowerUpType::MultiBall => paddle2 == paddle && balls2 == with_extra_balls(balls),
        PowerUpType::SlowBall => {
            &&& refreshed(paddle, paddle2, PowerUpType::SlowBall, SLOW_BALL_DURATION)
            &&& paddle2.width == paddle.width
            &&& balls2 == if has_effect(effects_of(paddle), PowerUpType::SlowBall) {
                balls
            } else {
                slowed_balls(balls)
            }
        },
        PowerUpType::FireBall => {
            &&& refreshed(paddle, paddle2, PowerUpType::FireBall, FIREBALL_DURATION)
            &&& paddle2.width == paddle.width
            &&& balls2 == balls
        },
    }
}

/// Applies one pickup, as `powerup_applied` states.
pub fn apply_powerup(paddle: &mut Paddle, balls: &mut Vec<Ball>, t: PowerUpType)
    requires
        forall|i: int| 0 <= i < old(balls)@.len() ==> speed_ok(#[trigger] old(balls)@[i].velocity),
    ensures
        powerup_applied(t, *old(paddle), old(balls)@, *final(paddle), final(balls)@),
        final(paddle).position == old(paddle).position,
        forall|i: int| 0 <= i < final(balls)@.len() ==> speed_ok(#[trigger] final(balls)@[i].velocity),
{
    match t {
        PowerUpType::WidePaddle => apply_wide_paddle(paddle),
        PowerUpType::MultiBall => {
            spawn_extra_balls(balls);
            assert(balls@ =~= with_extra_balls(old(balls)@));
        },
        PowerUpType::SlowBall => {
            apply_slow_ball(paddle, balls);
            assert forall|i: int| 0 <= i < balls@.len() implies speed_ok(#[trigger] balls@[i].velocity) by {
                lemma_slowed_speed(old(balls)@[i].velocity);
            }
            proof {
                if !has_effect(effects_of(*old(paddle)), PowerUpType::SlowBall) {
                    assert(balls@ =~= slowed_balls(old(balls)@));
                } else {
                    assert(balls@ =~= old(balls)@);
                }
            }
        },
        PowerUpType::FireBall => {
            refresh_effect(paddle, PowerUpType::FireBall, FIREBALL_DURATION);
        },
    }
}

proof fn lemma_slowed_speed(v: Vec2)
    requires
        speed_ok(v),
    ensures
        speed_ok(slowed(v)),
{
    let x = slowed(v).x;
    let y = slowed(v).y;
    assert(x * x <= v.x * v.x) by (nonlinear_arith)
        requires x == div_trunc(v.x * 3, 5);
    assert(y * y <= v.y * v.y) by (nonlinear_arith)
        requires y == div_trunc(v.y * 3, 5);
}

/// Effects that pickups of this kind start.
pub open spec fn is_timed(t: PowerUpType) -> bool {
    !(t is MultiBall)
}

/// Pickup `p` is applied to (paddle, balls) `pre` giving `post` when the
/// paddle (as it stood at the start of the frame) catches it; otherwise
/// nothing changes.
pub open spec fn pickup_step(p: PowerUp, pos: Vec2, width: i32, pre: (Paddle, Seq<Ball>), post: (Paddle, Seq<Ball>)) -> bool {
    if caught(p, pos, width) {
        powerup_applied(p.power_type, pre.0, pre.1, post.0, post.1)
    } else {
        post == pre
    }
}

/// `trace[q + 1]` is the paddle and balls after pickup `q`.
pub open spec fn pickup_trace(ps: Seq<PowerUp>, pos: Vec2, width: i32, trace: Seq<(Paddle, Seq<Ball>)>) -> bool {
    &&& trace.len() == ps.len() + 1
    &&& forall|q: int| 0 <= q < ps.len() ==> #[trigger] pickup_step(ps[q], pos, width, trace[q], trace[q + 1])
}

/// Resolves the pickups touching the paddle (as it stood at the start of the
/// frame): each is removed and applied in order (see `pickup_step`); the
/// others keep falling. Every timed effect that was active, or that a caught
/// pickup starts, is active afterwards.
pub fn paddle_powerup_collision(paddle: &mut Paddle, powerups: &mut Vec<PowerUp>, balls: &mut Vec<Ball>)
    requires
        forall|i: int| 0 <= i < old(balls)@.len() ==> speed_ok(#[trigger] old(balls)@[i].velocity),
    ensures
        final(powerups)@ == uncaught(old(powerups)@, old(paddle).position, old(paddle).width),
        final(paddle).position == old(paddle).position,
        forall|i: int| 0 <= i < final(balls)@.len() ==> speed_ok(#[trigger] final(balls)@[i].velocity),
        final(powerups)@ == old(powerups)@ ==> final(paddle).width == old(paddle).width
            && final(paddle).effects == old(paddle).effects && final(balls)@ == old(balls)@,
        forall|q: int|
            0 <= q < old(powerups)@.len() && caught(old(powerups)@[q], old(paddle).position, old(paddle).width)
                && is_timed(old(powerups)@[q].power_type) ==> has_effect(
                effects_of(*final(paddle)),
                #[trigger] old(powerups)@[q].power_type,
            ),
        forall|t: PowerUpType| #[trigger] has_effect(effects_of(*old(paddle)), t) ==> has_effect(effects_of(*final(paddle)), t),
        exists|trace: Seq<(Paddle, Seq<Ball>)>|
            #[trigger] pickup_trace(old(powerups)@, old(paddle).position, old(paddle).width, trace)
            && trace[0] == (*old(paddle), old(balls)@) && trace.last() == (*final(paddle), final(balls)@),
{
    let pos = paddle.position;
    let width = paddle.width;
    let ghost before = *paddle;
    let ghost b0 = balls@;
    let ghost mut trace: Seq<(Paddle, Seq<Ball>)> = seq![(before, b0)];
    let mut remaining: Vec<PowerUp> = Vec::new();
    let mut i: usize = 0;
    while i < powerups.len()
        invariant
            i <= powerups@.len(),
            pos == before.position,
            width == before.width,
            paddle.position == pos,
            remaining@ == uncaught(powerups@.take(i as int), pos, width),
            forall|q: int| 0 <= q < balls@.len() ==> speed_ok(#[trigger] balls@[q].velocity),
            remaining@.len() == i ==> paddle.width == before.width && paddle.effects == before.effects && balls@ == b0,
            remaining@.len() <= i,
            forall|q: int|
                0 <= q < i && caught(powerups@[q], pos, width) && is_timed(powerups@[q].power_type)
                    ==> has_effect(effects_of(*paddle), #[trigger] powerups@[q].power_type),
            forall|t: PowerUpType| #[trigger] has_effect(effects_of(before), t) ==> has_effect(effects_of(*paddle), t),
            trace.len() == i + 1,
            trace[0] == (before, b0),
            trace[i as int] == (*paddle, balls@),
            forall|q: int| 0 <= q < i ==> #[trigger] pickup_step(powerups@[q], pos, width, trace[q], trace[q + 1]),
        decreases powerups@.len() - i,
    {
        let p = powerups[i];
        assert(powerups@.take(i + 1).drop_last() =~= powerups@.take(i as int));
        if aabb_collision(p.position, Vec2 { x: POWERUP_SIZE, y: POWERUP_SIZE }, pos, Vec2 { x: width, y: PADDLE_HEIGHT }) {
            let ghost mid = *paddle;
            apply_powerup(paddle, balls, p.power_type);
            proof {
                let u = p.power_type;
                if is_timed(u) {
                    let d = match u {
                        PowerUpType::WidePaddle => WIDE_PADDLE_DURATION,
                        PowerUpType::SlowBall => SLOW_BALL_DURATION,
                        _ => FIREBALL_DURATION,
                    };
                    assert(refreshed(mid, *paddle, u, d));
                    assert forall|t: PowerUpType| t == u || has_effect(effects_of(mid), t) implies has_effect(effects_of(*paddle), t) by {
                        lemma_refresh_keeps(mid, *paddle, u, d, t);
                    }
                } else {
                    assert(effects_of(mid) == effects_of(*paddle));
                }
                assert forall|q: int|
                    0 <= q < i + 1 && caught(powerups@[q], pos, width) && is_timed(powerups@[q].power_type)
                        implies has_effect(effects_of(*paddle), #[trigger] powerups@[q].power_type) by {
                    if q < i {
                        assert(has_effect(effects_of(mid), powerups@[q].power_type));
                    } else {
                        assert(powerups@[q] == p);
                    }
                }
            }
        } else {
            remaining.push(p);
        }
        proof {
            let post = (*paddle, balls@);
            assert(pickup_step(powerups@[i as int], pos, width, trace[i as int], post));
            trace = trace.push(post);
            assert forall|q: int| 0 <= q < i + 1 implies #[trigger] pickup_step(powerups@[q], pos, width, trace[q], trace[q + 1]) by {
                if q < i {
                    assert(trace[q] == trace.drop_last()[q]);
                    assert(trace[q + 1] == trace.drop_last()[q + 1]);
                }
            }
        }
        i = i + 1;
    }
    assert(powerups@.take(i as int) =~= powerups@);
    assert(pickup_trace(powerups@, pos, width, trace));
    proof {
        lemma_uncaught_len(powerups@, pos, width);
        if remaining@ == powerups@ {
            assert(remaining@.len() == i);
        }
    }
    *powerups = remaining;
}

proof fn lemma_uncaught_len(ps: Seq<PowerUp>, pos: Vec2, width: i32)
    ensures
        uncaught(ps, pos, width).len() <= ps.len(),
    decreases ps.len(),
{
    if ps.len() > 0 {
        lemma_uncaught_len(ps.drop_last(), pos, width);
    }
}

pub open spec fn clamp_i32(v: int) -> int {
    if v < i32::MIN {
        i32::MIN as int
    } else if v > i32::MAX {
        i32::MAX as int
    } else {
        v
    }
}

/// A coordinate after moving at `v` per second for `delta` nanoseconds,
/// rounded toward zero and kept within the coordinate range.
pub open spec fn moved(p: i32, v: i32, delta: u64) -> int {
    clamp_i32(p + div_trunc(v * delta, NANOS_PER_SECOND as int))
}

pub fn advance(p: i32, v: i32, delta: u64) -> (r: i32)
    ensures
        r == moved(p, v, delta),
{
    let d = scale_trunc(v as i64, delta, NANOS_PER_SECOND);
    proof {
        assert(-0x8000_0000 * 0x1_0000_0000_0000_0000 <= v * delta <= 0x8000_0000 * 0x1_0000_0000_0000_0000) by (nonlinear_arith)
            requires -0x8000_0000 <= v <= 0x8000_0000, 0 <= delta <= 0x1_0000_0000_0000_0000;
        assert(-0x8000_0000 * 0x1_0000_0000_0000_0000 <= d <= 0x8000_0000 * 0x1_0000_0000_0000_0000) by (nonlinear_arith)
            requires d == div_trunc(v * delta, NANOS_PER_SECOND as int),
                -0x8000_0000 * 0x1_0000_0000_0000_0000 <= v * delta <= 0x8000_0000 * 0x1_0000_0000_0000_0000;
    }
    let n: i128 = p as i128 + d;
    if n < i32::MIN as i128 {
        i32::MIN
    } else if n > i32::MAX as i128 {
        i32::MAX
    } else {
        n as i32
    }
}

pub open spec fn moved_ball(b: Ball, delta: u64) -> Ball {
    Ball {
        position: Vec2 {
            x: moved(b.position.x, b.velocity.x, delta) as i32,
            y: moved(b.position.y, b.velocity.y, delta) as i32,
        },
        velocity: b.velocity,
    }
}

/// Moves every ball along its velocity for `delta` nanoseconds.
pub fn ball_movement(balls: &mut Vec<Ball>, delta: u64)
    ensures
        final(balls)@.len() == old(balls)@.len(),
        forall|i: int| 0 <= i < old(balls)@.len() ==> #[trigger] final(balls)@[i] == moved_ball(old(balls)@[i], delta),
{
    let ghost b0 = balls@;
    let mut i: usize = 0;
    while i < balls.len()
        invariant
            balls@.len() == b0.len(),
            i <= balls@.len(),
            forall|q: int| i <= q < balls@.len() ==> #[trigger] balls@[q] == b0[q],
            forall|q: int| 0 <= q < i ==> #[trigger] balls@[q] == moved_ball(b0[q], delta),
        decreases balls@.len() - i,
    {
        let b = balls[i];
        let x = advance(b.position.x, b.velocity.x, delta);
        let y = advance(b.position.y, b.velocity.y, delta);
        balls.set(i, Ball { position: Vec2 { x, y }, velocity: b.velocity });
        i = i + 1;
    }
}

pub open spec fn moved_powerup(p: PowerUp, delta: u64) -> PowerUp {
    PowerUp {
        position: Vec2 {
            x: moved(p.position.x, p.velocity.x, delta) as i32,
            y: moved(p.position.y, p.velocity.y, delta) as i32,
        },
        ..p
    }
}

/// The pickups after moving, without those that fell below the field.
pub open spec fn fallen_through(ps: Seq<PowerUp>, delta: u64) -> Seq<PowerUp>
    decreases ps.len(),
{
    if ps.len() == 0 {
        Seq::empty()
    } else {
        let rest = fallen_through(ps.drop_last(), delta);
        let m = moved_powerup(ps.last(), delta);
        if m.position.y < -(WINDOW_HEIGHT / 2) {
            rest
        } else {
            rest.push(m)
        }
    }
}

/// Moves every pickup for `delta` nanoseconds and removes those that end up
/// below the field.
pub fn powerup_movement(powerups: &mut Vec<PowerUp>, delta: u64)
    ensures
        final(powerups)@ == fallen_through(old(powerups)@, delta),
{
    let mut kept: Vec<PowerUp> = Vec::new();
    let mut i: usize = 0;
    while i < powerups.len()
        invariant
            i <= powerups@.len(),
            kept@ == fallen_through(powerups@.take(i as int), delta),
        decreases powerups@.len() - i,
    {
        let p = powerups[i];
        assert(powerups@.take(i + 1).drop_last() =~= powerups@.take(i as int));
        let x = advance(p.position.x, p.velocity.x, delta);
        let y = advance(p.position.y, p.velocity.y, delta);
        if y >= -(WINDOW_HEIGHT / 2) {
            kept.push(PowerUp { position: Vec2 { x, y }, ..p });
        }
        i = i + 1;
    }
    assert(powerups@.take(i as int) =~= powerups@);
    *powerups = kept;
}

} // verus!
