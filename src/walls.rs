use vstd::prelude::*;

use crate::collision::velocity_ok;
use crate::components::{Ball, Block, BlockType, CollisionEvent, Wall, WallBody};
use crate::constants::{BALL_SIZE, WINDOW_HEIGHT};
use crate::explosion::is_steel;
use crate::geometry::{aabb_collision, abs_i32, abs_int, overlaps, Vec2};

verus! {

/// A ball below the bottom of the field is lost.
pub open spec fn is_lost(b: Ball) -> bool {
    b.position.y < -(WINDOW_HEIGHT / 2)
}

pub open spec fn ball_extent() -> Vec2 {
    Vec2 { x: BALL_SIZE, y: BALL_SIZE }
}

/// A wall the ball overlaps turns the matching velocity component inward:
/// down from the top, right from the left, left from the right. The bottom is
/// handled by position instead.
pub open spec fn bounce_off_wall(b: Ball, w: WallBody) -> Ball {
    if overlaps(b.position, ball_extent(), w.position, w.size) {
        match w.wall {
            Wall::Top => Ball { velocity: Vec2 { x: b.velocity.x, y: (-abs_int(b.velocity.y as int)) as i32 }, ..b },
            Wall::Left => Ball { velocity: Vec2 { x: abs_int(b.velocity.x as int) as i32, y: b.velocity.y }, ..b },
            Wall::Right => Ball { velocity: Vec2 { x: (-abs_int(b.velocity.x as int)) as i32, y: b.velocity.y }, ..b },
            Wall::Bottom => b,
        }
    } else {
        b
    }
}

/// The ball after meeting each wall in turn.
pub open spec fn after_walls(b: Ball, walls: Seq<WallBody>) -> Ball
    decreases walls.len(),
{
    if walls.len() == 0 {
        b
    } else {
        bounce_off_wall(after_walls(b, walls.drop_last()), walls.last())
    }
}

/// The balls that are not lost, each after meeting the walls, in order.
pub open spec fn wall_survivors(balls: Seq<Ball>, walls: Seq<WallBody>) -> Seq<Ball>
    decreases balls.len(),
{
    if balls.len() == 0 {
        Seq::empty()
    } else {
        let rest = wall_survivors(balls.drop_last(), walls);
        if is_lost(balls.last()) {
            rest
        } else {
            rest.push(after_walls(balls.last(), walls))
        }
    }
}

/// Number of walls other than the bottom that the ball overlaps.
pub open spec fn wall_hits(b: Ball, walls: Seq<WallBody>) -> nat
    decreases walls.len(),
{
    if walls.len() == 0 {
        0
    } else {
        wall_hits(b, walls.drop_last()) + if overlaps(b.position, ball_extent(), walls.last().position, walls.last().size)
            && !(walls.last().wall is Bottom) {
            1nat
        } else {
            0nat
        }
    }
}

/// Number of wall events a frame emits: one per wall overlap of each ball
/// that is not lost.
pub open spec fn wall_event_count(balls: Seq<Ball>, walls: Seq<WallBody>) -> nat
    decreases balls.len(),
{
    if balls.len() == 0 {
        0
    } else {
        wall_event_count(balls.drop_last(), walls) + if is_lost(balls.last()) {
            0nat
        } else {
            wall_hits(balls.last(), walls)
        }
    }
}

pub open spec fn count_lost(balls: Seq<Ball>) -> nat
    decreases balls.len(),
{
    if balls.len() == 0 {
        0
    } else {
        count_lost(balls.drop_last()) + if is_lost(balls.last()) {
            1nat
        } else {
            0nat
        }
    }
}

/// The game is over when the frame lost balls and lost every one of them.
pub open spec fn loses_last_ball(balls: Seq<Ball>) -> bool {
    count_lost(balls) > 0 && count_lost(balls) == balls.len()
}

fn apply_wall(b: Ball, w: &WallBody) -> (r: (Ball, bool))
    requires
        velocity_ok(b.velocity),
    ensures
        r.0 == bounce_off_wall(b, *w),
        velocity_ok(r.0.velocity),
        r.1 == (overlaps(b.position, ball_extent(), w.position, w.size) && !(w.wall is Bottom)),
{
    let mut nb = b;
    if aabb_collision(b.position, Vec2 { x: BALL_SIZE, y: BALL_SIZE }, w.position, w.size) {
        match w.wall {
            Wall::Top => {
                nb.velocity.y = -abs_i32(b.velocity.y);
                (nb, true)
            },
            Wall::Left => {
                nb.velocity.x = abs_i32(b.velocity.x);
                (nb, true)
            },
            Wall::Right => {
                nb.velocity.x = -abs_i32(b.velocity.x);
                (nb, true)
            },
            Wall::Bottom => (nb, false),
        }
    } else {
        (nb, false)
    }
}

/// One frame of ball-wall collisions. Balls below the bottom of the field are
/// removed; every other ball is turned back by each wall it overlaps, emitting
/// a wall event each time. Game over is signalled (as the last event) only
/// when balls were lost and none remains.
pub fn ball_wall_collision(balls: &mut Vec<Ball>, walls: &Vec<WallBody>) -> (events: Vec<CollisionEvent>)
    requires
        forall|i: int| 0 <= i < old(balls)@.len() ==> velocity_ok(#[trigger] old(balls)@[i].velocity),
    ensures
        final(balls)@ == wall_survivors(old(balls)@, walls@),
        forall|i: int| 0 <= i < final(balls)@.len() ==> velocity_ok(#[trigger] final(balls)@[i].velocity),
        events@ == Seq::new(wall_event_count(old(balls)@, walls@), |k: int| CollisionEvent::Wall) + if loses_last_ball(old(balls)@) {
            seq![CollisionEvent::GameOver]
        } else {
            Seq::empty()
        },
{
    let ghost balls0 = balls@;
    let total = balls.len();
    let mut lost: usize = 0;
    let mut kept: Vec<Ball> = Vec::new();
    let mut events: Vec<CollisionEvent> = Vec::new();
    let mut i: usize = 0;
    while i < total
        invariant
            total == balls@.len(),
            balls@ == balls0,
            i <= total,
            lost == count_lost(balls0.take(i as int)),
            lost <= i,
            forall|q: int| 0 <= q < balls0.len() ==> velocity_ok(#[trigger] balls0[q].velocity),
            kept@ == wall_survivors(balls0.take(i as int), walls@),
            forall|q: int| 0 <= q < kept@.len() ==> velocity_ok(#[trigger] kept@[q].velocity),
            events@ == Seq::new(wall_event_count(balls0.take(i as int), walls@), |k: int| CollisionEvent::Wall),
        decreases total - i,
    {
        let b = balls[i];
        assert(balls0.take(i + 1).drop_last() =~= balls0.take(i as int));
        if b.position.y < -(WINDOW_HEIGHT / 2) {
            lost = lost + 1;
            assert(events@ =~= Seq::new(wall_event_count(balls0.take(i + 1), walls@), |k: int| CollisionEvent::Wall));
        } else {
            let mut nb = b;
            let mut w: usize = 0;
            let ghost base = wall_event_count(balls0.take(i as int), walls@);
            assert(walls@.take(0) =~= Seq::<WallBody>::empty());
            while w < walls.len()
                invariant
                    w <= walls@.len(),
                    nb == after_walls(b, walls@.take(w as int)),
                    velocity_ok(nb.velocity),
                    nb.position == b.position,
                    events@ == Seq::new(base + wall_hits(b, walls@.take(w as int)), |k: int| CollisionEvent::Wall),
                decreases walls@.len() - w,
            {
                assert(walls@.take(w + 1).drop_last() =~= walls@.take(w as int));
                let (nb2, bounced) = apply_wall(nb, &walls[w]);
                nb = nb2;
                if bounced {
                    events.push(CollisionEvent::Wall);
                }
                assert(events@ =~= Seq::new(base + wall_hits(b, walls@.take(w + 1)), |k: int| CollisionEvent::Wall));
                w = w + 1;
            }
            assert(walls@.take(w as int) =~= walls@);
            assert(events@ =~= Seq::new(wall_event_count(balls0.take(i + 1), walls@), |k: int| CollisionEvent::Wall));
            kept.push(nb);
        }
        i = i + 1;
    }
    assert(balls0.take(i as int) =~= balls0);
    *balls = kept;
    let ghost walls_events = events@;
    if lost > 0 && lost >= total {
        events.push(CollisionEvent::GameOver);
        assert(events@ =~= walls_events + seq![CollisionEvent::GameOver]);
    } else {
        assert(events@ =~= walls_events + Seq::<CollisionEvent>::empty());
    }
    events
}

/// A frame that leaves at least one ball above the bottom of the field is no
/// game over, however many other balls it loses.
pub proof fn lemma_no_game_over_while_a_ball_remains(balls: Seq<Ball>, keep: int)
    requires
        0 <= keep < balls.len(),
        !is_lost(balls[keep]),
    ensures
        !loses_last_ball(balls),
{
    lemma_count_lost_bound(balls, keep);
}

/// A frame that loses every remaining ball (at least one) is game over.
pub proof fn lemma_losing_last_ball_is_game_over(balls: Seq<Ball>)
    requires
        balls.len() > 0,
        forall|i: int| 0 <= i < balls.len() ==> is_lost(#[trigger] balls[i]),
    ensures
        loses_last_ball(balls),
{
    lemma_count_lost_all(balls);
}

proof fn lemma_count_lost_all(balls: Seq<Ball>)
    requires
        forall|i: int| 0 <= i < balls.len() ==> is_lost(#[trigger] balls[i]),
    ensures
        count_lost(balls) == balls.len(),
    decreases balls.len(),
{
    if balls.len() > 0 {
        assert(is_lost(balls[balls.len() - 1]));
        lemma_count_lost_all(balls.drop_last());
    }
}

proof fn lemma_count_lost_bound(balls: Seq<Ball>, keep: int)
    requires
        0 <= keep < balls.len(),
        !is_lost(balls[keep]),
    ensures
        count_lost(balls) < balls.len(),
    decreases balls.len(),
{
    lemma_count_lost_le(balls.drop_last());
    if keep < balls.len() - 1 {
        lemma_count_lost_bound(balls.drop_last(), keep);
    }
}

proof fn lemma_count_lost_le(balls: Seq<Ball>)
    ensures
        count_lost(balls) <= balls.len(),
    decreases balls.len(),
{
    if balls.len() > 0 {
        lemma_count_lost_le(balls.drop_last());
    }
}

/// Level clear: no block other than Steel remains.
pub open spec fn level_cleared(blocks: Seq<Block>) -> bool {
    forall|k: int| 0 <= k < blocks.len() ==> is_steel(#[trigger] blocks[k])
}

/// Whether the level is clear: true exactly when every remaining block is
/// Steel (in particular when none remains).
pub fn check_level_clear(blocks: &Vec<Block>) -> (r: bool)
    ensures
        r == level_cleared(blocks@),
{
    let mut i: usize = 0;
    while i < blocks.len()
        invariant
            i <= blocks@.len(),
            forall|k: int| 0 <= k < i ==> is_steel(#[trigger] blocks@[k]),
        decreases blocks@.len() - i,
    {
        match blocks[i].block_type {
            BlockType::Steel => {},
            _ => {
                return false;
            },
        }
        i = i + 1;
    }
    true
}

} // verus!
