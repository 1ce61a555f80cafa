use vstd::prelude::*;

use crate::combo::{award_destruction, awarded};
use crate::components::{Ball, Block, BlockType, CollisionEvent, PowerUp, PowerUpType};
use crate::constants::{
    BALL_SIZE, BLOCK_HEIGHT, BLOCK_WIDTH, DURABLE_SCORE_BONUS, POWERUP_DROP_PERCENT,
    POWERUP_FALL_SPEED,
};
use crate::explosion::{
    award_n, award_once, chain_outcome, count_true, is_steel, lemma_count_true_set,
    lemma_award_n_monotone, newly, process_explosions, score_state,
};
use crate::geometry::{aabb_collision, abs_i32, abs_int, overlaps, Vec2};
use crate::resources::{ComboTracker, Score};
use crate::rng::{below_percent, roll_below_percent, spec_simple_rand, RandCounter};

verus! {

/// Velocity components stay off the one value whose negation overflows.
pub open spec fn velocity_ok(v: Vec2) -> bool {
    v.x > i32::MIN && v.y > i32::MIN
}

/// Each component keeps its size, whatever its sign: a bounce off a block
/// never changes the ball's speed.
pub open spec fn same_magnitudes(a: Vec2, b: Vec2) -> bool {
    abs_int(a.x as int) == abs_int(b.x as int) && abs_int(a.y as int) == abs_int(b.y as int)
}

/// Twice the overlap depth between a ball and a block along X.
pub open spec fn x_overlap(ball: Vec2, block: Vec2) -> int {
    (BLOCK_WIDTH + BALL_SIZE) - 2 * abs_int(ball.x - block.x)
}

/// Twice the overlap depth between a ball and a block along Y.
pub open spec fn y_overlap(ball: Vec2, block: Vec2) -> int {
    (BLOCK_HEIGHT + BALL_SIZE) - 2 * abs_int(ball.y - block.y)
}

/// A breakable block reverses the velocity along the axis of smaller overlap;
/// on a tie the Y component is reversed.
pub open spec fn reflected_off_block(ball: Ball, block: Vec2) -> Vec2 {
    if x_overlap(ball.position, block) < y_overlap(ball.position, block) {
        Vec2 { x: (-ball.velocity.x) as i32, y: ball.velocity.y }
    } else {
        Vec2 { x: ball.velocity.x, y: (-ball.velocity.y) as i32 }
    }
}

/// A Steel block pushes the ball out along the axis of smaller overlap, toward
/// the side it came from, like a wall.
pub open spec fn pushed_off_steel(ball: Ball, block: Vec2) -> Vec2 {
    if x_overlap(ball.position, block) < y_overlap(ball.position, block) {
        Vec2 {
            x: if ball.position.x - block.x > 0 {
                abs_int(ball.velocity.x as int) as i32
            } else {
                (-abs_int(ball.velocity.x as int)) as i32
            },
            y: ball.velocity.y,
        }
    } else {
        Vec2 {
            x: ball.velocity.x,
            y: if ball.position.y - block.y > 0 {
                abs_int(ball.velocity.y as int) as i32
            } else {
                (-abs_int(ball.velocity.y as int)) as i32
            },
        }
    }
}


/// The kind of power-up a roll picks: each of three kinds for about a third of
/// the range.
pub open spec fn powerup_for_roll(roll: u32) -> PowerUpType {
    if below_percent(roll, 33) {
        PowerUpType::WidePaddle
    } else if below_percent(roll, 66) {
        PowerUpType::MultiBall
    } else {
        PowerUpType::SlowBall
    }
}

/// One roll decides whether a destroyed block drops a power-up; when it does,
/// a second roll picks the kind, and the pickup starts falling from the block.
pub open spec fn drop_outcome(
    rng_before: RandCounter,
    rng_after: RandCounter,
    pickups_before: Seq<PowerUp>,
    pickups_after: Seq<PowerUp>,
    at: Vec2,
) -> bool {
    if below_percent(spec_simple_rand(rng_before.counter), POWERUP_DROP_PERCENT) {
        let second = ((rng_before.counter + 1) % 0x1_0000_0000) as u32;
        &&& rng_after.counter == (rng_before.counter + 2) % 0x1_0000_0000
        &&& pickups_after == pickups_before.push(
            PowerUp {
                position: at,
                velocity: Vec2 { x: 0, y: (-POWERUP_FALL_SPEED) as i32 },
                power_type: powerup_for_roll(spec_simple_rand(second)),
            },
        )
    } else {
        &&& rng_after.counter == (rng_before.counter + 1) % 0x1_0000_0000
        &&& pickups_after == pickups_before
    }
}

/// A Steel block sends the ball away from itself along the axis of smaller
/// overlap, toward the side the ball is on, keeping the speed along that axis
/// and leaving the other component alone.
pub proof fn lemma_steel_pushes_out(ball: Ball, block: Vec2)
    requires
        velocity_ok(ball.velocity),
    ensures
        ({
            let v = pushed_off_steel(ball, block);
            if x_overlap(ball.position, block) < y_overlap(ball.position, block) {
                &&& v.y == ball.velocity.y
                &&& abs_int(v.x as int) == abs_int(ball.velocity.x as int)
                &&& ball.position.x > block.x ==> v.x >= 0
                &&& ball.position.x <= block.x ==> v.x <= 0
            } else {
                &&& v.x == ball.velocity.x
                &&& abs_int(v.y as int) == abs_int(ball.velocity.y as int)
                &&& ball.position.y > block.y ==> v.y >= 0
                &&& ball.position.y <= block.y ==> v.y <= 0
            }
        }),
{
}

fn maybe_drop_powerup(rng: &mut RandCounter, powerups: &mut Vec<PowerUp>, at: Vec2)
    ensures
        drop_outcome(*old(rng), *final(rng), old(powerups)@, final(powerups)@, at),
{
    let roll = rng.next_roll();
    if roll_below_percent(roll, POWERUP_DROP_PERCENT) {
        let t = rng.next_roll();
        let power_type = if roll_below_percent(t, 33) {
            PowerUpType::WidePaddle
        } else if roll_below_percent(t, 66) {
            PowerUpType::MultiBall
        } else {
            PowerUpType::SlowBall
        };
        powerups.push(
            PowerUp { position: at, velocity: Vec2 { x: 0, y: -POWERUP_FALL_SPEED }, power_type },
        );
    }
}

/// Everything a frame of block collisions changes besides the balls: the
/// blocks, which of them are destroyed this frame, score, combo, the roll
/// counter, the falling pickups and the events emitted so far.
pub struct HitState {
    pub blocks: Seq<Block>,
    pub destroyed: Seq<bool>,
    pub score: Score,
    pub combo: ComboTracker,
    pub rng: RandCounter,
    pub powerups: Seq<PowerUp>,
    pub events: Seq<CollisionEvent>,
}

pub open spec fn hit_state(
    blocks: Seq<Block>,
    destroyed: Seq<bool>,
    score: Score,
    combo: ComboTracker,
    rng: RandCounter,
    powerups: Seq<PowerUp>,
    events: Seq<CollisionEvent>,
) -> HitState {
    HitState { blocks, destroyed, score, combo, rng, powerups, events }
}

/// One ball `ball` hitting block `j`, leading from `pre` to `post` and leaving
/// the ball as `after`.
///
/// A Steel block pushes the ball out and stays, leaving score and combo alone.
/// Any other block reflects the ball along the axis of smaller overlap. A
/// Durable block with more than one hit left loses one and stays, unscored.
/// A Normal block, or a Durable block on its last hit, is destroyed and scored
/// (with the durable bonus for the latter) and may drop a power-up. An
/// Explosive block is destroyed and scored, then sets off a chain reaction
/// from its position. Steel and lighter hits emit a wall event, destructions
/// a block event each.
pub open spec fn hit_outcome(pre: HitState, ball: Ball, j: int, post: HitState, after: Ball) -> bool {
    let b = pre.blocks[j];
    let bounced = reflected_off_block(ball, b.position);
    let unscored = post.score == pre.score && post.combo == pre.combo && post.rng == pre.rng
        && post.powerups == pre.powerups && post.destroyed == pre.destroyed
        && post.events == pre.events.push(CollisionEvent::Wall);
    &&& after.position == ball.position
    &&& match b.block_type {
        BlockType::Steel => {
            &&& after.velocity == pushed_off_steel(ball, b.position)
            &&& post.blocks == pre.blocks
            &&& unscored
        },
        BlockType::Durable { hits_remaining } => if hits_remaining > 1 {
            &&& after.velocity == bounced
            &&& post.blocks == pre.blocks.update(
                j,
                Block { position: b.position, block_type: BlockType::Durable { hits_remaining: (hits_remaining - 1) as u32 } },
            )
            &&& unscored
        } else {
            &&& after.velocity == bounced
            &&& post.blocks == pre.blocks
            &&& post.destroyed == pre.destroyed.update(j, true)
            &&& awarded(pre.score, pre.combo, DURABLE_SCORE_BONUS, post.score, post.combo)
            &&& post.events == pre.events.push(CollisionEvent::Block)
            &&& drop_outcome(pre.rng, post.rng, pre.powerups, post.powerups, b.position)
        },
        BlockType::Normal => {
            &&& after.velocity == bounced
            &&& post.blocks == pre.blocks
            &&& post.destroyed == pre.destroyed.update(j, true)
            &&& awarded(pre.score, pre.combo, 0, post.score, post.combo)
            &&& post.events == pre.events.push(CollisionEvent::Block)
            &&& drop_outcome(pre.rng, post.rng, pre.powerups, post.powerups, b.position)
        },
        BlockType::Explosive => {
            let chained = (count_true(post.destroyed) - count_true(pre.destroyed) - 1) as nat;
            &&& after.velocity == bounced
            &&& post.blocks == pre.blocks
            &&& post.destroyed[j]
            &&& count_true(post.destroyed) >= count_true(pre.destroyed) + 1
            &&& exists|centers: Seq<Vec2>|
                chain_outcome(pre.blocks, pre.destroyed.update(j, true), post.destroyed, centers, b.position)
            &&& score_state(post.score, post.combo) == award_n(
                award_once(score_state(pre.score, pre.combo), 0),
                chained,
            )
            &&& post.events == pre.events.push(CollisionEvent::Block) + Seq::new(
                chained,
                |i: int| CollisionEvent::Block,
            )
            &&& post.rng == pre.rng
            &&& post.powerups == pre.powerups
            &&& post.combo.timer.elapsed == 0
            &&& post.combo.timer.duration == pre.combo.timer.duration
        },
    }
}

/// Resolves a ball hitting block `j`, which has not been destroyed this
/// frame, as `hit_outcome` states.
pub fn hit_block(
    ball: &mut Ball,
    blocks: &mut Vec<Block>,
    j: usize,
    destroyed: &mut Vec<bool>,
    score: &mut Score,
    combo: &mut ComboTracker,
    rng: &mut RandCounter,
    powerups: &mut Vec<PowerUp>,
    events: &mut Vec<CollisionEvent>,
)
    requires
        j < old(blocks)@.len(),
        old(destroyed)@.len() == old(blocks)@.len(),
        !old(destroyed)@[j as int],
        old(combo).wf(),
        velocity_ok(old(ball).velocity),
    ensures
        final(ball).position == old(ball).position,
        velocity_ok(final(ball).velocity),
        same_magnitudes(old(ball).velocity, final(ball).velocity),
        wall_or_block_events(old(events)@, final(events)@),
        final(score).value >= old(score).value,
        final(blocks)@.len() == old(blocks)@.len(),
        final(destroyed)@.len() == old(destroyed)@.len(),
        forall|k: int| 0 <= k < old(blocks)@.len() && k != j ==> final(blocks)@[k] == old(blocks)@[k],
        final(blocks)@[j as int].position == old(blocks)@[j as int].position,
        forall|k: int| 0 <= k < old(blocks)@.len() && old(destroyed)@[k] ==> final(destroyed)@[k],
        forall|k: int|
            0 <= k < old(blocks)@.len() && final(destroyed)@[k] && !old(destroyed)@[k] ==> !is_steel(
                old(blocks)@[k],
            ),
        final(combo).wf(),
        hit_outcome(
            hit_state(old(blocks)@, old(destroyed)@, *old(score), *old(combo), *old(rng), old(powerups)@, old(events)@),
            *old(ball),
            j as int,
            hit_state(final(blocks)@, final(destroyed)@, *final(score), *final(combo), *final(rng), final(powerups)@, final(events)@),
            *final(ball),
        ),
{
    let block = blocks[j];
    let bp = block.position;
    let ghost b0 = *ball;
    let ghost dd0 = destroyed@;
    let ghost ev0 = events@;
    let dx: i64 = ball.position.x as i64 - bp.x as i64;
    let dy: i64 = ball.position.y as i64 - bp.y as i64;
    let adx: i64 = if dx < 0 {
        -dx
    } else {
        dx
    };
    let ady: i64 = if dy < 0 {
        -dy
    } else {
        dy
    };
    let x_over: i64 = (BLOCK_WIDTH as i64 + BALL_SIZE as i64) - 2 * adx;
    let y_over: i64 = (BLOCK_HEIGHT as i64 + BALL_SIZE as i64) - 2 * ady;
    assert(x_over == x_overlap(b0.position, bp));
    assert(y_over == y_overlap(b0.position, bp));
    match block.block_type {
        BlockType::Steel => {
            if x_over < y_over {
                let ax = abs_i32(ball.velocity.x);
                ball.velocity.x = if dx > 0 {
                    ax
                } else {
                    -ax
                };
            } else {
                let ay = abs_i32(ball.velocity.y);
                ball.velocity.y = if dy > 0 {
                    ay
                } else {
                    -ay
                };
            }
            events.push(CollisionEvent::Wall);
            assert(events@.subrange(0, ev0.len() as int) =~= ev0);
            return ;
        },
        _ => {
            if x_over < y_over {
                ball.velocity.x = -ball.velocity.x;
            } else {
                ball.velocity.y = -ball.velocity.y;
            }
        },
    }
    match block.block_type {
        BlockType::Normal => {
            assert(!is_steel(blocks@[j as int]));
            destroyed.set(j, true);
            award_destruction(score, combo, 0);
            events.push(CollisionEvent::Block);
            maybe_drop_powerup(rng, powerups, bp);
            assert(destroyed@ == dd0.update(j as int, true));
            assert forall|k: int| 0 <= k < blocks@.len() && destroyed@[k] && !dd0[k] implies !is_steel(blocks@[k]) by {
                if k != j {
                    assert(destroyed@[k] == dd0[k]);
                }
            }
        },
        BlockType::Durable { hits_remaining } => {
            if hits_remaining <= 1 {
                assert(!is_steel(blocks@[j as int]));
                destroyed.set(j, true);
                award_destruction(score, combo, DURABLE_SCORE_BONUS);
                events.push(CollisionEvent::Block);
                maybe_drop_powerup(rng, powerups, bp);
            } else {
                blocks.set(
                    j,
                    Block {
                        position: bp,
                        block_type: BlockType::Durable { hits_remaining: hits_remaining - 1 },
                    },
                );
                events.push(CollisionEvent::Wall);
            }
        },
        BlockType::Steel => {},
        BlockType::Explosive => {
            proof {
                lemma_count_true_set(destroyed@, j as int);
            }
            destroyed.set(j, true);
            award_destruction(score, combo, 0);
            events.push(CollisionEvent::Block);
            let ghost d1 = destroyed@;
            let ghost e1 = events@;
            let mut queue: Vec<Vec2> = Vec::new();
            queue.push(bp);
            process_explosions(blocks, destroyed, &mut queue, score, combo, events);
            assert(chain_outcome(blocks@, d1, destroyed@, queue@, bp));
            proof {
                lemma_award_n_monotone(
                    award_once(score_state(*old(score), *old(combo)), 0),
                    (count_true(destroyed@) - count_true(d1)) as nat,
                );
            }
            assert(d1 == dd0.update(j as int, true));
            assert forall|k: int| 0 <= k < blocks@.len() && destroyed@[k] && !dd0[k] implies !is_steel(blocks@[k]) by {
                if k != j {
                    assert(newly(d1, destroyed@, k));
                }
            }
            assert forall|k: int| 0 <= k < blocks@.len() && dd0[k] implies destroyed@[k] by {
                assert(d1[k]);
            }
            assert(events@ =~= e1 + Seq::new(
                (count_true(destroyed@) - count_true(d1)) as nat,
                |i: int| CollisionEvent::Block,
            ));
        },
    }
    assert(events@.subrange(0, ev0.len() as int) =~= ev0);
}

/// The blocks whose flag is not set, in the order they had.
pub open spec fn surviving(blocks: Seq<Block>, destroyed: Seq<bool>) -> Seq<Block>
    decreases blocks.len(),
{
    if blocks.len() == 0 {
        Seq::empty()
    } else {
        let rest = surviving(blocks.drop_last(), destroyed.drop_last());
        if destroyed[blocks.len() - 1] {
            rest
        } else {
            rest.push(blocks.last())
        }
    }
}

pub open spec fn count_steel(blocks: Seq<Block>) -> nat
    decreases blocks.len(),
{
    if blocks.len() == 0 {
        0
    } else {
        count_steel(blocks.drop_last()) + if is_steel(blocks.last()) {
            1nat
        } else {
            0nat
        }
    }
}

proof fn lemma_count_steel_surviving(blocks: Seq<Block>, destroyed: Seq<bool>)
    requires
        destroyed.len() == blocks.len(),
        forall|k: int| 0 <= k < blocks.len() && is_steel(blocks[k]) ==> !destroyed[k],
    ensures
        count_steel(surviving(blocks, destroyed)) == count_steel(blocks),
    decreases blocks.len(),
{
    if blocks.len() > 0 {
        lemma_count_steel_surviving(blocks.drop_last(), destroyed.drop_last());
        let rest = surviving(blocks.drop_last(), destroyed.drop_last());
        if !destroyed[blocks.len() - 1] {
            assert(rest.push(blocks.last()).drop_last() =~= rest);
        }
    }
}

proof fn lemma_count_steel_same(a: Seq<Block>, b: Seq<Block>)
    requires
        a.len() == b.len(),
        forall|k: int| 0 <= k < a.len() ==> is_steel(a[k]) == is_steel(b[k]),
    ensures
        count_steel(a) == count_steel(b),
    decreases a.len(),
{
    if a.len() > 0 {
        lemma_count_steel_same(a.drop_last(), b.drop_last());
    }
}

/// Removes the flagged blocks, keeping the order of the rest.
fn remove_destroyed(blocks: &Vec<Block>, destroyed: &Vec<bool>) -> (r: Vec<Block>)
    requires
        destroyed@.len() == blocks@.len(),
    ensures
        r@ == surviving(blocks@, destroyed@),
{
    let mut r: Vec<Block> = Vec::new();
    let mut i: usize = 0;
    while i < blocks.len()
        invariant
            destroyed@.len() == blocks@.len(),
            i <= blocks@.len(),
            r@ == surviving(blocks@.take(i as int), destroyed@.take(i as int)),
        decreases blocks@.len() - i,
    {
        assert(blocks@.take(i + 1).drop_last() =~= blocks@.take(i as int));
        assert(destroyed@.take(i + 1).drop_last() =~= destroyed@.take(i as int));
        if !destroyed[i] {
            r.push(blocks[i]);
        }
        i = i + 1;
    }
    assert(blocks@.take(i as int) =~= blocks@);
    assert(destroyed@.take(i as int) =~= destroyed@);
    r
}

/// The events only grew, by wall and block events.
pub open spec fn wall_or_block_events(before: Seq<CollisionEvent>, after: Seq<CollisionEvent>) -> bool {
    &&& before.len() <= after.len()
    &&& after.subrange(0, before.len() as int) == before
    &&& forall|k: int| before.len() <= k < after.len() ==> (#[trigger] after[k] == CollisionEvent::Wall
        || after[k] == CollisionEvent::Block)
}

/// Ball `b` touches block `k`.
pub open spec fn touches(b: Ball, block: Block) -> bool {
    overlaps(b.position, Vec2 { x: BALL_SIZE, y: BALL_SIZE }, block.position, Vec2 { x: BLOCK_WIDTH, y: BLOCK_HEIGHT })
}

/// Block `k` is one the ball can hit in state `s`: not destroyed this frame,
/// and touching the ball.
pub open spec fn hittable(s: HitState, b: Ball, k: int) -> bool {
    !s.destroyed[k] && touches(b, s.blocks[k])
}

/// The first block among the first `m` that the ball can hit, if any.
pub open spec fn first_touch(s: HitState, b: Ball, m: int) -> Option<int>
    decreases m,
{
    if m <= 0 {
        None
    } else {
        match first_touch(s, b, m - 1) {
            Some(k) => Some(k),
            None => if hittable(s, b, m - 1) {
                Some(m - 1)
            } else {
                None
            },
        }
    }
}

proof fn lemma_first_touch_stays(s: HitState, b: Ball, j: int, m: int)
    requires
        0 <= j < m,
        first_touch(s, b, j + 1) == Some(j),
    ensures
        first_touch(s, b, m) == Some(j),
    decreases m,
{
    if m > j + 1 {
        lemma_first_touch_stays(s, b, j, m - 1);
    }
}

/// One ball's turn: it hits the first block it can, as `hit_outcome` states,
/// or, touching none, changes nothing.
pub open spec fn ball_step(pre: HitState, ball: Ball, post: HitState, after: Ball) -> bool {
    match first_touch(pre, ball, pre.blocks.len() as int) {
        None => post == pre && after == ball,
        Some(j) => hit_outcome(pre, ball, j, post, after),
    }
}

/// The state a frame of block collisions starts from: nothing destroyed yet and
/// no events.
pub open spec fn frame_start(blocks: Seq<Block>, score: Score, combo: ComboTracker, rng: RandCounter, powerups: Seq<PowerUp>) -> HitState {
    HitState {
        blocks,
        destroyed: Seq::new(blocks.len(), |k: int| false),
        score,
        combo,
        rng,
        powerups,
        events: Seq::empty(),
    }
}

/// `trace[i + 1]` is the state after the turn of ball `i`, which leaves it as
/// `after[i]`.
pub open spec fn frame_trace(balls: Seq<Ball>, after: Seq<Ball>, trace: Seq<HitState>) -> bool {
    &&& trace.len() == balls.len() + 1
    &&& after.len() == balls.len()
    &&& forall|i: int| 0 <= i < balls.len() ==> #[trigger] ball_step(trace[i], balls[i], trace[i + 1], after[i])
}

/// One frame of ball-block collisions. Each ball in turn takes the first block,
/// in order, that it overlaps and that no earlier ball destroyed this frame,
/// and resolves that one hit (see `hit_block`); then the destroyed blocks are
/// removed. Steel blocks all remain; a ball that overlaps no block keeps its
/// velocity; every remaining block stands where it stood.
pub fn ball_block_collision(
    balls: &mut Vec<Ball>,
    blocks: &mut Vec<Block>,
    score: &mut Score,
    combo: &mut ComboTracker,
    rng: &mut RandCounter,
    powerups: &mut Vec<PowerUp>,
) -> (events: Vec<CollisionEvent>)
    requires
        old(combo).wf(),
        forall|i: int| 0 <= i < old(balls)@.len() ==> velocity_ok(#[trigger] old(balls)@[i].velocity),
    ensures
        final(combo).wf(),
        final(balls)@.len() == old(balls)@.len(),
        forall|i: int| 0 <= i < final(balls)@.len() ==> velocity_ok(#[trigger] final(balls)@[i].velocity),
        forall|i: int| 0 <= i < final(balls)@.len() ==> (#[trigger] final(balls)@[i]).position == old(balls)@[i].position,
        forall|i: int| 0 <= i < final(balls)@.len() ==> same_magnitudes(old(balls)@[i].velocity, #[trigger] final(balls)@[i].velocity),
        forall|k: int| 0 <= k < events@.len() ==> (#[trigger] events@[k] == CollisionEvent::Wall || events@[k] == CollisionEvent::Block),
        exists|trace: Seq<HitState>|
            #[trigger] frame_trace(old(balls)@, final(balls)@, trace)
            && trace[0] == frame_start(old(blocks)@, *old(score), *old(combo), *old(rng), old(powerups)@)
            && final(blocks)@ == surviving(trace.last().blocks, trace.last().destroyed)
            && *final(score) == trace.last().score && *final(combo) == trace.last().combo
            && *final(rng) == trace.last().rng && final(powerups)@ == trace.last().powerups
            && events@ == trace.last().events,
        count_steel(final(blocks)@) == count_steel(old(blocks)@),
        final(blocks)@.len() <= old(blocks)@.len(),
        forall|k: int| 0 <= k < final(blocks)@.len() ==> exists|o: int| 0 <= o < old(blocks)@.len()
            && (#[trigger] final(blocks)@[k]).position == old(blocks)@[o].position,
{
    let n = blocks.len();
    let mut destroyed: Vec<bool> = Vec::new();
    let mut t: usize = 0;
    while t < n
        invariant
            t <= n,
            destroyed@.len() == t,
            forall|k: int| 0 <= k < t ==> !destroyed@[k],
        decreases n - t,
    {
        destroyed.push(false);
        t = t + 1;
    }
    let ghost blocks0 = blocks@;
    let ghost balls0 = balls@;
    let mut events: Vec<CollisionEvent> = Vec::new();
    let ghost start = frame_start(blocks@, *score, *combo, *rng, powerups@);
    assert(destroyed@ =~= start.destroyed);
    assert(events@ =~= start.events);
    let ghost mut trace: Seq<HitState> = seq![start];
    let mut i: usize = 0;
    while i < balls.len()
        invariant
            combo.wf(),
            trace.len() == i + 1,
            trace[0] == start,
            trace[i as int] == hit_state(blocks@, destroyed@, *score, *combo, *rng, powerups@, events@),
            forall|q: int| 0 <= q < i ==> #[trigger] ball_step(trace[q], balls0[q], trace[q + 1], balls@[q]),
            balls@.len() == balls0.len(),
            i <= balls@.len(),
            blocks@.len() == n,
            blocks0.len() == n,
            destroyed@.len() == n,
            forall|q: int| 0 <= q < balls@.len() ==> velocity_ok(#[trigger] balls@[q].velocity),
            forall|q: int| 0 <= q < balls@.len() ==> (#[trigger] balls@[q]).position == balls0[q].position,
            forall|q: int| 0 <= q < balls@.len() ==> same_magnitudes(balls0[q].velocity, #[trigger] balls@[q].velocity),
            forall|k: int| 0 <= k < events@.len() ==> (#[trigger] events@[k] == CollisionEvent::Wall || events@[k] == CollisionEvent::Block),
            forall|q: int| i <= q < balls@.len() ==> #[trigger] balls@[q] == balls0[q],
            forall|k: int| 0 <= k < n ==> (#[trigger] blocks@[k]).position == blocks0[k].position,
            forall|k: int| 0 <= k < n ==> is_steel(#[trigger] blocks@[k]) == is_steel(blocks0[k]),
            forall|k: int| 0 <= k < n && is_steel(#[trigger] blocks@[k]) ==> !destroyed@[k],
        decreases balls@.len() - i,
    {
        let mut ball = balls[i];
        let mut j: usize = 0;
        let mut hit = false;
        let ghost pre = hit_state(blocks@, destroyed@, *score, *combo, *rng, powerups@, events@);
        while j < n && !hit
            invariant
                combo.wf(),
                pre.blocks.len() == n,
                !hit ==> pre == hit_state(blocks@, destroyed@, *score, *combo, *rng, powerups@, events@),
                !hit ==> first_touch(pre, balls0[i as int], j as int) is None,
                hit ==> ball_step(pre, balls0[i as int], hit_state(blocks@, destroyed@, *score, *combo, *rng, powerups@, events@), ball),
                j <= n,
                blocks@.len() == n,
                blocks0.len() == n,
                destroyed@.len() == n,
                velocity_ok(ball.velocity),
                ball.position == balls0[i as int].position,
                same_magnitudes(balls0[i as int].velocity, ball.velocity),
                i < balls0.len(),
                !hit ==> ball == balls@[i as int],
                forall|k: int| 0 <= k < events@.len() ==> (#[trigger] events@[k] == CollisionEvent::Wall || events@[k] == CollisionEvent::Block),
                balls@[i as int] == balls0[i as int],
                forall|k: int| 0 <= k < n ==> (#[trigger] blocks@[k]).position == blocks0[k].position,
                forall|k: int| 0 <= k < n ==> is_steel(#[trigger] blocks@[k]) == is_steel(blocks0[k]),
                forall|k: int| 0 <= k < n && is_steel(#[trigger] blocks@[k]) ==> !destroyed@[k],
            decreases n - j + if hit { 0int } else { 1int },
        {
            if !destroyed[j] && aabb_collision(
                ball.position,
                Vec2 { x: BALL_SIZE, y: BALL_SIZE },
                blocks[j].position,
                Vec2 { x: BLOCK_WIDTH, y: BLOCK_HEIGHT },
            ) {
                let ghost bl = blocks@;
                let ghost dl = destroyed@;
                let ghost b_before = ball;
                let ghost ev_before = events@;
                hit_block(&mut ball, blocks, j, &mut destroyed, score, combo, rng, powerups, &mut events);
                proof {
                    assert(b_before == balls0[i as int]);
                    assert(hittable(pre, balls0[i as int], j as int));
                    assert(first_touch(pre, balls0[i as int], j + 1) == Some(j as int));
                    lemma_first_touch_stays(pre, balls0[i as int], j as int, n as int);
                    assert(bl[j as int].position == blocks0[j as int].position);
                    assert(is_steel(bl[j as int]) == is_steel(blocks0[j as int]));
                    assert forall|k: int| 0 <= k < events@.len() implies (#[trigger] events@[k] == CollisionEvent::Wall || events@[k] == CollisionEvent::Block) by {
                        if k < ev_before.len() {
                            assert(events@.subrange(0, ev_before.len() as int)[k] == events@[k]);
                        }
                    }
                }
                assert forall|k: int| 0 <= k < n implies (#[trigger] blocks@[k]).position == blocks0[k].position
                    && is_steel(blocks@[k]) == is_steel(blocks0[k]) by {
                    if k != j {
                        assert(blocks@[k] == bl[k]);
                    } else {
                        match bl[k].block_type {
                            BlockType::Durable { hits_remaining } => {},
                            _ => { assert(blocks@[k] == bl[k]); },
                        }
                    }
                }
                assert forall|k: int| 0 <= k < n && is_steel(#[trigger] blocks@[k]) implies !destroyed@[k] by {
                    if destroyed@[k] && !dl[k] {
                        assert(!is_steel(bl[k]));
                    }
                }
                hit = true;
            } else {
                assert(!hittable(pre, balls0[i as int], j as int));
                j = j + 1;
            }
        }
        let ghost post = hit_state(blocks@, destroyed@, *score, *combo, *rng, powerups@, events@);
        assert(ball_step(pre, balls0[i as int], post, ball));
        balls.set(i, ball);
        proof {
            trace = trace.push(post);
            assert forall|q: int| 0 <= q < i + 1 implies #[trigger] ball_step(trace[q], balls0[q], trace[q + 1], balls@[q]) by {
                if q < i {
                    assert(trace[q] == trace.drop_last()[q]);
                    assert(trace[q + 1] == trace.drop_last()[q + 1]);
                }
            }
        }
        i = i + 1;
    }
    assert(frame_trace(balls0, balls@, trace));
    let kept = remove_destroyed(blocks, &destroyed);
    proof {
        lemma_count_steel_surviving(blocks@, destroyed@);
        lemma_count_steel_same(blocks@, blocks0);
        lemma_surviving_from(blocks@, destroyed@);
    }
    *blocks = kept;
    events
}

proof fn lemma_surviving_from(blocks: Seq<Block>, destroyed: Seq<bool>)
    requires
        destroyed.len() == blocks.len(),
    ensures
        surviving(blocks, destroyed).len() <= blocks.len(),
        forall|k: int| 0 <= k < surviving(blocks, destroyed).len() ==> exists|o: int| 0 <= o < blocks.len()
            && #[trigger] surviving(blocks, destroyed)[k] == blocks[o],
    decreases blocks.len(),
{
    if blocks.len() > 0 {
        lemma_surviving_from(blocks.drop_last(), destroyed.drop_last());
        let rest = surviving(blocks.drop_last(), destroyed.drop_last());
        let s = surviving(blocks, destroyed);
        assert forall|k: int| 0 <= k < s.len() implies exists|o: int| 0 <= o < blocks.len()
            && #[trigger] s[k] == blocks[o] by {
            if k < rest.len() {
                let o = choose|o: int| 0 <= o < blocks.drop_last().len() && #[trigger] rest[k] == blocks.drop_last()[o];
                assert(s[k] == blocks[o]);
            } else {
                assert(s[k] == blocks[blocks.len() - 1]);
            }
        }
    }
}

} // verus!
