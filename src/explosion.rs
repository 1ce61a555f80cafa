use vstd::prelude::*;

use crate::combo::{award_destruction, next_count, points_for, sat_u32};
use crate::components::{Block, BlockType, CollisionEvent};
use crate::constants::{EXPLOSIVE_RADIUS, SCORE_PER_BLOCK};
use crate::geometry::Vec2;
use crate::resources::{ComboTracker, Score};

verus! {

/// Score, combo count and last award, as one value.
pub open spec fn score_state(score: Score, combo: ComboTracker) -> (u32, u32, u32) {
    (score.value, combo.count, combo.last_score_gained)
}

/// The score state after one destruction worth `bonus` extra points.
pub open spec fn award_once(s: (u32, u32, u32), bonus: u32) -> (u32, u32, u32) {
    let count = next_count(s.1);
    let gained = points_for(count, bonus);
    (sat_u32(s.0 + gained) as u32, count as u32, gained as u32)
}

/// The score state after `n` destructions without bonus.
pub open spec fn award_n(s: (u32, u32, u32), n: nat) -> (u32, u32, u32)
    decreases n,
{
    if n == 0 {
        s
    } else {
        award_once(award_n(s, (n - 1) as nat), 0)
    }
}

/// Awards never lower the score.
pub proof fn lemma_award_n_monotone(s: (u32, u32, u32), n: nat)
    ensures
        award_n(s, n).0 >= s.0,
    decreases n,
{
    if n > 0 {
        lemma_award_n_monotone(s, (n - 1) as nat);
    }
}

/// Number of Explosive blocks that `after` marks destroyed and `before` does
/// not.
pub open spec fn count_new_explosive(blocks: Seq<Block>, before: Seq<bool>, after: Seq<bool>) -> nat
    decreases blocks.len(),
{
    if blocks.len() == 0 {
        0
    } else {
        let k = blocks.len() - 1;
        count_new_explosive(blocks.drop_last(), before.drop_last(), after.drop_last()) + if after[k] && !before[k]
            && is_explosive(blocks[k]) {
            1nat
        } else {
            0nat
        }
    }
}

/// Number of Explosive blocks that `before` does not mark destroyed.
pub open spec fn count_explosive_left(blocks: Seq<Block>, before: Seq<bool>) -> nat
    decreases blocks.len(),
{
    if blocks.len() == 0 {
        0
    } else {
        let k = blocks.len() - 1;
        count_explosive_left(blocks.drop_last(), before.drop_last()) + if !before[k] && is_explosive(blocks[k]) {
            1nat
        } else {
            0nat
        }
    }
}

proof fn lemma_count_new_explosive_set(blocks: Seq<Block>, before: Seq<bool>, after: Seq<bool>, j: int)
    requires
        blocks.len() == before.len() == after.len(),
        0 <= j < blocks.len(),
        !after[j],
        !before[j],
    ensures
        count_new_explosive(blocks, before, after.update(j, true)) == count_new_explosive(blocks, before, after)
            + if is_explosive(blocks[j]) { 1nat } else { 0nat },
    decreases blocks.len(),
{
    let n = blocks.len() - 1;
    if j == n {
        assert(after.update(j, true).drop_last() =~= after.drop_last());
    } else {
        assert(after.update(j, true).drop_last() =~= after.drop_last().update(j, true));
        lemma_count_new_explosive_set(blocks.drop_last(), before.drop_last(), after.drop_last(), j);
    }
}

/// At most every Explosive block not yet destroyed is destroyed anew.
pub proof fn lemma_new_explosive_bound(blocks: Seq<Block>, before: Seq<bool>, after: Seq<bool>)
    requires
        blocks.len() == before.len() == after.len(),
    ensures
        count_new_explosive(blocks, before, after) <= count_explosive_left(blocks, before),
    decreases blocks.len(),
{
    if blocks.len() > 0 {
        lemma_new_explosive_bound(blocks.drop_last(), before.drop_last(), after.drop_last());
    }
}

proof fn lemma_count_new_explosive_none(blocks: Seq<Block>, before: Seq<bool>)
    requires
        blocks.len() == before.len(),
    ensures
        count_new_explosive(blocks, before, before) == 0,
    decreases blocks.len(),
{
    if blocks.len() > 0 {
        lemma_count_new_explosive_none(blocks.drop_last(), before.drop_last());
    }
}

/// `n` destructions in a row, starting from combo count `c`, raise the count
/// to `c + n` and the score by the base points times `c + 1`, ..., `c + n`
/// (twice the gain is the base points times `2nc + n(n + 1)`), as long as
/// nothing reaches its largest value.
pub proof fn lemma_award_n_exact(s: (u32, u32, u32), n: nat)
    requires
        s.1 + n <= u32::MAX,
        2 * s.0 + SCORE_PER_BLOCK * (2 * n * s.1 + n * (n + 1)) <= 2 * u32::MAX,
    ensures
        award_n(s, n).1 == s.1 + n,
        2 * award_n(s, n).0 == 2 * s.0 + SCORE_PER_BLOCK * (2 * n * s.1 + n * (n + 1)),
        n > 0 ==> award_n(s, n).2 == SCORE_PER_BLOCK * (s.1 + n),
    decreases n,
{
    if n > 0 {
        let m = (n - 1) as nat;
        let c = s.1 as int;
        let base = SCORE_PER_BLOCK as int;
        assert(base == 10);
        assert(2 * m * c + m * (m + 1) + 2 * (c + n) == 2 * n * c + n * (n + 1)) by (nonlinear_arith)
            requires m == n - 1;
        assert(2 * m * c + m * (m + 1) <= 2 * n * c + n * (n + 1)) by (nonlinear_arith)
            requires m == n - 1, c >= 0, n >= 1;
        assert(2 * (c + n) <= 2 * n * c + n * (n + 1)) by (nonlinear_arith)
            requires c >= 0, n >= 1;
        assert(base * (2 * m * c + m * (m + 1)) <= base * (2 * n * c + n * (n + 1))) by (nonlinear_arith)
            requires 2 * m * c + m * (m + 1) <= 2 * n * c + n * (n + 1), base == 10;
        assert(base * (2 * m * c + m * (m + 1)) + base * (2 * (c + n)) == base * (2 * n * c + n * (n + 1))) by (nonlinear_arith)
            requires 2 * m * c + m * (m + 1) + 2 * (c + n) == 2 * n * c + n * (n + 1);
        assert(base * (2 * (c + n)) <= base * (2 * n * c + n * (n + 1))) by (nonlinear_arith)
            requires 2 * (c + n) <= 2 * n * c + n * (n + 1), base == 10;
        assert(2 * m * c + m * (m + 1) >= 0) by (nonlinear_arith) requires c >= 0, m >= 0;
        lemma_award_n_exact(s, m);
        assert(award_n(s, n) == award_once(award_n(s, m), 0));
        let t = award_n(s, m);
        let an = 2 * n * c + n * (n + 1);
        let am = 2 * m * c + m * (m + 1);
        assert(SCORE_PER_BLOCK * an == base * an);
        assert(SCORE_PER_BLOCK * am == base * am);
        assert(2 * t.0 == 2 * s.0 + base * am);
        let g = SCORE_PER_BLOCK * (c + n);
        assert(g == base * (c + n));
        assert(2 * g == base * (2 * (c + n))) by (nonlinear_arith) requires g == base * (c + n);
        assert(2 * (t.0 + g) == 2 * s.0 + base * an);
        assert(t.0 + g <= u32::MAX);
        assert(g <= u32::MAX);
        assert(t.1 == c + m);
        assert(next_count(t.1) == c + n);
        assert(points_for(c + n, 0) == g);
        assert(award_n(s, n).0 == t.0 + g);
        assert(2 * n * s.1 + n * (n + 1) == an);
        assert(2 * award_n(s, n).0 == 2 * s.0 + SCORE_PER_BLOCK * (2 * n * s.1 + n * (n + 1)));
    } else {
        assert(2 * n * s.1 + n * (n + 1) == 0) by (nonlinear_arith) requires n == 0;
    }
}

pub open spec fn count_true(s: Seq<bool>) -> nat
    decreases s.len(),
{
    if s.len() == 0 {
        0
    } else {
        count_true(s.drop_last()) + if s.last() {
            1nat
        } else {
            0nat
        }
    }
}

pub proof fn lemma_count_true_set(s: Seq<bool>, i: int)
    requires
        0 <= i < s.len(),
        !s[i],
    ensures
        count_true(s.update(i, true)) == count_true(s) + 1,
    decreases s.len(),
{
    if i == s.len() - 1 {
        assert(s.update(i, true).drop_last() =~= s.drop_last());
    } else {
        assert(s.update(i, true).drop_last() =~= s.drop_last().update(i, true));
        lemma_count_true_set(s.drop_last(), i);
    }
}

pub proof fn lemma_count_true_bound(s: Seq<bool>)
    ensures
        count_true(s) <= s.len(),
    decreases s.len(),
{
    if s.len() > 0 {
        lemma_count_true_bound(s.drop_last());
    }
}

/// Centre `p` lies within the blast radius of an explosion at `c`.
pub open spec fn within_radius(p: Vec2, c: Vec2) -> bool {
    (p.x - c.x) * (p.x - c.x) + (p.y - c.y) * (p.y - c.y) <= EXPLOSIVE_RADIUS * EXPLOSIVE_RADIUS
}

pub fn in_blast(p: Vec2, c: Vec2) -> (r: bool)
    ensures
        r == within_radius(p, c),
{
    let dx: i64 = p.x as i64 - c.x as i64;
    let dy: i64 = p.y as i64 - c.y as i64;
    proof {
        assert(dx * dx <= 0x1_0000_0000 * 0x1_0000_0000) by (nonlinear_arith)
            requires
                -0x1_0000_0000 <= dx <= 0x1_0000_0000,
        ;
        assert(dy * dy <= 0x1_0000_0000 * 0x1_0000_0000) by (nonlinear_arith)
            requires
                -0x1_0000_0000 <= dy <= 0x1_0000_0000,
        ;
        assert(dx * dx >= 0) by (nonlinear_arith);
        assert(dy * dy >= 0) by (nonlinear_arith);
    }
    let r = EXPLOSIVE_RADIUS as i128;
    (dx as i128) * (dx as i128) + (dy as i128) * (dy as i128) <= r * r
}

pub open spec fn is_steel(b: Block) -> bool {
    b.block_type is Steel
}

pub open spec fn is_explosive(b: Block) -> bool {
    b.block_type is Explosive
}

/// Every non-Steel block within the radius of any explosion centre is destroyed.
pub open spec fn blast_closed(blocks: Seq<Block>, destroyed: Seq<bool>, centers: Seq<Vec2>) -> bool {
    forall|c: int, k: int|
        0 <= c < centers.len() && 0 <= k < blocks.len() && within_radius(
            blocks[k].position,
            #[trigger] centers[c],
        ) && !is_steel(#[trigger] blocks[k]) ==> destroyed[k]
}

/// Block `k` is an Explosive block that the chain destroyed at `center`.
pub open spec fn qsrc_ok(blocks: Seq<Block>, before: Seq<bool>, after: Seq<bool>, k: int, center: Vec2) -> bool {
    0 <= k < blocks.len() && newly(before, after, k) && is_explosive(blocks[k])
        && blocks[k].position == center
}

/// A block destroyed by the chain (not before it).
pub open spec fn newly(before: Seq<bool>, after: Seq<bool>, k: int) -> bool {
    after[k] && !before[k]
}

/// What a completed chain reaction guarantees: blocks destroyed before stay
/// destroyed; only non-Steel blocks are added, each within the radius of some
/// explosion centre; the centres are the first one and the position of every
/// Explosive block the chain destroyed; and the blast of every centre is
/// complete.
pub open spec fn chain_outcome(
    blocks: Seq<Block>,
    before: Seq<bool>,
    after: Seq<bool>,
    centers: Seq<Vec2>,
    first: Vec2,
) -> bool {
    &&& after.len() == blocks.len()
    &&& centers.len() >= 1
    &&& centers[0] == first
    &&& forall|k: int| 0 <= k < blocks.len() && before[k] ==> after[k]
    &&& forall|k: int| 0 <= k < blocks.len() && newly(before, after, k) ==> !is_steel(blocks[k])
    &&& chain_sound(blocks, before, after, centers)
    &&& chain_queues_explosives(blocks, before, after, centers)
    &&& chain_centers_from_explosives(blocks, before, after, centers)
    &&& centers_linked(centers)
    &&& blast_closed(blocks, after, centers)
}

/// Every centre after the first lies within the radius of an earlier one: the
/// chain only spreads from the first explosion.
pub open spec fn centers_linked(centers: Seq<Vec2>) -> bool {
    forall|c: int| 1 <= c < centers.len() ==> linked_to_earlier(centers, c)
}

pub open spec fn linked_to_earlier(centers: Seq<Vec2>, c: int) -> bool {
    exists|e: int| 0 <= e < c && within_radius(#[trigger] centers[c], centers[e])
}

/// Each block the chain destroyed lies within the radius of some centre.
pub open spec fn chain_sound(blocks: Seq<Block>, before: Seq<bool>, after: Seq<bool>, centers: Seq<Vec2>) -> bool {
    forall|k: int|
        0 <= k < blocks.len() && #[trigger] newly(before, after, k) ==> exists|c: int|
            0 <= c < centers.len() && within_radius(blocks[k].position, #[trigger] centers[c])
}

/// Each Explosive block the chain destroyed became a centre.
pub open spec fn chain_queues_explosives(blocks: Seq<Block>, before: Seq<bool>, after: Seq<bool>, centers: Seq<Vec2>) -> bool {
    forall|k: int|
        0 <= k < blocks.len() && #[trigger] newly(before, after, k) && is_explosive(blocks[k])
            ==> exists|c: int| 0 <= c < centers.len() && #[trigger] centers[c] == blocks[k].position
}

/// Every centre after the first is an Explosive block the chain destroyed.
pub open spec fn chain_centers_from_explosives(blocks: Seq<Block>, before: Seq<bool>, after: Seq<bool>, centers: Seq<Vec2>) -> bool {
    forall|c: int| 1 <= c < centers.len() ==> destroyed_explosive_at(blocks, before, after, #[trigger] centers[c])
}

/// Some Explosive block that the chain destroyed stood at `center`.
pub open spec fn destroyed_explosive_at(blocks: Seq<Block>, before: Seq<bool>, after: Seq<bool>, center: Vec2) -> bool {
    exists|k: int| #[trigger] qsrc_ok(blocks, before, after, k, center)
}

/// Runs a chain reaction from the explosion centres queued in
/// `explosion_queue` (one, to start with), breadth first: each non-Steel block
/// within the radius of a centre that is not yet destroyed is destroyed and
/// scored as one more combo hit, and each Explosive block so destroyed queues
/// its own position as a later centre.
#[verifier::spinoff_prover]
#[verifier::rlimit(60)]
pub fn process_explosions(
    blocks: &Vec<Block>,
    destroyed: &mut Vec<bool>,
    explosion_queue: &mut Vec<Vec2>,
    score: &mut Score,
    combo: &mut ComboTracker,
    events: &mut Vec<CollisionEvent>,
)
    requires
        old(destroyed)@.len() == blocks@.len(),
        old(explosion_queue)@.len() == 1,
        old(combo).wf(),
    ensures
        chain_outcome(
            blocks@,
            old(destroyed)@,
            final(destroyed)@,
            final(explosion_queue)@,
            old(explosion_queue)@[0],
        ),
        count_true(final(destroyed)@) >= count_true(old(destroyed)@),
        final(explosion_queue)@.len() <= 1 + count_true(final(destroyed)@) - count_true(old(destroyed)@),
        final(explosion_queue)@.len() == 1 + count_new_explosive(blocks@, old(destroyed)@, final(destroyed)@),
        final(explosion_queue)@.len() <= 1 + count_explosive_left(blocks@, old(destroyed)@),
        score_state(*final(score), *final(combo)) == award_n(
            score_state(*old(score), *old(combo)),
            (count_true(final(destroyed)@) - count_true(old(destroyed)@)) as nat,
        ),
        final(events)@ == old(events)@ + Seq::new(
            (count_true(final(destroyed)@) - count_true(old(destroyed)@)) as nat,
            |i: int| CollisionEvent::Block,
        ),
        final(combo).wf(),
        final(combo).timer.duration == old(combo).timer.duration,
        count_true(final(destroyed)@) > count_true(old(destroyed)@)
            ==> final(combo).timer.elapsed == 0,
        count_true(final(destroyed)@) == count_true(old(destroyed)@)
            ==> *final(combo) == *old(combo),
{
    let n = blocks.len();
    let ghost d0 = destroyed@;
    let ghost ct0 = count_true(d0);
    let ghost s0 = score_state(*score, *combo);
    let ghost c0 = *combo;
    let ghost e0 = events@;
    let ghost first = explosion_queue@[0];
    let ghost mut origin: Seq<int> = Seq::new(n as nat, |k: int| 0);
    let ghost mut pushed: Seq<int> = Seq::new(n as nat, |k: int| 0);
    let ghost mut qsrc: Seq<int> = seq![0];
    let ghost mut qlink: Seq<int> = seq![0];
    proof {
        lemma_count_true_bound(d0);
        lemma_count_new_explosive_none(blocks@, d0);
    }
    let mut idx: usize = 0;
    while idx < explosion_queue.len()
        invariant
            n == blocks@.len(),
            destroyed@.len() == n,
            origin.len() == n,
            pushed.len() == n,
            qsrc.len() == explosion_queue@.len(),
            qlink.len() == explosion_queue@.len(),
            forall|c: int| 1 <= c < explosion_queue@.len() ==> 0 <= #[trigger] qlink[c] < c && within_radius(explosion_queue@[c], explosion_queue@[qlink[c]]),
            explosion_queue@.len() >= 1,
            explosion_queue@[0] == first,
            idx <= explosion_queue@.len(),
            ct0 == count_true(d0),
            d0.len() == n,
            ct0 <= count_true(destroyed@) <= n,
            explosion_queue@.len() <= 1 + count_true(destroyed@) - ct0,
            explosion_queue@.len() == 1 + count_new_explosive(blocks@, d0, destroyed@),
            forall|k: int| 0 <= k < n && d0[k] ==> destroyed@[k],
            forall|k: int| 0 <= k < n && newly(d0, destroyed@, k) ==> !is_steel(blocks@[k]),
            forall|k: int|
                0 <= k < n && newly(d0, destroyed@, k) ==> 0 <= origin[k] < explosion_queue@.len()
                    && within_radius(blocks@[k].position, explosion_queue@[origin[k]]),
            forall|k: int|
                0 <= k < n && newly(d0, destroyed@, k) && is_explosive(blocks@[k]) ==> 0
                    <= pushed[k] < explosion_queue@.len() && explosion_queue@[pushed[k]]
                    == blocks@[k].position,
            forall|c: int|
                1 <= c < explosion_queue@.len() ==> qsrc_ok(blocks@, d0, destroyed@, qsrc[c], #[trigger] explosion_queue@[c]),
            blast_closed(blocks@, destroyed@, explosion_queue@.take(idx as int)),
            score_state(*score, *combo) == award_n(s0, (count_true(destroyed@) - ct0) as nat),
            events@ == e0 + Seq::new(
                (count_true(destroyed@) - ct0) as nat,
                |i: int| CollisionEvent::Block,
            ),
            combo.wf(),
            combo.timer.duration == c0.timer.duration,
            count_true(destroyed@) > ct0 ==> combo.timer.elapsed == 0,
            count_true(destroyed@) == ct0 ==> *combo == c0,
        decreases (n - count_true(destroyed@)) + explosion_queue@.len() - idx,
    {
        let center = explosion_queue[idx];
        let ghost dstart = destroyed@;
        let ghost qstart = explosion_queue@;
        let ghost ctstart = count_true(destroyed@);
        let mut j: usize = 0;
        while j < n
            invariant
                n == blocks@.len(),
                destroyed@.len() == n,
                origin.len() == n,
                pushed.len() == n,
                qsrc.len() == explosion_queue@.len(),
                qlink.len() == explosion_queue@.len(),
                forall|c: int| 1 <= c < explosion_queue@.len() ==> 0 <= #[trigger] qlink[c] < c && within_radius(explosion_queue@[c], explosion_queue@[qlink[c]]),
                idx < qstart.len() <= explosion_queue@.len(),
                center == qstart[idx as int],
                forall|c: int| 0 <= c < qstart.len() ==> explosion_queue@[c] == qstart[c],
                ct0 == count_true(d0),
                d0.len() == n,
                dstart.len() == n,
                ctstart <= count_true(destroyed@) <= n,
                ct0 <= ctstart,
                explosion_queue@.len() - qstart.len() <= count_true(destroyed@) - ctstart,
                qstart.len() <= 1 + ctstart - ct0,
                explosion_queue@.len() == 1 + count_new_explosive(blocks@, d0, destroyed@),
                forall|k: int| 0 <= k < n && d0[k] ==> destroyed@[k],
                forall|k: int| 0 <= k < n && dstart[k] ==> destroyed@[k],
                forall|k: int| 0 <= k < n && newly(d0, destroyed@, k) ==> !is_steel(blocks@[k]),
                forall|k: int|
                    0 <= k < n && newly(d0, destroyed@, k) ==> 0 <= origin[k]
                        < explosion_queue@.len() && within_radius(
                        blocks@[k].position,
                        explosion_queue@[origin[k]],
                    ),
                forall|k: int|
                    0 <= k < n && newly(d0, destroyed@, k) && is_explosive(blocks@[k]) ==> 0
                        <= pushed[k] < explosion_queue@.len() && explosion_queue@[pushed[k]]
                        == blocks@[k].position,
                forall|c: int|
                    1 <= c < explosion_queue@.len() ==> qsrc_ok(blocks@, d0, destroyed@, qsrc[c], #[trigger] explosion_queue@[c]),
                blast_closed(blocks@, dstart, qstart.take(idx as int)),
                j <= n,
                forall|k: int|
                    0 <= k < j && within_radius(blocks@[k].position, center) && !is_steel(
                        blocks@[k],
                    ) ==> destroyed@[k],
                score_state(*score, *combo) == award_n(
                    s0,
                    (count_true(destroyed@) - ct0) as nat,
                ),
                events@ == e0 + Seq::new(
                    (count_true(destroyed@) - ct0) as nat,
                    |i: int| CollisionEvent::Block,
                ),
                combo.wf(),
                combo.timer.duration == c0.timer.duration,
                count_true(destroyed@) > ct0 ==> combo.timer.elapsed == 0,
                count_true(destroyed@) == ct0 ==> *combo == c0,
            decreases n - j,
        {
            let b = blocks[j];
            let steel = match b.block_type {
                BlockType::Steel => true,
                _ => false,
            };
            if !destroyed[j] && !steel && in_blast(b.position, center) {
                let ghost before = destroyed@;
                let ghost sbefore = score_state(*score, *combo);
                let ghost ebefore = events@;
                proof {
                    lemma_count_true_set(destroyed@, j as int);
                    lemma_count_new_explosive_set(blocks@, d0, destroyed@, j as int);
                }
                destroyed.set(j, true);
                assert(!is_steel(blocks@[j as int]));
                assert(newly(d0, destroyed@, j as int));
                proof { lemma_count_true_bound(destroyed@); }
                assert forall|k: int| 0 <= k < n && newly(d0, destroyed@, k) implies !is_steel(blocks@[k]) by {
                    if k != j {
                        assert(newly(d0, before, k));
                    }
                }
                assert forall|c: int| 1 <= c < explosion_queue@.len() implies qsrc_ok(blocks@, d0, destroyed@, qsrc[c], #[trigger] explosion_queue@[c]) by {
                    assert(qsrc_ok(blocks@, d0, before, qsrc[c], explosion_queue@[c]));
                }
                award_destruction(score, combo, 0);
                events.push(CollisionEvent::Block);
                proof {
                    origin = origin.update(j as int, idx as int);
                    let m = (count_true(destroyed@) - ct0) as nat;
                    assert(award_n(s0, m) == award_once(award_n(s0, (m - 1) as nat), 0));
                    assert(events@ =~= e0 + Seq::new(m, |i: int| CollisionEvent::Block));
                }
                let explosive = match b.block_type {
                    BlockType::Explosive => true,
                    _ => false,
                };
                if explosive {
                    proof {
                        pushed = pushed.update(j as int, explosion_queue@.len() as int);
                        qsrc = qsrc.push(j as int);
                        qlink = qlink.push(idx as int);
                    }
                    explosion_queue.push(b.position);
                }
                assert forall|k: int|
                    0 <= k < n && newly(d0, destroyed@, k) && is_explosive(blocks@[k]) implies 0
                        <= pushed[k] < explosion_queue@.len() && explosion_queue@[pushed[k]]
                        == blocks@[k].position by {
                    if k != j {
                        assert(newly(d0, before, k));
                    }
                }
                assert forall|k: int|
                    0 <= k < n && newly(d0, destroyed@, k) implies 0 <= origin[k]
                        < explosion_queue@.len() && within_radius(
                        blocks@[k].position,
                        explosion_queue@[origin[k]],
                    ) by {
                    if k != j {
                        assert(newly(d0, before, k));
                    }
                }
            }
            j = j + 1;
        }
        proof {
            assert forall|c: int, k: int|
                0 <= c < explosion_queue@.take(idx + 1).len() && 0 <= k < blocks@.len()
                    && within_radius(
                    blocks@[k].position,
                    #[trigger] explosion_queue@.take(idx + 1)[c],
                ) && !is_steel(#[trigger] blocks@[k]) implies destroyed@[k] by {
                if c < idx {
                    assert(explosion_queue@.take(idx + 1)[c] == qstart.take(idx as int)[c]);
                }
            }
        }
        idx = idx + 1;
    }
    proof {
        assert(explosion_queue@.take(idx as int) =~= explosion_queue@);
        let q = explosion_queue@;
        let d = destroyed@;
        assert forall|k: int| 0 <= k < blocks@.len() && #[trigger] newly(d0, d, k) implies exists|
            c: int,
        | 0 <= c < q.len() && within_radius(blocks@[k].position, #[trigger] q[c]) by {
            let c = origin[k];
            assert(within_radius(blocks@[k].position, q[c]));
        }
        assert(chain_sound(blocks@, d0, d, q));
        assert forall|k: int|
            0 <= k < blocks@.len() && #[trigger] newly(d0, d, k) && is_explosive(
                blocks@[k],
            ) implies exists|c: int| 0 <= c < q.len() && #[trigger] q[c] == blocks@[k].position by {
            let c = pushed[k];
            assert(q[c] == blocks@[k].position);
        }
        assert(chain_queues_explosives(blocks@, d0, d, q));
        assert forall|c: int| 1 <= c < q.len() implies destroyed_explosive_at(blocks@, d0, d, #[trigger] q[c]) by {
            let k = qsrc[c];
            assert(qsrc_ok(blocks@, d0, d, k, q[c]));
        }
        assert(chain_centers_from_explosives(blocks@, d0, d, q));
        lemma_new_explosive_bound(blocks@, d0, d);
        assert forall|c: int| 1 <= c < q.len() implies linked_to_earlier(q, c) by {
            assert(within_radius(q[c], q[qlink[c]]));
        }
        assert(blast_closed(blocks@, d, q));
        assert(forall|k: int| 0 <= k < blocks@.len() && d0[k] ==> d[k]);
        assert(forall|k: int| 0 <= k < blocks@.len() && newly(d0, d, k) ==> !is_steel(blocks@[k]));
        assert(q.len() >= 1 && q[0] == first && d.len() == blocks@.len());
        assert(chain_outcome(blocks@, d0, d, q, first));
    }
}


/// An Explosive block next to another one (within its radius) takes the
/// other one down with it, and every non-Steel block within the radius of
/// either is destroyed as well.
pub proof fn lemma_explosive_chain(
    blocks: Seq<Block>,
    before: Seq<bool>,
    after: Seq<bool>,
    centers: Seq<Vec2>,
    first: int,
    second: int,
    k: int,
)
    requires
        chain_outcome(blocks, before, after, centers, blocks[first].position),
        0 <= first < blocks.len(),
        0 <= second < blocks.len(),
        0 <= k < blocks.len(),
        is_explosive(blocks[second]),
        !before[second],
        within_radius(blocks[second].position, blocks[first].position),
        !is_steel(blocks[k]),
        within_radius(blocks[k].position, blocks[first].position) || within_radius(
            blocks[k].position,
            blocks[second].position,
        ),
    ensures
        after[second],
        after[k],
{
    assert(within_radius(blocks[second].position, centers[0]));
    assert(after[second]);
    assert(newly(before, after, second));
    assert(chain_queues_explosives(blocks, before, after, centers));
    let c = choose|c: int| 0 <= c < centers.len() && #[trigger] centers[c] == blocks[second].position;
    if within_radius(blocks[k].position, blocks[first].position) {
        assert(within_radius(blocks[k].position, centers[0]));
    } else {
        assert(within_radius(blocks[k].position, centers[c]));
    }
}

} // verus!
