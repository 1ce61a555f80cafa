use vstd::prelude::*;

use crate::components::{Block, BlockType};
use crate::constants::{BLOCK_COLS, BLOCK_GAP, BLOCK_HEIGHT, BLOCK_ROWS, BLOCK_WIDTH, BLOCKS_START_Y};
use crate::geometry::Vec2;
use crate::resources::Level;
use crate::rng::{below_percent, roll_below_percent, simple_rand, spec_simple_rand};

verus! {

/// A level grid: rows of cells, each empty or holding a block type.
pub type Grid = Vec<Vec<Option<BlockType>>>;

/// The view of a grid: rows of cells.
pub open spec fn grid_view(g: Grid) -> Seq<Seq<Option<BlockType>>> {
    Seq::new(g@.len(), |r: int| g@[r]@)
}

/// Largest row or column index that grid positions are computed for.
pub const MAX_GRID_INDEX: usize = 10_000;

pub open spec fn spec_grid_x(col: int) -> int {
    -(BLOCK_COLS * (BLOCK_WIDTH + BLOCK_GAP) - BLOCK_GAP) / 2 + BLOCK_WIDTH / 2 + col * (
    BLOCK_WIDTH + BLOCK_GAP)
}

pub open spec fn spec_grid_y(row: int) -> int {
    BLOCKS_START_Y - row * (BLOCK_HEIGHT + BLOCK_GAP)
}

/// World x of a grid column's centre.
pub fn grid_x(col: usize) -> (x: i32)
    requires
        col <= MAX_GRID_INDEX,
    ensures
        x == spec_grid_x(col as int),
{
    let total_width: i32 = BLOCK_COLS as i32 * (BLOCK_WIDTH + BLOCK_GAP) - BLOCK_GAP;
    let start_x: i32 = -total_width / 2 + BLOCK_WIDTH / 2;
    start_x + col as i32 * (BLOCK_WIDTH + BLOCK_GAP)
}

/// World y of a grid row's centre.
pub fn grid_y(row: usize) -> (y: i32)
    requires
        row <= MAX_GRID_INDEX,
    ensures
        y == spec_grid_y(row as int),
{
    BLOCKS_START_Y - row as i32 * (BLOCK_HEIGHT + BLOCK_GAP)
}

pub open spec fn durable(hits: u32) -> Option<BlockType> {
    Some(BlockType::Durable { hits_remaining: hits })
}

/// Number of rows a level's layout has.
pub open spec fn level_rows(level: u32) -> int {
    if 2 <= level <= 8 {
        7
    } else {
        BLOCK_ROWS as int
    }
}

/// Level 2: a diamond seven rows high, with every third diagonal Durable(2).
pub open spec fn level_2_cell(row: int, col: int) -> Option<BlockType> {
    let half = if row <= 3 { row + 1 } else { 7 - row };
    let start = if 5 >= half { 5 - half } else { 0 };
    let end = if 5 + half <= 10 { 5 + half } else { 10 };
    if start <= col < end {
        if (row + col) % 3 == 0 { durable(2) } else { Some(BlockType::Normal) }
    } else {
        None
    }
}

/// Level 3: a Steel barrier across row 3 with gaps at columns 2 and 7,
/// Explosive blocks at the top centre, Durable(2) above the barrier and
/// Normal below it.
pub open spec fn level_3_cell(row: int, col: int) -> Option<BlockType> {
    if row == 3 && col != 2 && col != 7 {
        Some(BlockType::Steel)
    } else if row <= 1 && 3 <= col <= 6 {
        Some(BlockType::Explosive)
    } else if row <= 2 {
        durable(2)
    } else {
        Some(BlockType::Normal)
    }
}

/// Level 4: a maze of Steel pillars in columns 3 and 6 (open in rows 1 and 5)
/// and a Steel barrier in row 3 (open in columns 1, 4 and 8), Durable(2) along
/// the top and bottom rows, Normal elsewhere.
pub open spec fn level_4_cell(row: int, col: int) -> Option<BlockType> {
    if (col == 3 || col == 6) && !(row == 1 || row == 5) {
        Some(BlockType::Steel)
    } else if row == 3 && col != 1 && col != 4 && col != 8 {
        Some(BlockType::Steel)
    } else if row == 0 || row == 6 {
        durable(2)
    } else {
        Some(BlockType::Normal)
    }
}

/// Four times the squared distance of a cell from the centre of the 7 by 10
/// field.
pub open spec fn centre_distance4(row: int, col: int) -> int {
    (2 * row - 6) * (2 * row - 6) + (2 * col - 9) * (2 * col - 9)
}

/// Level 5: the spiral's rings cover the whole 7 by 10 field; blocks within
/// distance 2 of the centre are Durable(3), within 3.5 Durable(2), the rest
/// Normal.
pub open spec fn level_5_cell(row: int, col: int) -> Option<BlockType> {
    if centre_distance4(row, col) < 16 {
        durable(3)
    } else if centre_distance4(row, col) < 49 {
        durable(2)
    } else {
        Some(BlockType::Normal)
    }
}

/// Level 6: a checkerboard with Explosive blocks at a few chosen squares,
/// Durable(2) along the top and bottom rows.
pub open spec fn level_6_cell(row: int, col: int) -> Option<BlockType> {
    if (row + col) % 2 != 0 {
        None
    } else if (row == 1 || row == 5) && (col == 2 || col == 7) {
        Some(BlockType::Explosive)
    } else if row == 3 && (col == 0 || col == 4 || col == 8) {
        Some(BlockType::Explosive)
    } else if row == 0 || row == 6 {
        durable(2)
    } else {
        Some(BlockType::Normal)
    }
}

/// Level 7: a Steel ring with Normal gates at the bottom centre and the middle
/// of each side, a core of alternating Explosive and Durable(3), Durable(2)
/// between.
pub open spec fn level_7_cell(row: int, col: int) -> Option<BlockType> {
    let outer = row == 0 || row == 6 || col == 0 || col == 9;
    let entry = (row == 6 && (col == 4 || col == 5)) || (col == 0 && row == 3) || (col == 9 && row
        == 3);
    if outer && !entry {
        Some(BlockType::Steel)
    } else if entry {
        Some(BlockType::Normal)
    } else if 2 <= row <= 4 && 3 <= col <= 6 {
        if (row + col) % 2 == 0 { Some(BlockType::Explosive) } else { durable(3) }
    } else {
        durable(2)
    }
}

/// Level 8: a Steel cross splits the field into quadrants, with an Explosive
/// block and Durable(3) blocks in each outer corner, Durable(2) above the
/// cross and a Normal/Durable(2) mix below it.
pub open spec fn level_8_cell(row: int, col: int) -> Option<BlockType> {
    let cross = (row == 3 && col != 0 && col != 9) || ((col == 4 || col == 5) && row != 0 && row
        != 6);
    let spot = (row == 1 || row == 5) && (col == 1 || col == 8);
    let corner = (row <= 1 || row >= 5) && (col <= 1 || col >= 8);
    if cross {
        Some(BlockType::Steel)
    } else if spot {
        Some(BlockType::Explosive)
    } else if corner {
        durable(3)
    } else if row <= 2 {
        durable(2)
    } else if (row + col) % 3 == 0 {
        durable(2)
    } else {
        Some(BlockType::Normal)
    }
}

pub open spec fn wrap32(v: int) -> int {
    v % 0x1_0000_0000
}

/// The roll for a cell of a generated level: the hash of a seed mixed from the
/// level, row and column with 32-bit wrapping arithmetic.
pub open spec fn spec_level_rand(level: u32, row: u32, col: u32) -> u32 {
    spec_simple_rand(
        wrap32(wrap32(wrap32(level * 7919) + wrap32(row * 1301)) + wrap32(col * 3571)) as u32,
    )
}

pub fn level_rand(level: u32, row: u32, col: u32) -> (r: u32)
    ensures
        r == spec_level_rand(level, row, col),
{
    let seed = level.wrapping_mul(7919).wrapping_add(row.wrapping_mul(1301)).wrapping_add(
        col.wrapping_mul(3571),
    );
    simple_rand(seed)
}

pub open spec fn min_int(a: int, b: int) -> int {
    if a < b { a } else { b }
}

/// Per-cell chances of a generated level, in percent, rising with the level
/// up to their caps.
pub open spec fn durable_percent(level: u32) -> int {
    min_int(10 + (level - 9) * 5, 35)
}

pub open spec fn steel_percent(level: u32) -> int {
    min_int(5 + (level - 9) * 3, 15)
}

pub open spec fn explosive_percent(level: u32) -> int {
    min_int(5 + (level - 9) * 2, 12)
}

/// A cell of a generated level (level 9 and above): one roll picks Steel,
/// Explosive, Durable or Normal by the level's chances; a Durable block gets
/// three hits on a second roll under 30 percent, else two.
pub open spec fn generated_cell(level: u32, row: int, col: int) -> Option<BlockType> {
    let roll = spec_level_rand(level, row as u32, col as u32);
    let s = steel_percent(level);
    let e = explosive_percent(level);
    let d = durable_percent(level);
    if below_percent(roll, s as u64) {
        Some(BlockType::Steel)
    } else if below_percent(roll, (s + e) as u64) {
        Some(BlockType::Explosive)
    } else if below_percent(roll, (s + e + d) as u64) {
        if below_percent(spec_level_rand(level, (row + 100) as u32, col as u32), 30) {
            durable(3)
        } else {
            durable(2)
        }
    } else {
        Some(BlockType::Normal)
    }
}

/// A cell of a level's layout.
#[verifier::opaque]
pub open spec fn level_cell(level: u32, row: int, col: int) -> Option<BlockType> {
    if level <= 1 {
        Some(BlockType::Normal)
    } else if level == 2 {
        level_2_cell(row, col)
    } else if level == 3 {
        level_3_cell(row, col)
    } else if level == 4 {
        level_4_cell(row, col)
    } else if level == 5 {
        level_5_cell(row, col)
    } else if level == 6 {
        level_6_cell(row, col)
    } else if level == 7 {
        level_7_cell(row, col)
    } else if level == 8 {
        level_8_cell(row, col)
    } else {
        generated_cell(level, row, col)
    }
}

fn normal() -> (r: Option<BlockType>)
    ensures
        r == Some(BlockType::Normal),
{
    Some(BlockType::Normal)
}

fn steel() -> (r: Option<BlockType>)
    ensures
        r == Some(BlockType::Steel),
{
    Some(BlockType::Steel)
}

fn explosive() -> (r: Option<BlockType>)
    ensures
        r == Some(BlockType::Explosive),
{
    Some(BlockType::Explosive)
}

fn durable_block(hits: u32) -> (r: Option<BlockType>)
    ensures
        r == durable(hits),
{
    Some(BlockType::Durable { hits_remaining: hits })
}

fn spawn_level_2(row: usize, col: usize) -> (r: Option<BlockType>)
    requires
        row < 7,
        col < 10,
    ensures
        r == level_2_cell(row as int, col as int),
{
    let half = if row <= 3 { row + 1 } else { 7 - row };
    let start = if 5 >= half { 5 - half } else { 0 };
    let end = if 5 + half <= 10 { 5 + half } else { 10 };
    if start <= col && col < end {
        if (row + col) % 3 == 0 { durable_block(2) } else { normal() }
    } else {
        None
    }
}

fn spawn_level_3(row: usize, col: usize) -> (r: Option<BlockType>)
    ensures
        r == level_3_cell(row as int, col as int),
{
    if row == 3 && col != 2 && col != 7 {
        steel()
    } else if row <= 1 && 3 <= col && col <= 6 {
        explosive()
    } else if row <= 2 {
        durable_block(2)
    } else {
        normal()
    }
}

fn spawn_level_4(row: usize, col: usize) -> (r: Option<BlockType>)
    ensures
        r == level_4_cell(row as int, col as int),
{
    let is_pillar_col = col == 3 || col == 6;
    let is_gap_row = row == 1 || row == 5;
    let is_h_barrier = row == 3 && col != 1 && col != 4 && col != 8;
    if is_pillar_col && !is_gap_row {
        steel()
    } else if is_h_barrier {
        steel()
    } else if row == 0 || row == 6 {
        durable_block(2)
    } else {
        normal()
    }
}

fn spawn_level_5(row: usize, col: usize) -> (r: Option<BlockType>)
    requires
        row < 7,
        col < 10,
    ensures
        r == level_5_cell(row as int, col as int),
{
    let dr: i64 = 2 * row as i64 - 6;
    let dc: i64 = 2 * col as i64 - 9;
    assert(0 <= dr * dr <= 64 && 0 <= dc * dc <= 81) by (nonlinear_arith)
        requires -6 <= dr <= 6, -9 <= dc <= 9;
    let d4 = dr * dr + dc * dc;
    if d4 < 16 {
        durable_block(3)
    } else if d4 < 49 {
        durable_block(2)
    } else {
        normal()
    }
}

fn spawn_level_6(row: usize, col: usize) -> (r: Option<BlockType>)
    requires
        row < 7,
        col < 10,
    ensures
        r == level_6_cell(row as int, col as int),
{
    if (row + col) % 2 != 0 {
        None
    } else if (row == 1 || row == 5) && (col == 2 || col == 7) {
        explosive()
    } else if row == 3 && (col == 0 || col == 4 || col == 8) {
        explosive()
    } else if row == 0 || row == 6 {
        durable_block(2)
    } else {
        normal()
    }
}

fn spawn_level_7(row: usize, col: usize) -> (r: Option<BlockType>)
    requires
        row < 7,
        col < 10,
    ensures
        r == level_7_cell(row as int, col as int),
{
    let is_outer = row == 0 || row == 6 || col == 0 || col == 9;
    let is_entry = (row == 6 && (col == 4 || col == 5)) || (col == 0 && row == 3) || (col == 9
        && row == 3);
    if is_outer && !is_entry {
        steel()
    } else if is_entry {
        normal()
    } else if 2 <= row && row <= 4 && 3 <= col && col <= 6 {
        if (row + col) % 2 == 0 { explosive() } else { durable_block(3) }
    } else {
        durable_block(2)
    }
}

fn spawn_level_8(row: usize, col: usize) -> (r: Option<BlockType>)
    requires
        row < 7,
        col < 10,
    ensures
        r == level_8_cell(row as int, col as int),
{
    let is_cross = (row == 3 && col != 0 && col != 9) || (col == 4 && row != 0 && row != 6) || (
    col == 5 && row != 0 && row != 6);
    let is_explosive_spot = (row == 1 && col == 1) || (row == 1 && col == 8) || (row == 5 && col
        == 1) || (row == 5 && col == 8);
    let is_hard_corner = (row <= 1 && (col <= 1 || col >= 8)) || (row >= 5 && (col <= 1 || col
        >= 8));
    if is_cross {
        steel()
    } else if is_explosive_spot {
        explosive()
    } else if is_hard_corner {
        durable_block(3)
    } else if row <= 2 {
        durable_block(2)
    } else if (row + col) % 3 == 0 {
        durable_block(2)
    } else {
        normal()
    }
}

fn spawn_generated_level(level: u32, row: usize, col: usize) -> (r: Option<BlockType>)
    requires
        level >= 9,
        row < 7,
        col < 10,
    ensures
        r == generated_cell(level, row as int, col as int),
{
    let over: u64 = (level - 9) as u64;
    let durable_chance: u64 = if 10 + over * 5 < 35 { 10 + over * 5 } else { 35 };
    let steel_chance: u64 = if 5 + over * 3 < 15 { 5 + over * 3 } else { 15 };
    let explosive_chance: u64 = if 5 + over * 2 < 12 { 5 + over * 2 } else { 12 };
    let roll = level_rand(level, row as u32, col as u32);
    if roll_below_percent(roll, steel_chance) {
        steel()
    } else if roll_below_percent(roll, steel_chance + explosive_chance) {
        explosive()
    } else if roll_below_percent(roll, steel_chance + explosive_chance + durable_chance) {
        if roll_below_percent(level_rand(level, row as u32 + 100, col as u32), 30) {
            durable_block(3)
        } else {
            durable_block(2)
        }
    } else {
        normal()
    }
}

/// One cell of a level's layout.
pub fn level_block(level: u32, row: usize, col: usize) -> (r: Option<BlockType>)
    requires
        row < 7,
        col < 10,
    ensures
        r == level_cell(level, row as int, col as int),
{
    reveal(level_cell);
    if level <= 1 {
        normal()
    } else if level == 2 {
        spawn_level_2(row, col)
    } else if level == 3 {
        spawn_level_3(row, col)
    } else if level == 4 {
        spawn_level_4(row, col)
    } else if level == 5 {
        spawn_level_5(row, col)
    } else if level == 6 {
        spawn_level_6(row, col)
    } else if level == 7 {
        spawn_level_7(row, col)
    } else if level == 8 {
        spawn_level_8(row, col)
    } else {
        spawn_generated_level(level, row, col)
    }
}

/// A grid of `rows` rows and `cols` columns.
pub open spec fn grid_shape(g: Seq<Seq<Option<BlockType>>>, rows: int, cols: int) -> bool {
    g.len() == rows && forall|r: int| 0 <= r < rows ==> (#[trigger] g[r]).len() == cols
}

/// The layout of a level as a grid: seven rows for the hand-authored levels 2
/// to 8, five otherwise, ten columns each, every cell given by `level_cell`.
pub fn level_grid(level: u32) -> (g: Grid)
    ensures
        grid_shape(grid_view(g), level_rows(level), BLOCK_COLS as int),
        forall|r: int, c: int|
            0 <= r < level_rows(level) && 0 <= c < BLOCK_COLS ==> grid_view(g)[r][c] == level_cell(
                level,
                r,
                c,
            ),
{
    let rows: usize = if 2 <= level && level <= 8 { 7 } else { BLOCK_ROWS };
    let mut g: Grid = Vec::new();
    let mut r: usize = 0;
    while r < rows
        invariant
            rows == level_rows(level),
            r <= rows,
            g@.len() == r,
            forall|q: int| 0 <= q < r ==> (#[trigger] g@[q])@.len() == BLOCK_COLS,
            forall|q: int, c: int| 0 <= q < r && 0 <= c < BLOCK_COLS ==> g@[q]@[c] == level_cell(level, q, c),
        decreases rows - r,
    {
        let mut row: Vec<Option<BlockType>> = Vec::new();
        let mut c: usize = 0;
        while c < BLOCK_COLS
            invariant
                r < rows <= 7,
                c <= BLOCK_COLS,
                row@.len() == c,
                forall|k: int| 0 <= k < c ==> row@[k] == level_cell(level, r as int, k),
            decreases BLOCK_COLS - c,
        {
            row.push(level_block(level, r, c));
            c = c + 1;
        }
        g.push(row);
        r = r + 1;
    }
    g
}

/// The blocks of one grid row, left to right.
pub open spec fn row_blocks(cells: Seq<Option<BlockType>>, row: int) -> Seq<Block>
    decreases cells.len(),
{
    if cells.len() == 0 {
        Seq::empty()
    } else {
        let rest = row_blocks(cells.drop_last(), row);
        match cells.last() {
            Some(t) => rest.push(
                Block {
                    position: Vec2 {
                        x: spec_grid_x(cells.len() - 1) as i32,
                        y: spec_grid_y(row) as i32,
                    },
                    block_type: t,
                },
            ),
            None => rest,
        }
    }
}

/// The blocks of a grid, row by row from the top, each row left to right.
pub open spec fn grid_blocks(g: Seq<Seq<Option<BlockType>>>) -> Seq<Block>
    decreases g.len(),
{
    if g.len() == 0 {
        Seq::empty()
    } else {
        grid_blocks(g.drop_last()) + row_blocks(g.last(), g.len() - 1)
    }
}

/// Places the blocks of a grid at the world positions of their cells.
pub fn spawn_blocks_from_grid(grid: &Grid) -> (blocks: Vec<Block>)
    requires
        grid@.len() <= MAX_GRID_INDEX,
        forall|r: int| 0 <= r < grid@.len() ==> (#[trigger] grid@[r])@.len() <= MAX_GRID_INDEX,
    ensures
        blocks@ == grid_blocks(grid_view(*grid)),
{
    let mut blocks: Vec<Block> = Vec::new();
    let mut r: usize = 0;
    while r < grid.len()
        invariant
            r <= grid@.len() <= MAX_GRID_INDEX,
            forall|q: int| 0 <= q < grid@.len() ==> (#[trigger] grid@[q])@.len() <= MAX_GRID_INDEX,
            blocks@ == grid_blocks(grid_view(*grid).take(r as int)),
        decreases grid@.len() - r,
    {
        let ghost before = blocks@;
        let row = &grid[r];
        let mut c: usize = 0;
        while c < row.len()
            invariant
                r < grid@.len(),
                row@ == grid@[r as int]@,
                c <= row@.len() <= MAX_GRID_INDEX,
                r <= MAX_GRID_INDEX,
                blocks@ == before + row_blocks(row@.take(c as int), r as int),
            decreases row@.len() - c,
        {
            assert(row@.take(c + 1).drop_last() =~= row@.take(c as int));
            match row[c] {
                Some(t) => {
                    let b = Block { position: Vec2 { x: grid_x(c), y: grid_y(r) }, block_type: t };
                    blocks.push(b);
                    assert(blocks@ =~= before + row_blocks(row@.take(c + 1), r as int));
                },
                None => {},
            }
            c = c + 1;
        }
        assert(row@.take(c as int) =~= row@);
        assert(grid_view(*grid).take(r + 1).drop_last() =~= grid_view(*grid).take(r as int));
        assert(grid_view(*grid).take(r + 1).last() == row@);
        r = r + 1;
    }
    assert(grid_view(*grid).take(r as int) =~= grid_view(*grid));
    blocks
}

/// The blocks of the current level's layout.
pub fn spawn_blocks(level: &Level) -> (blocks: Vec<Block>)
    ensures
        exists|g: Grid| level_grid_matches(level.current, g) && blocks@ == grid_blocks(grid_view(g)),
{
    let g = level_grid(level.current);
    assert(level_grid_matches(level.current, g));
    assert forall|r: int| 0 <= r < g@.len() implies (#[trigger] g@[r])@.len() <= MAX_GRID_INDEX by {
        assert(grid_view(g)[r] == g@[r]@);
    }
    spawn_blocks_from_grid(&g)
}

pub open spec fn level_grid_matches(level: u32, g: Grid) -> bool {
    &&& grid_shape(grid_view(g), level_rows(level), BLOCK_COLS as int)
    &&& forall|r: int, c: int|
        0 <= r < level_rows(level) && 0 <= c < BLOCK_COLS ==> grid_view(g)[r][c] == level_cell(level, r, c)
}

} // verus!
