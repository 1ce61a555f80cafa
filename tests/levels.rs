use breakout::components::BlockType;
use breakout::levels::{grid_x, grid_y, level_grid, level_rand, spawn_blocks};
use breakout::resources::Level;

fn blocks_for_level(level: u32) -> Vec<BlockType> {
    spawn_blocks(&Level { current: level }).iter().map(|b| b.block_type).collect()
}

fn has_clearable_blocks(blocks: &[BlockType]) -> bool {
    blocks.iter().any(|bt| !matches!(bt, BlockType::Steel))
}

#[test]
fn level_4_spawns_blocks() {
    let blocks = blocks_for_level(4);
    assert!(!blocks.is_empty(), "Level 4 should spawn blocks");
    assert!(has_clearable_blocks(&blocks), "Level 4 must be clearable");
}

#[test]
fn level_4_has_steel_maze_walls() {
    let blocks = blocks_for_level(4);
    let steel_count = blocks.iter().filter(|bt| matches!(bt, BlockType::Steel)).count();
    assert!(steel_count > 0, "Level 4 maze should have Steel blocks");
}

#[test]
fn level_5_spawns_blocks() {
    let blocks = blocks_for_level(5);
    assert!(!blocks.is_empty(), "Level 5 should spawn blocks");
    assert!(has_clearable_blocks(&blocks), "Level 5 must be clearable");
}

#[test]
fn level_5_has_durable_blocks() {
    let blocks = blocks_for_level(5);
    let durable_count = blocks.iter().filter(|bt| matches!(bt, BlockType::Durable { .. })).count();
    assert!(durable_count > 0, "Level 5 spiral should have Durable blocks");
}

#[test]
fn level_6_spawns_blocks() {
    let blocks = blocks_for_level(6);
    assert!(!blocks.is_empty(), "Level 6 should spawn blocks");
    assert!(has_clearable_blocks(&blocks), "Level 6 must be clearable");
}

#[test]
fn level_6_has_explosive_blocks() {
    let blocks = blocks_for_level(6);
    let explosive_count = blocks.iter().filter(|bt| matches!(bt, BlockType::Explosive)).count();
    assert!(explosive_count > 0, "Level 6 checkerboard should have Explosive blocks");
}

#[test]
fn level_7_spawns_blocks() {
    let blocks = blocks_for_level(7);
    assert!(!blocks.is_empty(), "Level 7 should spawn blocks");
    assert!(has_clearable_blocks(&blocks), "Level 7 must be clearable");
}

#[test]
fn level_7_has_all_special_types() {
    let blocks = blocks_for_level(7);
    assert!(blocks.iter().any(|bt| matches!(bt, BlockType::Steel)), "Level 7 fortress should have Steel");
    assert!(blocks.iter().any(|bt| matches!(bt, BlockType::Explosive)), "Level 7 fortress should have Explosive");
    assert!(blocks.iter().any(|bt| matches!(bt, BlockType::Durable { .. })), "Level 7 fortress should have Durable");
}

#[test]
fn level_8_spawns_blocks() {
    let blocks = blocks_for_level(8);
    assert!(!blocks.is_empty(), "Level 8 should spawn blocks");
    assert!(has_clearable_blocks(&blocks), "Level 8 must be clearable");
}

#[test]
fn level_8_has_all_block_types() {
    let blocks = blocks_for_level(8);
    assert!(blocks.iter().any(|bt| matches!(bt, BlockType::Normal)), "Level 8 should have Normal blocks");
    assert!(blocks.iter().any(|bt| matches!(bt, BlockType::Steel)), "Level 8 should have Steel blocks");
    assert!(blocks.iter().any(|bt| matches!(bt, BlockType::Explosive)), "Level 8 should have Explosive blocks");
    assert!(blocks.iter().any(|bt| matches!(bt, BlockType::Durable { .. })), "Level 8 should have Durable blocks");
}

#[test]
fn level_9_uses_generated() {
    let blocks = blocks_for_level(9);
    assert!(!blocks.is_empty(), "Level 9 (generated) should spawn blocks");
    assert!(has_clearable_blocks(&blocks), "Level 9 must be clearable");
}

#[test]
fn level_1_is_full_normal_grid() {
    let blocks = spawn_blocks(&Level { current: 1 });
    assert_eq!(blocks.len(), 50);
    assert!(blocks.iter().all(|b| b.block_type == BlockType::Normal));
    assert_eq!(blocks[0].position.x, -337_500);
    assert_eq!(blocks[0].position.y, 280_000);
    assert_eq!(blocks[49].position.x, 337_500);
    assert_eq!(blocks[49].position.y, 160_000);
}

#[test]
fn level_2_is_a_diamond() {
    let g = level_grid(2);
    let widths: Vec<usize> = g.iter().map(|r| r.iter().filter(|c| c.is_some()).count()).collect();
    assert_eq!(widths, vec![2, 4, 6, 8, 6, 4, 2]);
    assert_eq!(g[0][4], Some(BlockType::Normal));
    assert_eq!(g[0][5], Some(BlockType::Normal));
    assert_eq!(g[1][5], Some(BlockType::Durable { hits_remaining: 2 }));
}

#[test]
fn level_5_core_is_hardest() {
    let g = level_grid(5);
    assert_eq!(g[3][4], Some(BlockType::Durable { hits_remaining: 3 }));
    assert_eq!(g[3][2], Some(BlockType::Durable { hits_remaining: 2 }));
    assert_eq!(g[0][0], Some(BlockType::Normal));
    assert!(g.iter().all(|r| r.iter().all(|c| c.is_some())));
}

#[test]
fn generated_levels_are_reproducible() {
    for level in [9, 10, 15, 40, 1000, u32::MAX] {
        assert_eq!(level_grid(level), level_grid(level));
        assert_eq!(level_grid(level).len(), 5);
    }
    assert_eq!(level_rand(9, 0, 0), level_rand(9, 0, 0));
    assert_ne!(level_rand(9, 0, 0), level_rand(9, 0, 1));
}

#[test]
fn grid_positions() {
    assert_eq!(grid_x(0), -337_500);
    assert_eq!(grid_x(9), 337_500);
    assert_eq!(grid_y(0), 280_000);
    assert_eq!(grid_y(6), 100_000);
}
