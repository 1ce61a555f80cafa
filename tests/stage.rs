use breakout::components::BlockType;
use breakout::stage::{
    base64_decode, base64_encode, decode_grid_text, decode_stage, editor_has_clearable_blocks, encode_stage,
    grid_text, EditorState,
};

type Grid = Vec<Vec<Option<BlockType>>>;

fn empty_grid() -> Grid {
    vec![vec![None; 10]; 7]
}

#[test]
fn base64_roundtrip() {
    let input = r#"[[null,"Normal",null],[null,null,null]]"#;
    let encoded = base64_encode(input.as_bytes());
    let decoded = String::from_utf8(base64_decode(&encoded).unwrap()).unwrap();
    assert_eq!(input, decoded);
}

#[test]
fn base64_roundtrip_full_grid() {
    let grid = empty_grid();
    let json = grid_text(&grid);
    let encoded = base64_encode(&json);
    let decoded = base64_decode(&encoded).unwrap();
    let grid2 = decode_grid_text(&decoded).unwrap();
    assert_eq!(grid, grid2);
}

#[test]
fn base64_roundtrip_with_blocks() {
    let mut grid = empty_grid();
    grid[0][0] = Some(BlockType::Normal);
    grid[1][5] = Some(BlockType::Durable { hits_remaining: 2 });
    grid[3][3] = Some(BlockType::Steel);
    grid[6][9] = Some(BlockType::Explosive);
    let json = grid_text(&grid);
    let encoded = base64_encode(&json);
    let decoded = base64_decode(&encoded).unwrap();
    let grid2 = decode_grid_text(&decoded).unwrap();
    assert_eq!(grid, grid2);
}

#[test]
fn decode_stage_valid() {
    let grid = empty_grid();
    let encoded = encode_stage(&grid);
    let result = decode_stage(&encoded);
    assert!(result.is_some());
}

#[test]
fn decode_stage_invalid() {
    let result = decode_stage("not_valid_base64!@#");
    assert!(result.is_none());
}

#[test]
fn editor_has_clearable_blocks_empty() {
    let editor = EditorState::default();
    assert!(!editor_has_clearable_blocks(&editor.grid));
}

#[test]
fn editor_has_clearable_blocks_normal() {
    let mut editor = EditorState::default();
    editor.grid[0][0] = Some(BlockType::Normal);
    assert!(editor_has_clearable_blocks(&editor.grid));
}

#[test]
fn editor_has_clearable_blocks_steel_only() {
    let mut editor = EditorState::default();
    editor.grid[0][0] = Some(BlockType::Steel);
    assert!(!editor_has_clearable_blocks(&editor.grid));
}

#[test]
fn grid_text_matches_json_layout() {
    let mut grid = empty_grid();
    grid[0][1] = Some(BlockType::Durable { hits_remaining: 3 });
    let text = String::from_utf8(grid_text(&grid)).unwrap();
    assert!(text.starts_with(r#"[[null,{"Durable":{"hits_remaining":3}},null,"#));
    assert!(text.ends_with("null]]"));
}

#[test]
fn stage_round_trip_every_variant() {
    let mut grid = empty_grid();
    let kinds = [
        None,
        Some(BlockType::Normal),
        Some(BlockType::Steel),
        Some(BlockType::Explosive),
        Some(BlockType::Durable { hits_remaining: 0 }),
        Some(BlockType::Durable { hits_remaining: 1 }),
        Some(BlockType::Durable { hits_remaining: 10 }),
        Some(BlockType::Durable { hits_remaining: u32::MAX }),
    ];
    for r in 0..7 {
        for c in 0..10 {
            grid[r][c] = kinds[(r * 10 + c) % kinds.len()];
        }
    }
    let code = encode_stage(&grid);
    assert!(code.bytes().all(|b| b.is_ascii_alphanumeric() || b == b'-' || b == b'_'));
    assert_eq!(decode_stage(&code), Some(grid));
}

#[test]
fn decode_rejects_wrong_shapes() {
    let short: Grid = vec![vec![None; 10]; 6];
    let text = grid_text(&short);
    assert_eq!(decode_grid_text(&text), None);
    let narrow: Grid = vec![vec![None; 9]; 7];
    assert_eq!(decode_grid_text(&grid_text(&narrow)), None);
    let mut text = grid_text(&empty_grid());
    text.push(b' ');
    assert_eq!(decode_grid_text(&text), None);
    assert_eq!(decode_grid_text(b"[[01]]"), None);
    let leading_zero = r#"[[{"Durable":{"hits_remaining":02}}]]"#;
    assert_eq!(decode_grid_text(leading_zero.as_bytes()), None);
}

#[test]
fn base64_known_values() {
    assert_eq!(base64_encode(b""), "");
    assert_eq!(base64_encode(b"f"), "Zg");
    assert_eq!(base64_encode(b"fo"), "Zm8");
    assert_eq!(base64_encode(b"foo"), "Zm9v");
    assert_eq!(base64_encode(&[0xfb, 0xff]), "-_8");
    assert_eq!(base64_decode("Zm9v"), Some(b"foo".to_vec()));
    assert_eq!(base64_decode("Zm8"), Some(b"fo".to_vec()));
    assert_eq!(base64_decode("Zm9v+"), None);
}

#[test]
fn editor_places_selected_tool() {
    let mut editor = EditorState::default();
    editor.editor_grid_input(2, 3);
    assert_eq!(editor.grid[2][3], Some(BlockType::Normal));
    editor.editor_tool_select(None);
    editor.editor_grid_input(2, 3);
    assert_eq!(editor.grid[2][3], None);
    editor.editor_tool_select(Some(BlockType::Steel));
    editor.editor_grid_input(6, 9);
    assert_eq!(editor.grid[6][9], Some(BlockType::Steel));
}
