use crab_nbt::{Nbt, NbtCompound, NbtTag};
use nbtexport::{
    assemble_schem, assemble_structure, block_records, dense_codes, dense_grid, encode, get_block,
    record_column, records_from_codes, to_schem, to_structure, BlockRecord, ExportError, Layout,
    Palette, VoxelMap,
};

fn scenario() -> VoxelMap {
    let mut map = VoxelMap::new();
    map.insert(0, 0, 0, "stone".to_string());
    map.insert(1, 0, 0, "stone".to_string());
    map.insert(0, 1, 0, "dirt".to_string());
    map
}

fn shifted() -> VoxelMap {
    let mut map = VoxelMap::new();
    map.insert(10, -5, 7, "a".to_string());
    map.insert(11, -4, 9, "b".to_string());
    map.insert(12, -5, 8, "c".to_string());
    map
}

fn record(x: i32, y: i32, z: i32, state: i32) -> NbtTag {
    let mut c = NbtCompound::new();
    c.put("pos".to_string(), NbtTag::List(vec![NbtTag::Int(x), NbtTag::Int(y), NbtTag::Int(z)]));
    c.put("state".to_string(), NbtTag::Int(state));
    NbtTag::Compound(c)
}

fn name_entry(name: &str) -> NbtTag {
    let mut c = NbtCompound::new();
    c.put("Name".to_string(), NbtTag::String(name.to_string()));
    NbtTag::Compound(c)
}

#[test]
fn structure_scenario_records() {
    let records = block_records(&scenario()).unwrap();
    assert_eq!(
        records,
        vec![
            BlockRecord { x: 0, y: 0, z: 0, state: 1 },
            BlockRecord { x: 0, y: 1, z: 0, state: 2 },
            BlockRecord { x: 1, y: 0, z: 0, state: 1 },
            BlockRecord { x: 1, y: 1, z: 0, state: 0 },
        ]
    );
}

#[test]
fn structure_scenario_tree() {
    let nbt = to_structure(&scenario()).unwrap();
    let mut root = NbtCompound::new();
    root.put(
        "blocks".to_string(),
        NbtTag::List(vec![record(0, 0, 0, 1), record(0, 1, 0, 2), record(1, 0, 0, 1), record(1, 1, 0, 0)]),
    );
    root.put("entities".to_string(), NbtTag::List(vec![]));
    root.put(
        "palette".to_string(),
        NbtTag::List(vec![name_entry("minecraft:air"), name_entry("stone"), name_entry("dirt")]),
    );
    root.put("size".to_string(), NbtTag::List(vec![NbtTag::Int(2), NbtTag::Int(2), NbtTag::Int(1)]));
    root.put("DataVersion".to_string(), NbtTag::Int(3953));
    assert_eq!(nbt, Nbt::new(String::new(), root));
}

#[test]
fn schem_scenario_grid() {
    let grid = dense_grid(&scenario()).unwrap();
    assert_eq!(grid.len(), 4);
    assert_eq!(grid[0], 1);
    assert_eq!(grid[1], 1);
    assert_eq!(grid[2], 2);
    assert_eq!(grid[3], 0);
}

#[test]
fn schem_scenario_tree() {
    let nbt = to_schem(&scenario()).unwrap();
    let mut palette = NbtCompound::new();
    palette.put("minecraft:air".to_string(), NbtTag::Int(0));
    palette.put("stone".to_string(), NbtTag::Int(1));
    palette.put("dirt".to_string(), NbtTag::Int(2));
    let mut blocks = NbtCompound::new();
    blocks.put("BlockEntities".to_string(), NbtTag::List(vec![]));
    blocks.put("Palette".to_string(), NbtTag::Compound(palette));
    blocks.put("Data".to_string(), NbtTag::ByteArray(vec![1u8, 1, 2, 0].into()));
    let mut inner = NbtCompound::new();
    inner.put("Version".to_string(), NbtTag::Int(3));
    inner.put("DataVersion".to_string(), NbtTag::Int(4325));
    inner.put("Width".to_string(), NbtTag::Short(2));
    inner.put("Height".to_string(), NbtTag::Short(2));
    inner.put("Length".to_string(), NbtTag::Short(1));
    inner.put("Blocks".to_string(), NbtTag::Compound(blocks));
    let mut root = NbtCompound::new();
    root.put("Schematic".to_string(), NbtTag::Compound(inner));
    assert_eq!(nbt, Nbt::new(String::new(), root));
}

#[test]
fn schem_grid_uses_local_coordinates_with_y_and_z_swapped() {
    // The box is 3 wide, 2 high and 3 long; its corner is (10, -5, 7).
    let grid = dense_grid(&shifted()).unwrap();
    assert_eq!(grid.len(), 18);
    let mut expected = vec![0u8; 18];
    expected[0 + 3 * (0 + 3 * 0)] = 1; // (10, -5, 7) -> local (0, 0, 0)
    expected[1 + 3 * (2 + 3 * 1)] = 2; // (11, -4, 9) -> local (1, 1, 2)
    expected[2 + 3 * (1 + 3 * 0)] = 3; // (12, -5, 8) -> local (2, 0, 1)
    assert_eq!(grid, expected);
}

#[test]
fn structure_records_cover_the_box_in_x_y_z_order() {
    let records = block_records(&shifted()).unwrap();
    assert_eq!(records.len(), 18);
    let mut i = 0;
    for x in 0..3 {
        for y in 0..2 {
            for z in 0..3 {
                let state = match (x, y, z) {
                    (0, 0, 0) => 1,
                    (1, 1, 2) => 2,
                    (2, 0, 1) => 3,
                    _ => 0,
                };
                assert_eq!(records[i], BlockRecord { x, y, z, state });
                i += 1;
            }
        }
    }
}

#[test]
fn dense_codes_in_both_layouts() {
    let map = scenario();
    assert_eq!(dense_codes(&map, Layout::Schematic), Ok(vec![1, 1, 2, 0]));
    assert_eq!(dense_codes(&map, Layout::Structure), Ok(vec![1, 2, 1, 0]));
    assert_eq!(dense_codes(&VoxelMap::new(), Layout::Schematic), Err(ExportError::EmptyInput));
}

#[test]
fn columns_joined_in_order_are_the_record_list() {
    let codes = dense_codes(&shifted(), Layout::Structure).unwrap();
    let mut joined = Vec::new();
    for x in 0..3 {
        let column = record_column(&codes, 2, 3, x);
        assert_eq!(column.len(), 6);
        joined.extend(column);
    }
    assert_eq!(joined, records_from_codes(&codes, 3, 2, 3));
    assert_eq!(joined, block_records(&shifted()).unwrap());
}

#[test]
fn get_block_builds_one_record() {
    assert_eq!(get_block(4, 5, 6, 7), record(4, 5, 6, 7));
}

#[test]
fn assemble_structure_takes_any_records() {
    let palette = Palette::build(&scenario());
    let records = vec![BlockRecord { x: 9, y: 8, z: 7, state: 2 }];
    let nbt = assemble_structure(1, 1, 1, &palette, &records);
    assert_eq!(nbt.name, "");
    assert_eq!(nbt.get_list("blocks"), Some(&vec![record(9, 8, 7, 2)]));
    assert_eq!(nbt.get_list("entities"), Some(&vec![]));
    assert_eq!(nbt.get_int("DataVersion"), Some(3953));
    assert_eq!(
        nbt.get_list("size"),
        Some(&vec![NbtTag::Int(1), NbtTag::Int(1), NbtTag::Int(1)])
    );
}

#[test]
fn assemble_schem_cuts_extents_to_sixteen_bits() {
    let palette = Palette::build(&scenario());
    let nbt = assemble_schem(70000, 3, -1, &palette, vec![9, 8]);
    let inner = nbt.get_compound("Schematic").unwrap();
    assert_eq!(inner.get_int("Version"), Some(3));
    assert_eq!(inner.get_int("DataVersion"), Some(4325));
    assert_eq!(inner.get_short("Width"), Some(4464));
    assert_eq!(inner.get_short("Height"), Some(3));
    assert_eq!(inner.get_short("Length"), Some(-1));
    let blocks = inner.get_compound("Blocks").unwrap();
    assert_eq!(blocks.get("Data"), Some(&NbtTag::ByteArray(vec![9u8, 8].into())));
    assert_eq!(blocks.get_compound("Palette").unwrap().get_int("dirt"), Some(2));
}

#[test]
fn empty_maps_are_refused_by_both_encoders() {
    let map = VoxelMap::new();
    assert_eq!(to_schem(&map), Err(ExportError::EmptyInput));
    assert_eq!(to_structure(&map), Err(ExportError::EmptyInput));
    assert_eq!(dense_grid(&map), Err(ExportError::EmptyInput));
    assert_eq!(block_records(&map), Err(ExportError::EmptyInput));
}

fn row_of_distinct_blocks(count: i32) -> VoxelMap {
    let mut map = VoxelMap::new();
    for i in 0..count {
        map.insert(i, 0, 0, format!("block{}", i));
    }
    map
}

#[test]
fn schem_takes_255_blocks_besides_air() {
    let map = row_of_distinct_blocks(255);
    let grid = dense_grid(&map).unwrap();
    assert_eq!(grid.len(), 255);
    for i in 0..255 {
        assert_eq!(grid[i] as usize, i + 1);
    }
    assert!(to_schem(&map).is_ok());
}

#[test]
fn schem_refuses_256_blocks_besides_air() {
    let map = row_of_distinct_blocks(256);
    assert_eq!(dense_grid(&map), Err(ExportError::PaletteOverflow));
    assert_eq!(to_schem(&map), Err(ExportError::PaletteOverflow));
}

#[test]
fn structure_has_no_palette_ceiling() {
    let map = row_of_distinct_blocks(300);
    let records = block_records(&map).unwrap();
    assert_eq!(records.len(), 300);
    assert_eq!(records[299], BlockRecord { x: 299, y: 0, z: 0, state: 300 });
    let nbt = to_structure(&map).unwrap();
    assert_eq!(nbt.get_list("palette").unwrap().len(), 301);
}

#[test]
fn encode_dispatches_on_the_mode() {
    let map = scenario();
    assert_eq!(encode(&map, "schem"), to_schem(&map));
    assert_eq!(encode(&map, "structure"), to_structure(&map));
    assert_eq!(encode(&map, "unknown"), Err(ExportError::UnknownMode));
    assert_eq!(encode(&map, ""), Err(ExportError::UnknownMode));
    assert_eq!(encode(&map, "Schem"), Err(ExportError::UnknownMode));
}

#[test]
fn encode_reports_an_unknown_mode_before_an_empty_map() {
    let map = VoxelMap::new();
    assert_eq!(encode(&map, "unknown"), Err(ExportError::UnknownMode));
    assert_eq!(encode(&map, "schem"), Err(ExportError::EmptyInput));
    assert_eq!(encode(&map, "structure"), Err(ExportError::EmptyInput));
}

#[test]
fn air_in_the_map_has_code_zero() {
    let mut map = VoxelMap::new();
    map.insert(0, 0, 0, "stone".to_string());
    map.insert(1, 0, 0, "minecraft:air".to_string());
    assert_eq!(dense_grid(&map), Ok(vec![1, 0]));
}
