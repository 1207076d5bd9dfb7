use nbtexport::layout::measure;
use nbtexport::{BoundingBox, ExportError, Palette, VoxelMap};

fn sample() -> VoxelMap {
    let mut map = VoxelMap::new();
    map.insert(0, 0, 0, "stone".to_string());
    map.insert(1, 0, 0, "stone".to_string());
    map.insert(0, 1, 0, "dirt".to_string());
    map
}

#[test]
fn new_map_is_empty() {
    let map = VoxelMap::new();
    assert!(map.is_empty());
    assert_eq!(map.len(), 0);
    assert_eq!(map.get(0, 0, 0), None);
}

#[test]
fn insert_keeps_entries_in_position_order() {
    let mut map = VoxelMap::new();
    map.insert(1, 0, 0, "c".to_string());
    map.insert(0, 1, 0, "b".to_string());
    map.insert(0, 0, 5, "a".to_string());
    map.insert(-3, 9, 9, "z".to_string());
    assert_eq!(map.len(), 4);
    let seen: Vec<(i32, i32, i32, String)> =
        (0..map.len()).map(|i| {
            let v = map.entry(i);
            (v.x, v.y, v.z, v.block.clone())
        }).collect();
    assert_eq!(
        seen,
        vec![
            (-3, 9, 9, "z".to_string()),
            (0, 0, 5, "a".to_string()),
            (0, 1, 0, "b".to_string()),
            (1, 0, 0, "c".to_string()),
        ]
    );
}

#[test]
fn insert_replaces_the_block_at_a_position() {
    let mut map = sample();
    map.insert(1, 0, 0, "glass".to_string());
    assert_eq!(map.len(), 3);
    assert_eq!(map.get(1, 0, 0), Some(&"glass".to_string()));
    assert_eq!(map.get(0, 0, 0), Some(&"stone".to_string()));
}

#[test]
fn get_finds_stored_blocks_only() {
    let map = sample();
    assert_eq!(map.get(0, 1, 0), Some(&"dirt".to_string()));
    assert_eq!(map.get(1, 1, 0), None);
    assert_eq!(map.get(0, 0, 1), None);
    assert_eq!(map.get(-1, 0, 0), None);
}

#[test]
fn position_counts_the_entries_before() {
    let map = sample();
    assert_eq!(map.position(-5, 0, 0), 0);
    assert_eq!(map.position(0, 0, 0), 0);
    assert_eq!(map.position(0, 0, 1), 1);
    assert_eq!(map.position(0, 1, 0), 1);
    assert_eq!(map.position(1, 0, 0), 2);
    assert_eq!(map.position(1, 0, 1), 3);
}

#[test]
fn bounding_box_of_the_sample() {
    let map = sample();
    let b = map.bounding_box().unwrap();
    assert_eq!(b, BoundingBox { min_x: 0, max_x: 1, min_y: 0, max_y: 1, min_z: 0, max_z: 0 });
    assert_eq!(b.dimensions(), Some((2, 2, 1)));
}

#[test]
fn bounding_box_with_negative_coordinates() {
    let mut map = VoxelMap::new();
    map.insert(-4, 7, -2, "a".to_string());
    map.insert(3, -1, 10, "b".to_string());
    map.insert(0, 0, 0, "c".to_string());
    let b = map.bounding_box().unwrap();
    assert_eq!(b, BoundingBox { min_x: -4, max_x: 3, min_y: -1, max_y: 7, min_z: -2, max_z: 10 });
    assert_eq!(b.dimensions(), Some((8, 9, 13)));
}

#[test]
fn measure_gives_the_box_and_its_extents() {
    let mut map = sample();
    map.insert(0, 0, -2, "sand".to_string());
    let b = BoundingBox { min_x: 0, max_x: 1, min_y: 0, max_y: 1, min_z: -2, max_z: 0 };
    assert_eq!(measure(&map), Ok((b, 2, 2, 3)));
    assert_eq!(measure(&VoxelMap::new()), Err(ExportError::EmptyInput));
}

#[test]
fn bounding_box_of_an_empty_map_is_refused() {
    let map = VoxelMap::new();
    assert_eq!(map.bounding_box(), Err(ExportError::EmptyInput));
}

#[test]
fn box_fits_tells_large_boxes_apart() {
    assert!(VoxelMap::new().box_fits());
    assert!(sample().box_fits());
    let mut wide = VoxelMap::new();
    wide.insert(i32::MIN, 0, 0, "a".to_string());
    wide.insert(i32::MAX, 0, 0, "b".to_string());
    assert!(!wide.box_fits());
    let mut deep = VoxelMap::new();
    deep.insert(0, 0, 0, "a".to_string());
    deep.insert(65535, 65535, 0, "b".to_string());
    assert!(!deep.box_fits());
    let mut edge = VoxelMap::new();
    edge.insert(0, 0, 0, "a".to_string());
    edge.insert(i32::MAX - 1, 0, 0, "b".to_string());
    assert!(edge.box_fits());
}

#[test]
fn dimensions_are_refused_where_they_do_not_fit() {
    let inverted = BoundingBox { min_x: 1, max_x: 0, min_y: 0, max_y: 0, min_z: 0, max_z: 0 };
    assert_eq!(inverted.dimensions(), None);
    let huge = BoundingBox {
        min_x: 0,
        max_x: 1290,
        min_y: 0,
        max_y: 1290,
        min_z: 0,
        max_z: 1290,
    };
    assert_eq!(huge.dimensions(), None);
    let largest = BoundingBox { min_x: 0, max_x: 1289, min_y: 0, max_y: 1289, min_z: 0, max_z: 1289 };
    assert_eq!(largest.dimensions(), Some((1290, 1290, 1290)));
}

#[test]
fn palette_puts_air_first() {
    let palette = Palette::build(&sample());
    assert_eq!(palette.len(), 3);
    assert_eq!(palette.name(0), "minecraft:air");
    assert_eq!(palette.name(1), "stone");
    assert_eq!(palette.name(2), "dirt");
    assert_eq!(palette.code(&"minecraft:air".to_string()), Some(0));
    assert_eq!(palette.code(&"stone".to_string()), Some(1));
    assert_eq!(palette.code(&"dirt".to_string()), Some(2));
    assert_eq!(palette.code(&"sand".to_string()), None);
}

#[test]
fn palette_of_an_empty_map_holds_air_alone() {
    let palette = Palette::build(&VoxelMap::new());
    assert_eq!(palette.len(), 1);
    assert_eq!(palette.name(0), "minecraft:air");
}

#[test]
fn palette_keeps_air_at_zero_when_the_map_holds_air() {
    let mut map = VoxelMap::new();
    map.insert(0, 0, 0, "stone".to_string());
    map.insert(0, 0, 1, "minecraft:air".to_string());
    map.insert(0, 0, 2, "dirt".to_string());
    let (palette, codes) = Palette::build_indexed(&map);
    assert_eq!(palette.len(), 3);
    assert_eq!(palette.name(0), "minecraft:air");
    assert_eq!(palette.name(1), "stone");
    assert_eq!(palette.name(2), "dirt");
    assert_eq!(codes, vec![1, 0, 2]);
}

#[test]
fn palette_codes_follow_the_order_of_positions() {
    let mut map = VoxelMap::new();
    map.insert(5, 0, 0, "late".to_string());
    map.insert(0, 0, 0, "early".to_string());
    map.insert(2, 0, 0, "late".to_string());
    let (palette, codes) = Palette::build_indexed(&map);
    assert_eq!(palette.name(1), "early");
    assert_eq!(palette.name(2), "late");
    assert_eq!(codes, vec![1, 2, 2]);
}

#[test]
fn error_messages_name_the_failure() {
    assert_eq!(ExportError::EmptyInput.message(), "the voxel map is empty");
    assert_eq!(ExportError::UnknownMode.message(), "unknown export mode");
    assert_eq!(
        ExportError::PaletteOverflow.message(),
        "the palette does not fit in one byte per cell"
    );
    assert_eq!(ExportError::IoFailure.message(), "the output could not be written");
    assert_eq!(ExportError::MalformedOutputPath.message(), "the output path has no file name");
}
