use std::io::Read;

use nbtexport::{export_bytes, frame, gzip_frame, nbt_stream, to_structure, ExportError, VoxelMap};

fn scenario() -> VoxelMap {
    let mut map = VoxelMap::new();
    map.insert(0, 0, 0, "stone".to_string());
    map.insert(1, 0, 0, "stone".to_string());
    map.insert(0, 1, 0, "dirt".to_string());
    map
}

fn inflate(body: &[u8]) -> Vec<u8> {
    let mut out = Vec::new();
    flate2::read::DeflateDecoder::new(body).read_to_end(&mut out).unwrap();
    out
}

#[test]
fn frame_lays_out_header_body_and_footer() {
    let out = frame(b"a.nbt", 0x0102_0304, &[0xaa, 0xbb], 0xdead_beef, 0x1_0000_0005);
    assert_eq!(
        out,
        vec![
            0x1f, 0x8b, 0x08, 0x08, // magic, deflate, name flag
            0x04, 0x03, 0x02, 0x01, // time stamp, lowest byte first
            0x00, 0x03, // extra flags, unix
            b'a', b'.', b'n', b'b', b't', 0x00, // file name
            0xaa, 0xbb, // body
            0xef, 0xbe, 0xad, 0xde, // checksum
            0x05, 0x00, 0x00, 0x00, // length modulo 2^32
        ]
    );
}

#[test]
fn frame_of_nothing() {
    let out = frame(b"", 0, &[], 0, 0);
    assert_eq!(
        out,
        vec![0x1f, 0x8b, 0x08, 0x08, 0, 0, 0, 0, 0x00, 0x03, 0x00, 0, 0, 0, 0, 0, 0, 0, 0]
    );
}

#[test]
fn gzip_frame_compresses_and_checks_the_payload() {
    let payload: Vec<u8> = b"123456789".iter().cycle().take(900).cloned().collect();
    let out = gzip_frame(Some("nine.bin"), 77, &payload).unwrap();
    let header_len = 10 + "nine.bin".len() + 1;
    assert_eq!(&out[..4], &[0x1f, 0x8b, 0x08, 0x08]);
    assert_eq!(&out[4..8], &77u32.to_le_bytes());
    assert_eq!(&out[8..10], &[0x00, 0x03]);
    assert_eq!(&out[10..header_len], b"nine.bin\0");
    let n = out.len();
    let body = &out[header_len..n - 8];
    assert_ne!(body, &payload[..]);
    assert!(body.len() < payload.len());
    assert_eq!(inflate(body), payload);
    assert_eq!(&out[n - 8..n - 4], &crc32fast::hash(&payload).to_le_bytes());
    assert_eq!(&out[n - 4..], &900u32.to_le_bytes());
}

#[test]
fn gzip_frame_footer_holds_the_standard_checksum() {
    let out = gzip_frame(Some("x"), 0, b"123456789").unwrap();
    let n = out.len();
    assert_eq!(&out[n - 8..n - 4], &0xcbf4_3926u32.to_le_bytes());
    assert_eq!(&out[n - 4..], &[9, 0, 0, 0]);
}

#[test]
fn gzip_frame_is_read_by_a_gzip_decoder() {
    let payload = b"voxels voxels voxels voxels".to_vec();
    let out = gzip_frame(Some("world.schem"), 1_700_000_000, &payload).unwrap();
    let mut decoder = flate2::read::GzDecoder::new(&out[..]);
    let mut decoded = Vec::new();
    decoder.read_to_end(&mut decoded).unwrap();
    assert_eq!(decoded, payload);
    let header = decoder.header().unwrap();
    assert_eq!(header.filename(), Some(&b"world.schem"[..]));
    assert_eq!(header.mtime(), 1_700_000_000);
    assert_eq!(header.operating_system(), 3);
}

#[test]
fn gzip_frame_writes_the_name_as_utf8() {
    let out = gzip_frame(Some("é.nbt"), 0, b"").unwrap();
    assert_eq!(&out[10..17], &[0xc3, 0xa9, b'.', b'n', b'b', b't', 0x00]);
}

#[test]
fn nbt_stream_wraps_the_rendered_tree() {
    let nbt = to_structure(&scenario()).unwrap();
    let rendered = nbt.write().to_vec();
    let out = nbt_stream(&nbt, Some("s.nbt"), 5).unwrap();
    assert_eq!(out, gzip_frame(Some("s.nbt"), 5, &rendered).unwrap());
    let n = out.len();
    assert_eq!(inflate(&out[16..n - 8]), rendered);
    assert_eq!(&rendered[..3], &[0x0a, 0x00, 0x00]);
    assert_eq!(&out[n - 4..], &(rendered.len() as u32).to_le_bytes());
    assert_eq!(&out[n - 8..n - 4], &crc32fast::hash(&rendered).to_le_bytes());
}

#[test]
fn nbt_stream_renders_the_tree_in_the_binary_form() {
    let empty = crab_nbt::Nbt::new(String::new(), crab_nbt::NbtCompound::new());
    let out = nbt_stream(&empty, Some("e"), 0).unwrap();
    assert_eq!(inflate(&out[12..out.len() - 8]), vec![0x0a, 0x00, 0x00, 0x00]);

    let mut root = crab_nbt::NbtCompound::new();
    root.put("a".to_string(), crab_nbt::NbtTag::Int(1));
    let one = crab_nbt::Nbt::new("r".to_string(), root);
    let out = nbt_stream(&one, Some("e"), 0).unwrap();
    assert_eq!(
        inflate(&out[12..out.len() - 8]),
        vec![0x0a, 0x00, 0x01, b'r', 0x03, 0x00, 0x01, b'a', 0x00, 0x00, 0x00, 0x01, 0x00]
    );
}

#[test]
fn streams_without_a_file_name_are_refused() {
    assert_eq!(gzip_frame(None, 0, b"abc"), Err(ExportError::MalformedOutputPath));
    let nbt = to_structure(&scenario()).unwrap();
    assert_eq!(nbt_stream(&nbt, None, 0), Err(ExportError::MalformedOutputPath));
}

#[test]
fn export_bytes_decodes_to_the_tree() {
    let map = scenario();
    for mode in ["schem", "structure"] {
        let out = export_bytes(&map, mode, Some("out.nbt"), 42).unwrap();
        let mut decoded = Vec::new();
        flate2::read::GzDecoder::new(&out[..]).read_to_end(&mut decoded).unwrap();
        let tree = crab_nbt::Nbt::read(&mut std::io::Cursor::new(&decoded[..])).unwrap();
        assert_eq!(tree, nbtexport::encode(&map, mode).unwrap());
    }
}

#[test]
fn export_bytes_is_the_same_on_every_run() {
    let map = scenario();
    let first = export_bytes(&map, "schem", Some("out.schem"), 1234).unwrap();
    let second = export_bytes(&map, "schem", Some("out.schem"), 1234).unwrap();
    assert_eq!(first, second);
    let mut other_order = VoxelMap::new();
    other_order.insert(0, 1, 0, "dirt".to_string());
    other_order.insert(1, 0, 0, "stone".to_string());
    other_order.insert(0, 0, 0, "stone".to_string());
    let third = export_bytes(&other_order, "schem", Some("out.schem"), 1234).unwrap();
    assert_eq!(first, third);
}

#[test]
fn export_bytes_refuses_an_unknown_mode() {
    assert_eq!(
        export_bytes(&scenario(), "unknown", Some("out.nbt"), 0),
        Err(ExportError::UnknownMode)
    );
    assert_eq!(
        export_bytes(&VoxelMap::new(), "unknown", None, 0),
        Err(ExportError::UnknownMode)
    );
}

#[test]
fn export_bytes_refuses_an_empty_map() {
    let map = VoxelMap::new();
    assert_eq!(export_bytes(&map, "schem", Some("out.nbt"), 0), Err(ExportError::EmptyInput));
    assert_eq!(export_bytes(&map, "structure", Some("out.nbt"), 0), Err(ExportError::EmptyInput));
    assert_eq!(export_bytes(&map, "structure", None, 0), Err(ExportError::EmptyInput));
}

#[test]
fn export_bytes_refuses_a_path_without_file_name() {
    assert_eq!(
        export_bytes(&scenario(), "schem", None, 0),
        Err(ExportError::MalformedOutputPath)
    );
}

#[test]
fn export_bytes_refuses_a_palette_that_is_too_large_for_schem() {
    let mut map = VoxelMap::new();
    for i in 0..256 {
        map.insert(0, i, 0, format!("b{}", i));
    }
    assert_eq!(
        export_bytes(&map, "schem", Some("big.schem"), 0),
        Err(ExportError::PaletteOverflow)
    );
    assert!(export_bytes(&map, "structure", Some("big.nbt"), 0).is_ok());
}
