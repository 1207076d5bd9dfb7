use nbtexport::{is_space, parse_key, voxels_from_json, voxels_from_pairs};

#[test]
fn parse_key_reads_the_usual_form() {
    assert_eq!(parse_key("(0, 6, 23)"), Some((0, 6, 23)));
    assert_eq!(parse_key("(-4, 0, 17)"), Some((-4, 0, 17)));
}

#[test]
fn parse_key_takes_any_number_of_brackets() {
    assert_eq!(parse_key("1,2,3"), Some((1, 2, 3)));
    assert_eq!(parse_key("((1,2,3))"), Some((1, 2, 3)));
    assert_eq!(parse_key(")(1,2,3"), Some((1, 2, 3)));
    assert_eq!(parse_key("(1, 2, 3"), Some((1, 2, 3)));
}

#[test]
fn parse_key_takes_signs_zeros_and_white_space() {
    assert_eq!(parse_key("( -1 ,\t+2 , 003 )"), Some((-1, 2, 3)));
    assert_eq!(parse_key("(\u{a0}1,\u{2003}2\u{3000},3)"), Some((1, 2, 3)));
    assert_eq!(parse_key("(-0, +0, 0)"), Some((0, 0, 0)));
}

#[test]
fn parse_key_takes_the_whole_range() {
    assert_eq!(
        parse_key("(2147483647, -2147483648, 0)"),
        Some((2147483647, -2147483648, 0))
    );
    assert_eq!(parse_key("(2147483648, 0, 0)"), None);
    assert_eq!(parse_key("(0, -2147483649, 0)"), None);
    assert_eq!(parse_key("(0, 0, 99999999999999999999999999)"), None);
    assert_eq!(parse_key("(0, 0, 00000000000000000000000007)"), Some((0, 0, 7)));
}

#[test]
fn parse_key_refuses_other_numbers_of_fields() {
    assert_eq!(parse_key(""), None);
    assert_eq!(parse_key("()"), None);
    assert_eq!(parse_key("(1)"), None);
    assert_eq!(parse_key("(1, 2)"), None);
    assert_eq!(parse_key("(1, 2, 3, 4)"), None);
    assert_eq!(parse_key("(1, 2, 3,)"), None);
}

#[test]
fn parse_key_refuses_what_is_no_integer() {
    assert_eq!(parse_key("(a, 2, 3)"), None);
    assert_eq!(parse_key("(1,, 3)"), None);
    assert_eq!(parse_key("(1, 2, )"), None);
    assert_eq!(parse_key("(1.0, 2, 3)"), None);
    assert_eq!(parse_key("(- 1, 2, 3)"), None);
    assert_eq!(parse_key("(+, 2, 3)"), None);
    assert_eq!(parse_key("(-, 2, 3)"), None);
    assert_eq!(parse_key("(--1, 2, 3)"), None);
    assert_eq!(parse_key("(1 2, 3, 4)"), None);
    assert_eq!(parse_key("(1, 2, 3_0)"), None);
    assert_eq!(parse_key("(١, 2, 3)"), None);
}

#[test]
fn parse_key_strips_brackets_at_the_ends_only() {
    assert_eq!(parse_key("(1, 2, 3) "), None);
    assert_eq!(parse_key(" (1, 2, 3)"), None);
    assert_eq!(parse_key("(1, (2), 3)"), None);
}

#[test]
fn voxels_from_pairs_stores_what_has_a_position() {
    let map = voxels_from_pairs(vec![
        ("(1, 0, 0)".to_string(), "stone".to_string()),
        ("nowhere".to_string(), "sand".to_string()),
        ("(0, 0, 0)".to_string(), "dirt".to_string()),
    ]);
    assert_eq!(map.len(), 2);
    assert_eq!(map.get(0, 0, 0), Some(&"dirt".to_string()));
    assert_eq!(map.get(1, 0, 0), Some(&"stone".to_string()));
}

#[test]
fn voxels_from_pairs_keeps_the_later_of_two_blocks() {
    let map = voxels_from_pairs(vec![
        ("(0, 0, 0)".to_string(), "first".to_string()),
        ("(0,0,0)".to_string(), "second".to_string()),
    ]);
    assert_eq!(map.len(), 1);
    assert_eq!(map.get(0, 0, 0), Some(&"second".to_string()));
}

#[test]
fn voxels_from_json_reads_an_object_of_strings() {
    let text = r#"{"(1, 0, 0)": "stone", "comment": "none", "(0, 1, 0)": "dirt"}"#;
    let map = voxels_from_json(text).unwrap();
    assert_eq!(map.len(), 2);
    assert_eq!(map.get(1, 0, 0), Some(&"stone".to_string()));
    assert_eq!(map.get(0, 1, 0), Some(&"dirt".to_string()));
    assert!(voxels_from_json("{}").unwrap().is_empty());
}

#[test]
fn voxels_from_json_walks_the_keys_in_ascending_order() {
    // "(0, 0, 0)" sorts before "(0,0,0)", so the block of the latter stays.
    let text = r#"{"(0,0,0)": "compact", "(0, 0, 0)": "spaced"}"#;
    let map = voxels_from_json(text).unwrap();
    assert_eq!(map.len(), 1);
    assert_eq!(map.get(0, 0, 0), Some(&"compact".to_string()));
}

#[test]
fn voxels_from_json_refuses_other_texts() {
    assert!(voxels_from_json("").is_none());
    assert!(voxels_from_json("[1, 2]").is_none());
    assert!(voxels_from_json(r#"{"(0, 0, 0)": 5}"#).is_none());
    assert!(voxels_from_json(r#"{"(0, 0, 0)": "stone""#).is_none());
}

#[test]
fn is_space_agrees_with_the_standard_library_on_every_character() {
    for code in 0..=0x10ffffu32 {
        if let Some(c) = char::from_u32(code) {
            assert_eq!(is_space(c), c.is_whitespace(), "U+{:04X}", code);
        }
    }
}

#[test]
fn is_space_on_given_characters() {
    assert!(is_space(' '));
    assert!(is_space('\t'));
    assert!(is_space('\n'));
    assert!(is_space('\u{b}'));
    assert!(is_space('\u{85}'));
    assert!(is_space('\u{200a}'));
    assert!(is_space('\u{3000}'));
    assert!(!is_space('7'));
    assert!(!is_space('\u{8}'));
    assert!(!is_space('\u{e}'));
    assert!(!is_space('\u{200b}'));
    assert!(!is_space('\u{180e}'));
}

#[test]
fn parse_key_trims_every_kind_of_white_space() {
    for code in 0..=0x10ffffu32 {
        if let Some(c) = char::from_u32(code) {
            if c.is_whitespace() {
                let key = format!("({}4{},{}5,6{})", c, c, c, c);
                assert_eq!(parse_key(&key), Some((4, 5, 6)), "U+{:04X}", code);
            }
        }
    }
}
