use webgal_lsp::encode::{offset_utf16_to_utf8, offset_utf8_to_utf16};

#[test]
fn offset_utf16_to_utf8_ascii() {
    let s = "hello";
    assert_eq!(offset_utf16_to_utf8(s, 0), 0);
    assert_eq!(offset_utf16_to_utf8(s, 1), 1);
    assert_eq!(offset_utf16_to_utf8(s, 5), 5);
    assert_eq!(offset_utf16_to_utf8(s, 6), 5);
}

#[test]
fn offset_utf8_to_utf16_ascii() {
    let s = "hello";
    assert_eq!(offset_utf8_to_utf16(s, 0), 0);
    assert_eq!(offset_utf8_to_utf16(s, 1), 1);
    assert_eq!(offset_utf8_to_utf16(s, 5), 5);
    assert_eq!(offset_utf8_to_utf16(s, 6), 5);
}

#[test]
fn offset_utf16_to_utf8_chinese() {
    let s = "你好世界";
    assert_eq!(offset_utf16_to_utf8(s, 0), 0);
    assert_eq!(offset_utf16_to_utf8(s, 1), 3);
    assert_eq!(offset_utf16_to_utf8(s, 2), 6);
    assert_eq!(offset_utf16_to_utf8(s, 3), 9);
    assert_eq!(offset_utf16_to_utf8(s, 4), 12);
}

#[test]
fn offset_utf8_to_utf16_chinese() {
    let s = "你好世界";
    assert_eq!(offset_utf8_to_utf16(s, 0), 0);
    assert_eq!(offset_utf8_to_utf16(s, 3), 1);
    assert_eq!(offset_utf8_to_utf16(s, 6), 2);
    assert_eq!(offset_utf8_to_utf16(s, 9), 3);
    assert_eq!(offset_utf8_to_utf16(s, 12), 4);
}

#[test]
fn offset_utf16_to_utf8_mixed() {
    let s = "a😀b";
    assert_eq!(offset_utf16_to_utf8(s, 0), 0);
    assert_eq!(offset_utf16_to_utf8(s, 1), 1);
    assert_eq!(offset_utf16_to_utf8(s, 2), 1);
    assert_eq!(offset_utf16_to_utf8(s, 3), 5);
    assert_eq!(offset_utf16_to_utf8(s, 4), 6);
}

#[test]
fn offset_utf8_to_utf16_mixed() {
    let s = "a😀b";
    assert_eq!(offset_utf8_to_utf16(s, 0), 0);
    assert_eq!(offset_utf8_to_utf16(s, 1), 1);
    assert_eq!(offset_utf8_to_utf16(s, 5), 3);
    assert_eq!(offset_utf8_to_utf16(s, 6), 4);
    assert_eq!(offset_utf8_to_utf16(s, 7), 4);
}

#[test]
fn offset_inside_a_character_maps_to_its_start() {
    let s = "你好";
    assert_eq!(offset_utf8_to_utf16(s, 1), 0);
    assert_eq!(offset_utf8_to_utf16(s, 4), 1);
    assert_eq!(offset_utf16_to_utf8("", 3), 0);
    assert_eq!(offset_utf8_to_utf16("", 3), 0);
}

#[test]
fn offsets_round_trip_at_boundaries() {
    let s = "a😀b你c";
    for utf16 in [0u32, 1, 3, 4, 5, 6] {
        let utf8 = offset_utf16_to_utf8(s, utf16);
        assert_eq!(offset_utf8_to_utf16(s, utf8), utf16);
    }
}
