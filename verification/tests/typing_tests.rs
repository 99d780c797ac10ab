use autotype::typing::{auto_type_text, KeyStroke};

fn units(batch: &[KeyStroke]) -> Vec<(u16, bool)> {
    batch.iter().map(|k| (k.unit, k.key_up)).collect()
}

#[test]
fn empty_text_sends_one_empty_batch() {
    let b = auto_type_text("");
    assert_eq!(b.len(), 1);
    assert!(b[0].is_empty());
}

#[test]
fn each_unit_is_pressed_and_released() {
    let b = auto_type_text("ab");
    assert_eq!(b.len(), 1);
    assert_eq!(units(&b[0]), vec![(97, false), (97, true), (98, false), (98, true)]);
}

#[test]
fn characters_beyond_the_basic_plane_use_surrogates() {
    let b = auto_type_text("😀");
    assert_eq!(units(&b[0]), vec![(0xD83D, false), (0xD83D, true), (0xDE00, false), (0xDE00, true)]);
}

#[test]
fn chinese_text_is_typed_unit_by_unit() {
    let b = auto_type_text("你好");
    assert_eq!(units(&b[0]), vec![(0x4F60, false), (0x4F60, true), (0x597D, false), (0x597D, true)]);
}

#[test]
fn long_text_goes_in_batches_of_32_units() {
    let text = "a".repeat(40);
    let b = auto_type_text(&text);
    assert_eq!(b.len(), 2);
    assert_eq!(b[0].len(), 64);
    assert_eq!(b[1].len(), 16);
    let text = "a".repeat(31);
    let b = auto_type_text(&text);
    assert_eq!(b.len(), 1);
    let text = "a".repeat(32);
    let b = auto_type_text(&text);
    assert_eq!(b.len(), 2);
    assert_eq!(b[0].len(), 64);
    assert!(b[1].is_empty());
}

#[test]
fn nul_characters_are_skipped() {
    let b = auto_type_text("a\0b");
    assert_eq!(units(&b[0]), vec![(97, false), (97, true), (98, false), (98, true)]);
}
