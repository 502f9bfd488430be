use mechanix::render::{Flags, IMAGE, QUAD, SPRITE};

#[test]
fn flags_round_trip() {
    let f = Flags::pack(IMAGE, true, true, 128);
    assert_eq!(f.kind(), IMAGE);
    assert!(f.is_opaque());
    assert!(f.is_grayscale());
    assert_eq!(f.opacity(), 128);

    let plain = Flags::pack(SPRITE, false, false, 255);
    assert_eq!(plain.kind(), SPRITE);
    assert!(!plain.is_opaque());
    assert!(!plain.is_grayscale());
    assert_eq!(plain.opacity(), 255);
    assert_eq!(Flags::pack(QUAD, true, false, 0).opacity(), 0);
}

#[test]
fn the_packed_word_has_its_documented_bits() {
    assert_eq!(Flags::pack(IMAGE, true, true, 255).0, 2 | 4 | 8 | (255 << 8));
    assert_eq!(Flags::pack(7, false, false, 0).0, 3, "only the kind's two bits");
}

use mechanix::render::{History, RenderModule};

#[test]
fn ages_union_the_history_and_anything_else_is_the_window() {
    let mut h: History<u32> = History::new(2);
    assert_eq!(h.scissor(1), None, "nothing held yet");
    h.file(vec![100]);
    h.file(vec![1]);
    assert_eq!(h.scissor(1), Some(vec![1]));
    assert_eq!(h.scissor(2), Some(vec![1, 100]), "newest first");
    assert!(h.file(vec![2, 3]).unwrap().is_empty(), "the oldest falls off emptied");
    assert_eq!(h.scissor(2), Some(vec![2, 3, 1]));
    assert_eq!(h.scissor(3), None, "past the two frames held");
    assert_eq!(h.scissor(0), None, "an unknown buffer");
}

#[test]
fn the_renderer_keeps_two_frames_by_default() {
    assert_eq!(RenderModule::default().buffers, 2);
}
