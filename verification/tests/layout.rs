use mechanix::layout::{
    Align, Direction, DirtyRoots, Display, Justify, LayoutDone, LayoutRoot, Position, Wrap,
};

#[test]
fn the_defaults_are_css_s() {
    assert_eq!(Display::default(), Display::Flex);
    assert_eq!(Direction::default(), Direction::Row);
    assert_eq!(Position::default(), Position::Relative);
    assert_eq!(Align::default(), Align::Stretch);
    assert_eq!(Justify::default(), Justify::Start);
    assert_eq!(Wrap::default(), Wrap::No);
    assert_eq!(LayoutRoot::default(), LayoutRoot(false));
}

#[test]
fn a_tick_with_nothing_to_do_signals_an_empty_layout_done() {
    let mut dirty = DirtyRoots::new();
    let roots = dirty.take_dirty_roots(&[]);
    let done = LayoutDone { roots };
    assert!(!done.recomputed());
    assert!(LayoutDone { roots: vec![3] }.recomputed());
}

#[test]
fn dirty_roots_are_taken_once_in_marking_order() {
    let mut dirty = DirtyRoots::new();
    dirty.mark(7);
    dirty.mark(3);
    dirty.mark(7);
    dirty.mark(9);
    assert_eq!(dirty.roots(), &[7, 3, 9]);
    let taken = dirty.take_dirty_roots(&[true, false, true]);
    assert_eq!(taken, vec![7, 9], "a root no longer live or marked is dropped");
    assert!(dirty.roots().is_empty());
}
