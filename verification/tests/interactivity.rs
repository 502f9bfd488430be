use mechanix::interactivity::{ContactId, ContactInput, ContactPhase, Contacts, HitSet};

type Point = (f32, f32);

const WIN: u64 = 1;
const CARD: u64 = 2;
const BUTTON: u64 = 3;
const LEFT: u64 = 4;
const RIGHT: u64 = 5;

fn input(contact: ContactId, phase: ContactPhase, position: Point) -> ContactInput<Point> {
    ContactInput {
        window: WIN,
        contact,
        phase,
        position,
    }
}

fn hits(nodes: &[u64]) -> HitSet {
    HitSet::from_nodes(nodes)
}

/// The nodes under a point of the card-and-button window: the button at
/// (20, 20, 40, 40) inside the card at (20, 20, 120, 120).
fn under(p: Point) -> HitSet {
    let (x, y) = p;
    if !(0.0..200.0).contains(&x) || !(0.0..200.0).contains(&y) {
        hits(&[])
    } else if (20.0..60.0).contains(&x) && (20.0..60.0).contains(&y) {
        hits(&[BUTTON, CARD, WIN])
    } else if (20.0..140.0).contains(&x) && (20.0..140.0).contains(&y) {
        hits(&[CARD, WIN])
    } else {
        hits(&[WIN])
    }
}

fn moved(c: &mut Contacts<Point>, contact: ContactId, p: Point) -> (Vec<u64>, Vec<u64>) {
    let r = c.on_moved(&input(contact, ContactPhase::Moved, p), under(p));
    (r.entered.nodes(), r.exited.nodes())
}

fn pressed(c: &mut Contacts<Point>, contact: ContactId, p: Point) -> Vec<u64> {
    c.on_pressed(&input(contact, ContactPhase::Pressed, p), under(p)).nodes()
}

fn released(c: &mut Contacts<Point>, contact: ContactId, p: Point) -> (Vec<u64>, Vec<u64>) {
    let r = c.on_released(&input(contact, ContactPhase::Released, p));
    (
        r.clicked.map(|s| s.nodes()).unwrap_or_default(),
        r.exited.map(|s| s.nodes()).unwrap_or_default(),
    )
}

#[test]
fn reads_are_none_for_a_contact_never_seen() {
    let c: Contacts<Point> = Contacts::default();
    assert_eq!(c.position(ContactId::Touch(3)), None);
    assert!(!c.is_pressed(ContactId::Touch(3)));
}

#[test]
fn entry_creates_on_first_sight_and_keeps_state_on_the_next() {
    let mut c: Contacts<Point> = Contacts::new();
    moved(&mut c, ContactId::Mouse, (5.0, 6.0));
    assert_eq!(c.position(ContactId::Mouse), Some((5.0, 6.0)));
    assert!(!c.is_pressed(ContactId::Mouse));
    pressed(&mut c, ContactId::Mouse, (5.0, 6.0));
    assert!(c.is_pressed(ContactId::Mouse));
    moved(&mut c, ContactId::Mouse, (7.0, 8.0));
    assert!(c.is_pressed(ContactId::Mouse), "a move keeps the capture");
    assert_eq!(c.position(ContactId::Mouse), Some((7.0, 8.0)));
}

#[test]
fn moved_onto_a_nested_node_enters_deepest_first_window_last() {
    let mut c: Contacts<Point> = Contacts::new();
    let (entered, exited) = moved(&mut c, ContactId::Mouse, (30.0, 30.0));
    assert_eq!(entered, vec![BUTTON, CARD, WIN]);
    assert!(exited.is_empty());
}

#[test]
fn a_second_moved_still_inside_fires_nothing_again() {
    let mut c: Contacts<Point> = Contacts::new();
    moved(&mut c, ContactId::Mouse, (30.0, 30.0));
    let (entered, exited) = moved(&mut c, ContactId::Mouse, (35.0, 35.0));
    assert!(entered.is_empty());
    assert!(exited.is_empty());
}

#[test]
fn moving_off_every_node_exits_deepest_first_window_last() {
    let mut c: Contacts<Point> = Contacts::new();
    moved(&mut c, ContactId::Mouse, (30.0, 30.0));
    let (entered, exited) = moved(&mut c, ContactId::Mouse, (199.0, 199.0));
    assert_eq!(exited, vec![BUTTON, CARD]);
    assert!(entered.is_empty(), "the window is still under the point");
}

#[test]
fn moving_directly_from_one_leaf_to_a_sibling_only_touches_their_own_chains() {
    let mut c: Contacts<Point> = Contacts::new();
    let a = c.on_moved(
        &input(ContactId::Mouse, ContactPhase::Moved, (25.0, 25.0)),
        hits(&[LEFT, WIN]),
    );
    assert_eq!(a.entered.nodes(), vec![LEFT, WIN]);
    let b = c.on_moved(
        &input(ContactId::Mouse, ContactPhase::Moved, (125.0, 25.0)),
        hits(&[RIGHT, WIN]),
    );
    assert_eq!(b.exited.nodes(), vec![LEFT], "the window stayed in both hit-sets");
    assert_eq!(b.entered.nodes(), vec![RIGHT]);
}

#[test]
fn press_then_release_at_the_same_spot_fires_press_release_clicked_on_the_same_set() {
    let mut c: Contacts<Point> = Contacts::new();
    let expected = vec![BUTTON, CARD, WIN];
    let p = (30.0, 30.0);
    assert_eq!(pressed(&mut c, ContactId::Mouse, p), expected);
    assert!(c.is_pressed(ContactId::Mouse));
    let (clicked, exited) = released(&mut c, ContactId::Mouse, p);
    assert_eq!(clicked, expected);
    assert!(exited.is_empty());
    assert!(!c.is_pressed(ContactId::Mouse));
}

#[test]
fn a_capture_survives_moving_off_the_node_before_release() {
    let mut c: Contacts<Point> = Contacts::new();
    let expected = vec![BUTTON, CARD, WIN];
    pressed(&mut c, ContactId::Mouse, (30.0, 30.0));
    let (_, exited) = moved(&mut c, ContactId::Mouse, (199.0, 199.0));
    assert_eq!(exited, vec![BUTTON, CARD], "hover left despite the capture");
    let (clicked, _) = released(&mut c, ContactId::Mouse, (199.0, 199.0));
    assert_eq!(
        clicked, expected,
        "release still targets the pressed set, not a fresh hit test"
    );
}

#[test]
fn cancelled_exits_the_held_set_with_no_release_or_clicked() {
    let mut c: Contacts<Point> = Contacts::new();
    let expected = vec![BUTTON, CARD, WIN];
    pressed(&mut c, ContactId::Mouse, (30.0, 30.0));
    let exited = c
        .on_cancelled(&input(ContactId::Mouse, ContactPhase::Cancelled, (30.0, 30.0)))
        .map(|s| s.nodes())
        .unwrap_or_default();
    assert_eq!(exited, expected);
    assert!(!c.is_pressed(ContactId::Mouse));
    let (clicked, _) = released(&mut c, ContactId::Mouse, (30.0, 30.0));
    assert!(clicked.is_empty(), "nothing was captured left to release");
}

#[test]
fn a_touchs_release_tears_down_its_state_but_the_mouse_keeps_hovering() {
    let mut c: Contacts<Point> = Contacts::new();
    let expected = vec![BUTTON, CARD, WIN];
    let p = (30.0, 30.0);
    let (entered, _) = moved(&mut c, ContactId::Touch(1), p);
    assert_eq!(entered, expected);
    assert_eq!(pressed(&mut c, ContactId::Touch(1), p), expected);
    let (clicked, exited) = released(&mut c, ContactId::Touch(1), p);
    assert_eq!(clicked, expected);
    assert_eq!(exited, expected, "a finger has no idle position to keep hovering at");
    assert_eq!(c.position(ContactId::Touch(1)), None);
    assert!(!c.is_pressed(ContactId::Touch(1)));

    moved(&mut c, ContactId::Mouse, p);
    pressed(&mut c, ContactId::Mouse, p);
    let (_, exited) = released(&mut c, ContactId::Mouse, p);
    assert!(exited.is_empty(), "the mouse pointer keeps its entry");
    assert_eq!(c.position(ContactId::Mouse), Some(p));
}

#[test]
fn a_touchs_release_without_a_prior_press_still_tears_down_its_state() {
    let mut c: Contacts<Point> = Contacts::new();
    let expected = vec![BUTTON, CARD, WIN];
    let p = (30.0, 30.0);
    moved(&mut c, ContactId::Touch(1), p);
    let (clicked, exited) = released(&mut c, ContactId::Touch(1), p);
    assert_eq!(exited, expected, "the hovered set still gets torn down");
    assert!(clicked.is_empty(), "there was never a capture");
    assert_eq!(c.position(ContactId::Touch(1)), None, "the entry is gone");
}

#[test]
fn two_contacts_at_different_spots_stay_independent() {
    let mut c: Contacts<Point> = Contacts::new();
    let a = c.on_pressed(
        &input(ContactId::Mouse, ContactPhase::Pressed, (25.0, 25.0)),
        hits(&[LEFT, WIN]),
    );
    let b = c.on_pressed(
        &input(ContactId::Touch(7), ContactPhase::Pressed, (125.0, 25.0)),
        hits(&[RIGHT, WIN]),
    );
    let mut all = a.nodes();
    all.extend(b.nodes());
    assert_eq!(all, vec![LEFT, WIN, RIGHT, WIN]);
    assert!(c.is_pressed(ContactId::Mouse));
    assert!(c.is_pressed(ContactId::Touch(7)));
    released(&mut c, ContactId::Mouse, (25.0, 25.0));
    assert!(!c.is_pressed(ContactId::Mouse));
    assert!(
        c.is_pressed(ContactId::Touch(7)),
        "releasing the mouse does not touch the touch contact's capture"
    );
}

#[test]
fn an_input_of_another_phase_changes_nothing() {
    let mut c: Contacts<Point> = Contacts::new();
    let r = c.on_moved(
        &input(ContactId::Mouse, ContactPhase::Pressed, (30.0, 30.0)),
        under((30.0, 30.0)),
    );
    assert!(r.entered.is_empty() && r.exited.is_empty());
    assert_eq!(c.position(ContactId::Mouse), None);
    assert!(c
        .on_cancelled(&input(ContactId::Mouse, ContactPhase::Moved, (1.0, 1.0)))
        .is_none());
}
