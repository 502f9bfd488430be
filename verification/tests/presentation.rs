use mechanix::interactivity::{ContactId, ContactPhase};
use mechanix::presentation::frames::{FrameLoop, Slot, Slots, Target, BUFFERS};
use mechanix::presentation::seat::{PointerEvent, Seat, SeatRequests, TouchEvent, POINTER, TOUCH};
use mechanix::presentation::{on_dmabuf_modifier, target_modifier, Buffers, MOD_INVALID, MOD_LINEAR, XRGB8888};

const BUF_A: u32 = 10;
const BUF_B: u32 = 11;
const CALLBACK: u32 = 20;

fn slots(width: u32, height: u32) -> Slots<&'static str> {
    Slots {
        width,
        height,
        slots: vec![
            Slot {
                target: "a",
                buffer: BUF_A,
                held: false,
                drawn: None,
            },
            Slot {
                target: "b",
                buffer: BUF_B,
                held: false,
                drawn: None,
            },
        ],
    }
}

/// A window configured at `width` by `height`, its buffers made, its first
/// frame drawn into the first buffer with callback `CALLBACK`.
fn configured(width: u32, height: u32) -> FrameLoop<&'static str> {
    let mut f = FrameLoop::new();
    assert!(f.settle(width, height), "no buffers yet");
    assert!(f.replace_slots(slots(width, height)).is_none());
    assert!(f.kick(), "the configure wants a frame");
    assert_eq!(f.begin_frame(), Some(Target { slot: 0, age: 0 }));
    f.committed(0, CALLBACK);
    f
}

/// Draw the frame a `Frame` asked for, with this callback; the buffer it
/// went into.
fn draw(f: &mut FrameLoop<&'static str>, callback: u32) -> Option<u32> {
    let t = f.begin_frame()?;
    let buffer = f.slots().as_ref().unwrap().slots[t.slot].buffer;
    f.committed(t.slot, callback);
    Some(buffer)
}

#[test]
fn frames_are_throttled_by_the_callback() {
    let mut f = configured(320, 200);
    assert!(!f.on_frame_requested(), "the callback is outstanding");
    assert!(f.on_done(CALLBACK));
    assert_eq!(draw(&mut f, CALLBACK + 1), Some(BUF_B));
    assert!(!f.on_done(CALLBACK + 1), "nothing wanted");
}

#[test]
fn with_both_buffers_held_a_release_draws() {
    let mut f = configured(64, 64);
    f.on_frame_requested();
    assert!(f.on_done(CALLBACK));
    assert_eq!(draw(&mut f, CALLBACK + 1), Some(BUF_B));
    f.on_frame_requested();
    assert!(!f.on_done(CALLBACK + 1), "both buffers are held");
    assert!(f.on_release(BUF_A));
    assert_eq!(draw(&mut f, CALLBACK + 2), Some(BUF_A));
    assert_eq!(f.slots().as_ref().unwrap().free_slot(), None);
}

#[test]
fn two_configures_in_one_turn_draw_one_frame() {
    let mut f: FrameLoop<&'static str> = FrameLoop::new();
    assert!(f.settle(64, 64));
    f.replace_slots(slots(64, 64));
    assert!(!f.settle(64, 64), "the same size keeps its buffers");
    assert!(f.kick());
    assert!(!f.kick(), "one frame for the whole burst");
    draw(&mut f, CALLBACK);
    assert!(!f.on_done(CALLBACK), "nothing wanted yet");
}

#[test]
fn a_frame_before_the_configure_draws_nothing() {
    let mut f: FrameLoop<&'static str> = FrameLoop::new();
    assert!(!f.on_frame_requested());
    assert_eq!(f.begin_frame(), None);
    assert!(!f.is_configured());
}

#[test]
fn a_buffer_age_counts_the_frames_since_it_was_drawn() {
    let mut f = configured(64, 64);
    f.on_release(BUF_A);
    f.on_done(CALLBACK);
    f.defer();
    assert_eq!(
        f.begin_frame(),
        Some(Target { slot: 0, age: 1 }),
        "the first buffer holds the frame before"
    );
    f.committed(0, CALLBACK + 1);
    f.on_done(CALLBACK + 1);
    f.on_release(BUF_A);
    f.defer();
    assert_eq!(f.begin_frame(), Some(Target { slot: 0, age: 1 }));
    f.committed(0, CALLBACK + 2);
    f.on_done(CALLBACK + 2);
    f.defer();
    assert_eq!(
        f.begin_frame(),
        Some(Target { slot: 1, age: 0 }),
        "the second buffer was never drawn"
    );
}

#[test]
fn a_preferred_scale_rescales_the_slots_and_redraws_at_once() {
    let mut f = configured(64, 64);
    f.on_done(CALLBACK);
    assert!(!f.on_scale(1), "the same scale again does nothing");
    assert!(f.on_scale(2));
    assert_eq!(f.scale(), 2);
    let old = f.replace_slots(slots(128, 128)).unwrap();
    assert_eq!((old.width, old.height), (64, 64));
    assert!(f.kick());
    let t = f.begin_frame().unwrap();
    assert_eq!(f.committed(t.slot, CALLBACK + 1), Some(2), "the new scale is set first");
    f.on_done(CALLBACK + 1);
    f.defer();
    let t = f.begin_frame().unwrap();
    assert_eq!(f.committed(t.slot, CALLBACK + 2), None, "and only once");
}

#[test]
fn a_configure_to_a_new_size_waits_for_the_layout_and_draws_the_new_size() {
    let mut f = configured(64, 64);
    f.on_done(CALLBACK);
    assert!(f.settle(100, 80), "a new device size makes new buffers");
    f.replace_slots(slots(100, 80));
    let t = f.begin_frame().unwrap();
    assert_eq!(t.age, 0);
    f.defer();
    assert!(f.kick(), "the deferred frame is wanted again");
}

#[test]
fn the_slots_count_is_two() {
    assert_eq!(BUFFERS, 2);
    assert_eq!(slots(1, 1).slots.len(), BUFFERS);
}

#[test]
fn the_seat_asks_for_each_object_the_first_time_its_bit_is_seen() {
    let mut seat: Seat<(f32, f32)> = Seat::new();
    assert_eq!(
        seat.on_seat(POINTER),
        SeatRequests {
            get_pointer: true,
            get_touch: false
        }
    );
    assert_eq!(
        seat.on_seat(POINTER | TOUCH | 2),
        SeatRequests {
            get_pointer: false,
            get_touch: true
        }
    );
    assert_eq!(
        seat.on_seat(POINTER | TOUCH),
        SeatRequests {
            get_pointer: false,
            get_touch: false
        }
    );
}

#[test]
fn the_pointer_moves_presses_and_leaves_where_it_last_was() {
    let mut seat: Seat<(f32, f32)> = Seat::new();
    assert!(seat.on_pointer(PointerEvent::Button { pressed: true }).is_none(), "no focus");
    assert!(seat
        .on_pointer(PointerEvent::Enter {
            window: None,
            position: (1.0, 1.0)
        })
        .is_none());
    let i = seat
        .on_pointer(PointerEvent::Enter {
            window: Some(7),
            position: (1.0, 2.0),
        })
        .unwrap();
    assert_eq!((i.window, i.contact, i.phase, i.position), (7, ContactId::Mouse, ContactPhase::Moved, (1.0, 2.0)));
    seat.on_pointer(PointerEvent::Motion { position: (3.0, 4.0) });
    let i = seat.on_pointer(PointerEvent::Button { pressed: true }).unwrap();
    assert_eq!((i.phase, i.position), (ContactPhase::Pressed, (3.0, 4.0)));
    let i = seat.on_pointer(PointerEvent::Button { pressed: false }).unwrap();
    assert_eq!(i.phase, ContactPhase::Released);
    let i = seat.on_pointer(PointerEvent::Leave).unwrap();
    assert_eq!((i.window, i.phase, i.position), (7, ContactPhase::Cancelled, (3.0, 4.0)));
    assert!(seat.on_pointer(PointerEvent::Motion { position: (5.0, 5.0) }).is_none());
    assert!(seat.on_pointer(PointerEvent::Other).is_none());
}

#[test]
fn a_touch_down_is_moved_then_pressed_and_cancel_ends_every_finger() {
    let mut seat: Seat<(f32, f32)> = Seat::new();
    let down = seat.on_touch(TouchEvent::Down {
        window: Some(3),
        id: 1,
        position: (5.0, 6.0),
    });
    assert_eq!(down.len(), 2);
    assert_eq!((down[0].phase, down[1].phase), (ContactPhase::Moved, ContactPhase::Pressed));
    assert_eq!(down[1].contact, ContactId::Touch(1));
    seat.on_touch(TouchEvent::Down {
        window: Some(4),
        id: 2,
        position: (0.0, 0.0),
    });
    let moved = seat.on_touch(TouchEvent::Motion {
        id: 1,
        position: (8.0, 9.0),
    });
    assert_eq!((moved[0].window, moved[0].position), (3, (8.0, 9.0)));
    let up = seat.on_touch(TouchEvent::Up { id: 1 });
    assert_eq!((up[0].phase, up[0].position), (ContactPhase::Released, (8.0, 9.0)));
    assert!(seat.on_touch(TouchEvent::Up { id: 1 }).is_empty(), "already up");
    seat.on_touch(TouchEvent::Down {
        window: Some(3),
        id: 5,
        position: (1.0, 1.0),
    });
    let cancelled = seat.on_touch(TouchEvent::Cancel);
    let mut ids: Vec<u32> = cancelled
        .iter()
        .map(|i| match i.contact {
            ContactId::Touch(id) => id,
            ContactId::Mouse => panic!("a finger is not the mouse"),
        })
        .collect();
    ids.sort();
    assert_eq!(ids, vec![2, 5], "every finger down, each once, in any order");
    assert!(cancelled.iter().all(|i| i.phase == ContactPhase::Cancelled));
    assert!(seat.on_touch(TouchEvent::Cancel).is_empty());
    assert!(seat
        .on_touch(TouchEvent::Down {
            window: None,
            id: 9,
            position: (0.0, 0.0)
        })
        .is_empty());
}

#[test]
fn only_explicit_xrgb_layouts_are_offered() {
    assert_eq!(on_dmabuf_modifier(XRGB8888, 0x0100_0000, 5), Some(0x0100_0000_0000_0005));
    assert_eq!(on_dmabuf_modifier(XRGB8888, 0, 0), Some(0), "linear");
    assert_eq!(
        on_dmabuf_modifier(XRGB8888, (MOD_INVALID >> 32) as u32, MOD_INVALID as u32),
        None,
        "the implicit layout"
    );
    assert_eq!(on_dmabuf_modifier(0x3432_4241, 0, 0), None, "another format");
}

#[test]
fn an_shm_buffer_has_no_pixels_yet() {
    assert_eq!(Buffers.pixel(0, 1, 2), None);
}

#[test]
fn the_last_frame_is_the_buffer_drawn_most_recently() {
    let mut f = configured(64, 64);
    assert_eq!(f.slots().as_ref().unwrap().last_drawn(), Some(0));
    f.on_done(CALLBACK);
    f.defer();
    draw(&mut f, CALLBACK + 1);
    assert_eq!(f.slots().as_ref().unwrap().last_drawn(), Some(1));
    assert_eq!(slots(1, 1).last_drawn(), None, "nothing drawn yet");
}

use mechanix::presentation::frames::present;
use mechanix::wayland::connection::Wayland;
use mechanix::wayland::protocol::{WlBuffer, WlSurface};
use mechanix::wayland::wire::{header, split_messages, Reader};
use mechanix::wayland::{Interface, ObjectId};

#[test]
fn a_frame_attaches_damages_each_rect_asks_for_the_callback_and_commits() {
    let mut wl = Wayland::new();
    let surface: WlSurface = wl.allocate(6);
    let mut f = configured(64, 64);
    f.on_done(CALLBACK);
    f.on_scale(2);
    f.replace_slots(slots(128, 128));
    let t = f.begin_frame().unwrap();
    let cb = present(
        &mut f,
        &mut wl,
        surface,
        WlBuffer(ObjectId(BUF_A)),
        t.slot,
        &[(0, 0, 10, 10), (20, 20, 5, 5)],
    );
    assert_eq!(cb.id(), ObjectId(3));
    assert_eq!(wl.version(cb), 6, "at the surface's version");
    let out = wl.flush().unwrap();
    let (frames, consumed) = split_messages(&out).unwrap();
    assert_eq!(consumed, out.len());
    let ops: Vec<u16> = frames.iter().map(|(h, _)| h.opcode).collect();
    assert_eq!(ops, vec![8, 1, 9, 9, 3, 6], "scale, attach, damage, damage, frame, commit");
    assert!(frames.iter().all(|(h, _)| h.sender == surface.id()));
    let mut r = Reader::new(&out[frames[0].1 + 8..]);
    assert_eq!(r.signed(), Some(2));
    let mut r = Reader::new(&out[frames[3].1 + 8..]);
    assert_eq!((r.signed(), r.signed(), r.signed(), r.signed()), (Some(20), Some(20), Some(5), Some(5)));
    assert_eq!(header(&out[frames[4].1..]).unwrap().size, 12);
    assert!(!f.on_frame_requested(), "throttled by the new callback");
    assert!(f.on_done(cb.id().0));
}

use mechanix::presentation::windows::{open_toplevel, Owners};
use mechanix::wayland::protocol::{WlCompositor, XdgWmBase};
use mechanix::wayland::xdg::{XdgSurfaceEvent, XdgToplevelEvent};

#[test]
fn a_toplevel_window_gets_a_surface_a_role_and_an_initial_commit() {
    let mut wl = Wayland::new();
    let compositor: WlCompositor = wl.allocate(6);
    let wm_base: XdgWmBase = wl.allocate(7);
    let t = open_toplevel(&mut wl, compositor, wm_base, "hi", "example");
    assert_eq!(
        (t.surface.id(), t.xdg.id(), t.toplevel.id()),
        (ObjectId(4), ObjectId(5), ObjectId(6))
    );
    assert_eq!(wl.version(t.surface), 6);
    assert_eq!(wl.version(t.toplevel), 7);
    let out = wl.flush().unwrap();
    let (frames, _) = split_messages(&out).unwrap();
    let shape: Vec<(u32, u16)> = frames.iter().map(|(h, _)| (h.sender.0, h.opcode)).collect();
    assert_eq!(shape, vec![(2, 0), (3, 2), (5, 1), (6, 2), (6, 3), (4, 6)]);
    let mut r = Reader::new(&out[frames[3].1 + 8..]);
    assert_eq!(r.string().as_deref(), Some("hi"));
    let mut r = Reader::new(&out[frames[4].1 + 8..]);
    assert_eq!(r.string().as_deref(), Some("example"));

    let mut owners = Owners::new();
    owners.insert_toplevel(t, 42);
    assert_eq!(owners.window_of(t.toplevel.id()), Some(42));
    assert_eq!(owners.window_of(ObjectId(99)), None);
    assert_eq!(owners.remove(t.surface.id()), Some(42));
    assert_eq!(owners.window_of(t.surface.id()), None, "a late event finds no window");
}

#[test]
fn an_event_decodes_with_the_sender_first() {
    let mut body = Vec::new();
    body.extend_from_slice(&320i32.to_ne_bytes());
    body.extend_from_slice(&200i32.to_ne_bytes());
    body.extend_from_slice(&4u32.to_ne_bytes());
    body.extend_from_slice(&2u32.to_ne_bytes());
    match XdgToplevelEvent::decode(ObjectId(9), 0, &body).unwrap() {
        XdgToplevelEvent::Configure {
            toplevel,
            width,
            height,
            states,
        } => {
            assert_eq!(toplevel.id(), ObjectId(9));
            assert_eq!((width, height), (320, 200));
            assert_eq!(states, 2u32.to_ne_bytes().to_vec());
        }
        other => panic!("{other:?}"),
    }
    assert!(XdgToplevelEvent::decode(ObjectId(9), 0, &body[..4]).is_none());
    assert!(XdgToplevelEvent::decode(ObjectId(9), 99, &body).is_none());
    assert!(matches!(
        XdgToplevelEvent::decode(ObjectId(9), 1, &[]),
        Some(XdgToplevelEvent::Close { .. })
    ));
    let serial = 7u32.to_ne_bytes();
    let e = XdgSurfaceEvent::decode(ObjectId(8), 0, &serial).unwrap();
    let XdgSurfaceEvent::Configure { surface, serial } = e;
    assert_eq!((surface.id(), serial), (ObjectId(8), 7));
}

use mechanix::presentation::windows::close_toplevel;
use mechanix::wayland::display::WlCallback;

#[test]
fn removing_a_window_destroys_its_objects_in_order_and_forgets_them() {
    let mut wl = Wayland::new();
    let compositor: WlCompositor = wl.allocate(6);
    let wm_base: XdgWmBase = wl.allocate(7);
    let t = open_toplevel(&mut wl, compositor, wm_base, "hi", "example");
    wl.flush();
    let mut owners = Owners::new();
    owners.insert_toplevel(t, 1);
    let buffers = [WlBuffer(ObjectId(BUF_A)), WlBuffer(ObjectId(BUF_B))];
    owners.insert(buffers[0].0, 1);
    owners.insert(buffers[1].0, 1);
    owners.insert(ObjectId(CALLBACK), 1);
    close_toplevel(
        &mut wl,
        &mut owners,
        t,
        &buffers,
        Some(WlCallback(ObjectId(CALLBACK))),
    );
    let out = wl.flush().unwrap();
    let (frames, _) = split_messages(&out).unwrap();
    let shape: Vec<(u32, u16)> = frames.iter().map(|(h, _)| (h.sender.0, h.opcode)).collect();
    assert_eq!(shape, vec![(6, 0), (5, 0), (BUF_A, 0), (BUF_B, 0), (4, 0)]);
    for id in [4, 5, 6, BUF_A, BUF_B, CALLBACK] {
        assert_eq!(owners.window_of(ObjectId(id)), None);
    }
}

use mechanix::presentation::windows::{close_layer, open_layer, LayerRole};
use mechanix::wayland::layer::{
    Anchor, KeyboardInteractivity, Layer, ZwlrLayerShellV1, ZwlrLayerSurfaceV1Event,
};

#[test]
fn a_layer_window_gets_a_layer_surface_with_its_role() {
    let mut wl = Wayland::new();
    let compositor: WlCompositor = wl.allocate(6);
    let shell: ZwlrLayerShellV1 = wl.allocate(5);
    let role = LayerRole {
        layer: Layer::Top,
        anchor: Anchor(Anchor::TOP | Anchor::LEFT | Anchor::RIGHT),
        exclusive_zone: 32,
        namespace: "bar".to_string(),
        keyboard_interactivity: KeyboardInteractivity::NoFocus,
    };
    let lw = open_layer(&mut wl, compositor, shell, &role, 0, 32);
    let (s, ls) = (lw.surface.id().0, lw.layer_surface.id().0);
    assert_eq!((s, ls), (4, 5));
    let out = wl.flush().unwrap();
    let (frames, _) = split_messages(&out).unwrap();
    let shape: Vec<(u32, u16)> = frames.iter().map(|(h, _)| (h.sender.0, h.opcode)).collect();
    assert_eq!(shape, vec![(2, 0), (3, 0), (ls, 1), (ls, 2), (ls, 4), (ls, 0), (s, 6)]);
    let mut r = Reader::new(&out[frames[1].1 + 8..]);
    assert_eq!(r.object(), Some(ObjectId(ls)));
    assert_eq!(r.object(), Some(ObjectId(s)));
    assert_eq!(r.object_opt(), Some(None), "no output");
    assert_eq!(r.uint(), Some(2), "top");
    assert_eq!(r.string().as_deref(), Some("bar"));
    assert_eq!(Reader::new(&out[frames[2].1 + 8..]).uint(), Some(1 | 4 | 8));
    assert_eq!(Reader::new(&out[frames[3].1 + 8..]).signed(), Some(32));
    assert_eq!(Reader::new(&out[frames[4].1 + 8..]).uint(), Some(0));
    let mut r = Reader::new(&out[frames[5].1 + 8..]);
    assert_eq!((r.uint(), r.uint()), (Some(0), Some(32)));

    let mut owners = Owners::new();
    owners.insert_layer(lw, 7);
    assert_eq!(owners.window_of(lw.layer_surface.id()), Some(7));
    close_layer(&mut wl, &mut owners, lw, &[], None);
    assert_eq!(owners.window_of(lw.layer_surface.id()), None);
    assert_eq!(owners.window_of(lw.surface.id()), None);
    let out = wl.flush().unwrap();
    let (frames, _) = split_messages(&out).unwrap();
    let shape: Vec<(u32, u16)> = frames.iter().map(|(h, _)| (h.sender.0, h.opcode)).collect();
    assert_eq!(shape, vec![(ls, 7), (s, 0)]);
}

#[test]
fn a_layer_configure_decodes_its_serial_and_size() {
    let mut body = Vec::new();
    body.extend_from_slice(&5u32.to_ne_bytes());
    body.extend_from_slice(&1920u32.to_ne_bytes());
    body.extend_from_slice(&32u32.to_ne_bytes());
    match ZwlrLayerSurfaceV1Event::decode(ObjectId(9), 0, &body).unwrap() {
        ZwlrLayerSurfaceV1Event::Configure {
            layer_surface,
            serial,
            width,
            height,
        } => {
            assert_eq!(layer_surface.id(), ObjectId(9));
            assert_eq!((serial, width, height), (5, 1920, 32));
        }
        other => panic!("{other:?}"),
    }
    assert!(matches!(
        ZwlrLayerSurfaceV1Event::decode(ObjectId(9), 1, &[]),
        Some(ZwlrLayerSurfaceV1Event::Closed { .. })
    ));
    assert_eq!(ZwlrLayerSurfaceV1Event::decode(ObjectId(9), 0, &body[..8]), None);
}

#[test]
fn new_buffers_are_stored_each_target_with_its_own_buffer() {
    let mut f: FrameLoop<&'static str> = FrameLoop::new();
    f.replace_slots(slots(64, 64));
    let s = f.slots().as_ref().unwrap();
    let pairs: Vec<(&str, u32)> = s.slots.iter().map(|x| (x.target, x.buffer)).collect();
    assert_eq!(pairs, vec![("a", BUF_A), ("b", BUF_B)]);
}

use mechanix::presentation::frames::present_if_damaged;

#[test]
fn a_frame_with_no_damage_commits_nothing() {
    let mut wl = Wayland::new();
    let surface: WlSurface = wl.allocate(6);
    let mut f = configured(64, 64);
    f.on_done(CALLBACK);
    assert!(f.on_frame_requested());
    let t = f.begin_frame().unwrap();
    assert!(present_if_damaged(&mut f, &mut wl, surface, WlBuffer(ObjectId(BUF_B)), t.slot, &[]).is_none());
    assert_eq!(wl.pending_len(), 0, "nothing on the wire");
    assert_eq!(f.begin_frame(), Some(t), "the buffer is still free");
    let cb = present_if_damaged(&mut f, &mut wl, surface, WlBuffer(ObjectId(BUF_B)), t.slot, &[(0, 0, 4, 4)]);
    assert_eq!(cb.map(|c| c.id()), Some(ObjectId(3)));
    let out = wl.flush().unwrap();
    let (frames, _) = split_messages(&out).unwrap();
    let ops: Vec<u16> = frames.iter().map(|(h, _)| h.opcode).collect();
    assert_eq!(ops, vec![1, 9, 3, 6]);
}

#[test]
fn a_target_reports_the_layout_gbm_chose_or_linear() {
    assert_eq!(target_modifier(Some(0x0100_0000_0000_0001)), 0x0100_0000_0000_0001);
    assert_eq!(target_modifier(Some(MOD_INVALID)), MOD_LINEAR, "implicit is not a layout to offer");
    assert_eq!(target_modifier(None), MOD_LINEAR, "the fallback buffer is linear");
}

#[test]
fn an_enum_argument_is_written_as_its_value_and_read_back() {
    assert_eq!(Layer::try_from_value(2), Ok(Layer::Top));
    assert_eq!(Layer::try_from_value(2).unwrap().value(), 2);
    assert_eq!(Layer::try_from_value(4), Err(4));
    assert_eq!(KeyboardInteractivity::try_from_value(2), Ok(KeyboardInteractivity::OnDemand));
    assert_eq!(KeyboardInteractivity::try_from_value(3), Err(3));
    let anchor = Anchor(Anchor::TOP).union(Anchor(Anchor::LEFT));
    assert_eq!(anchor.bits(), 1 | 4);
    assert!(anchor.contains(Anchor(Anchor::LEFT)));
    assert!(!anchor.contains(Anchor(Anchor::RIGHT)));
    assert_eq!(Anchor::from_bits_truncate(0xff).bits(), 0xf, "only the four edges");
}
