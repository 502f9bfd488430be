use mechanix::ring::Token;
use mechanix::wayland::connection::{batch, Io, Wayland};
use mechanix::wayland::display::{WlCallback, WlCallbackEvent, WlDisplay, WlDisplayEvent};
use mechanix::wayland::protocol::{WlCompositor, WlSurface};
use mechanix::wayland::wire::{header, Reader, Writer};
use mechanix::wayland::{Info, Interface, ObjectId, DISPLAY, SERVER_ID_BASE};

fn probe() -> Info {
    Info {
        name: "probe",
        version: 3,
    }
}

#[test]
fn ids_start_at_two_and_the_free_list_is_reused() {
    let mut wl = Wayland::new();
    assert_eq!(wl.display().0, ObjectId(DISPLAY));
    let a: WlSurface = wl.allocate(2);
    let b: WlSurface = wl.allocate(1);
    assert_eq!((a.0, b.0), (ObjectId(2), ObjectId(3)));
    assert_eq!(wl.version(a), 2);
    assert_eq!(
        wl.info(a.0).map(|(i, v)| (i.name, v)),
        Some(("wl_surface", 2))
    );
    wl.free(a.0);
    assert!(wl.info(a.0).is_none());
    let c: WlSurface = wl.allocate(1);
    assert_eq!(c.0, ObjectId(2), "freed ids come back first");
    let d: WlSurface = wl.allocate(1);
    assert_eq!(d.0, ObjectId(4));
}

#[test]
fn server_ids_live_in_their_own_table() {
    let mut wl = Wayland::new();
    let id = ObjectId(SERVER_ID_BASE + 1);
    wl.register(id, probe(), 1);
    assert_eq!(wl.info(id).map(|(i, _)| i.name), Some("probe"));
    let a: WlSurface = wl.allocate(1);
    assert_eq!(a.0, ObjectId(2), "unaffected");
    wl.free(id);
    assert!(wl.info(id).is_none());
    let b: WlSurface = wl.allocate(1);
    assert_eq!(b.0, ObjectId(3), "a server id never joins the free list");
}

#[test]
fn a_client_id_past_the_table_grows_it() {
    let mut wl = Wayland::new();
    wl.register(ObjectId(6), probe(), 2);
    assert_eq!(wl.info(ObjectId(6)).map(|(_, v)| v), Some(2));
    assert!(wl.info(ObjectId(5)).is_none());
    let a: WlSurface = wl.allocate(1);
    assert_eq!(a.0, ObjectId(7), "the next id is past the table");
}

#[test]
fn a_request_is_buffered_until_flushed() {
    let mut wl = Wayland::new();
    assert!(!wl.has_pending());
    let mut w = Writer::begin(Vec::new(), ObjectId(DISPLAY), 1);
    w.uint(2);
    wl.request(w);
    assert!(wl.has_pending());
    let out = wl.flush().unwrap();
    assert_eq!(out.len(), 12);
    assert_eq!(header(&out).unwrap().opcode, 1);
    assert!(!wl.has_pending());
    assert!(wl.flush().is_none(), "an empty buffer sends nothing");
}

#[test]
fn a_new_id_request_allocates_at_the_senders_version_and_returns_it() {
    let mut wl = Wayland::new();
    let compositor: WlCompositor = wl.allocate(5);
    let surface = compositor.create_surface(&mut wl);
    assert_eq!(surface.id(), ObjectId(3));
    assert_eq!(wl.version(surface), 5);
    assert_eq!(wl.info(surface.id()).unwrap().0.name, "wl_surface");
    let out = wl.flush().unwrap();
    let mut r = Reader::new(&out[8..]);
    assert_eq!(r.object(), Some(ObjectId(3)));
}

#[test]
fn a_request_encodes_its_arguments_in_order() {
    let mut wl = Wayland::new();
    let surface: WlSurface = wl.allocate(6);
    surface.attach(&mut wl, None, 3, -4);
    let out = wl.flush().unwrap();
    let h = header(&out).unwrap();
    assert_eq!((h.sender, h.opcode, h.size), (surface.id(), 1, 20));
    let mut r = Reader::new(&out[8..]);
    assert_eq!(r.object_opt(), Some(None));
    assert_eq!(r.signed(), Some(3));
    assert_eq!(r.signed(), Some(-4));
}

#[test]
fn requests_go_out_in_one_send_at_before_wait() {
    let mut wl = Wayland::new();
    let compositor: WlCompositor = wl.allocate(6);
    let a = compositor.create_surface(&mut wl);
    let b = compositor.create_surface(&mut wl);
    let out = wl.flush().unwrap();
    wl.sending_as(Token::from_raw(1));
    let (frames, consumed) = mechanix::wayland::wire::split_messages(&out).unwrap();
    assert_eq!(consumed, out.len());
    assert_eq!(frames.len(), 2);
    let mut ra = Reader::new(&out[frames[0].1 + 8..]);
    let mut rb = Reader::new(&out[frames[1].1 + 8..]);
    assert_eq!(ra.object(), Some(a.id()));
    assert_eq!(rb.object(), Some(b.id()));
    let c = compositor.create_surface(&mut wl);
    assert!(wl.flush().is_none(), "one send in flight at a time");
    wl.sent(&out, out.len());
    let next = wl.flush().unwrap();
    assert_eq!(Reader::new(&next[8..]).object(), Some(c.id()));
}

#[test]
fn a_short_send_keeps_its_tail_and_finishes_it_on_a_later_turn() {
    let mut wl = Wayland::new();
    let compositor: WlCompositor = wl.allocate(6);
    compositor.create_surface(&mut wl);
    compositor.create_surface(&mut wl);
    let out = wl.flush().unwrap();
    wl.sending_as(Token::from_raw(9));
    compositor.create_surface(&mut wl);
    wl.sent(&out, 5);
    let rest = wl.flush().unwrap();
    assert_eq!(rest.len(), out.len() - 5 + 12);
    assert_eq!(&rest[..out.len() - 5], &out[5..], "the tail goes first");
}

#[test]
fn completions_are_told_apart_by_their_token() {
    let mut wl = Wayland::new();
    wl.reading_as(Token::from_raw(3));
    wl.sending_as(Token::from_raw(4));
    assert_eq!(wl.io_of(Token::from_raw(3)), Some(Io::Read));
    assert_eq!(wl.io_of(Token::from_raw(4)), Some(Io::Send));
    assert_eq!(wl.io_of(Token::from_raw(5)), None);
}

fn event(sender: u32, opcode: u16, f: impl FnOnce(&mut Writer)) -> Vec<u8> {
    let mut w = Writer::begin(Vec::new(), ObjectId(sender), opcode);
    f(&mut w);
    w.finish()
}

#[test]
fn events_decode_in_order_and_across_a_split_read() {
    let mut wl = Wayland::new();
    let compositor: WlCompositor = wl.allocate(6);
    let surface = compositor.create_surface(&mut wl);
    let s = surface.id().0;
    let mut read = event(s, 0, |w| w.object(ObjectId(77)));
    read.extend_from_slice(&event(s, 2, |w| w.signed(2)));
    wl.reading_as(Token::from_raw(1));
    let bytes = wl.received(&read);
    let (frames, consumed) = wl.routed(&bytes);
    assert_eq!(frames.len(), 2);
    assert_eq!((frames[0].0.opcode, frames[1].0.opcode), (0, 2));
    wl.carry(&bytes, consumed);

    // A message split across two reads: the first half alone does nothing.
    let whole = event(s, 2, |w| w.signed(3));
    let (head, tail) = whole.split_at(6);
    let bytes = wl.received(head);
    let (frames, consumed) = wl.routed(&bytes);
    assert!(frames.is_empty(), "half a message is carried, not handed on");
    wl.carry(&bytes, consumed);
    let bytes = wl.received(tail);
    let (frames, consumed) = wl.routed(&bytes);
    assert_eq!(frames.len(), 1);
    assert_eq!(consumed, whole.len());
    let (h, at) = frames[0];
    let mut r = Reader::new(&bytes[at + 8..at + h.size]);
    assert_eq!(r.signed(), Some(3));
}

#[test]
fn a_message_for_an_unknown_object_is_skipped_whole() {
    let wl = Wayland::new();
    let mut bytes = event(40, 0, |w| w.uint(1));
    bytes.extend_from_slice(&event(DISPLAY, 1, |w| w.uint(9)));
    let (frames, consumed) = wl.routed(&bytes);
    assert_eq!(consumed, bytes.len());
    assert_eq!(frames.len(), 1);
    assert_eq!(frames[0].0.sender, ObjectId(DISPLAY));
    assert_eq!(frames[0].1, 12);
}

#[test]
fn delete_id_frees_the_id_for_reuse() {
    let mut wl = Wayland::new();
    let compositor: WlCompositor = wl.allocate(6);
    let a = compositor.create_surface(&mut wl);
    let body = 3u32.to_ne_bytes();
    let e = WlDisplayEvent::decode(ObjectId(DISPLAY), 1, &body).unwrap();
    assert!(matches!(e, WlDisplayEvent::DeleteId { id: 3, .. }));
    wl.on_display(&e);
    assert!(wl.info(a.id()).is_none());
    let b = compositor.create_surface(&mut wl);
    assert_eq!(b.id(), a.id());
}

#[test]
fn the_install_sync_is_answered_by_its_own_callback_only() {
    let mut wl = Wayland::new();
    let registry = wl.start();
    assert_eq!(registry.0, ObjectId(2));
    let out = wl.flush().unwrap();
    let (frames, _) = mechanix::wayland::wire::split_messages(&out).unwrap();
    assert_eq!(frames.len(), 2);
    assert_eq!((frames[0].0.opcode, frames[1].0.opcode), (1, 0));
    assert!(!wl.synced());
    wl.on_callback(&WlCallbackEvent::Done {
        callback: WlCallback(ObjectId(9)),
        callback_data: 0,
    });
    assert!(!wl.synced(), "another callback is not the sync");
    let body = 0u32.to_ne_bytes();
    let done = WlCallbackEvent::decode(ObjectId(3), 0, &body).unwrap();
    wl.on_callback(&done);
    assert!(wl.synced());
    assert_eq!(wl.display(), WlDisplay(ObjectId(DISPLAY)));
}

#[test]
fn a_send_takes_whole_requests_with_no_more_than_twenty_eight_fds() {
    // Thirty requests of 16 bytes, each with one fd.
    let pending: Vec<(usize, usize)> = (0..30).map(|_| (16, 1)).collect();
    assert_eq!(batch(&pending, 28), (28, 28 * 16, 28));
    assert_eq!(batch(&pending[28..], 28), (2, 2 * 16, 2), "the rest, in the next send");
    // Requests without fds all go at once.
    assert_eq!(batch(&[(8, 0), (12, 0), (20, 0)], 28), (3, 40, 0));
    // A request whose fds would pass the limit waits, with all after it.
    assert_eq!(batch(&[(8, 27), (8, 2), (8, 0)], 28), (1, 8, 27));
    assert_eq!(batch(&[], 28), (0, 0, 0));
}

#[test]
fn a_partial_flush_keeps_the_rest_buffered() {
    let mut wl = Wayland::new();
    let compositor: WlCompositor = wl.allocate(6);
    compositor.create_surface(&mut wl);
    compositor.create_surface(&mut wl);
    assert_eq!(wl.pending_len(), 24);
    assert_eq!(wl.flush_bytes(0), None, "nothing to send");
    let head = wl.flush_bytes(12).unwrap();
    assert_eq!(head.len(), 12);
    assert_eq!(header(&head).unwrap().size, 12);
    assert_eq!(wl.pending_len(), 12);
    let tail = wl.flush_bytes(100).unwrap();
    assert_eq!(tail.len(), 12);
    assert_eq!(wl.pending_len(), 0);
    assert_eq!(wl.flush_bytes(100), None);
}
