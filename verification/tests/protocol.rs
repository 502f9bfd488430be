use mechanix::wayland::display::{WlCallback, WlDisplay, WlRegistry};
use mechanix::wayland::protocol::{WlBuffer, WlCompositor, WlSurface, XdgWmBase};
use mechanix::wayland::Interface;

#[test]
fn interface_info_names_the_xml() {
    assert_eq!(WlCompositor::NAME, "wl_compositor");
    assert_eq!(WlCompositor::VERSION, 7);
    assert_eq!(WlCompositor::info().name, "wl_compositor");
    assert_eq!(XdgWmBase::VERSION, 7);
}

#[test]
fn every_interface_names_itself_and_its_version() {
    assert_eq!((WlDisplay::NAME, WlDisplay::VERSION), ("wl_display", 1));
    assert_eq!((WlRegistry::NAME, WlRegistry::VERSION), ("wl_registry", 1));
    assert_eq!((WlCallback::NAME, WlCallback::VERSION), ("wl_callback", 1));
    assert_eq!((WlSurface::NAME, WlSurface::VERSION), ("wl_surface", 7));
    assert_eq!((WlBuffer::NAME, WlBuffer::VERSION), ("wl_buffer", 1));
    assert_eq!(XdgWmBase::NAME, "xdg_wm_base");
    assert_eq!(XdgWmBase::info().version, XdgWmBase::VERSION);
    assert_eq!(WlSurface::info().name, WlSurface::NAME);
}

use mechanix::wayland::connection::Wayland;
use mechanix::wayland::protocol::XdgWmBaseEvent;
use mechanix::wayland::wire::{header, Reader};
use mechanix::wayland::ObjectId;

#[test]
fn a_ping_is_answered_with_a_pong() {
    let mut wl = Wayland::new();
    let wm_base: XdgWmBase = wl.allocate(7);
    let body = 42u32.to_ne_bytes();
    let ping = XdgWmBaseEvent::decode(wm_base.id(), 0, &body).unwrap();
    assert_eq!(
        ping,
        XdgWmBaseEvent::Ping {
            wm_base,
            serial: 42
        }
    );
    ping.answer(&mut wl);
    let out = wl.flush().unwrap();
    let h = header(&out).unwrap();
    assert_eq!((h.sender, h.opcode, h.size), (ObjectId(2), 3, 12));
    assert_eq!(Reader::new(&out[8..]).uint(), Some(42));
    assert!(XdgWmBaseEvent::decode(wm_base.id(), 1, &body).is_none());
    assert!(XdgWmBaseEvent::decode(wm_base.id(), 0, &body[..3]).is_none());
}
