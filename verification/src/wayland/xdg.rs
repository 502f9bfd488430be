//! The desktop shell a toplevel window is made with: `xdg_surface` and
//! `xdg_toplevel`, their requests and the events they are configured by.
use vstd::prelude::*;

use crate::wayland::connection::Wayland;
use crate::wayland::protocol::{WlSurface, XdgWmBase};
use crate::wayland::wire::{
    array_bytes, as_int, lemma_auto_words, lemma_read_array_of_array, lemma_read_uint_of_word, message,
    read_array, read_uint, string_bytes, word_bytes, Reader, Writer,
};
use crate::wayland::{Info, Interface, ObjectId};

verus! {

/// `xdg_surface`: a surface with a desktop role.
#[derive(Debug, Clone, Copy, PartialEq, Eq, Hash, Structural)]
pub struct XdgSurface(pub ObjectId);

/// `xdg_toplevel`: a desktop window.
#[derive(Debug, Clone, Copy, PartialEq, Eq, Hash, Structural)]
pub struct XdgToplevel(pub ObjectId);

impl Interface for XdgSurface {
    const NAME: &'static str = "xdg_surface";
    const VERSION: u32 = 7;

    open spec fn spec_info() -> Info {
        Info { name: "xdg_surface", version: 7 }
    }

    fn info() -> (r: Info) {
        Info { name: "xdg_surface", version: 7 }
    }

    open spec fn spec_id(self) -> ObjectId {
        self.0
    }

    fn id(self) -> (r: ObjectId) {
        self.0
    }

    fn from_id(id: ObjectId) -> (r: Self) {
        XdgSurface(id)
    }
}

impl Interface for XdgToplevel {
    const NAME: &'static str = "xdg_toplevel";
    const VERSION: u32 = 7;

    open spec fn spec_info() -> Info {
        Info { name: "xdg_toplevel", version: 7 }
    }

    fn info() -> (r: Info) {
        Info { name: "xdg_toplevel", version: 7 }
    }

    open spec fn spec_id(self) -> ObjectId {
        self.0
    }

    fn id(self) -> (r: ObjectId) {
        self.0
    }

    fn from_id(id: ObjectId) -> (r: Self) {
        XdgToplevel(id)
    }
}

impl XdgWmBase {
    /// `xdg_wm_base.get_xdg_surface`: a new `xdg_surface` for `surface`, at
    /// the shell's own version.
    pub fn get_xdg_surface(self, wl: &mut Wayland, surface: WlSurface) -> (xdg: XdgSurface)
        requires
            old(wl).wf(),
            old(wl).lookup(self.0.0) is Some,
        ensures
            xdg == XdgSurface(ObjectId(old(wl).next_id())),
            final(wl).allocated_from_then_sent(
                *old(wl),
                XdgSurface::spec_info(),
                old(wl).lookup(self.0.0).unwrap().1,
                message(self.0.0, 2, word_bytes(xdg.0.0) + word_bytes(surface.0.0)),
            ),
    {
        let version = wl.version(self);
        let xdg: XdgSurface = wl.allocate(version);
        let mut w = Writer::begin(Vec::new(), self.0, 2);
        w.new_id(xdg.0);
        w.object(surface.0);
        wl.request(w);
        xdg
    }
}

impl XdgSurface {
    /// `xdg_surface.destroy`.
    pub fn destroy(self, wl: &mut Wayland)
        requires
            old(wl).wf(),
        ensures
            final(wl).sent_from(*old(wl), message(self.0.0, 0, Seq::empty())),
    {
        let w = Writer::begin(Vec::new(), self.0, 0);
        wl.request(w);
        assert(Seq::<u8>::empty() + message(self.0.0, 0, Seq::empty()) =~= message(self.0.0, 0, Seq::empty()));
    }

    /// `xdg_surface.get_toplevel`: the surface becomes a desktop window.
    pub fn get_toplevel(self, wl: &mut Wayland) -> (toplevel: XdgToplevel)
        requires
            old(wl).wf(),
            old(wl).lookup(self.0.0) is Some,
        ensures
            toplevel == XdgToplevel(ObjectId(old(wl).next_id())),
            final(wl).allocated_from_then_sent(
                *old(wl),
                XdgToplevel::spec_info(),
                old(wl).lookup(self.0.0).unwrap().1,
                message(self.0.0, 1, word_bytes(toplevel.0.0)),
            ),
    {
        let version = wl.version(self);
        let toplevel: XdgToplevel = wl.allocate(version);
        let mut w = Writer::begin(Vec::new(), self.0, 1);
        w.new_id(toplevel.0);
        wl.request(w);
        toplevel
    }

    /// `xdg_surface.ack_configure`: the configure of this serial is acted
    /// on.
    pub fn ack_configure(self, wl: &mut Wayland, serial: u32)
        requires
            old(wl).wf(),
        ensures
            final(wl).sent_from(*old(wl), message(self.0.0, 4, word_bytes(serial))),
    {
        let mut w = Writer::begin(Vec::new(), self.0, 4);
        w.uint(serial);
        wl.request(w);
        assert(Seq::<u8>::empty() + message(self.0.0, 4, w.body()) =~= message(self.0.0, 4, w.body()));
    }
}

impl XdgToplevel {
    /// `xdg_toplevel.destroy`.
    pub fn destroy(self, wl: &mut Wayland)
        requires
            old(wl).wf(),
        ensures
            final(wl).sent_from(*old(wl), message(self.0.0, 0, Seq::empty())),
    {
        let w = Writer::begin(Vec::new(), self.0, 0);
        wl.request(w);
        assert(Seq::<u8>::empty() + message(self.0.0, 0, Seq::empty()) =~= message(self.0.0, 0, Seq::empty()));
    }

    /// `xdg_toplevel.set_title`.
    pub fn set_title(self, wl: &mut Wayland, title: &str)
        requires
            old(wl).wf(),
        ensures
            final(wl).sent_from(*old(wl), message(self.0.0, 2, string_bytes(title@))),
    {
        let mut w = Writer::begin(Vec::new(), self.0, 2);
        w.string(title);
        wl.request(w);
        assert(Seq::<u8>::empty() + message(self.0.0, 2, w.body()) =~= message(self.0.0, 2, w.body()));
    }

    /// `xdg_toplevel.set_app_id`.
    pub fn set_app_id(self, wl: &mut Wayland, app_id: &str)
        requires
            old(wl).wf(),
        ensures
            final(wl).sent_from(*old(wl), message(self.0.0, 3, string_bytes(app_id@))),
    {
        let mut w = Writer::begin(Vec::new(), self.0, 3);
        w.string(app_id);
        wl.request(w);
        assert(Seq::<u8>::empty() + message(self.0.0, 3, w.body()) =~= message(self.0.0, 3, w.body()));
    }
}

#[derive(Debug, PartialEq, Eq, Structural)]
pub enum XdgSurfaceEvent {
    /// Acknowledge with `ack_configure` before the next commit.
    Configure { surface: XdgSurface, serial: u32 },
}

/// An `xdg_surface` event decoded from its body: `configure` carries a
/// serial.
pub open spec fn decode_xdg_surface_event(sender: ObjectId, opcode: u16, body: Seq<u8>) -> Option<
    XdgSurfaceEvent,
> {
    if opcode == 0 {
        match read_uint(body, 0).0 {
            Some(serial) => Some(XdgSurfaceEvent::Configure { surface: XdgSurface(sender), serial }),
            None => None,
        }
    } else {
        None
    }
}

impl XdgSurfaceEvent {
    pub fn decode(sender: ObjectId, opcode: u16, body: &[u8]) -> (r: Option<Self>)
        ensures
            r == decode_xdg_surface_event(sender, opcode, body@),
    {
        let mut r = Reader::new(body);
        if opcode == 0 {
            let serial = r.uint()?;
            Some(XdgSurfaceEvent::Configure { surface: XdgSurface(sender), serial })
        } else {
            None
        }
    }
}

#[derive(Debug)]
pub enum XdgToplevelEvent {
    /// The size the compositor proposes, zero meaning the client's to
    /// choose, and the window's states.
    Configure { toplevel: XdgToplevel, width: i32, height: i32, states: Vec<u8> },
    /// The user asked for the window to close.
    Close { toplevel: XdgToplevel },
    /// The largest size the window should take.
    ConfigureBounds { toplevel: XdgToplevel, width: i32, height: i32 },
    /// What the compositor offers to do with the window.
    WmCapabilities { toplevel: XdgToplevel, capabilities: Vec<u8> },
}

/// An `xdg_toplevel` event with its arrays as bytes.
pub enum ToplevelEventView {
    Configure { toplevel: XdgToplevel, width: i32, height: i32, states: Seq<u8> },
    Close { toplevel: XdgToplevel },
    ConfigureBounds { toplevel: XdgToplevel, width: i32, height: i32 },
    WmCapabilities { toplevel: XdgToplevel, capabilities: Seq<u8> },
}

impl View for XdgToplevelEvent {
    type V = ToplevelEventView;

    open spec fn view(&self) -> ToplevelEventView {
        match self {
            XdgToplevelEvent::Configure { toplevel, width, height, states } => {
                ToplevelEventView::Configure {
                    toplevel: *toplevel,
                    width: *width,
                    height: *height,
                    states: states@,
                }
            },
            XdgToplevelEvent::Close { toplevel } => ToplevelEventView::Close { toplevel: *toplevel },
            XdgToplevelEvent::ConfigureBounds { toplevel, width, height } => {
                ToplevelEventView::ConfigureBounds {
                    toplevel: *toplevel,
                    width: *width,
                    height: *height,
                }
            },
            XdgToplevelEvent::WmCapabilities { toplevel, capabilities } => {
                ToplevelEventView::WmCapabilities {
                    toplevel: *toplevel,
                    capabilities: capabilities@,
                }
            },
        }
    }
}

/// An `xdg_toplevel` event decoded from its body.
pub open spec fn decode_toplevel_event(sender: ObjectId, opcode: u16, body: Seq<u8>) -> Option<
    ToplevelEventView,
> {
    let toplevel = XdgToplevel(sender);
    if opcode == 0 {
        let (width, o1) = read_uint(body, 0);
        let (height, o2) = read_uint(body, o1);
        let (states, _) = read_array(body, o2);
        match (width, height, states) {
            (Some(w), Some(h), Some(s)) => Some(
                ToplevelEventView::Configure {
                    toplevel,
                    width: as_int(w),
                    height: as_int(h),
                    states: s,
                },
            ),
            _ => None,
        }
    } else if opcode == 1 {
        Some(ToplevelEventView::Close { toplevel })
    } else if opcode == 2 {
        let (width, o1) = read_uint(body, 0);
        let (height, _) = read_uint(body, o1);
        match (width, height) {
            (Some(w), Some(h)) => Some(
                ToplevelEventView::ConfigureBounds { toplevel, width: as_int(w), height: as_int(h) },
            ),
            _ => None,
        }
    } else if opcode == 3 {
        match read_array(body, 0).0 {
            Some(c) => Some(ToplevelEventView::WmCapabilities { toplevel, capabilities: c }),
            None => None,
        }
    } else {
        None
    }
}

impl XdgToplevelEvent {
    pub fn decode(sender: ObjectId, opcode: u16, body: &[u8]) -> (r: Option<Self>)
        ensures
            match r {
                Some(e) => decode_toplevel_event(sender, opcode, body@) == Some(e@),
                None => decode_toplevel_event(sender, opcode, body@) is None,
            },
    {
        let toplevel = XdgToplevel(sender);
        let mut r = Reader::new(body);
        if opcode == 0 {
            let width = r.signed()?;
            let height = r.signed()?;
            let states = r.array()?;
            Some(XdgToplevelEvent::Configure { toplevel, width, height, states })
        } else if opcode == 1 {
            Some(XdgToplevelEvent::Close { toplevel })
        } else if opcode == 2 {
            let width = r.signed()?;
            let height = r.signed()?;
            Some(XdgToplevelEvent::ConfigureBounds { toplevel, width, height })
        } else if opcode == 3 {
            let capabilities = r.array()?;
            Some(XdgToplevelEvent::WmCapabilities { toplevel, capabilities })
        } else {
            None
        }
    }
}

/// An `xdg_surface.configure` decodes with its serial.
pub proof fn law_xdg_surface_configure_decodes_as_written(sender: ObjectId, serial: u32, rest: Seq<u8>)
    ensures
        decode_xdg_surface_event(sender, 0, word_bytes(serial) + rest) == Some(
            XdgSurfaceEvent::Configure { surface: XdgSurface(sender), serial },
        ),
{
    lemma_read_uint_of_word(serial, Seq::empty(), rest);
    assert(word_bytes(serial) + rest =~= Seq::<u8>::empty() + word_bytes(serial) + rest);
}

/// An `xdg_toplevel` event decodes as the compositor wrote it: a
/// `configure` is the width, then the height, then the states; a
/// `configure_bounds` the width, then the height; `close` is the close;
/// `wm_capabilities` the capabilities.
pub proof fn law_toplevel_events_decode_as_written(
    sender: ObjectId,
    width: i32,
    height: i32,
    states: Seq<u8>,
    rest: Seq<u8>,
)
    requires
        states.len() < 0x1_0000_0000,
    ensures
        decode_toplevel_event(
            sender,
            0,
            word_bytes(width as u32) + word_bytes(height as u32) + array_bytes(states) + rest,
        ) == Some(
            ToplevelEventView::Configure { toplevel: XdgToplevel(sender), width, height, states },
        ),
        decode_toplevel_event(sender, 1, rest) == Some(
            ToplevelEventView::Close { toplevel: XdgToplevel(sender) },
        ),
        decode_toplevel_event(sender, 2, word_bytes(width as u32) + word_bytes(height as u32) + rest)
            == Some(ToplevelEventView::ConfigureBounds { toplevel: XdgToplevel(sender), width, height }),
        decode_toplevel_event(sender, 3, array_bytes(states) + rest) == Some(
            ToplevelEventView::WmCapabilities { toplevel: XdgToplevel(sender), capabilities: states },
        ),
{
    lemma_auto_words();
    assert(as_int(width as u32) == width) by (bit_vector);
    assert(as_int(height as u32) == height) by (bit_vector);
    let e = Seq::<u8>::empty();
    let ww = word_bytes(width as u32);
    let hw = word_bytes(height as u32);
    let body = ww + hw + array_bytes(states) + rest;
    lemma_read_uint_of_word(width as u32, e, hw + array_bytes(states) + rest);
    assert(body =~= e + ww + (hw + array_bytes(states) + rest));
    lemma_read_uint_of_word(height as u32, ww, array_bytes(states) + rest);
    assert(body =~= ww + hw + (array_bytes(states) + rest));
    lemma_read_array_of_array(states, ww + hw, rest);
    assert(read_uint(body, 0) == (Some(width as u32), 4int));
    assert(read_uint(body, 4) == (Some(height as u32), 8int));
    assert(read_array(body, 8).0 == Some(states));
    let bounds = ww + hw + rest;
    lemma_read_uint_of_word(width as u32, e, hw + rest);
    assert(bounds =~= e + ww + (hw + rest));
    lemma_read_uint_of_word(height as u32, ww, rest);
    assert(read_uint(bounds, 0) == (Some(width as u32), 4int));
    assert(read_uint(bounds, 4) == (Some(height as u32), 8int));
    lemma_read_array_of_array(states, e, rest);
    assert(array_bytes(states) + rest =~= e + array_bytes(states) + rest);
}

} // verus!
