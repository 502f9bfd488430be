//! The core interfaces the toolkit creates its windows with: the
//! compositor, a surface and the buffers it shows, and `xdg_wm_base`.
use vstd::prelude::*;

use crate::wayland::connection::Wayland;
use crate::wayland::wire::{message, read_uint, word_bytes, Reader, Writer};
use crate::wayland::display::WlCallback;
use crate::wayland::{Info, Interface, ObjectId};

verus! {

/// `wl_compositor`: makes surfaces.
#[derive(Debug, Clone, Copy, PartialEq, Eq, Hash, Structural)]
pub struct WlCompositor(pub ObjectId);

/// `wl_surface`: a rectangle the compositor shows.
#[derive(Debug, Clone, Copy, PartialEq, Eq, Hash, Structural)]
pub struct WlSurface(pub ObjectId);

/// `wl_buffer`: pixels a surface can show.
#[derive(Debug, Clone, Copy, PartialEq, Eq, Hash, Structural)]
pub struct WlBuffer(pub ObjectId);

/// `xdg_wm_base`: makes desktop windows of surfaces.
#[derive(Debug, Clone, Copy, PartialEq, Eq, Hash, Structural)]
pub struct XdgWmBase(pub ObjectId);

impl Interface for WlCompositor {
    const NAME: &'static str = "wl_compositor";
    const VERSION: u32 = 7;

    open spec fn spec_info() -> Info {
        Info { name: "wl_compositor", version: 7 }
    }

    fn info() -> (r: Info) {
        Info { name: "wl_compositor", version: 7 }
    }

    open spec fn spec_id(self) -> ObjectId {
        self.0
    }

    fn id(self) -> (r: ObjectId) {
        self.0
    }

    fn from_id(id: ObjectId) -> (r: Self) {
        WlCompositor(id)
    }
}

impl Interface for WlSurface {
    const NAME: &'static str = "wl_surface";
    const VERSION: u32 = 7;

    open spec fn spec_info() -> Info {
        Info { name: "wl_surface", version: 7 }
    }

    fn info() -> (r: Info) {
        Info { name: "wl_surface", version: 7 }
    }

    open spec fn spec_id(self) -> ObjectId {
        self.0
    }

    fn id(self) -> (r: ObjectId) {
        self.0
    }

    fn from_id(id: ObjectId) -> (r: Self) {
        WlSurface(id)
    }
}

impl Interface for WlBuffer {
    const NAME: &'static str = "wl_buffer";
    const VERSION: u32 = 1;

    open spec fn spec_info() -> Info {
        Info { name: "wl_buffer", version: 1 }
    }

    fn info() -> (r: Info) {
        Info { name: "wl_buffer", version: 1 }
    }

    open spec fn spec_id(self) -> ObjectId {
        self.0
    }

    fn id(self) -> (r: ObjectId) {
        self.0
    }

    fn from_id(id: ObjectId) -> (r: Self) {
        WlBuffer(id)
    }
}

impl Interface for XdgWmBase {
    const NAME: &'static str = "xdg_wm_base";
    const VERSION: u32 = 7;

    open spec fn spec_info() -> Info {
        Info { name: "xdg_wm_base", version: 7 }
    }

    fn info() -> (r: Info) {
        Info { name: "xdg_wm_base", version: 7 }
    }

    open spec fn spec_id(self) -> ObjectId {
        self.0
    }

    fn id(self) -> (r: ObjectId) {
        self.0
    }

    fn from_id(id: ObjectId) -> (r: Self) {
        XdgWmBase(id)
    }
}

impl WlCompositor {
    /// `wl_compositor.create_surface`: a new surface, at the compositor's
    /// own version.
    pub fn create_surface(self, wl: &mut Wayland) -> (surface: WlSurface)
        requires
            old(wl).wf(),
            old(wl).lookup(self.0.0) is Some,
        ensures
            surface == WlSurface(ObjectId(old(wl).next_id())),
            final(wl).allocated_from_then_sent(
                *old(wl),
                WlSurface::spec_info(),
                old(wl).lookup(self.0.0).unwrap().1,
                message(self.0.0, 0, word_bytes(surface.0.0)),
            ),
    {
        let version = wl.version(self);
        let surface: WlSurface = wl.allocate(version);
        let mut w = Writer::begin(Vec::new(), self.0, 0);
        w.new_id(surface.0);
        wl.request(w);
        surface
    }
}

impl WlSurface {
    /// `wl_surface.attach`: `buffer`, or none, as the pending content, its
    /// top left at `x`, `y` from the current one.
    pub fn attach(self, wl: &mut Wayland, buffer: Option<WlBuffer>, x: i32, y: i32)
        requires
            old(wl).wf(),
        ensures
            final(wl).sent_from(
                *old(wl),
                message(
                    self.0.0,
                    1,
                    word_bytes(
                        match buffer {
                            Some(b) => b.0.0,
                            None => 0,
                        },
                    ) + word_bytes(x as u32) + word_bytes(y as u32),
                ),
            ),
    {
        let mut w = Writer::begin(Vec::new(), self.0, 1);
        w.object_opt(
            match buffer {
                Some(b) => Some(b.0),
                None => None,
            },
        );
        w.signed(x);
        w.signed(y);
        wl.request(w);
        assert(Seq::<u8>::empty() + message(self.0.0, 1, w.body()) =~= message(self.0.0, 1, w.body()));
    }
}

impl WlSurface {
    /// `wl_surface.destroy`.
    pub fn destroy(self, wl: &mut Wayland)
        requires
            old(wl).wf(),
        ensures
            final(wl).sent_from(*old(wl), message(self.0.0, 0, Seq::empty())),
    {
        let w = Writer::begin(Vec::new(), self.0, 0);
        wl.request(w);
        assert(Seq::<u8>::empty() + message(self.0.0, 0, Seq::empty()) =~= message(self.0.0, 0, Seq::empty()));
    }

    /// `wl_surface.frame`: a new callback, done when it is a good time to
    /// draw the next frame; at the surface's own version.
    pub fn frame(self, wl: &mut Wayland) -> (cb: WlCallback)
        requires
            old(wl).wf(),
            old(wl).lookup(self.0.0) is Some,
        ensures
            cb == WlCallback(ObjectId(old(wl).next_id())),
            final(wl).allocated_from_then_sent(
                *old(wl),
                WlCallback::spec_info(),
                old(wl).lookup(self.0.0).unwrap().1,
                message(self.0.0, 3, word_bytes(cb.0.0)),
            ),
    {
        let version = wl.version(self);
        let cb: WlCallback = wl.allocate(version);
        let mut w = Writer::begin(Vec::new(), self.0, 3);
        w.new_id(cb.0);
        wl.request(w);
        cb
    }

    /// `wl_surface.commit`: the pending state becomes current.
    pub fn commit(self, wl: &mut Wayland)
        requires
            old(wl).wf(),
        ensures
            final(wl).sent_from(*old(wl), message(self.0.0, 6, Seq::empty())),
    {
        let w = Writer::begin(Vec::new(), self.0, 6);
        wl.request(w);
        assert(Seq::<u8>::empty() + message(self.0.0, 6, Seq::empty()) =~= message(self.0.0, 6, Seq::empty()));
    }

    /// `wl_surface.set_buffer_scale`: the buffer is `scale` times the
    /// surface's size.
    pub fn set_buffer_scale(self, wl: &mut Wayland, scale: i32)
        requires
            old(wl).wf(),
        ensures
            final(wl).sent_from(*old(wl), message(self.0.0, 8, word_bytes(scale as u32))),
    {
        let mut w = Writer::begin(Vec::new(), self.0, 8);
        w.signed(scale);
        wl.request(w);
        assert(Seq::<u8>::empty() + message(self.0.0, 8, w.body()) =~= message(self.0.0, 8, w.body()));
    }

    /// `wl_surface.damage_buffer`: a rect of the buffer, in buffer
    /// pixels, changed.
    pub fn damage_buffer(self, wl: &mut Wayland, x: i32, y: i32, width: i32, height: i32)
        requires
            old(wl).wf(),
        ensures
            final(wl).sent_from(
                *old(wl),
                message(
                    self.0.0,
                    9,
                    word_bytes(x as u32) + word_bytes(y as u32) + word_bytes(width as u32)
                        + word_bytes(height as u32),
                ),
            ),
    {
        let mut w = Writer::begin(Vec::new(), self.0, 9);
        w.signed(x);
        w.signed(y);
        w.signed(width);
        w.signed(height);
        wl.request(w);
        assert(Seq::<u8>::empty() + message(self.0.0, 9, w.body()) =~= message(self.0.0, 9, w.body()));
    }
}

impl WlBuffer {
    /// `wl_buffer.destroy`.
    pub fn destroy(self, wl: &mut Wayland)
        requires
            old(wl).wf(),
        ensures
            final(wl).sent_from(*old(wl), message(self.0.0, 0, Seq::empty())),
    {
        let w = Writer::begin(Vec::new(), self.0, 0);
        wl.request(w);
        assert(Seq::<u8>::empty() + message(self.0.0, 0, Seq::empty()) =~= message(self.0.0, 0, Seq::empty()));
    }
}

impl XdgWmBase {
    /// `xdg_wm_base.pong`: the answer to the ping with this serial.
    pub fn pong(self, wl: &mut Wayland, serial: u32)
        requires
            old(wl).wf(),
        ensures
            final(wl).sent_from(*old(wl), message(self.0.0, 3, word_bytes(serial))),
    {
        let mut w = Writer::begin(Vec::new(), self.0, 3);
        w.uint(serial);
        wl.request(w);
        assert(Seq::<u8>::empty() + message(self.0.0, 3, w.body()) =~= message(self.0.0, 3, w.body()));
    }
}

#[derive(Debug, PartialEq, Eq, Structural)]
pub enum XdgWmBaseEvent {
    /// The compositor checks the client is alive: answer with a pong of
    /// the same serial.
    Ping { wm_base: XdgWmBase, serial: u32 },
}

/// An `xdg_wm_base` event decoded from its body: `ping` carries one word.
pub open spec fn decode_wm_base_event(sender: ObjectId, opcode: u16, body: Seq<u8>) -> Option<
    XdgWmBaseEvent,
> {
    if opcode == 0 {
        match read_uint(body, 0).0 {
            Some(serial) => Some(XdgWmBaseEvent::Ping { wm_base: XdgWmBase(sender), serial }),
            None => None,
        }
    } else {
        None
    }
}

impl XdgWmBaseEvent {
    pub fn decode(sender: ObjectId, opcode: u16, body: &[u8]) -> (r: Option<Self>)
        ensures
            r == decode_wm_base_event(sender, opcode, body@),
    {
        let mut r = Reader::new(body);
        if opcode == 0 {
            let serial = r.uint()?;
            Some(XdgWmBaseEvent::Ping { wm_base: XdgWmBase(sender), serial })
        } else {
            None
        }
    }

    /// A ping is answered with a pong of its serial.
    pub fn answer(&self, wl: &mut Wayland)
        requires
            old(wl).wf(),
        ensures
            match *self {
                XdgWmBaseEvent::Ping { wm_base, serial } => final(wl).sent_from(
                    *old(wl),
                    message(wm_base.0.0, 3, word_bytes(serial)),
                ),
            },
    {
        let XdgWmBaseEvent::Ping { wm_base, serial } = self;
        wm_base.pong(wl, *serial);
    }
}

/// A ping decodes with its serial.
pub proof fn law_ping_decodes_as_written(sender: ObjectId, serial: u32, rest: Seq<u8>)
    ensures
        decode_wm_base_event(sender, 0, word_bytes(serial) + rest) == Some(
            XdgWmBaseEvent::Ping { wm_base: XdgWmBase(sender), serial },
        ),
{
    crate::wayland::wire::lemma_read_uint_of_word(serial, Seq::empty(), rest);
    assert(word_bytes(serial) + rest =~= Seq::<u8>::empty() + word_bytes(serial) + rest);
}

} // verus!
