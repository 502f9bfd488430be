//! The layer shell a desktop's panels and overlays are made with:
//! `zwlr_layer_shell_v1` and `zwlr_layer_surface_v1`, their requests and
//! the events a layer surface is configured by.
use vstd::prelude::*;

use crate::wayland::connection::Wayland;
use crate::wayland::protocol::WlSurface;
use crate::wayland::wire::{
    lemma_read_uint_of_word, message, read_uint, string_bytes, word_bytes, Reader, Writer,
};
use crate::wayland::{Info, Interface, ObjectId};

verus! {

/// `zwlr_layer_shell_v1`: makes surfaces into layers of the desktop.
#[derive(Debug, Clone, Copy, PartialEq, Eq, Hash, Structural)]
pub struct ZwlrLayerShellV1(pub ObjectId);

/// `zwlr_layer_surface_v1`: a surface on one layer, anchored to edges.
#[derive(Debug, Clone, Copy, PartialEq, Eq, Hash, Structural)]
pub struct ZwlrLayerSurfaceV1(pub ObjectId);

impl Interface for ZwlrLayerShellV1 {
    const NAME: &'static str = "zwlr_layer_shell_v1";
    const VERSION: u32 = 5;

    open spec fn spec_info() -> Info {
        Info { name: "zwlr_layer_shell_v1", version: 5 }
    }

    fn info() -> (r: Info) {
        Info { name: "zwlr_layer_shell_v1", version: 5 }
    }

    open spec fn spec_id(self) -> ObjectId {
        self.0
    }

    fn id(self) -> (r: ObjectId) {
        self.0
    }

    fn from_id(id: ObjectId) -> (r: Self) {
        ZwlrLayerShellV1(id)
    }
}

impl Interface for ZwlrLayerSurfaceV1 {
    const NAME: &'static str = "zwlr_layer_surface_v1";
    const VERSION: u32 = 5;

    open spec fn spec_info() -> Info {
        Info { name: "zwlr_layer_surface_v1", version: 5 }
    }

    fn info() -> (r: Info) {
        Info { name: "zwlr_layer_surface_v1", version: 5 }
    }

    open spec fn spec_id(self) -> ObjectId {
        self.0
    }

    fn id(self) -> (r: ObjectId) {
        self.0
    }

    fn from_id(id: ObjectId) -> (r: Self) {
        ZwlrLayerSurfaceV1(id)
    }
}

/// `zwlr_layer_shell_v1.layer`: which layer a surface is on, bottom up.
#[derive(Debug, Clone, Copy, PartialEq, Eq, Structural)]
pub enum Layer {
    Background,
    Bottom,
    Top,
    Overlay,
}

pub open spec fn spec_layer_value(l: Layer) -> u32 {
    match l {
        Layer::Background => 0,
        Layer::Bottom => 1,
        Layer::Top => 2,
        Layer::Overlay => 3,
    }
}

impl Layer {
    /// The layer a wire value names, or the value back when it names none.
    pub fn try_from_value(v: u32) -> (r: Result<Layer, u32>)
        ensures
            match r {
                Ok(l) => v < 4 && spec_layer_value(l) == v,
                Err(e) => v >= 4 && e == v,
            },
    {
        match v {
            0 => Ok(Layer::Background),
            1 => Ok(Layer::Bottom),
            2 => Ok(Layer::Top),
            3 => Ok(Layer::Overlay),
            _ => Err(v),
        }
    }

    /// The layer as the wire has it.
    pub fn value(self) -> (v: u32)
        ensures
            v == spec_layer_value(self),
    {
        match self {
            Layer::Background => 0,
            Layer::Bottom => 1,
            Layer::Top => 2,
            Layer::Overlay => 3,
        }
    }
}

/// `zwlr_layer_surface_v1.keyboard_interactivity`: whether the surface
/// takes keyboard focus.
#[derive(Debug, Clone, Copy, PartialEq, Eq, Structural)]
pub enum KeyboardInteractivity {
    /// Never (the protocol's `none`).
    NoFocus,
    Exclusive,
    OnDemand,
}

pub open spec fn spec_keyboard_value(k: KeyboardInteractivity) -> u32 {
    match k {
        KeyboardInteractivity::NoFocus => 0,
        KeyboardInteractivity::Exclusive => 1,
        KeyboardInteractivity::OnDemand => 2,
    }
}

impl KeyboardInteractivity {
    /// The mode a wire value names, or the value back when it names none.
    pub fn try_from_value(v: u32) -> (r: Result<KeyboardInteractivity, u32>)
        ensures
            match r {
                Ok(k) => v < 3 && spec_keyboard_value(k) == v,
                Err(e) => v >= 3 && e == v,
            },
    {
        match v {
            0 => Ok(KeyboardInteractivity::NoFocus),
            1 => Ok(KeyboardInteractivity::Exclusive),
            2 => Ok(KeyboardInteractivity::OnDemand),
            _ => Err(v),
        }
    }

    /// The mode as the wire has it.
    pub fn value(self) -> (v: u32)
        ensures
            v == spec_keyboard_value(self),
    {
        match self {
            KeyboardInteractivity::NoFocus => 0,
            KeyboardInteractivity::Exclusive => 1,
            KeyboardInteractivity::OnDemand => 2,
        }
    }
}

/// `zwlr_layer_surface_v1.anchor`: the edges a surface is anchored to, a
/// bit each.
#[derive(Debug, Clone, Copy, PartialEq, Eq, Structural)]
pub struct Anchor(pub u32);

impl Anchor {
    pub const TOP: u32 = 1;
    pub const BOTTOM: u32 = 2;
    pub const LEFT: u32 = 4;
    pub const RIGHT: u32 = 8;

    /// The edges a wire value names; bits that name no edge are dropped.
    pub fn from_bits_truncate(v: u32) -> (a: Anchor)
        ensures
            a.0 == v & 0xf,
    {
        Anchor(v & 0xf)
    }

    /// The edges as the wire has them.
    pub fn bits(self) -> (v: u32)
        ensures
            v == self.0,
    {
        self.0
    }

    /// The edges of both.
    pub fn union(self, other: Anchor) -> (a: Anchor)
        ensures
            a.0 == self.0 | other.0,
    {
        Anchor(self.0 | other.0)
    }

    /// Whether every edge of `other` is one of these.
    pub fn contains(self, other: Anchor) -> (b: bool)
        ensures
            b == (self.0 & other.0 == other.0),
    {
        self.0 & other.0 == other.0
    }
}

impl ZwlrLayerShellV1 {
    /// `zwlr_layer_shell_v1.get_layer_surface`: a new layer surface for
    /// `surface`, on `output` or the compositor's choice, at the shell's
    /// own version.
    pub fn get_layer_surface(
        self,
        wl: &mut Wayland,
        surface: WlSurface,
        output: Option<ObjectId>,
        layer: Layer,
        namespace: &str,
    ) -> (ls: ZwlrLayerSurfaceV1)
        requires
            old(wl).wf(),
            old(wl).lookup(self.0.0) is Some,
        ensures
            ls == ZwlrLayerSurfaceV1(ObjectId(old(wl).next_id())),
            final(wl).allocated_from_then_sent(
                *old(wl),
                ZwlrLayerSurfaceV1::spec_info(),
                old(wl).lookup(self.0.0).unwrap().1,
                message(
                    self.0.0,
                    0,
                    word_bytes(ls.0.0) + word_bytes(surface.0.0) + word_bytes(
                        match output {
                            Some(o) => o.0,
                            None => 0,
                        },
                    ) + word_bytes(spec_layer_value(layer)) + string_bytes(namespace@),
                ),
            ),
    {
        let version = wl.version(self);
        let ls: ZwlrLayerSurfaceV1 = wl.allocate(version);
        let mut w = Writer::begin(Vec::new(), self.0, 0);
        w.new_id(ls.0);
        w.object(surface.0);
        w.object_opt(output);
        w.uint(layer.value());
        w.string(namespace);
        wl.request(w);
        ls
    }
}

impl ZwlrLayerSurfaceV1 {
    /// `set_size`: zero on an axis leaves it to the compositor.
    pub fn set_size(self, wl: &mut Wayland, width: u32, height: u32)
        requires
            old(wl).wf(),
        ensures
            final(wl).sent_from(*old(wl), message(self.0.0, 0, word_bytes(width) + word_bytes(height))),
    {
        let mut w = Writer::begin(Vec::new(), self.0, 0);
        w.uint(width);
        w.uint(height);
        wl.request(w);
        assert(Seq::<u8>::empty() + message(self.0.0, 0, w.body()) =~= message(self.0.0, 0, w.body()));
    }

    /// `set_anchor`.
    pub fn set_anchor(self, wl: &mut Wayland, anchor: Anchor)
        requires
            old(wl).wf(),
        ensures
            final(wl).sent_from(*old(wl), message(self.0.0, 1, word_bytes(anchor.0))),
    {
        let mut w = Writer::begin(Vec::new(), self.0, 1);
        w.uint(anchor.0);
        wl.request(w);
        assert(Seq::<u8>::empty() + message(self.0.0, 1, w.body()) =~= message(self.0.0, 1, w.body()));
    }

    /// `set_exclusive_zone`.
    pub fn set_exclusive_zone(self, wl: &mut Wayland, zone: i32)
        requires
            old(wl).wf(),
        ensures
            final(wl).sent_from(*old(wl), message(self.0.0, 2, word_bytes(zone as u32))),
    {
        let mut w = Writer::begin(Vec::new(), self.0, 2);
        w.signed(zone);
        wl.request(w);
        assert(Seq::<u8>::empty() + message(self.0.0, 2, w.body()) =~= message(self.0.0, 2, w.body()));
    }

    /// `set_keyboard_interactivity`.
    pub fn set_keyboard_interactivity(self, wl: &mut Wayland, k: KeyboardInteractivity)
        requires
            old(wl).wf(),
        ensures
            final(wl).sent_from(*old(wl), message(self.0.0, 4, word_bytes(spec_keyboard_value(k)))),
    {
        let mut w = Writer::begin(Vec::new(), self.0, 4);
        w.uint(k.value());
        wl.request(w);
        assert(Seq::<u8>::empty() + message(self.0.0, 4, w.body()) =~= message(self.0.0, 4, w.body()));
    }

    /// `ack_configure`: the configure of this serial is acted on.
    pub fn ack_configure(self, wl: &mut Wayland, serial: u32)
        requires
            old(wl).wf(),
        ensures
            final(wl).sent_from(*old(wl), message(self.0.0, 6, word_bytes(serial))),
    {
        let mut w = Writer::begin(Vec::new(), self.0, 6);
        w.uint(serial);
        wl.request(w);
        assert(Seq::<u8>::empty() + message(self.0.0, 6, w.body()) =~= message(self.0.0, 6, w.body()));
    }

    /// `destroy`.
    pub fn destroy(self, wl: &mut Wayland)
        requires
            old(wl).wf(),
        ensures
            final(wl).sent_from(*old(wl), message(self.0.0, 7, Seq::empty())),
    {
        let w = Writer::begin(Vec::new(), self.0, 7);
        wl.request(w);
        assert(Seq::<u8>::empty() + message(self.0.0, 7, Seq::empty()) =~= message(self.0.0, 7, Seq::empty()));
    }
}

#[derive(Debug, PartialEq, Eq, Structural)]
pub enum ZwlrLayerSurfaceV1Event {
    /// The size to take, zero meaning the client's to choose; acknowledge
    /// with `ack_configure` before the next commit.
    Configure { layer_surface: ZwlrLayerSurfaceV1, serial: u32, width: u32, height: u32 },
    /// The surface is no longer shown; the client should destroy it.
    Closed { layer_surface: ZwlrLayerSurfaceV1 },
}

/// A `zwlr_layer_surface_v1` event decoded from its body.
pub open spec fn decode_layer_surface_event(sender: ObjectId, opcode: u16, body: Seq<u8>) -> Option<
    ZwlrLayerSurfaceV1Event,
> {
    let layer_surface = ZwlrLayerSurfaceV1(sender);
    if opcode == 0 {
        let (serial, o1) = read_uint(body, 0);
        let (width, o2) = read_uint(body, o1);
        let (height, _) = read_uint(body, o2);
        match (serial, width, height) {
            (Some(serial), Some(width), Some(height)) => Some(
                ZwlrLayerSurfaceV1Event::Configure { layer_surface, serial, width, height },
            ),
            _ => None,
        }
    } else if opcode == 1 {
        Some(ZwlrLayerSurfaceV1Event::Closed { layer_surface })
    } else {
        None
    }
}

impl ZwlrLayerSurfaceV1Event {
    pub fn decode(sender: ObjectId, opcode: u16, body: &[u8]) -> (r: Option<Self>)
        ensures
            r == decode_layer_surface_event(sender, opcode, body@),
    {
        let layer_surface = ZwlrLayerSurfaceV1(sender);
        let mut r = Reader::new(body);
        if opcode == 0 {
            let serial = r.uint()?;
            let width = r.uint()?;
            let height = r.uint()?;
            Some(ZwlrLayerSurfaceV1Event::Configure { layer_surface, serial, width, height })
        } else if opcode == 1 {
            Some(ZwlrLayerSurfaceV1Event::Closed { layer_surface })
        } else {
            None
        }
    }
}

/// A layer surface's `configure` decodes as the compositor wrote it: the
/// serial, then the width, then the height; a `closed` is the closing.
pub proof fn law_layer_events_decode_as_written(
    sender: ObjectId,
    serial: u32,
    width: u32,
    height: u32,
    rest: Seq<u8>,
)
    ensures
        decode_layer_surface_event(sender, 0, word_bytes(serial) + word_bytes(width) + word_bytes(height) + rest)
            == Some(
            ZwlrLayerSurfaceV1Event::Configure {
                layer_surface: ZwlrLayerSurfaceV1(sender),
                serial,
                width,
                height,
            },
        ),
        decode_layer_surface_event(sender, 1, rest) == Some(
            ZwlrLayerSurfaceV1Event::Closed { layer_surface: ZwlrLayerSurfaceV1(sender) },
        ),
{
    crate::wayland::wire::lemma_auto_words();
    let e = Seq::<u8>::empty();
    let body = word_bytes(serial) + word_bytes(width) + word_bytes(height) + rest;
    lemma_read_uint_of_word(serial, e, word_bytes(width) + word_bytes(height) + rest);
    assert(body =~= e + word_bytes(serial) + (word_bytes(width) + word_bytes(height) + rest));
    lemma_read_uint_of_word(width, word_bytes(serial), word_bytes(height) + rest);
    assert(body =~= word_bytes(serial) + word_bytes(width) + (word_bytes(height) + rest));
    lemma_read_uint_of_word(height, word_bytes(serial) + word_bytes(width), rest);
    assert(read_uint(body, 0) == (Some(serial), 4int));
    assert(read_uint(body, 4) == (Some(width), 8int));
    assert(read_uint(body, 8) == (Some(height), 12int));
}

} // verus!
