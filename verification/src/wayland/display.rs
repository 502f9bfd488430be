//! `wl_display`, `wl_registry` and `wl_callback` by hand: the three
//! interfaces whose logic the connection itself owns.
use vstd::prelude::*;

use crate::wayland::connection::Wayland;
use crate::wayland::wire::{
    lemma_read_string_of_string, lemma_read_uint_of_word, message, read_string, read_uint,
    string_bytes, word_bytes, Reader, Writer,
};
use vstd::utf8::encode_utf8;
use crate::wayland::{Info, Interface, ObjectId};

verus! {

/// The `wl_display` singleton.
#[derive(Debug, Clone, Copy, PartialEq, Eq, Hash, Structural)]
pub struct WlDisplay(pub ObjectId);

/// The global registry.
#[derive(Debug, Clone, Copy, PartialEq, Eq, Hash, Structural)]
pub struct WlRegistry(pub ObjectId);

/// A one-shot callback.
#[derive(Debug, Clone, Copy, PartialEq, Eq, Hash, Structural)]
pub struct WlCallback(pub ObjectId);

impl Interface for WlDisplay {
    const NAME: &'static str = "wl_display";
    const VERSION: u32 = 1;

    open spec fn spec_info() -> Info {
        Info { name: "wl_display", version: 1 }
    }

    fn info() -> (r: Info) {
        Info { name: "wl_display", version: 1 }
    }

    open spec fn spec_id(self) -> ObjectId {
        self.0
    }

    fn id(self) -> (r: ObjectId) {
        self.0
    }

    fn from_id(id: ObjectId) -> (r: Self) {
        WlDisplay(id)
    }
}

impl Interface for WlRegistry {
    const NAME: &'static str = "wl_registry";
    const VERSION: u32 = 1;

    open spec fn spec_info() -> Info {
        Info { name: "wl_registry", version: 1 }
    }

    fn info() -> (r: Info) {
        Info { name: "wl_registry", version: 1 }
    }

    open spec fn spec_id(self) -> ObjectId {
        self.0
    }

    fn id(self) -> (r: ObjectId) {
        self.0
    }

    fn from_id(id: ObjectId) -> (r: Self) {
        WlRegistry(id)
    }
}

impl Interface for WlCallback {
    const NAME: &'static str = "wl_callback";
    const VERSION: u32 = 1;

    open spec fn spec_info() -> Info {
        Info { name: "wl_callback", version: 1 }
    }

    fn info() -> (r: Info) {
        Info { name: "wl_callback", version: 1 }
    }

    open spec fn spec_id(self) -> ObjectId {
        self.0
    }

    fn id(self) -> (r: ObjectId) {
        self.0
    }

    fn from_id(id: ObjectId) -> (r: Self) {
        WlCallback(id)
    }
}


// ---------------------------------------------------------------------------
// Requests
// ---------------------------------------------------------------------------

impl WlDisplay {
    /// `wl_display.sync`: a new callback, done once the server has
    /// handled every request before it.
    pub fn sync(self, wl: &mut Wayland) -> (cb: WlCallback)
        requires
            old(wl).wf(),
        ensures
            cb == WlCallback(ObjectId(old(wl).next_id())),
            final(wl).allocated_from_then_sent(
                *old(wl),
                WlCallback::spec_info(),
                1,
                message(self.0.0, 0, word_bytes(cb.0.0)),
            ),
    {
        let callback: WlCallback = wl.allocate(1);
        let ghost allocated = *wl;
        let mut w = Writer::begin(Vec::new(), self.0, 0);
        w.new_id(callback.0);
        wl.request(w);
        callback
    }

    /// `wl_display.get_registry`: a new registry, which advertises every
    /// global.
    pub fn get_registry(self, wl: &mut Wayland) -> (registry: WlRegistry)
        requires
            old(wl).wf(),
        ensures
            registry == WlRegistry(ObjectId(old(wl).next_id())),
            final(wl).allocated_from_then_sent(
                *old(wl),
                WlRegistry::spec_info(),
                1,
                message(self.0.0, 1, word_bytes(registry.0.0)),
            ),
    {
        let registry: WlRegistry = wl.allocate(1);
        let mut w = Writer::begin(Vec::new(), self.0, 1);
        w.new_id(registry.0);
        wl.request(w);
        registry
    }
}

impl WlRegistry {
    /// `wl_registry.bind`: global `name` as `I` at `version`, which must
    /// not exceed the advertised one; `Globals::bind` clamps.
    pub fn bind<I: Interface>(self, wl: &mut Wayland, name: u32, version: u32) -> (object: I)
        requires
            old(wl).wf(),
        ensures
            object.spec_id() == ObjectId(old(wl).next_id()),
            final(wl).allocated_from_then_sent(
                *old(wl),
                I::spec_info(),
                version,
                message(
                    self.0.0,
                    0,
                    word_bytes(name) + string_bytes(I::NAME@) + word_bytes(version) + word_bytes(
                        old(wl).next_id(),
                    ),
                ),
            ),
    {
        let object: I = wl.allocate(version);
        let mut w = Writer::begin(Vec::new(), self.0, 0);
        w.uint(name);
        w.string(I::NAME);
        w.uint(version);
        w.new_id(object.id());
        wl.request(w);
        object
    }
}

// ---------------------------------------------------------------------------
// Events
// ---------------------------------------------------------------------------

#[derive(Debug)]
pub enum WlDisplayEvent {
    /// A protocol error: fatal.
    Error { display: WlDisplay, object_id: ObjectId, code: u32, message: String },
    /// The server released a client id after its destructor.
    DeleteId { display: WlDisplay, id: u32 },
}

/// A `wl_display` event with its text as characters.
pub enum DisplayEventView {
    Error { display: WlDisplay, object_id: ObjectId, code: u32, message: Seq<char> },
    DeleteId { display: WlDisplay, id: u32 },
}

impl View for WlDisplayEvent {
    type V = DisplayEventView;

    open spec fn view(&self) -> DisplayEventView {
        match self {
            WlDisplayEvent::Error { display, object_id, code, message } => DisplayEventView::Error {
                display: *display,
                object_id: *object_id,
                code: *code,
                message: message@,
            },
            WlDisplayEvent::DeleteId { display, id } => DisplayEventView::DeleteId {
                display: *display,
                id: *id,
            },
        }
    }
}

/// A `wl_display` event decoded from its body: `error` is an object, a
/// code and a message; `delete_id` an id. `None` for another opcode or a
/// body that does not hold the arguments.
pub open spec fn decode_display_event(sender: ObjectId, opcode: u16, body: Seq<u8>) -> Option<
    DisplayEventView,
> {
    let display = WlDisplay(sender);
    if opcode == 0 {
        let (object_id, o1) = read_uint(body, 0);
        let (code, o2) = read_uint(body, o1);
        let (message, _) = read_string(body, o2);
        match (object_id, code, message) {
            (Some(object_id), Some(code), Some(message)) => Some(
                DisplayEventView::Error { display, object_id: ObjectId(object_id), code, message },
            ),
            _ => None,
        }
    } else if opcode == 1 {
        match read_uint(body, 0).0 {
            Some(id) => Some(DisplayEventView::DeleteId { display, id }),
            None => None,
        }
    } else {
        None
    }
}

impl WlDisplayEvent {
    pub fn decode(sender: ObjectId, opcode: u16, body: &[u8]) -> (r: Option<Self>)
        ensures
            match r {
                Some(e) => decode_display_event(sender, opcode, body@) == Some(e@),
                None => decode_display_event(sender, opcode, body@) is None,
            },
    {
        let display = WlDisplay(sender);
        let mut r = Reader::new(body);
        if opcode == 0 {
            let object_id = r.object()?;
            let code = r.uint()?;
            let message = r.string()?;
            Some(WlDisplayEvent::Error { display, object_id, code, message })
        } else if opcode == 1 {
            let id = r.uint()?;
            Some(WlDisplayEvent::DeleteId { display, id })
        } else {
            None
        }
    }
}

#[derive(Debug)]
pub enum WlRegistryEvent {
    Global { registry: WlRegistry, name: u32, interface: String, version: u32 },
    GlobalRemove { registry: WlRegistry, name: u32 },
}

/// A `wl_registry` event with its text as characters.
pub enum RegistryEventView {
    Global { registry: WlRegistry, name: u32, interface: Seq<char>, version: u32 },
    GlobalRemove { registry: WlRegistry, name: u32 },
}

impl View for WlRegistryEvent {
    type V = RegistryEventView;

    open spec fn view(&self) -> RegistryEventView {
        match self {
            WlRegistryEvent::Global { registry, name, interface, version } => RegistryEventView::Global {
                registry: *registry,
                name: *name,
                interface: interface@,
                version: *version,
            },
            WlRegistryEvent::GlobalRemove { registry, name } => RegistryEventView::GlobalRemove {
                registry: *registry,
                name: *name,
            },
        }
    }
}

/// A `wl_registry` event decoded from its body: `global` is a name, an
/// interface and a version; `global_remove` a name.
pub open spec fn decode_registry_event(sender: ObjectId, opcode: u16, body: Seq<u8>) -> Option<
    RegistryEventView,
> {
    let registry = WlRegistry(sender);
    if opcode == 0 {
        let (name, o1) = read_uint(body, 0);
        let (interface, o2) = read_string(body, o1);
        let (version, _) = read_uint(body, o2);
        match (name, interface, version) {
            (Some(name), Some(interface), Some(version)) => Some(
                RegistryEventView::Global { registry, name, interface, version },
            ),
            _ => None,
        }
    } else if opcode == 1 {
        match read_uint(body, 0).0 {
            Some(name) => Some(RegistryEventView::GlobalRemove { registry, name }),
            None => None,
        }
    } else {
        None
    }
}

impl WlRegistryEvent {
    pub fn decode(sender: ObjectId, opcode: u16, body: &[u8]) -> (r: Option<Self>)
        ensures
            match r {
                Some(e) => decode_registry_event(sender, opcode, body@) == Some(e@),
                None => decode_registry_event(sender, opcode, body@) is None,
            },
    {
        let registry = WlRegistry(sender);
        let mut r = Reader::new(body);
        if opcode == 0 {
            let name = r.uint()?;
            let interface = r.string()?;
            let version = r.uint()?;
            Some(WlRegistryEvent::Global { registry, name, interface, version })
        } else if opcode == 1 {
            let name = r.uint()?;
            Some(WlRegistryEvent::GlobalRemove { registry, name })
        } else {
            None
        }
    }
}

#[derive(Debug, PartialEq, Eq, Structural)]
pub enum WlCallbackEvent {
    Done { callback: WlCallback, callback_data: u32 },
}

/// A `wl_callback` event decoded from its body: `done` carries one word.
pub open spec fn decode_callback_event(sender: ObjectId, opcode: u16, body: Seq<u8>) -> Option<
    WlCallbackEvent,
> {
    if opcode == 0 {
        match read_uint(body, 0).0 {
            Some(callback_data) => Some(
                WlCallbackEvent::Done { callback: WlCallback(sender), callback_data },
            ),
            None => None,
        }
    } else {
        None
    }
}

impl WlCallbackEvent {
    pub fn decode(sender: ObjectId, opcode: u16, body: &[u8]) -> (r: Option<Self>)
        ensures
            r == decode_callback_event(sender, opcode, body@),
    {
        let callback = WlCallback(sender);
        let mut r = Reader::new(body);
        if opcode == 0 {
            let callback_data = r.uint()?;
            Some(WlCallbackEvent::Done { callback, callback_data })
        } else {
            None
        }
    }
}

/// A registry event decodes as the compositor wrote it: a `global` with
/// name `n`, interface `s` and version `v`, in that order, is that global,
/// and a `global_remove` of `n` removes the global named `n`, whatever
/// follows in the body.
pub proof fn law_registry_events_decode_as_written(
    sender: ObjectId,
    n: u32,
    s: Seq<char>,
    v: u32,
    rest: Seq<u8>,
)
    requires
        encode_utf8(s).len() + 1 < 0x1_0000_0000,
    ensures
        decode_registry_event(sender, 0, word_bytes(n) + string_bytes(s) + word_bytes(v) + rest)
            == Some(
            RegistryEventView::Global { registry: WlRegistry(sender), name: n, interface: s, version: v },
        ),
        decode_registry_event(sender, 1, word_bytes(n) + rest) == Some(
            RegistryEventView::GlobalRemove { registry: WlRegistry(sender), name: n },
        ),
{
    crate::wayland::wire::lemma_auto_words();
    let e = Seq::<u8>::empty();
    let body = word_bytes(n) + string_bytes(s) + word_bytes(v) + rest;
    lemma_read_uint_of_word(n, e, string_bytes(s) + word_bytes(v) + rest);
    assert(body =~= e + word_bytes(n) + (string_bytes(s) + word_bytes(v) + rest));
    lemma_read_string_of_string(s, word_bytes(n), word_bytes(v) + rest);
    assert(body =~= word_bytes(n) + string_bytes(s) + (word_bytes(v) + rest));
    lemma_read_uint_of_word(v, word_bytes(n) + string_bytes(s), rest);
    assert(read_uint(body, 0) == (Some(n), 4int));
    assert(read_string(body, 4) == (Some(s), 4 + string_bytes(s).len() as int));
    assert(read_uint(body, 4 + string_bytes(s).len() as int) == (Some(v), 8 + string_bytes(s).len() as int));
    lemma_read_uint_of_word(n, e, rest);
    assert(word_bytes(n) + rest =~= e + word_bytes(n) + rest);
}

/// A display event decodes as the compositor wrote it: an `error` names
/// the object, then the code, then the message; a `delete_id` names the
/// id; whatever follows in the body.
pub proof fn law_display_events_decode_as_written(
    sender: ObjectId,
    object_id: u32,
    code: u32,
    text: Seq<char>,
    rest: Seq<u8>,
)
    requires
        encode_utf8(text).len() + 1 < 0x1_0000_0000,
    ensures
        decode_display_event(sender, 0, word_bytes(object_id) + word_bytes(code) + string_bytes(text) + rest)
            == Some(
            DisplayEventView::Error {
                display: WlDisplay(sender),
                object_id: ObjectId(object_id),
                code,
                message: text,
            },
        ),
        decode_display_event(sender, 1, word_bytes(object_id) + rest) == Some(
            DisplayEventView::DeleteId { display: WlDisplay(sender), id: object_id },
        ),
{
    crate::wayland::wire::lemma_auto_words();
    let e = Seq::<u8>::empty();
    let body = word_bytes(object_id) + word_bytes(code) + string_bytes(text) + rest;
    lemma_read_uint_of_word(object_id, e, word_bytes(code) + string_bytes(text) + rest);
    assert(body =~= e + word_bytes(object_id) + (word_bytes(code) + string_bytes(text) + rest));
    lemma_read_uint_of_word(code, word_bytes(object_id), string_bytes(text) + rest);
    assert(body =~= word_bytes(object_id) + word_bytes(code) + (string_bytes(text) + rest));
    lemma_read_string_of_string(text, word_bytes(object_id) + word_bytes(code), rest);
    assert(read_uint(body, 0) == (Some(object_id), 4int));
    assert(read_uint(body, 4) == (Some(code), 8int));
    assert(read_string(body, 8).0 == Some(text));
    lemma_read_uint_of_word(object_id, e, rest);
    assert(word_bytes(object_id) + rest =~= e + word_bytes(object_id) + rest);
}

/// A `wl_callback.done` decodes with the data it carries.
pub proof fn law_callback_done_decodes_as_written(sender: ObjectId, data: u32, rest: Seq<u8>)
    ensures
        decode_callback_event(sender, 0, word_bytes(data) + rest) == Some(
            WlCallbackEvent::Done { callback: WlCallback(sender), callback_data: data },
        ),
{
    lemma_read_uint_of_word(data, Seq::empty(), rest);
    assert(word_bytes(data) + rest =~= Seq::<u8>::empty() + word_bytes(data) + rest);
}

} // verus!
