//! The connection's state: the object table, the request buffer, the
//! ops in flight on the socket and the bytes received but not yet
//! decoded. The socket, its fds and the ring belong to the program around
//! this library, which hands this state what they produce.
use vstd::prelude::*;
use std::collections::HashMap;

use crate::ring::Token;
use crate::wayland::display::{DisplayEventView, WlCallback, WlCallbackEvent, WlDisplay, WlDisplayEvent, WlRegistry};
use crate::wayland::wire::{frames_view, framed, message, split_messages, walk_messages, word_bytes, Header, Writer};
use crate::wayland::{Info, Interface, ObjectId, DISPLAY, SERVER_ID_BASE};

verus! {

broadcast use vstd::std_specs::hash::group_hash_axioms;

#[derive(Clone, Copy)]
struct Object {
    info: Info,
    version: u32,
}

/// The connection: the request buffer and the object table.
pub struct Wayland {
    out: Vec<u8>,
    objects: Vec<Option<Object>>,
    server: HashMap<u32, Object>,
    free: Vec<u32>,
    sending: Option<Token>,
    reading: Option<Token>,
    inbox: Vec<u8>,
    /// The install sync has been answered.
    synced: bool,
    /// The install sync's callback, while it is outstanding.
    sync: Option<WlCallback>,
}

spec fn object_view(o: Option<Object>) -> Option<(Info, u32)> {
    match o {
        Some(o) => Some((o.info, o.version)),
        None => None,
    }
}

/// The object table as a value: the client slots by id, the server's
/// objects by id, and the freed client ids, the last freed last.
pub struct Table {
    pub slots: Seq<Option<(Info, u32)>>,
    pub server: Map<u32, (Info, u32)>,
    pub free: Seq<u32>,
}

impl Table {
    /// What the table knows of `id`: server ids in their own table,
    /// client ids by slot.
    pub open spec fn lookup(self, id: u32) -> Option<(Info, u32)> {
        if id >= SERVER_ID_BASE {
            if self.server.contains_key(id) {
                Some(self.server[id])
            } else {
                None
            }
        } else if id < self.slots.len() {
            self.slots[id as int]
        } else {
            None
        }
    }

    /// The id the next allocation takes: the last freed, else the next
    /// slot.
    pub open spec fn next_id(self) -> u32 {
        if self.free.len() > 0 {
            self.free.last()
        } else {
            self.slots.len() as u32
        }
    }

    /// One object of `info` at `version` allocated at `next_id`.
    pub open spec fn allocate(self, info: Info, version: u32) -> Table {
        let reused = self.free.len() > 0;
        Table {
            slots: (if reused {
                self.slots
            } else {
                self.slots.push(None)
            }).update(self.next_id() as int, Some((info, version))),
            server: self.server,
            free: if reused {
                self.free.drop_last()
            } else {
                self.free
            },
        }
    }

    /// `id` recorded as an object of `info` at `version`; a client id past
    /// the slots grows them with empty ones.
    pub open spec fn register(self, id: u32, info: Info, version: u32) -> Table {
        if id >= SERVER_ID_BASE {
            Table { server: self.server.insert(id, (info, version)), ..self }
        } else {
            let grown = if self.slots.len() <= id {
                self.slots + Seq::new((id + 1 - self.slots.len()) as nat, |i: int| None)
            } else {
                self.slots
            };
            Table { slots: grown.update(id as int, Some((info, version))), ..self }
        }
    }

    /// `id` forgotten; a client id that named an object is freed.
    pub open spec fn free(self, id: u32) -> Table {
        if id >= SERVER_ID_BASE {
            Table { server: self.server.remove(id), ..self }
        } else if id < self.slots.len() && self.slots[id as int] is Some {
            Table { slots: self.slots.update(id as int, None), free: self.free.push(id), ..self }
        } else {
            self
        }
    }
}

impl Wayland {
    /// The client slots, by id: what each holds, if anything.
    pub closed spec fn slots(self) -> Seq<Option<(Info, u32)>> {
        self.objects@.map_values(|o: Option<Object>| object_view(o))
    }

    /// The objects the server created, by id.
    pub closed spec fn server_objects(self) -> Map<u32, (Info, u32)> {
        Map::new(
            |k: u32| self.server@.contains_key(k),
            |k: u32| (self.server@[k].info, self.server@[k].version),
        )
    }

    /// Freed client ids, the last freed last.
    pub closed spec fn free_ids(self) -> Seq<u32> {
        self.free@
    }

    /// The object table.
    pub open spec fn table(self) -> Table {
        Table { slots: self.slots(), server: self.server_objects(), free: self.free_ids() }
    }

    /// The requests buffered and not yet handed to a send.
    pub closed spec fn out(self) -> Seq<u8> {
        self.out@
    }

    /// The send in flight.
    pub closed spec fn sending(self) -> Option<Token> {
        self.sending
    }

    /// The receive in flight.
    pub closed spec fn reading(self) -> Option<Token> {
        self.reading
    }

    /// Bytes received and not yet decoded: the start of a message whose
    /// end has not arrived.
    pub closed spec fn inbox(self) -> Seq<u8> {
        self.inbox@
    }

    /// The install sync has been answered.
    pub closed spec fn is_synced(self) -> bool {
        self.synced
    }

    /// The install sync's callback, while it is outstanding.
    pub closed spec fn sync_callback(self) -> Option<WlCallback> {
        self.sync
    }

    /// Every freed id names a client slot.
    pub closed spec fn wf(self) -> bool {
        forall|i: int| 0 <= i < self.free@.len() ==> (#[trigger] self.free@[i]) < self.objects@.len()
    }

    /// The id the next allocation takes.
    pub open spec fn next_id(self) -> u32 {
        self.table().next_id()
    }

    /// `self` is `before` with one object of `info` at `version` allocated
    /// at `before.next_id()`, and nothing else changed.
    pub open spec fn allocated_from(self, before: Wayland, info: Info, version: u32) -> bool {
        &&& self.wf()
        &&& self.table() == before.table().allocate(info, version)
        &&& self.same_io(before)
    }

    /// `self` is `before` with one object allocated as in
    /// [`Wayland::allocated_from`], and then `request` appended to the
    /// buffer.
    pub open spec fn allocated_from_then_sent(
        self,
        before: Wayland,
        info: Info,
        version: u32,
        request: Seq<u8>,
    ) -> bool {
        &&& self.wf()
        &&& self.table() == before.table().allocate(info, version)
        &&& self.out() == before.out() + request
        &&& self.inbox() == before.inbox()
        &&& self.sending() == before.sending()
        &&& self.reading() == before.reading()
        &&& self.is_synced() == before.is_synced()
        &&& self.sync_callback() == before.sync_callback()
    }

    /// `self` is `before` with `request` appended to the buffer, and
    /// nothing else changed.
    pub open spec fn sent_from(self, before: Wayland, request: Seq<u8>) -> bool {
        &&& self.wf()
        &&& self.same_table(before)
        &&& self.out() == before.out() + request
        &&& self.inbox() == before.inbox()
        &&& self.sending() == before.sending()
        &&& self.reading() == before.reading()
        &&& self.is_synced() == before.is_synced()
        &&& self.sync_callback() == before.sync_callback()
    }

    /// What the table knows of `id`.
    pub open spec fn lookup(self, id: u32) -> Option<(Info, u32)> {
        self.table().lookup(id)
    }

    /// A fresh connection: slot 0 empty, slot 1 the display, nothing
    /// buffered, nothing in flight.
    pub fn new() -> (wl: Wayland)
        ensures
            wl.wf(),
            wl.slots() == seq![None, Some((WlDisplay::spec_info(), 1u32))],
            wl.server_objects() == Map::<u32, (Info, u32)>::empty(),
            wl.free_ids() == Seq::<u32>::empty(),
            wl.out() == Seq::<u8>::empty(),
            wl.inbox() == Seq::<u8>::empty(),
            wl.sending() is None,
            wl.reading() is None,
            !wl.is_synced(),
            wl.sync_callback() is None,
    {
        let mut objects: Vec<Option<Object>> = Vec::new();
        objects.push(None);
        objects.push(Some(Object { info: WlDisplay::info(), version: 1 }));
        let wl = Wayland {
            out: Vec::new(),
            objects,
            server: HashMap::new(),
            free: Vec::new(),
            sending: None,
            reading: None,
            inbox: Vec::new(),
            synced: false,
            sync: None,
        };
        assert(wl.slots() =~= seq![None, Some((WlDisplay::spec_info(), 1u32))]);
        assert(wl.server_objects() =~= Map::<u32, (Info, u32)>::empty());
        wl
    }

    pub fn display(&self) -> (d: WlDisplay)
        ensures
            d == WlDisplay(ObjectId(DISPLAY)),
    {
        WlDisplay(ObjectId(DISPLAY))
    }

    /// A new client object of `I` at `version`: a freed id if any, the
    /// last freed first, else the next.
    pub fn allocate<I: Interface>(&mut self, version: u32) -> (r: I)
        requires
            old(self).wf(),
        ensures
            r.spec_id() == ObjectId(old(self).next_id()),
            final(self).allocated_from(*old(self), I::spec_info(), version),
    {
        let id = match self.free.pop() {
            Some(id) => id,
            None => {
                self.objects.push(None);
                (self.objects.len() - 1) as u32
            },
        };
        proof {
            if old(self).free@.len() > 0 {
                assert(old(self).free@[old(self).free@.len() - 1] < old(self).objects@.len());
            }
        }
        self.objects.set(id as usize, Some(Object { info: I::info(), version }));
        proof {
            assert(self.free@ =~= if old(self).free@.len() > 0 {
                old(self).free@.drop_last()
            } else {
                old(self).free@
            });
            assert forall|i: int| 0 <= i < self.free@.len() implies (#[trigger] self.free@[i])
                < self.objects@.len() by {
                assert(self.free@[i] == old(self).free@[i]);
            }
            let reused = old(self).free@.len() > 0;
            let grown = if reused {
                old(self).slots()
            } else {
                old(self).slots().push(None)
            };
            assert(self.slots() =~= grown.update(old(self).next_id() as int, Some((I::spec_info(), version))));
        }
        I::from_id(ObjectId(id))
    }

    /// Everything but the object table is as in `other`.
    pub open spec fn same_io(self, other: Wayland) -> bool {
        &&& self.out() == other.out()
        &&& self.inbox() == other.inbox()
        &&& self.sending() == other.sending()
        &&& self.reading() == other.reading()
        &&& self.is_synced() == other.is_synced()
        &&& self.sync_callback() == other.sync_callback()
    }

    /// The object table is as in `other`.
    pub open spec fn same_table(self, other: Wayland) -> bool {
        &&& self.slots() == other.slots()
        &&& self.server_objects() == other.server_objects()
        &&& self.free_ids() == other.free_ids()
    }

    /// Record an object the server created (an event's `new_id`), or any
    /// id the caller wants known. A client id past the table grows it with
    /// empty slots.
    pub fn register(&mut self, id: ObjectId, info: Info, version: u32)
        requires
            old(self).wf(),
        ensures
            final(self).wf(),
            final(self).same_io(*old(self)),
            final(self).table() == old(self).table().register(id.0, info, version),
    {
        let object = Object { info, version };
        if id.0 >= SERVER_ID_BASE {
            self.server.insert(id.0, object);
            assert(self.server_objects() =~= old(self).server_objects().insert(id.0, (info, version)));
        } else {
            let i = id.0 as usize;
            while self.objects.len() <= i
                invariant
                    self.free@ == old(self).free@,
                    self.server@ == old(self).server@,
                    self.out@ == old(self).out@,
                    self.inbox@ == old(self).inbox@,
                    self.sending == old(self).sending,
                    self.reading == old(self).reading,
                    self.synced == old(self).synced,
                    self.sync == old(self).sync,
                    i == id.0,
                    old(self).objects@.len() <= self.objects@.len(),
                    self.objects@.len() <= i + 1 || self.objects@.len() == old(self).objects@.len(),
                    forall|j: int|
                        0 <= j < self.objects@.len() ==> #[trigger] self.objects@[j] == if j
                            < old(self).objects@.len() {
                            old(self).objects@[j]
                        } else {
                            None
                        },
                decreases i + 1 - self.objects@.len(),
            {
                self.objects.push(None);
            }
            self.objects.set(i, Some(object));
            proof {
                let t = old(self).table();
                let grown = if t.slots.len() <= id.0 {
                    t.slots + Seq::new((id.0 + 1 - t.slots.len()) as nat, |k: int| None)
                } else {
                    t.slots
                };
                assert(self.slots() =~= grown.update(id.0 as int, Some((info, version))));
                assert forall|k: int| 0 <= k < self.free@.len() implies (#[trigger] self.free@[k])
                    < self.objects@.len() by {
                    assert(self.free@[k] == old(self).free@[k]);
                }
            }
        }
    }

    pub fn info(&self, id: ObjectId) -> (r: Option<(Info, u32)>)
        ensures
            r == self.lookup(id.0),
    {
        if id.0 >= SERVER_ID_BASE {
            match self.server.get(&id.0) {
                Some(o) => Some((o.info, o.version)),
                None => None,
            }
        } else if (id.0 as usize) < self.objects.len() {
            match self.objects[id.0 as usize] {
                Some(o) => Some((o.info, o.version)),
                None => None,
            }
        } else {
            None
        }
    }

    /// The version an object was created with. The object must be known:
    /// a request on a destroyed object is a caller's error.
    pub fn version<I: Interface>(&self, object: I) -> (r: u32)
        requires
            self.lookup(object.spec_id().0) is Some,
        ensures
            r == self.lookup(object.spec_id().0).unwrap().1,
    {
        match self.info(object.id()) {
            Some((_, v)) => v,
            None => 0,
        }
    }

    /// Forget an id; a client id that named an object goes back to the
    /// free list.
    pub fn free(&mut self, id: ObjectId)
        requires
            old(self).wf(),
        ensures
            final(self).wf(),
            final(self).same_io(*old(self)),
            final(self).table() == old(self).table().free(id.0),
    {
        if id.0 >= SERVER_ID_BASE {
            self.server.remove(&id.0);
            assert(self.server_objects() =~= old(self).server_objects().remove(id.0));
        } else if (id.0 as usize) < self.objects.len() && self.objects[id.0 as usize].is_some() {
            self.objects.set(id.0 as usize, None);
            self.free.push(id.0);
            proof {
                assert(self.slots() =~= old(self).slots().update(id.0 as int, None));
                assert forall|k: int| 0 <= k < self.free@.len() implies (#[trigger] self.free@[k])
                    < self.objects@.len() by {
                    if k < old(self).free@.len() {
                        assert(self.free@[k] == old(self).free@[k]);
                    }
                }
            }
        }
    }

    /// Append one request, written with a [`Writer`] begun on an empty
    /// buffer.
    pub fn request(&mut self, w: Writer)
        ensures
            final(self).out() == old(self).out() + w.prefix() + message(
                w.sender(),
                w.opcode(),
                w.body(),
            ),
            final(self).same_table(*old(self)),
            final(self).inbox() == old(self).inbox(),
            final(self).sending() == old(self).sending(),
            final(self).reading() == old(self).reading(),
            final(self).is_synced() == old(self).is_synced(),
            final(self).sync_callback() == old(self).sync_callback(),
            old(self).wf() ==> final(self).wf(),
    {
        let mut bytes = w.finish();
        self.out.append(&mut bytes);
        assert(self.out@ =~= old(self).out() + (w.prefix() + message(w.sender(), w.opcode(), w.body())));
    }

    /// Whether requests are buffered and not yet sent.
    pub fn has_pending(&self) -> (r: bool)
        ensures
            r == (self.out().len() > 0 || self.sending() is Some),
    {
        self.out.len() > 0 || self.sending.is_some()
    }

    /// What to send, if anything is buffered and nothing is in flight: the
    /// whole buffer, which is left empty. The caller submits it and names
    /// the op with [`Wayland::sending_as`].
    pub fn flush(&mut self) -> (r: Option<Vec<u8>>)
        ensures
            final(self).same_table(*old(self)),
            final(self).inbox() == old(self).inbox(),
            final(self).sending() == old(self).sending(),
            final(self).reading() == old(self).reading(),
            final(self).is_synced() == old(self).is_synced(),
            final(self).sync_callback() == old(self).sync_callback(),
            old(self).wf() ==> final(self).wf(),
            if old(self).out().len() == 0 || old(self).sending() is Some {
                &&& r is None
                &&& final(self).out() == old(self).out()
            } else {
                &&& r matches Some(buf) && buf@ == old(self).out()
                &&& final(self).out() == Seq::<u8>::empty()
            },
    {
        if self.out.len() == 0 || self.sending.is_some() {
            return None;
        }
        let mut buf: Vec<u8> = Vec::new();
        std::mem::swap(&mut buf, &mut self.out);
        Some(buf)
    }

    /// How many bytes are buffered and not yet sent.
    pub fn pending_len(&self) -> (n: usize)
        ensures
            n == self.out().len(),
    {
        self.out.len()
    }

    /// What to send, if anything is buffered, nothing is in flight and
    /// `len` is not zero: the first `len` bytes buffered, or all of them
    /// if fewer; the rest stays buffered for a later send.
    pub fn flush_bytes(&mut self, len: usize) -> (r: Option<Vec<u8>>)
        ensures
            final(self).same_table(*old(self)),
            final(self).inbox() == old(self).inbox(),
            final(self).sending() == old(self).sending(),
            final(self).reading() == old(self).reading(),
            final(self).is_synced() == old(self).is_synced(),
            final(self).sync_callback() == old(self).sync_callback(),
            old(self).wf() ==> final(self).wf(),
            if old(self).out().len() == 0 || old(self).sending() is Some || len == 0 {
                &&& r is None
                &&& final(self).out() == old(self).out()
            } else {
                let n = if len < old(self).out().len() { len as int } else { old(self).out().len() as int };
                &&& r matches Some(buf) && buf@ == old(self).out().take(n)
                &&& final(self).out() == old(self).out().skip(n)
            },
    {
        if self.out.len() == 0 || self.sending.is_some() || len == 0 {
            return None;
        }
        let n = if len < self.out.len() { len } else { self.out.len() };
        let head = crate::wayland::wire::copy_bytes(vstd::slice::slice_subrange(self.out.as_slice(), 0, n));
        let tail = crate::wayland::wire::copy_bytes(vstd::slice::slice_subrange(self.out.as_slice(), n, self.out.len()));
        self.out = tail;
        assert(head@ =~= old(self).out().take(n as int));
        assert(self.out@ =~= old(self).out().skip(n as int));
        Some(head)
    }

    /// The send of what [`Wayland::flush`] gave is in flight as `token`.
    pub fn sending_as(&mut self, token: Token)
        ensures
            final(self).sending() == Some(token),
            final(self).same_table(*old(self)),
            final(self).out() == old(self).out(),
            final(self).inbox() == old(self).inbox(),
            final(self).reading() == old(self).reading(),
            final(self).is_synced() == old(self).is_synced(),
            final(self).sync_callback() == old(self).sync_callback(),
            old(self).wf() ==> final(self).wf(),
    {
        self.sending = Some(token);
    }

    /// The one receive is armed as `token`. A read must not already be
    /// armed.
    pub fn reading_as(&mut self, token: Token)
        requires
            old(self).reading() is None,
        ensures
            final(self).reading() == Some(token),
            final(self).same_table(*old(self)),
            final(self).out() == old(self).out(),
            final(self).inbox() == old(self).inbox(),
            final(self).sending() == old(self).sending(),
            final(self).is_synced() == old(self).is_synced(),
            final(self).sync_callback() == old(self).sync_callback(),
            old(self).wf() ==> final(self).wf(),
    {
        self.reading = Some(token);
    }

    /// Which of this connection's ops a completion is for, if either.
    pub fn io_of(&self, token: Token) -> (r: Option<Io>)
        ensures
            r == if self.reading() == Some(token) {
                Some(Io::Read)
            } else if self.sending() == Some(token) {
                Some(Io::Send)
            } else {
                None
            },
    {
        if self.reading == Some(token) {
            Some(Io::Read)
        } else if self.sending == Some(token) {
            Some(Io::Send)
        } else {
            None
        }
    }

    /// The send finished having moved `sent` bytes of `buf`, the buffer it
    /// was given. What it did not take goes back in front of what was
    /// buffered since, so the requests stay whole and in order.
    pub fn sent(&mut self, buf: &[u8], sent: usize)
        ensures
            final(self).sending() is None,
            final(self).out() == if sent < buf@.len() {
                buf@.skip(sent as int) + old(self).out()
            } else {
                old(self).out()
            },
            final(self).same_table(*old(self)),
            final(self).inbox() == old(self).inbox(),
            final(self).reading() == old(self).reading(),
            final(self).is_synced() == old(self).is_synced(),
            final(self).sync_callback() == old(self).sync_callback(),
            old(self).wf() ==> final(self).wf(),
    {
        self.sending = None;
        if sent < buf.len() {
            let mut tail = crate::wayland::wire::copy_bytes(vstd::slice::slice_subrange(buf, sent, buf.len()));
            tail.append(&mut self.out);
            self.out = tail;
        }
    }

    /// The receive finished with `buf`: the read is no longer armed, and
    /// what was carried from before, then `buf`, is handed back to be
    /// decoded. The carry is left empty until [`Wayland::carry`].
    pub fn received(&mut self, buf: &[u8]) -> (bytes: Vec<u8>)
        ensures
            bytes@ == old(self).inbox() + buf@,
            final(self).inbox() == Seq::<u8>::empty(),
            final(self).reading() is None,
            final(self).same_table(*old(self)),
            final(self).out() == old(self).out(),
            final(self).sending() == old(self).sending(),
            final(self).is_synced() == old(self).is_synced(),
            final(self).sync_callback() == old(self).sync_callback(),
            old(self).wf() ==> final(self).wf(),
    {
        self.reading = None;
        let mut bytes: Vec<u8> = Vec::new();
        std::mem::swap(&mut bytes, &mut self.inbox);
        let mut more = crate::wayland::wire::copy_bytes(buf);
        bytes.append(&mut more);
        bytes
    }

    /// Keep what was not consumed of `bytes` for the next receive: the
    /// start of a message whose end has not arrived.
    pub fn carry(&mut self, bytes: &[u8], consumed: usize)
        requires
            consumed <= bytes@.len(),
        ensures
            final(self).inbox() == bytes@.skip(consumed as int),
            final(self).same_table(*old(self)),
            final(self).out() == old(self).out(),
            final(self).sending() == old(self).sending(),
            final(self).reading() == old(self).reading(),
            final(self).is_synced() == old(self).is_synced(),
            final(self).sync_callback() == old(self).sync_callback(),
            old(self).wf() ==> final(self).wf(),
    {
        self.inbox = crate::wayland::wire::copy_bytes(vstd::slice::slice_subrange(bytes, consumed, bytes.len()));
        assert(self.inbox@ =~= bytes@.skip(consumed as int));
    }
}

impl Wayland {
    /// Whether the install sync has been answered.
    pub fn synced(&self) -> (b: bool)
        ensures
            b == self.is_synced(),
    {
        self.synced
    }

    /// Whether the table knows the sender of a frame.
    pub open spec fn knows(self) -> spec_fn((Header, nat)) -> bool {
        |f: (Header, nat)| self.lookup(f.0.sender.0) is Some
    }

    /// The messages to hand on, of the whole messages at the start of
    /// `bytes`: those whose sender the table knows, in order, each header
    /// with the offset it starts at; and how many bytes the whole messages
    /// take, the ones skipped too. A message for an object the table does
    /// not know is skipped whole. Every header met must claim at least its
    /// own eight bytes: a shorter one is a broken connection.
    pub fn routed(&self, bytes: &[u8]) -> (r: (Vec<(Header, usize)>, usize))
        requires
            framed(bytes@),
        ensures
            walk_messages(bytes@, 0) matches Some((all, end)) && {
                &&& end == r.1
                &&& frames_view(r.0@) == all.filter(self.knows())
            },
    {
        let (all, consumed) = match split_messages(bytes) {
            Some(x) => x,
            None => {
                proof {
                    assert(false);
                }
                (Vec::new(), 0)
            },
        };
        let ghost v = frames_view(all@);
        let mut out: Vec<(Header, usize)> = Vec::new();
        let mut i: usize = 0;
        while i < all.len()
            invariant
                i <= all@.len(),
                v == frames_view(all@),
                frames_view(out@) == v.take(i as int).filter(self.knows()),
            decreases all@.len() - i,
        {
            let (h, at) = all[i];
            let ghost before = out@;
            proof {
                assert(v.take(i + 1).drop_last() =~= v.take(i as int));
                assert(v.take(i + 1).last() == (h, at as nat));
                reveal(Seq::filter);
            }
            if self.info(h.sender).is_some() {
                out.push((h, at));
                assert(frames_view(out@) =~= frames_view(before).push((h, at as nat)));
            }
            i = i + 1;
        }
        assert(v.take(all@.len() as int) =~= v);
        (out, consumed)
    }

    /// A `wl_display` event. `error` is fatal and the caller's to report;
    /// `delete_id` forgets the id, which a client id makes free again.
    pub fn on_display(&mut self, e: &WlDisplayEvent)
        requires
            old(self).wf(),
            e@ is DeleteId,
        ensures
            final(self).wf(),
            match e@ {
                DisplayEventView::DeleteId { id, .. } => {
                    &&& final(self).same_io(*old(self))
                    &&& final(self).table() == old(self).table().free(id)
                },
                _ => false,
            },
    {
        match e {
            WlDisplayEvent::DeleteId { id, .. } => self.free(ObjectId(*id)),
            WlDisplayEvent::Error { .. } => {},
        }
    }

    /// A `wl_callback.done`: the install sync, if it is that one, is
    /// answered.
    pub fn on_callback(&mut self, e: &WlCallbackEvent)
        ensures
            final(self).same_table(*old(self)),
            final(self).out() == old(self).out(),
            final(self).inbox() == old(self).inbox(),
            final(self).sending() == old(self).sending(),
            final(self).reading() == old(self).reading(),
            old(self).wf() ==> final(self).wf(),
            match *e {
                WlCallbackEvent::Done { callback, .. } => if old(self).sync_callback() == Some(
                    callback,
                ) {
                    &&& final(self).sync_callback() is None
                    &&& final(self).is_synced()
                } else {
                    &&& final(self).sync_callback() == old(self).sync_callback()
                    &&& final(self).is_synced() == old(self).is_synced()
                },
            },
    {
        let WlCallbackEvent::Done { callback, .. } = e;
        if self.sync == Some(*callback) {
            self.sync = None;
            self.synced = true;
        }
    }

    /// The requests install makes before it waits: the registry, then the
    /// sync it waits for.
    pub fn start(&mut self) -> (registry: WlRegistry)
        requires
            old(self).wf(),
        ensures
            final(self).wf(),
            registry == WlRegistry(ObjectId(old(self).next_id())),
            final(self).sync_callback() is Some,
            final(self).out() == old(self).out() + message(DISPLAY, 1, word_bytes(registry.0.0))
                + message(DISPLAY, 0, word_bytes(final(self).sync_callback().unwrap().0.0)),
            final(self).is_synced() == old(self).is_synced(),
            final(self).inbox() == old(self).inbox(),
            final(self).sending() == old(self).sending(),
            final(self).reading() == old(self).reading(),
    {
        let display = self.display();
        let registry = display.get_registry(self);
        let cb = display.sync(self);
        self.sync = Some(cb);
        registry
    }
}

/// Which op of the connection a completion is for.
#[derive(Debug, Clone, Copy, PartialEq, Eq, Structural)]
pub enum Io {
    Read,
    Send,
}

// ---------------------------------------------------------------------------
// The object table's laws
// ---------------------------------------------------------------------------

/// The bytes of buffered requests, each given as its length and how many
/// fds it carries.
pub open spec fn byte_total(pending: Seq<(usize, usize)>) -> nat
    decreases pending.len(),
{
    if pending.len() == 0 {
        0
    } else {
        byte_total(pending.drop_last()) + pending.last().0 as nat
    }
}

/// The fds of buffered requests.
pub open spec fn fd_total(pending: Seq<(usize, usize)>) -> nat
    decreases pending.len(),
{
    if pending.len() == 0 {
        0
    } else {
        fd_total(pending.drop_last()) + pending.last().1 as nat
    }
}

/// A front of the requests takes no more bytes than all of them.
proof fn lemma_byte_total_grows(pending: Seq<(usize, usize)>, i: int)
    requires
        0 <= i <= pending.len(),
    ensures
        byte_total(pending.take(i)) <= byte_total(pending),
    decreases pending.len(),
{
    if i < pending.len() {
        let front = pending.drop_last();
        assert(front.take(i) =~= pending.take(i));
        lemma_byte_total_grows(front, i);
    } else {
        assert(pending.take(i) =~= pending);
    }
}

/// One send: of the buffered requests, in order, each its length in bytes
/// and its fd count, the most from the front that carry no more than
/// `max_fds` fds together, so that every request goes whole, with its own
/// fds, and the rest waits for the next send. The count of requests, their
/// bytes and their fds.
pub fn batch(pending: &[(usize, usize)], max_fds: usize) -> (r: (usize, usize, usize))
    requires
        byte_total(pending@) <= usize::MAX,
    ensures
        r.0 <= pending@.len(),
        r.1 == byte_total(pending@.take(r.0 as int)),
        r.2 == fd_total(pending@.take(r.0 as int)),
        r.2 <= max_fds,
        r.0 < pending@.len() ==> fd_total(pending@.take(r.0 + 1)) > max_fds,
{
    let mut k: usize = 0;
    let mut bytes: usize = 0;
    let mut fds: usize = 0;
    while k < pending.len()
        invariant_except_break
            k <= pending@.len(),
            byte_total(pending@) <= usize::MAX,
            bytes == byte_total(pending@.take(k as int)),
            fds == fd_total(pending@.take(k as int)),
            fds <= max_fds,
        ensures
            k <= pending@.len(),
            bytes == byte_total(pending@.take(k as int)),
            fds == fd_total(pending@.take(k as int)),
            fds <= max_fds,
            k < pending@.len() ==> fd_total(pending@.take(k + 1)) > max_fds,
        decreases pending@.len() - k,
    {
        let (len, n) = pending[k];
        proof {
            assert(pending@.take(k + 1).drop_last() =~= pending@.take(k as int));
            assert(pending@.take(k + 1).last() == (len, n));
            lemma_byte_total_grows(pending@, k + 1);
        }
        if n > max_fds - fds {
            break;
        }
        bytes = bytes + len;
        fds = fds + n;
        k = k + 1;
    }
    (k, bytes, fds)
}

/// A fresh connection's first client objects are 2, then 3.
pub proof fn law_client_ids_start_at_two(t: Table, info: Info, version: u32)
    requires
        t.slots.len() == 2,
        t.free.len() == 0,
    ensures
        t.next_id() == 2,
        t.allocate(info, version).next_id() == 3,
{
}

/// A well-formed connection's freed ids each name a client slot.
pub proof fn lemma_free_ids_name_slots(wl: Wayland)
    requires
        wl.wf(),
    ensures
        forall|i: int| 0 <= i < wl.table().free.len() ==> (#[trigger] wl.table().free[i]) < wl.table().slots.len(),
{
}

/// An allocated object is known at its id, with its interface and
/// version, and every other id reads as before.
pub proof fn law_allocate_then_lookup(t: Table, info: Info, version: u32, other: u32)
    requires
        t.slots.len() < SERVER_ID_BASE,
        forall|i: int| 0 <= i < t.free.len() ==> (#[trigger] t.free[i]) < t.slots.len(),
    ensures
        t.allocate(info, version).lookup(t.next_id()) == Some((info, version)),
        other != t.next_id() ==> t.allocate(info, version).lookup(other) == t.lookup(other),
{
    if t.free.len() > 0 {
        assert(t.free[t.free.len() - 1] < t.slots.len());
    }
}

/// A freed client id is forgotten, and is the next one allocated: freed
/// ids come back first, the last freed first.
pub proof fn law_free_then_allocate(t: Table, id: u32)
    requires
        id < SERVER_ID_BASE,
        t.lookup(id) is Some,
    ensures
        t.free(id).lookup(id) is None,
        t.free(id).next_id() == id,
{
}

/// A server id is forgotten when freed, and never touches the client
/// slots or the next client id.
pub proof fn law_server_ids_live_apart(t: Table, id: u32, info: Info, version: u32)
    requires
        id >= SERVER_ID_BASE,
    ensures
        t.register(id, info, version).lookup(id) == Some((info, version)),
        t.register(id, info, version).slots == t.slots,
        t.register(id, info, version).next_id() == t.next_id(),
        t.free(id).lookup(id) is None,
        t.free(id).next_id() == t.next_id(),
{
}

/// A registered object is known at its id, with its interface and
/// version.
pub proof fn law_register_then_lookup(t: Table, id: u32, info: Info, version: u32)
    ensures
        t.register(id, info, version).lookup(id) == Some((info, version)),
{
}

} // verus!
