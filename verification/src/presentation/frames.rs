//! One window's frame loop: when a frame may be drawn, into which of its
//! two buffers, and what the buffer's age is. A frame is wanted after a
//! request, a configure or a new scale; it is drawn when the window is
//! configured, no frame callback is outstanding and a buffer is free;
//! the callback's `done` and a buffer's `release` each try again.
//!
//! The GPU targets are the program's; this library keeps them, as `T`,
//! beside what decides about them.
use vstd::prelude::*;

use crate::wayland::connection::Wayland;
use crate::wayland::display::WlCallback;
use crate::wayland::protocol::{WlBuffer, WlSurface};
use crate::wayland::wire::{
    lemma_auto_words, lemma_header_of_message, lemma_word_round_trip, message, read_uint, spec_header,
    word_bytes,
};
use crate::wayland::{Interface, ObjectId};

verus! {

/// How many buffers a window holds.
pub const BUFFERS: usize = 2;

/// One buffer of a window: its GPU target, its `wl_buffer`, whether the
/// compositor holds it, and the frame it was last drawn for.
pub struct Slot<T> {
    pub target: T,
    /// The `wl_buffer`'s object id.
    pub buffer: u32,
    /// Attached and not yet released by the compositor.
    pub held: bool,
    /// The window's frame counter when this slot was last drawn; `None`
    /// until then.
    pub drawn: Option<u64>,
}

/// A buffer as the frame loop sees it: its `wl_buffer`, held, drawn.
pub type SlotView = (u32, bool, Option<u64>);

/// The buffers of a window at one device size.
pub struct Slots<T> {
    pub width: u32,
    pub height: u32,
    pub slots: Vec<Slot<T>>,
}

impl<T> Slots<T> {
    pub open spec fn view(self) -> Seq<SlotView> {
        self.slots@.map_values(|s: Slot<T>| (s.buffer, s.held, s.drawn))
    }

    /// The first buffer the compositor does not hold.
    pub fn free_slot(&self) -> (r: Option<usize>)
        ensures
            match r {
                Some(i) => first_free(self.view()) == Some(i as int),
                None => first_free(self.view()) is None,
            },
    {
        let mut i: usize = 0;
        while i < self.slots.len()
            invariant
                i <= self.slots@.len(),
                forall|k: int| 0 <= k < i ==> (#[trigger] self.view()[k]).1,
            decreases self.slots@.len() - i,
        {
            if !self.slots[i].held {
                proof {
                    let v = self.view();
                    assert(!v[i as int].1);
                    let j = choose|j: int| 0 <= j < v.len() && !(#[trigger] v[j]).1 && forall|k: int|
                        0 <= k < j ==> (#[trigger] v[k]).1;
                    assert(0 <= j < v.len() && !v[j].1 && forall|k: int| 0 <= k < j ==> (#[trigger] v[k]).1);
                    if j < i {
                        assert(v[j].1);
                    }
                    if j > i {
                        assert(v[i as int].1);
                    }
                }
                return Some(i);
            }
            i = i + 1;
        }
        None
    }
}

/// No buffer among the first `n` was drawn after frame `d`.
pub open spec fn none_later(slots: Seq<SlotView>, n: int, d: u64) -> bool {
    forall|k: int|
        0 <= k < n ==> match (#[trigger] slots[k]).2 {
            Some(e) => e <= d,
            None => true,
        }
}

impl<T> Slots<T> {
    /// The buffer most recently drawn, the last of them if two were drawn
    /// for one frame; `None` before the first frame.
    pub fn last_drawn(&self) -> (r: Option<usize>)
        ensures
            match r {
                Some(i) => i < self.view().len() && match self.view()[i as int].2 {
                    Some(d) => none_later(self.view(), self.view().len() as int, d),
                    None => false,
                },
                None => forall|k: int| 0 <= k < self.view().len() ==> (#[trigger] self.view()[k]).2 is None,
            },
    {
        let mut best: Option<usize> = None;
        let mut i: usize = 0;
        while i < self.slots.len()
            invariant
                i <= self.slots@.len(),
                match best {
                    Some(b) => b < i && match self.view()[b as int].2 {
                        Some(d) => none_later(self.view(), i as int, d),
                        None => false,
                    },
                    None => forall|k: int| 0 <= k < i ==> (#[trigger] self.view()[k]).2 is None,
                },
            decreases self.slots@.len() - i,
        {
            if let Some(d) = self.slots[i].drawn {
                match best {
                    None => {
                        best = Some(i);
                    },
                    Some(b) => {
                        let bd = match self.slots[b].drawn {
                            Some(x) => x,
                            None => 0,
                        };
                        if d >= bd {
                            best = Some(i);
                        }
                    },
                }
            }
            i = i + 1;
        }
        best
    }
}

/// The first buffer of `slots` not held, by index.
pub open spec fn first_free(slots: Seq<SlotView>) -> Option<int> {
    if exists|i: int| 0 <= i < slots.len() && !(#[trigger] slots[i]).1 {
        Some(
            choose|i: int|
                0 <= i < slots.len() && !(#[trigger] slots[i]).1 && forall|k: int|
                    0 <= k < i ==> (#[trigger] slots[k]).1,
        )
    } else {
        None
    }
}

/// The first free buffer is a buffer, and free.
pub proof fn lemma_first_free(slots: Seq<SlotView>)
    ensures
        first_free(slots) matches Some(i) ==> 0 <= i < slots.len() && !slots[i].1,
        first_free(slots) is None ==> forall|k: int| 0 <= k < slots.len() ==> (#[trigger] slots[k]).1,
{
    if exists|i: int| 0 <= i < slots.len() && !(#[trigger] slots[i]).1 {
        let w = choose|i: int| 0 <= i < slots.len() && !(#[trigger] slots[i]).1;
        assert(exists|i: int|
            0 <= i < slots.len() && !(#[trigger] slots[i]).1 && forall|k: int|
                0 <= k < i ==> (#[trigger] slots[k]).1) by {
            lemma_least_free(slots, w);
        }
    }
}

proof fn lemma_least_free(slots: Seq<SlotView>, w: int)
    requires
        0 <= w < slots.len(),
        !slots[w].1,
    ensures
        exists|i: int|
            0 <= i < slots.len() && !(#[trigger] slots[i]).1 && forall|k: int|
                0 <= k < i ==> (#[trigger] slots[k]).1,
    decreases w,
{
    if forall|k: int| 0 <= k < w ==> (#[trigger] slots[k]).1 {
    } else {
        let k = choose|k: int| 0 <= k < w && !(#[trigger] slots[k]).1;
        lemma_least_free(slots, k);
    }
}

/// A window's frame loop as a value.
pub struct LoopView {
    pub configured: bool,
    /// The outstanding frame callback's object id.
    pub callback: Option<u32>,
    pub wanting: bool,
    /// The buffers' device size and their states, once made.
    pub slots: Option<(u32, u32, Seq<SlotView>)>,
    /// Frames drawn so far.
    pub frames: u64,
    /// The preferred buffer scale, and the one last set on the surface.
    pub scale: i32,
    pub scale_sent: i32,
}

/// The one decision: configured, no callback outstanding, wanting, and a
/// buffer free.
pub open spec fn ready(v: LoopView) -> bool {
    &&& v.configured
    &&& v.callback is None
    &&& v.wanting
    &&& v.slots matches Some((_, _, s)) && first_free(s) is Some
}

/// After a try: a frame is signalled, and no longer wanted, exactly when
/// the window was ready.
pub open spec fn kicked(before: LoopView, after: LoopView, fired: bool) -> bool {
    &&& fired == ready(before)
    &&& after == if fired {
        LoopView { wanting: false, ..before }
    } else {
        before
    }
}

/// How many frames old the buffer's content is: 1 if it holds the frame
/// before, 2 the one before that; 0 if it was never drawn.
pub open spec fn age_of(frames: u64, drawn: Option<u64>) -> int {
    match drawn {
        Some(d) => frames - d,
        None => 0,
    }
}

/// Where a frame goes: the buffer and its age.
#[derive(Debug, Clone, Copy, PartialEq, Eq, Structural)]
pub struct Target {
    pub slot: usize,
    pub age: usize,
}

/// One window's frame loop.
pub struct FrameLoop<T> {
    configured: bool,
    callback: Option<u32>,
    wanting: bool,
    slots: Option<Slots<T>>,
    frames: u64,
    scale: i32,
    scale_sent: i32,
}

impl<T> FrameLoop<T> {
    pub closed spec fn view(self) -> LoopView {
        LoopView {
            configured: self.configured,
            callback: self.callback,
            wanting: self.wanting,
            slots: match self.slots {
                Some(s) => Some((s.width, s.height, s.view())),
                None => None,
            },
            frames: self.frames,
            scale: self.scale,
            scale_sent: self.scale_sent,
        }
    }

    /// The buffers as stored, each GPU target with its own `wl_buffer`.
    pub closed spec fn stored(self) -> Option<Slots<T>> {
        self.slots
    }

    /// The GPU targets of the buffers, in slot order, once made.
    pub closed spec fn targets(self) -> Option<Seq<T>> {
        match self.slots {
            Some(s) => Some(s.slots@.map_values(|x: Slot<T>| x.target)),
            None => None,
        }
    }

    /// No buffer was drawn for a frame not yet counted.
    pub closed spec fn wf(self) -> bool {
        match self.slots {
            Some(s) => forall|k: int|
                0 <= k < s.view().len() ==> (#[trigger] s.view()[k]).2 matches Some(d) && d
                    < self.frames || s.view()[k].2 is None,
            None => true,
        }
    }

    /// A window just put on the compositor: not configured, nothing
    /// wanted or drawn, at scale 1.
    pub fn new() -> (f: Self)
        ensures
            f.wf(),
            f.view() == (LoopView {
                configured: false,
                callback: None,
                wanting: false,
                slots: None,
                frames: 0,
                scale: 1,
                scale_sent: 1,
            }),
    {
        FrameLoop {
            configured: false,
            callback: None,
            wanting: false,
            slots: None,
            frames: 0,
            scale: 1,
            scale_sent: 1,
        }
    }

    pub fn is_configured(&self) -> (b: bool)
        ensures
            b == self.view().configured,
    {
        self.configured
    }

    pub fn scale(&self) -> (s: i32)
        ensures
            s == self.view().scale,
    {
        self.scale
    }

    /// The buffers, once made.
    pub fn slots(&self) -> (s: &Option<Slots<T>>)
        ensures
            *s == self.stored(),
            match *s {
                Some(b) => self.view().slots == Some((b.width, b.height, b.view())),
                None => self.view().slots is None,
            },
    {
        &self.slots
    }

    /// Try for a frame: when ready, it is no longer wanted and `true`
    /// says to signal it.
    pub fn kick(&mut self) -> (fired: bool)
        requires
            old(self).wf(),
        ensures
            final(self).targets() == old(self).targets(),
            final(self).wf(),
            kicked(old(self).view(), final(self).view(), fired),
    {
        let free = match &self.slots {
            Some(s) => s.free_slot().is_some(),
            None => false,
        };
        let fired = self.configured && self.callback.is_none() && self.wanting && free;
        if fired {
            self.wanting = false;
        }
        fired
    }

    /// A frame was requested: it is wanted, and tried for.
    pub fn on_frame_requested(&mut self) -> (fired: bool)
        requires
            old(self).wf(),
        ensures
            final(self).targets() == old(self).targets(),
            final(self).wf(),
            kicked(LoopView { wanting: true, ..old(self).view() }, final(self).view(), fired),
    {
        self.wanting = true;
        self.kick()
    }

    /// The shell configured the window at this device size. It is
    /// configured and wants a frame; `true` says the buffers must be made
    /// anew, for there are none or they are another size.
    pub fn settle(&mut self, width: u32, height: u32) -> (stale: bool)
        requires
            old(self).wf(),
        ensures
            final(self).targets() == old(self).targets(),
            final(self).wf(),
            stale == match old(self).view().slots {
                Some((w, h, _)) => w != width || h != height,
                None => true,
            },
            final(self).view() == (LoopView {
                configured: true,
                wanting: true,
                ..old(self).view()
            }),
    {
        let stale = match &self.slots {
            Some(s) => s.width != width || s.height != height,
            None => true,
        };
        self.configured = true;
        self.wanting = true;
        stale
    }

    /// Put new buffers in place of the old, which come back to be torn
    /// down. Each new buffer is free and never drawn.
    pub fn replace_slots(&mut self, slots: Slots<T>) -> (old_slots: Option<Slots<T>>)
        requires
            old(self).wf(),
            forall|k: int| 0 <= k < slots.view().len() ==> (#[trigger] slots.view()[k]).2 is None,
        ensures
            final(self).wf(),
            final(self).view() == (LoopView {
                slots: Some((slots.width, slots.height, slots.view())),
                ..old(self).view()
            }),
            match old_slots {
                Some(s) => old(self).view().slots == Some((s.width, s.height, s.view())),
                None => old(self).view().slots is None,
            },
            final(self).stored() == Some(slots),
            old_slots == old(self).stored(),
    {
        let mut s = Some(slots);
        std::mem::swap(&mut s, &mut self.slots);
        s
    }

    /// A new preferred scale. The same scale again changes nothing and
    /// gives `false`. Another is kept and gives `true`: the window hears
    /// of it, and, if configured, wants a frame at it on new buffers.
    pub fn on_scale(&mut self, factor: i32) -> (changed: bool)
        requires
            old(self).wf(),
        ensures
            final(self).targets() == old(self).targets(),
            final(self).wf(),
            changed == (factor != old(self).view().scale),
            final(self).view() == if !changed {
                old(self).view()
            } else {
                LoopView {
                    scale: factor,
                    wanting: old(self).view().wanting || old(self).view().configured,
                    ..old(self).view()
                }
            },
    {
        if self.scale == factor {
            return false;
        }
        self.scale = factor;
        if self.configured {
            self.wanting = true;
        }
        true
    }

    /// A `Frame` for this window: the buffer to draw into and its age,
    /// or `None`. Not configured, or no buffers: nothing. A callback
    /// outstanding, or every buffer held: nothing now, and the frame is
    /// wanted again, for the next `done` or `release` to try.
    pub fn begin_frame(&mut self) -> (r: Option<Target>)
        requires
            old(self).wf(),
        ensures
            final(self).targets() == old(self).targets(),
            final(self).wf(),
            ({
                let v = old(self).view();
                if !v.configured {
                    r is None && final(self).view() == v
                } else if v.callback is Some {
                    r is None && final(self).view() == (LoopView { wanting: true, ..v })
                } else {
                    match v.slots {
                        None => r is None && final(self).view() == v,
                        Some((_, _, s)) => match first_free(s) {
                            None => r is None && final(self).view() == (LoopView {
                                wanting: true,
                                ..v
                            }),
                            Some(i) => {
                                &&& final(self).view() == v
                                &&& r == Some(Target { slot: i as usize, age: age_of(v.frames, s[i].2) as usize })
                            },
                        },
                    }
                }
            }),
    {
        if !self.configured {
            return None;
        }
        if self.callback.is_some() {
            self.wanting = true;
            return None;
        }
        let (slot, drawn) = match &self.slots {
            None => return None,
            Some(s) => match s.free_slot() {
                None => (None, None),
                Some(i) => {
                    proof {
                        lemma_first_free(s.view());
                    }
                    (Some(i), s.slots[i].drawn)
                },
            },
        };
        match slot {
            None => {
                self.wanting = true;
                None
            },
            Some(i) => {
                let age = match drawn {
                    Some(d) => {
                        proof {
                            let s = self.slots.unwrap();
                            assert(s.view()[i as int].2 == drawn);
                        }
                        (self.frames - d) as usize
                    },
                    None => 0,
                };
                Some(Target { slot: i, age })
            },
        }
    }

    /// The scale to set on the surface before the next attach: the
    /// preferred one, when it differs from the one last set.
    pub fn scale_to_set(&self) -> (s: Option<i32>)
        ensures
            s == if self.view().scale != self.view().scale_sent {
                Some(self.view().scale)
            } else {
                None
            },
    {
        if self.scale != self.scale_sent {
            Some(self.scale)
        } else {
            None
        }
    }

    /// The frame could not be drawn now, its size not yet the layout's:
    /// it is wanted again.
    pub fn defer(&mut self)
        ensures
            final(self).targets() == old(self).targets(),
            final(self).view() == (LoopView { wanting: true, ..old(self).view() }),
            old(self).wf() ==> final(self).wf(),
    {
        self.wanting = true;
    }

    /// The frame was drawn into `slot`, attached and committed with the
    /// frame callback `callback`. The buffer is held and drawn for this
    /// frame, and the frame counted. The scale to set on the surface
    /// before the attach comes back when it differs from the one last
    /// set.
    pub fn committed(&mut self, slot: usize, callback: u32) -> (scale: Option<i32>)
        requires
            old(self).wf(),
            old(self).view().slots matches Some((_, _, s)) && slot < s.len(),
            old(self).view().frames < u64::MAX,
        ensures
            final(self).targets() == old(self).targets(),
            final(self).wf(),
            scale == if old(self).view().scale != old(self).view().scale_sent {
                Some(old(self).view().scale)
            } else {
                None
            },
            ({
                let v = old(self).view();
                let (w, h, s) = v.slots.unwrap();
                final(self).view() == (LoopView {
                    callback: Some(callback),
                    slots: Some((w, h, s.update(slot as int, (s[slot as int].0, true, Some(v.frames))))),
                    frames: (v.frames + 1) as u64,
                    scale_sent: v.scale,
                    ..v
                })
            }),
    {
        let scale = if self.scale != self.scale_sent {
            Some(self.scale)
        } else {
            None
        };
        self.scale_sent = self.scale;
        let frames = self.frames;
        let mut taken: Option<Slots<T>> = None;
        std::mem::swap(&mut taken, &mut self.slots);
        let mut s = taken.unwrap();
        let ghost before = s.view();
        let ghost before_targets = s.slots@.map_values(|x: Slot<T>| x.target);
        let mut old_slot = s.slots.remove(slot);
        old_slot.held = true;
        old_slot.drawn = Some(frames);
        s.slots.insert(slot, old_slot);
        proof {
            assert(s.view() =~= before.update(slot as int, (before[slot as int].0, true, Some(frames))));
            assert(s.slots@.map_values(|x: Slot<T>| x.target) =~= before_targets);
        }
        self.slots = Some(s);
        self.callback = Some(callback);
        self.frames = frames + 1;
        scale
    }

    /// A frame callback is done: if it is this window's outstanding one,
    /// none is outstanding any more; then try for a frame.
    pub fn on_done(&mut self, callback: u32) -> (fired: bool)
        requires
            old(self).wf(),
        ensures
            final(self).targets() == old(self).targets(),
            final(self).wf(),
            kicked(
                if old(self).view().callback == Some(callback) {
                    LoopView { callback: None, ..old(self).view() }
                } else {
                    old(self).view()
                },
                final(self).view(),
                fired,
            ),
    {
        if self.callback == Some(callback) {
            self.callback = None;
        }
        self.kick()
    }

    /// The compositor released a `wl_buffer`: the slot it belongs to, if
    /// any, is free; then try for a frame.
    pub fn on_release(&mut self, buffer: u32) -> (fired: bool)
        requires
            old(self).wf(),
        ensures
            final(self).targets() == old(self).targets(),
            final(self).wf(),
            exists|between: LoopView|
                {
                    &&& released(old(self).view(), buffer, between)
                    &&& kicked(between, final(self).view(), fired)
                },
    {
        let ghost v = self.view();
        let mut taken: Option<Slots<T>> = None;
        std::mem::swap(&mut taken, &mut self.slots);
        match taken {
            None => {},
            Some(mut s) => {
                let ghost before = s.view();
                let mut i: usize = 0;
                while i < s.slots.len()
                    invariant
                        i <= s.slots@.len(),
                        s.view() == before,
                        forall|k: int| 0 <= k < i ==> (#[trigger] before[k]).0 != buffer,
                    ensures
                        i <= s.slots@.len(),
                        s.view() == before,
                        forall|k: int| 0 <= k < i ==> (#[trigger] before[k]).0 != buffer,
                        i < s.slots@.len() ==> before[i as int].0 == buffer,
                    decreases s.slots@.len() - i,
                {
                    if s.slots[i].buffer == buffer {
                        break;
                    }
                    i = i + 1;
                }
                if i < s.slots.len() {
                    proof {
                        let j = choose|j: int|
                            0 <= j < before.len() && (#[trigger] before[j]).0 == buffer && forall|k: int|
                                0 <= k < j ==> (#[trigger] before[k]).0 != buffer;
                        assert(before[i as int].0 == buffer);
                        assert(0 <= j < before.len() && before[j].0 == buffer && forall|k: int|
                            0 <= k < j ==> (#[trigger] before[k]).0 != buffer);
                        if j < i {
                            assert(before[j].0 != buffer);
                        }
                        if j > i {
                            assert(before[i as int].0 != buffer);
                        }
                        assert(first_buffer(before, buffer) == Some(i as int));
                    }
                    let ghost before_targets = s.slots@.map_values(|x: Slot<T>| x.target);
                    let mut one = s.slots.remove(i);
                    one.held = false;
                    s.slots.insert(i, one);
                    assert(s.slots@.map_values(|x: Slot<T>| x.target) =~= before_targets);
                    assert(s.view() =~= before.update(i as int, (before[i as int].0, false, before[i as int].2)));
                } else {
                    assert(first_buffer(before, buffer) is None);
                }
                self.slots = Some(s);
            },
        }
        proof {
            assert(released(v, buffer, self.view()));
        }
        self.kick()
    }
}

/// One `damage_buffer` per rect, in order.
pub open spec fn damage_bytes(surface: u32, rects: Seq<(i32, i32, i32, i32)>) -> Seq<u8>
    decreases rects.len(),
{
    if rects.len() == 0 {
        Seq::empty()
    } else {
        let r = rects.last();
        damage_bytes(surface, rects.drop_last()) + message(
            surface,
            9,
            word_bytes(r.0 as u32) + word_bytes(r.1 as u32) + word_bytes(r.2 as u32) + word_bytes(
                r.3 as u32,
            ),
        )
    }
}

/// The body of one `damage_buffer`: x, y, width, height.
spec fn rect_words(r: (i32, i32, i32, i32)) -> Seq<u8> {
    word_bytes(r.0 as u32) + word_bytes(r.1 as u32) + word_bytes(r.2 as u32) + word_bytes(r.3 as u32)
}

/// Each rect's request is 24 bytes.
proof fn lemma_damage_len(surface: u32, rects: Seq<(i32, i32, i32, i32)>)
    ensures
        damage_bytes(surface, rects).len() == 24 * rects.len(),
    decreases rects.len(),
{
    lemma_auto_words();
    if rects.len() > 0 {
        lemma_damage_len(surface, rects.drop_last());
    }
}

/// The requests of the first `j` rects, then those of the rest.
proof fn lemma_damage_split(surface: u32, rects: Seq<(i32, i32, i32, i32)>, j: int)
    requires
        0 <= j <= rects.len(),
    ensures
        damage_bytes(surface, rects) == damage_bytes(surface, rects.take(j)) + damage_bytes(
            surface,
            rects.skip(j),
        ),
    decreases rects.len(),
{
    if j == rects.len() {
        assert(rects.take(j) =~= rects);
        assert(rects.skip(j) =~= Seq::<(i32, i32, i32, i32)>::empty());
        assert(damage_bytes(surface, rects) + Seq::<u8>::empty() =~= damage_bytes(surface, rects));
    } else {
        let front = rects.drop_last();
        lemma_damage_split(surface, front, j);
        assert(front.take(j) =~= rects.take(j));
        assert(rects.skip(j).drop_last() =~= front.skip(j));
        assert(rects.skip(j).last() == rects.last());
    }
}

/// Every damage rect of a drawn frame goes out as it was asked for: the
/// `k`th `damage_buffer` after the optional scale and the attach is the
/// surface's opcode 9, and its body reads back as the rect's x, y,
/// width and height, in that order.
pub proof fn law_each_damage_rect_reads_back(
    surface: u32,
    scale: Option<i32>,
    buffer: u32,
    damage: Seq<(i32, i32, i32, i32)>,
    callback: u32,
    k: int,
)
    requires
        0 <= k < damage.len(),
    ensures
        ({
            let out = present_bytes(surface, scale, buffer, damage, callback);
            let o = (if scale is Some { 12int } else { 0int }) + 20 + 24 * k;
            &&& spec_header(out.skip(o)) matches Some(h) && h.sender == ObjectId(surface) && h.opcode
                == 9 && h.size == 24
            &&& read_uint(out, o + 8).0 == Some(damage[k].0 as u32)
            &&& read_uint(out, o + 12).0 == Some(damage[k].1 as u32)
            &&& read_uint(out, o + 16).0 == Some(damage[k].2 as u32)
            &&& read_uint(out, o + 20).0 == Some(damage[k].3 as u32)
        }),
{
    lemma_auto_words();
    let r = damage[k];
    let head = match scale {
        Some(s) => message(surface, 8, word_bytes(s as u32)),
        None => Seq::empty(),
    };
    let attach = message(surface, 1, word_bytes(buffer) + word_bytes(0) + word_bytes(0));
    let tail = message(surface, 3, word_bytes(callback)) + message(surface, 6, Seq::empty());
    let before = damage_bytes(surface, damage.take(k));
    let later = damage_bytes(surface, damage.skip(k + 1));
    lemma_damage_split(surface, damage, k + 1);
    lemma_damage_len(surface, damage.take(k));
    assert(damage.take(k + 1).drop_last() =~= damage.take(k));
    assert(damage.take(k + 1).last() == r);
    let m = message(surface, 9, rect_words(r));
    assert(damage_bytes(surface, damage.take(k + 1)) =~= before + m);
    let out = present_bytes(surface, scale, buffer, damage, callback);
    let pre = head + attach + before;
    let post = later + tail;
    assert(out =~= pre + m + post);
    let o = (if scale is Some { 12int } else { 0int }) + 20 + 24 * k;
    assert(pre.len() == o);
    assert(out.skip(o) =~= m + post);
    lemma_header_of_message(surface, 9, rect_words(r), post);
    let sw = word_bytes(surface) + word_bytes(crate::wayland::wire::size_word(24, 9));
    assert(out =~= (pre + sw) + word_bytes(r.0 as u32) + (word_bytes(r.1 as u32) + word_bytes(r.2 as u32)
        + word_bytes(r.3 as u32) + post));
    lemma_word_round_trip(r.0 as u32, pre + sw, word_bytes(r.1 as u32) + word_bytes(r.2 as u32)
        + word_bytes(r.3 as u32) + post);
    assert(out =~= (pre + sw + word_bytes(r.0 as u32)) + word_bytes(r.1 as u32) + (word_bytes(r.2 as u32)
        + word_bytes(r.3 as u32) + post));
    lemma_word_round_trip(r.1 as u32, pre + sw + word_bytes(r.0 as u32), word_bytes(r.2 as u32)
        + word_bytes(r.3 as u32) + post);
    assert(out =~= (pre + sw + word_bytes(r.0 as u32) + word_bytes(r.1 as u32)) + word_bytes(r.2 as u32)
        + (word_bytes(r.3 as u32) + post));
    lemma_word_round_trip(r.2 as u32, pre + sw + word_bytes(r.0 as u32) + word_bytes(r.1 as u32),
        word_bytes(r.3 as u32) + post);
    assert(out =~= (pre + sw + word_bytes(r.0 as u32) + word_bytes(r.1 as u32) + word_bytes(r.2 as u32))
        + word_bytes(r.3 as u32) + post);
    lemma_word_round_trip(r.3 as u32, pre + sw + word_bytes(r.0 as u32) + word_bytes(r.1 as u32)
        + word_bytes(r.2 as u32), post);
}

/// A drawn frame goes out in order: the new scale first when there is
/// one; the buffer attached at the origin; after the damage, the frame
/// callback with its new id; and the commit, all on the surface.
pub proof fn law_a_frame_goes_out_as_asked(
    surface: u32,
    scale: Option<i32>,
    buffer: u32,
    damage: Seq<(i32, i32, i32, i32)>,
    callback: u32,
)
    ensures
        ({
            let out = present_bytes(surface, scale, buffer, damage, callback);
            let c = if scale is Some { 12int } else { 0int };
            let f = c + 20 + 24 * damage.len();
            &&& scale matches Some(sc) ==> {
                &&& spec_header(out) matches Some(h) && h.sender == ObjectId(surface) && h.opcode == 8
                &&& read_uint(out, 8).0 == Some(sc as u32)
            }
            &&& spec_header(out.skip(c)) matches Some(h) && h.sender == ObjectId(surface) && h.opcode == 1
            &&& read_uint(out, c + 8).0 == Some(buffer)
            &&& read_uint(out, c + 12).0 == Some(0u32)
            &&& read_uint(out, c + 16).0 == Some(0u32)
            &&& spec_header(out.skip(f)) matches Some(h) && h.sender == ObjectId(surface) && h.opcode == 3
            &&& read_uint(out, f + 8).0 == Some(callback)
            &&& spec_header(out.skip(f + 12)) matches Some(h) && h.sender == ObjectId(surface) && h.opcode == 6
                && h.size == 8
            &&& out.len() == f + 20
        }),
{
    lemma_auto_words();
    let head = match scale {
        Some(s) => message(surface, 8, word_bytes(s as u32)),
        None => Seq::empty(),
    };
    let attach = message(surface, 1, word_bytes(buffer) + word_bytes(0) + word_bytes(0));
    let d = damage_bytes(surface, damage);
    lemma_damage_len(surface, damage);
    let mf = message(surface, 3, word_bytes(callback));
    let mc = message(surface, 6, Seq::empty());
    let out = present_bytes(surface, scale, buffer, damage, callback);
    assert(out =~= head + attach + d + mf + mc);
    let c = if scale is Some { 12int } else { 0int };
    let f = c + 20 + 24 * damage.len();
    if let Some(sc) = scale {
        assert(out =~= head + (attach + d + mf + mc));
        lemma_header_of_message(surface, 8, word_bytes(sc as u32), attach + d + mf + mc);
        let h8 = word_bytes(surface) + word_bytes(crate::wayland::wire::size_word(12, 8));
        assert(out =~= h8 + word_bytes(sc as u32) + (attach + d + mf + mc));
        lemma_word_round_trip(sc as u32, h8, attach + d + mf + mc);
    }
    assert(head.len() == c);
    assert(out.skip(c) =~= attach + (d + mf + mc));
    lemma_header_of_message(surface, 1, word_bytes(buffer) + word_bytes(0) + word_bytes(0), d + mf + mc);
    let h1 = head + word_bytes(surface) + word_bytes(crate::wayland::wire::size_word(20, 1));
    assert(out =~= h1 + word_bytes(buffer) + (word_bytes(0) + word_bytes(0) + d + mf + mc));
    lemma_word_round_trip(buffer, h1, word_bytes(0) + word_bytes(0) + d + mf + mc);
    assert(out =~= (h1 + word_bytes(buffer)) + word_bytes(0) + (word_bytes(0) + d + mf + mc));
    lemma_word_round_trip(0, h1 + word_bytes(buffer), word_bytes(0) + d + mf + mc);
    assert(out =~= (h1 + word_bytes(buffer) + word_bytes(0)) + word_bytes(0) + (d + mf + mc));
    lemma_word_round_trip(0, h1 + word_bytes(buffer) + word_bytes(0), d + mf + mc);
    assert((head + attach + d).len() == f);
    assert(out.skip(f) =~= mf + mc);
    lemma_header_of_message(surface, 3, word_bytes(callback), mc);
    let h3 = head + attach + d + word_bytes(surface) + word_bytes(crate::wayland::wire::size_word(12, 3));
    assert(out =~= h3 + word_bytes(callback) + mc);
    lemma_word_round_trip(callback, h3, mc);
    assert(out.skip(f + 12) =~= mc + Seq::<u8>::empty());
    lemma_header_of_message(surface, 6, Seq::empty(), Seq::empty());
}

/// What a drawn frame puts on the wire: the scale first if it changed,
/// the buffer attached at the origin, each damage rect, the frame
/// callback, and the commit.
pub open spec fn present_bytes(
    surface: u32,
    scale: Option<i32>,
    buffer: u32,
    damage: Seq<(i32, i32, i32, i32)>,
    callback: u32,
) -> Seq<u8> {
    (match scale {
        Some(s) => message(surface, 8, word_bytes(s as u32)),
        None => Seq::empty(),
    }) + message(surface, 1, word_bytes(buffer) + word_bytes(0) + word_bytes(0)) + damage_bytes(
        surface,
        damage,
    ) + message(surface, 3, word_bytes(callback)) + message(surface, 6, Seq::empty())
}

/// Put the frame drawn into `slot` on `surface`: its scale if changed,
/// `buffer` attached, each rect of `damage` (buffer pixels), a frame
/// callback asked for, and the commit; then the frame loop counts it.
pub fn present<T>(
    frames: &mut FrameLoop<T>,
    wl: &mut Wayland,
    surface: WlSurface,
    buffer: WlBuffer,
    slot: usize,
    damage: &[(i32, i32, i32, i32)],
) -> (cb: WlCallback)
    requires
        old(wl).wf(),
        old(wl).lookup(surface.0.0) is Some,
        old(frames).wf(),
        old(frames).view().slots matches Some((_, _, s)) && slot < s.len(),
        old(frames).view().frames < u64::MAX,
    ensures
        cb == WlCallback(ObjectId(old(wl).next_id())),
        final(wl).allocated_from_then_sent(
            *old(wl),
            WlCallback::spec_info(),
            old(wl).lookup(surface.0.0).unwrap().1,
            present_bytes(
                surface.0.0,
                if old(frames).view().scale != old(frames).view().scale_sent {
                    Some(old(frames).view().scale)
                } else {
                    None
                },
                buffer.0.0,
                damage@,
                cb.0.0,
            ),
        ),
        final(frames).wf(),
        final(frames).targets() == old(frames).targets(),
        ({
            let v = old(frames).view();
            let (w, h, s) = v.slots.unwrap();
            final(frames).view() == (LoopView {
                callback: Some(cb.0.0),
                slots: Some((w, h, s.update(slot as int, (s[slot as int].0, true, Some(v.frames))))),
                frames: (v.frames + 1) as u64,
                scale_sent: v.scale,
                ..v
            })
        }),
{
    let ghost start = *wl;
    let scale = frames.scale_to_set();
    match scale {
        Some(s) => surface.set_buffer_scale(wl, s),
        None => {},
    }
    surface.attach(wl, Some(buffer), 0, 0);
    let ghost before_damage = *wl;
    let mut k: usize = 0;
    while k < damage.len()
        invariant
            k <= damage@.len(),
            wl.wf(),
            wl.same_table(before_damage),
            wl.inbox() == before_damage.inbox(),
            wl.sending() == before_damage.sending(),
            wl.reading() == before_damage.reading(),
            wl.is_synced() == before_damage.is_synced(),
            wl.sync_callback() == before_damage.sync_callback(),
            wl.out() == before_damage.out() + damage_bytes(surface.0.0, damage@.take(k as int)),
        decreases damage@.len() - k,
    {
        let (x, y, dw, dh) = damage[k];
        surface.damage_buffer(wl, x, y, dw, dh);
        proof {
            assert(damage@.take(k + 1).drop_last() =~= damage@.take(k as int));
            assert(damage@.take(k + 1).last() == damage@[k as int]);
        }
        k = k + 1;
    }
    assert(damage@.take(damage@.len() as int) =~= damage@);
    let ghost before_frame = *wl;
    assert(before_frame.lookup(surface.0.0) == start.lookup(surface.0.0));
    let cb = surface.frame(wl);
    surface.commit(wl);
    frames.committed(slot, cb.0.0);
    proof {
        assert(before_frame.next_id() == start.next_id());
        assert(wl.out() =~= start.out() + present_bytes(surface.0.0, scale, buffer.0.0, damage@, cb.0.0));
    }
    cb
}

/// A frame with nothing to redraw commits nothing: with no damage rect
/// neither the connection nor the frame loop changes and there is no
/// callback; otherwise the frame is put on the surface as [`present`]
/// does.
pub fn present_if_damaged<T>(
    frames: &mut FrameLoop<T>,
    wl: &mut Wayland,
    surface: WlSurface,
    buffer: WlBuffer,
    slot: usize,
    damage: &[(i32, i32, i32, i32)],
) -> (cb: Option<WlCallback>)
    requires
        old(wl).wf(),
        old(wl).lookup(surface.0.0) is Some,
        old(frames).wf(),
        old(frames).view().slots matches Some((_, _, s)) && slot < s.len(),
        old(frames).view().frames < u64::MAX,
    ensures
        final(frames).wf(),
        final(frames).targets() == old(frames).targets(),
        damage@.len() == 0 ==> {
            &&& cb is None
            &&& *final(wl) == *old(wl)
            &&& final(frames).view() == old(frames).view()
        },
        damage@.len() > 0 ==> {
            &&& cb == Some(WlCallback(ObjectId(old(wl).next_id())))
            &&& final(wl).allocated_from_then_sent(
                *old(wl),
                WlCallback::spec_info(),
                old(wl).lookup(surface.0.0).unwrap().1,
                present_bytes(
                    surface.0.0,
                    if old(frames).view().scale != old(frames).view().scale_sent {
                        Some(old(frames).view().scale)
                    } else {
                        None
                    },
                    buffer.0.0,
                    damage@,
                    old(wl).next_id(),
                ),
            )
            &&& {
                let v = old(frames).view();
                let (w, h, s) = v.slots.unwrap();
                final(frames).view() == (LoopView {
                    callback: Some(old(wl).next_id()),
                    slots: Some((w, h, s.update(slot as int, (s[slot as int].0, true, Some(v.frames))))),
                    frames: (v.frames + 1) as u64,
                    scale_sent: v.scale,
                    ..v
                })
            }
        },
{
    if damage.len() == 0 {
        return None;
    }
    Some(present(frames, wl, surface, buffer, slot, damage))
}

/// Where `buffer` is among the slots, the first if twice.
pub open spec fn first_buffer(slots: Seq<SlotView>, buffer: u32) -> Option<int> {
    if exists|i: int| 0 <= i < slots.len() && (#[trigger] slots[i]).0 == buffer {
        Some(
            choose|i: int|
                0 <= i < slots.len() && (#[trigger] slots[i]).0 == buffer && forall|k: int|
                    0 <= k < i ==> (#[trigger] slots[k]).0 != buffer,
        )
    } else {
        None
    }
}

/// `after` is `before` with the slot of `buffer`, if any, no longer held.
pub open spec fn released(before: LoopView, buffer: u32, after: LoopView) -> bool {
    match before.slots {
        None => after == before,
        Some((w, h, s)) => match first_buffer(s, buffer) {
            None => after == before,
            Some(i) => after == (LoopView {
                slots: Some((w, h, s.update(i, (s[i].0, false, s[i].2)))),
                ..before
            }),
        },
    }
}

/// Frames are throttled by the callback: while one is outstanding no try
/// fires a frame.
pub proof fn law_no_frame_while_a_callback_is_outstanding(v: LoopView, after: LoopView, fired: bool)
    requires
        v.callback is Some,
        kicked(v, after, fired),
    ensures
        !fired,
        after == v,
{
}

/// One want, one frame: a try that fired leaves nothing wanted, so the
/// next try, with nothing new wanted, fires nothing.
pub proof fn law_one_frame_per_want(
    v: LoopView,
    a: LoopView,
    b: LoopView,
    first: bool,
    second: bool,
)
    requires
        kicked(v, a, first),
        kicked(a, b, second),
        first,
    ensures
        !second,
        b == a,
{
}

/// With every buffer held, a release of one of them draws the frame the
/// window wants.
pub proof fn law_a_release_lets_a_wanted_frame_draw(v: LoopView, buffer: u32, after: LoopView)
    requires
        v.configured,
        v.callback is None,
        v.wanting,
        v.slots matches Some((_, _, s)) && first_buffer(s, buffer) is Some,
        released(v, buffer, after),
    ensures
        ready(after),
{
    let (w, h, s) = v.slots.unwrap();
    lemma_first_buffer(s, buffer);
    let i = first_buffer(s, buffer).unwrap();
    let t = s.update(i, (s[i].0, false, s[i].2));
    assert(after.slots == Some((w, h, t)));
    assert(!t[i].1);
    lemma_first_free(t);
}

/// The first slot of a buffer is a slot of it.
pub proof fn lemma_first_buffer(slots: Seq<SlotView>, buffer: u32)
    ensures
        first_buffer(slots, buffer) matches Some(i) ==> 0 <= i < slots.len() && slots[i].0 == buffer,
{
    if exists|i: int| 0 <= i < slots.len() && (#[trigger] slots[i]).0 == buffer {
        let w = choose|i: int| 0 <= i < slots.len() && (#[trigger] slots[i]).0 == buffer;
        lemma_least_buffer(slots, buffer, w);
    }
}

proof fn lemma_least_buffer(slots: Seq<SlotView>, buffer: u32, w: int)
    requires
        0 <= w < slots.len(),
        slots[w].0 == buffer,
    ensures
        exists|i: int|
            0 <= i < slots.len() && (#[trigger] slots[i]).0 == buffer && forall|k: int|
                0 <= k < i ==> (#[trigger] slots[k]).0 != buffer,
    decreases w,
{
    if forall|k: int| 0 <= k < w ==> (#[trigger] slots[k]).0 != buffer {
    } else {
        let k = choose|k: int| 0 <= k < w && (#[trigger] slots[k]).0 == buffer;
        lemma_least_buffer(slots, buffer, k);
    }
}

/// What a committed buffer's age counts: drawn for the frame then
/// counted, it is one frame old when the next frame asks, and one more
/// for every frame after.
pub proof fn law_a_drawn_buffer_ages_by_frames(frames: u64, later: u64)
    requires
        frames < later,
    ensures
        age_of(later, Some(frames)) == later - frames,
        age_of((frames + 1) as u64, Some(frames)) == 1,
        age_of(later, None) == 0,
{
}

} // verus!
