//! `wl_seat`'s pointer and touch, reduced to [`ContactInput`]: which
//! objects to ask the seat for, and the focus and position bookkeeping a
//! reducer needs. The program around this library decodes the events,
//! finds the window a surface belongs to, and signals what comes back.
use vstd::prelude::*;
use std::collections::HashMap;
use vstd::std_specs::hash::spec_hash_map_iter;
use vstd::std_specs::iter::IteratorSpec;

use crate::interactivity::{ContactId, ContactInput, ContactPhase};

verus! {

broadcast use vstd::std_specs::hash::group_hash_axioms;

/// `wl_seat.capability.pointer`.
pub const POINTER: u32 = 1;

/// `wl_seat.capability.touch`.
pub const TOUCH: u32 = 4;

/// What a `wl_pointer` event says, its surface already mapped to the
/// window it belongs to, if any.
pub enum PointerEvent<P> {
    Enter { window: Option<u64>, position: P },
    Motion { position: P },
    Button { pressed: bool },
    Leave,
    /// Any other event: axis, frame, and the rest.
    Other,
}

/// What a `wl_touch` event says, its surface already mapped to the window
/// it belongs to, if any.
pub enum TouchEvent<P> {
    Down { window: Option<u64>, id: i32, position: P },
    Motion { id: i32, position: P },
    Up { id: i32 },
    /// Every touch point currently active on this client is gone.
    Cancel,
    /// Any other event: frame, shape, orientation.
    Other,
}

/// The objects to ask the seat for after a capabilities event.
#[derive(Debug, Clone, Copy, PartialEq, Eq, Structural)]
pub struct SeatRequests {
    pub get_pointer: bool,
    pub get_touch: bool,
}

/// The contact a touch id names.
pub open spec fn touch_contact(id: i32) -> ContactId {
    ContactId::Touch(id as u32)
}

/// An input as values.
pub open spec fn input_view<P>(i: ContactInput<P>) -> (u64, ContactId, ContactPhase, P) {
    (i.window, i.contact, i.phase, i.position)
}

/// Whether `r` cancels every touch point of `touches`, each once, in some
/// order: `order` names the points, no point twice and none left out.
pub open spec fn cancels_all<P>(touches: Map<i32, (u64, P)>, order: Seq<i32>, r: Seq<ContactInput<P>>) -> bool {
    &&& order.no_duplicates()
    &&& order.to_set() == touches.dom()
    &&& r.len() == order.len()
    &&& forall|k: int|
        0 <= k < r.len() ==> input_view(#[trigger] r[k]) == (
            touches[order[k]].0,
            touch_contact(order[k]),
            ContactPhase::Cancelled,
            touches[order[k]].1,
        )
}

/// The pointer and touch state of one seat.
pub struct Seat<P> {
    has_pointer: bool,
    has_touch: bool,
    /// The window the pointer last entered, and its position there.
    /// `None` between a `Leave` and the next `Enter`.
    pointer_focus: Option<(u64, P)>,
    /// Every touch point currently down: `wl_touch`'s id to the window
    /// it went down on and its last position there.
    touches: HashMap<i32, (u64, P)>,
}

impl<P: Copy> Seat<P> {
    /// Whether a `wl_pointer` was asked for.
    pub closed spec fn spec_has_pointer(self) -> bool {
        self.has_pointer
    }

    /// Whether a `wl_touch` was asked for.
    pub closed spec fn spec_has_touch(self) -> bool {
        self.has_touch
    }

    /// The window the pointer is in and its position there.
    pub closed spec fn focus(self) -> Option<(u64, P)> {
        self.pointer_focus
    }

    /// The touch points down, by id.
    pub closed spec fn touches(self) -> Map<i32, (u64, P)> {
        self.touches@
    }

    /// A seat with neither object asked for, no focus and no touch down.
    pub fn new() -> (s: Self)
        ensures
            !s.spec_has_pointer(),
            !s.spec_has_touch(),
            s.focus() is None,
            s.touches() == Map::<i32, (u64, P)>::empty(),
    {
        Seat { has_pointer: false, has_touch: false, pointer_focus: None, touches: HashMap::new() }
    }

    /// The seat's capabilities changed, or were reported for the first
    /// time: a pointer or touch object is asked for the first time its
    /// bit is seen, and never released.
    pub fn on_seat(&mut self, capabilities: u32) -> (r: SeatRequests)
        ensures
            r.get_pointer == (capabilities & POINTER != 0 && !old(self).spec_has_pointer()),
            r.get_touch == (capabilities & TOUCH != 0 && !old(self).spec_has_touch()),
            final(self).spec_has_pointer() == (old(self).spec_has_pointer() || capabilities & POINTER
                != 0),
            final(self).spec_has_touch() == (old(self).spec_has_touch() || capabilities & TOUCH
                != 0),
            final(self).focus() == old(self).focus(),
            final(self).touches() == old(self).touches(),
    {
        let get_pointer = capabilities & POINTER != 0 && !self.has_pointer;
        let get_touch = capabilities & TOUCH != 0 && !self.has_touch;
        if get_pointer {
            self.has_pointer = true;
        }
        if get_touch {
            self.has_touch = true;
        }
        SeatRequests { get_pointer, get_touch }
    }

    /// `wl_pointer`, reduced: `enter` on a window and `motion` move the
    /// mouse; `button` presses or releases it where it last was; `leave`
    /// cancels it. Without a focus nothing comes of any but `enter`.
    pub fn on_pointer(&mut self, e: PointerEvent<P>) -> (r: Option<ContactInput<P>>)
        ensures
            final(self).spec_has_pointer() == old(self).spec_has_pointer(),
            final(self).spec_has_touch() == old(self).spec_has_touch(),
            final(self).touches() == old(self).touches(),
            match e {
                PointerEvent::Enter { window, position } => match window {
                    Some(w) => {
                        &&& final(self).focus() == Some((w, position))
                        &&& r matches Some(i) && input_view(i) == (
                            w,
                            ContactId::Mouse,
                            ContactPhase::Moved,
                            position,
                        )
                    },
                    None => final(self).focus() == old(self).focus() && r is None,
                },
                PointerEvent::Motion { position } => match old(self).focus() {
                    Some((w, _)) => {
                        &&& final(self).focus() == Some((w, position))
                        &&& r matches Some(i) && input_view(i) == (
                            w,
                            ContactId::Mouse,
                            ContactPhase::Moved,
                            position,
                        )
                    },
                    None => final(self).focus() is None && r is None,
                },
                PointerEvent::Button { pressed } => {
                    &&& final(self).focus() == old(self).focus()
                    &&& match old(self).focus() {
                        Some((w, p)) => r matches Some(i) && input_view(i) == (
                            w,
                            ContactId::Mouse,
                            if pressed {
                                ContactPhase::Pressed
                            } else {
                                ContactPhase::Released
                            },
                            p,
                        ),
                        None => r is None,
                    }
                },
                PointerEvent::Leave => {
                    &&& final(self).focus() is None
                    &&& match old(self).focus() {
                        Some((w, p)) => r matches Some(i) && input_view(i) == (
                            w,
                            ContactId::Mouse,
                            ContactPhase::Cancelled,
                            p,
                        ),
                        None => r is None,
                    }
                },
                PointerEvent::Other => final(self).focus() == old(self).focus() && r is None,
            },
    {
        match e {
            PointerEvent::Enter { window, position } => match window {
                Some(w) => {
                    self.pointer_focus = Some((w, position));
                    Some(
                        ContactInput {
                            window: w,
                            contact: ContactId::Mouse,
                            phase: ContactPhase::Moved,
                            position,
                        },
                    )
                },
                None => None,
            },
            PointerEvent::Motion { position } => match self.pointer_focus {
                Some((w, _)) => {
                    self.pointer_focus = Some((w, position));
                    Some(
                        ContactInput {
                            window: w,
                            contact: ContactId::Mouse,
                            phase: ContactPhase::Moved,
                            position,
                        },
                    )
                },
                None => None,
            },
            PointerEvent::Button { pressed } => match self.pointer_focus {
                Some((w, p)) => Some(
                    ContactInput {
                        window: w,
                        contact: ContactId::Mouse,
                        phase: if pressed {
                            ContactPhase::Pressed
                        } else {
                            ContactPhase::Released
                        },
                        position: p,
                    },
                ),
                None => None,
            },
            PointerEvent::Leave => match self.pointer_focus {
                Some((w, p)) => {
                    self.pointer_focus = None;
                    Some(
                        ContactInput {
                            window: w,
                            contact: ContactId::Mouse,
                            phase: ContactPhase::Cancelled,
                            position: p,
                        },
                    )
                },
                None => None,
            },
            PointerEvent::Other => None,
        }
    }

    /// `wl_touch`, reduced. A `down` on a window is two inputs in order,
    /// `Moved` then `Pressed`, at the same position; `motion` moves a
    /// finger that is down; `up` releases it where it last was and forgets
    /// it; `cancel` cancels every finger down, each once, in no order the
    /// protocol gives, and forgets them all. A finger not down, or a
    /// `down` on no window, gives nothing.
    pub fn on_touch(&mut self, e: TouchEvent<P>) -> (r: Vec<ContactInput<P>>)
        ensures
            final(self).spec_has_pointer() == old(self).spec_has_pointer(),
            final(self).spec_has_touch() == old(self).spec_has_touch(),
            final(self).focus() == old(self).focus(),
            match e {
                TouchEvent::Down { window, id, position } => match window {
                    Some(w) => {
                        &&& final(self).touches() == old(self).touches().insert(id, (w, position))
                        &&& r@.len() == 2
                        &&& input_view(r@[0]) == (w, touch_contact(id), ContactPhase::Moved, position)
                        &&& input_view(r@[1]) == (
                            w,
                            touch_contact(id),
                            ContactPhase::Pressed,
                            position,
                        )
                    },
                    None => final(self).touches() == old(self).touches() && r@.len() == 0,
                },
                TouchEvent::Motion { id, position } => if old(self).touches().contains_key(id) {
                    let w = old(self).touches()[id].0;
                    &&& final(self).touches() == old(self).touches().insert(id, (w, position))
                    &&& r@.len() == 1
                    &&& input_view(r@[0]) == (w, touch_contact(id), ContactPhase::Moved, position)
                } else {
                    final(self).touches() == old(self).touches() && r@.len() == 0
                },
                TouchEvent::Up { id } => if old(self).touches().contains_key(id) {
                    let (w, p) = old(self).touches()[id];
                    &&& final(self).touches() == old(self).touches().remove(id)
                    &&& r@.len() == 1
                    &&& input_view(r@[0]) == (w, touch_contact(id), ContactPhase::Released, p)
                } else {
                    final(self).touches() == old(self).touches() && r@.len() == 0
                },
                TouchEvent::Cancel => {
                    &&& final(self).touches() == Map::<i32, (u64, P)>::empty()
                    &&& exists|order: Seq<i32>| cancels_all(old(self).touches(), order, r@)
                },
                TouchEvent::Other => final(self).touches() == old(self).touches() && r@.len() == 0,
            },
    {
        let mut out: Vec<ContactInput<P>> = Vec::new();
        match e {
            TouchEvent::Down { window, id, position } => {
                if let Some(w) = window {
                    self.touches.insert(id, (w, position));
                    out.push(
                        ContactInput {
                            window: w,
                            contact: ContactId::Touch(id as u32),
                            phase: ContactPhase::Moved,
                            position,
                        },
                    );
                    out.push(
                        ContactInput {
                            window: w,
                            contact: ContactId::Touch(id as u32),
                            phase: ContactPhase::Pressed,
                            position,
                        },
                    );
                }
            },
            TouchEvent::Motion { id, position } => {
                let found = match self.touches.get(&id) {
                    Some(t) => Some(t.0),
                    None => None,
                };
                if let Some(w) = found {
                    self.touches.insert(id, (w, position));
                    out.push(
                        ContactInput {
                            window: w,
                            contact: ContactId::Touch(id as u32),
                            phase: ContactPhase::Moved,
                            position,
                        },
                    );
                }
            },
            TouchEvent::Up { id } => {
                if let Some((w, p)) = self.touches.remove(&id) {
                    out.push(
                        ContactInput {
                            window: w,
                            contact: ContactId::Touch(id as u32),
                            phase: ContactPhase::Released,
                            position: p,
                        },
                    );
                }
            },
            TouchEvent::Cancel => {
                let ghost m = self.touches@;
                let ghost v = spec_hash_map_iter(&self.touches).remaining();
                let mut order: Ghost<Seq<i32>> = Ghost(Seq::empty());
                for kv in it: self.touches.iter()
                    invariant
                        m == self.touches@,
                        v == spec_hash_map_iter(&self.touches).remaining(),
                        it.seq() == v,
                        v.no_duplicates(),
                        order@.len() == it.index(),
                        out@.len() == it.index(),
                        forall|k: int| 0 <= k < it.index() ==> order@[k] == *(#[trigger] it.seq()[k]).0,
                        forall|k: int|
                            0 <= k < out@.len() ==> input_view(#[trigger] out@[k]) == (
                                m[order@[k]].0,
                                touch_contact(order@[k]),
                                ContactPhase::Cancelled,
                                m[order@[k]].1,
                            ),
                {
                    let (id, t) = kv;
                    proof {
                        assert(m.contains_key(*it.seq()[it.index() as int].0));
                        order@ = order@.push(*id);
                    }
                    out.push(
                        ContactInput {
                            window: t.0,
                            contact: ContactId::Touch(*id as u32),
                            phase: ContactPhase::Cancelled,
                            position: t.1,
                        },
                    );
                }
                proof {
                    assert(order@.len() == v.len());
                    assert forall|a: int, b: int|
                        0 <= a < order@.len() && 0 <= b < order@.len() && a != b implies order@[a]
                        != order@[b] by {
                        if order@[a] == order@[b] {
                            assert(m.contains_key(*v[a].0));
                            assert(m.contains_key(*v[b].0));
                            assert(*v[a].1 == m[*v[a].0]);
                            assert(*v[b].1 == m[*v[b].0]);
                            assert(v[a] == v[b]);
                        }
                    }
                    assert forall|k: i32| order@.to_set().contains(k) <==> m.dom().contains(k) by {
                        if m.dom().contains(k) {
                            assert(v.contains((&k, &m[k])));
                            let j = choose|j: int| 0 <= j < v.len() && v[j] == (&k, &m[k]);
                            assert(order@[j] == k);
                        }
                        if order@.to_set().contains(k) {
                            let j = choose|j: int| 0 <= j < order@.len() && order@[j] == k;
                            assert(m.contains_key(*v[j].0));
                        }
                    }
                    assert(order@.to_set() =~= m.dom());
                    assert(cancels_all(m, order@, out@));
                }
                self.touches = HashMap::new();
            },
            TouchEvent::Other => {},
        }
        out
    }
}

/// A finger that goes down on a window and comes up again, with no motion
/// between, is released on that window where it went down, and leaves
/// the other fingers as they were.
pub proof fn law_down_then_up<P>(touches: Map<i32, (u64, P)>, id: i32, window: u64, position: P)
    ensures
        ({
            let down = touches.insert(id, (window, position));
            &&& down.contains_key(id)
            &&& down[id] == (window, position)
            &&& down.remove(id) == touches.remove(id)
        }),
{
    assert(touches.insert(id, (window, position)).remove(id) =~= touches.remove(id));
}

} // verus!
