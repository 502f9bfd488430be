//! Pointer and touch input in, the nodes to notify out.
//!
//! The program around this library reduces `wl_pointer` and `wl_touch` to
//! one input, [`ContactInput`], runs the hit test for its position, and
//! hands both to [`Contacts`]. What comes back names the nodes that get
//! `Press`, `Release`, `Enter`, `Exit` and `Clicked`. A node is named by
//! its number; a position is whatever the caller measures in, carried
//! through untouched.
use vstd::prelude::*;
use std::collections::HashMap;
use smallvec::SmallVec;

verus! {

broadcast use vstd::std_specs::hash::group_hash_axioms;

/// The nodes under a contact, deepest first, window last: a `SmallVec`
/// that keeps up to eight inline.
#[verifier::external_body]
pub struct HitSet {
    nodes: SmallVec<[u64; 8]>,
}

/// The nodes a hit set holds, in order.
pub uninterp spec fn hit_nodes(s: HitSet) -> Seq<u64>;

/// How many nodes a hit set may hold for one more to go in: past this,
/// growing its buffer could ask for more than `isize::MAX` bytes.
pub open spec fn has_room(nodes: Seq<u64>) -> bool {
    nodes.len() < isize::MAX as int / 32
}

/// `SmallVec::new`: a set with nothing in it.
#[verifier::external_body]
fn empty_hits() -> (s: HitSet)
    ensures
        hit_nodes(s) == Seq::<u64>::empty(),
{
    HitSet { nodes: SmallVec::new() }
}

/// `SmallVec::push`: `node` goes in last. The buffer grows as needed,
/// which panics only past the room [`has_room`] leaves.
#[verifier::external_body]
fn push_hit(s: &mut HitSet, node: u64)
    requires
        has_room(hit_nodes(*old(s))),
    ensures
        hit_nodes(*final(s)) == hit_nodes(*old(s)).push(node),
{
    s.nodes.push(node)
}

/// `SmallVec::len`: how many nodes the set holds.
#[verifier::external_body]
fn hit_count(s: &HitSet) -> (r: usize)
    ensures
        r == hit_nodes(*s).len(),
{
    s.nodes.len()
}

/// Indexing a `SmallVec`: the node at `i`.
#[verifier::external_body]
fn hit_at(s: &HitSet, i: usize) -> (r: u64)
    requires
        i < hit_nodes(*s).len(),
    ensures
        r == hit_nodes(*s)[i as int],
{
    s.nodes[i]
}

/// `SmallVec::clone`: a set of the same nodes, in the same order.
#[verifier::external_body]
fn copy_hits(s: &HitSet) -> (r: HitSet)
    ensures
        hit_nodes(r) == hit_nodes(*s),
{
    HitSet { nodes: s.nodes.clone() }
}

impl HitSet {
    /// A set of these nodes, in this order.
    pub fn from_nodes(nodes: &[u64]) -> (s: HitSet)
        requires
            has_room(nodes@),
        ensures
            hit_nodes(s) == nodes@,
    {
        let mut s = empty_hits();
        let mut i: usize = 0;
        while i < nodes.len()
            invariant
                i <= nodes@.len(),
                has_room(nodes@),
                hit_nodes(s) == nodes@.take(i as int),
            decreases nodes@.len() - i,
        {
            push_hit(&mut s, nodes[i]);
            assert(nodes@.take(i + 1) =~= nodes@.take(i as int).push(nodes@[i as int]));
            i = i + 1;
        }
        assert(nodes@.take(nodes@.len() as int) =~= nodes@);
        s
    }

    /// The nodes, in order.
    pub fn nodes(&self) -> (v: Vec<u64>)
        ensures
            v@ == hit_nodes(*self),
    {
        let n = hit_count(self);
        let mut v: Vec<u64> = Vec::new();
        let mut i: usize = 0;
        while i < n
            invariant
                i <= n,
                n == hit_nodes(*self).len(),
                v@ == hit_nodes(*self).take(i as int),
            decreases n - i,
        {
            v.push(hit_at(self, i));
            assert(hit_nodes(*self).take(i + 1) =~= hit_nodes(*self).take(i as int).push(
                hit_nodes(*self)[i as int],
            ));
            i = i + 1;
        }
        assert(hit_nodes(*self).take(n as int) =~= hit_nodes(*self));
        v
    }

    /// Whether the set names no node.
    pub fn is_empty(&self) -> (b: bool)
        ensures
            b == (hit_nodes(*self).len() == 0),
    {
        hit_count(self) == 0
    }
}

/// One source of pointer-like input: the mouse pointer, or one live
/// finger on a touchscreen.
#[derive(Debug, Clone, Copy, PartialEq, Eq, Hash, Structural)]
pub enum ContactId {
    Mouse,
    /// `wl_touch`'s id for one finger; reused after that touch ends.
    Touch(u32),
}

impl ContactId {
    /// The contact as one number: a finger by its id, the mouse past
    /// every finger.
    pub open spec fn spec_key(self) -> u64 {
        match self {
            ContactId::Mouse => 0x1_0000_0000,
            ContactId::Touch(id) => id as u64,
        }
    }

    fn key(self) -> (k: u64)
        ensures
            k == self.spec_key(),
    {
        match self {
            ContactId::Mouse => 0x1_0000_0000,
            ContactId::Touch(id) => id as u64,
        }
    }
}

/// Two contacts with one key are one contact.
proof fn lemma_key_names_one_contact(a: ContactId, b: ContactId)
    ensures
        a.spec_key() == b.spec_key() ==> a == b,
{
}

#[derive(Debug, Clone, Copy, PartialEq, Eq, Structural)]
pub enum ContactPhase {
    /// A new position. Also how a contact is first seen: the mouse
    /// pointer's own first `Moved` is its `wl_pointer.enter`; a touch's
    /// first `Moved` carries the position its `wl_touch.down` reported,
    /// sent just before that same input's `Pressed`.
    Moved,
    /// The contact's button or finger went down at its last position.
    Pressed,
    /// It went up.
    Released,
    /// It stopped existing without a normal `Released`: `wl_pointer.leave`,
    /// `wl_touch.cancel`.
    Cancelled,
}

/// One input from one contact, at a window.
#[derive(Debug)]
pub struct ContactInput<P> {
    pub window: u64,
    pub contact: ContactId,
    pub phase: ContactPhase,
    pub position: P,
}

/// One live contact: where it is, what is under it right now (`hit`,
/// fresh every `Moved`), and, only while a button or finger is down, the
/// set `Press`/`Release`/`Clicked` stay locked onto (`captured`).
pub struct ContactState<P> {
    pub window: u64,
    pub position: P,
    pub hit: HitSet,
    pub captured: Option<HitSet>,
}

/// A live contact as a value.
pub struct ContactView<P> {
    pub window: u64,
    pub position: P,
    pub hit: Seq<u64>,
    pub captured: Option<Seq<u64>>,
}

impl<P> ContactState<P> {
    pub open spec fn view(self) -> ContactView<P> {
        ContactView {
            window: self.window,
            position: self.position,
            hit: hit_nodes(self.hit),
            captured: match self.captured {
                Some(c) => Some(hit_nodes(c)),
                None => None,
            },
        }
    }
}

/// The nodes of `nodes` that are not in `set`, in order.
pub open spec fn outside(set: Seq<u64>) -> spec_fn(u64) -> bool {
    |n: u64| !set.contains(n)
}

/// The hit set a contact had before this input: none if it was never
/// seen.
pub open spec fn hit_before<P>(live: Map<ContactId, ContactView<P>>, c: ContactId) -> Seq<u64> {
    if live.contains_key(c) {
        live[c].hit
    } else {
        Seq::empty()
    }
}

/// The contacts after a `Moved` of `c` at `window` and `position`, with
/// `hit` under it: a contact is made on first sight; its capture, if any,
/// is kept.
pub open spec fn moved<P>(
    live: Map<ContactId, ContactView<P>>,
    c: ContactId,
    window: u64,
    position: P,
    hit: Seq<u64>,
) -> Map<ContactId, ContactView<P>> {
    live.insert(
        c,
        ContactView {
            window,
            position,
            hit,
            captured: if live.contains_key(c) {
                live[c].captured
            } else {
                None
            },
        },
    )
}

/// The contacts after a `Pressed`: the hit set is fresh and captured.
pub open spec fn pressed<P>(
    live: Map<ContactId, ContactView<P>>,
    c: ContactId,
    window: u64,
    position: P,
    hit: Seq<u64>,
) -> Map<ContactId, ContactView<P>> {
    live.insert(c, ContactView { window, position, hit, captured: Some(hit) })
}

/// The contacts after a `Released`: a contact never seen is ignored; a
/// finger is gone, the mouse keeps hovering with no capture.
pub open spec fn released<P>(
    live: Map<ContactId, ContactView<P>>,
    c: ContactId,
    position: P,
) -> Map<ContactId, ContactView<P>> {
    if !live.contains_key(c) {
        live
    } else if c is Touch {
        live.remove(c)
    } else {
        live.insert(
            c,
            ContactView { window: live[c].window, position, hit: live[c].hit, captured: None },
        )
    }
}

/// Who hears of a `Moved`: the nodes it left get `Exit`, then the nodes
/// it reached get `Enter`.
pub struct Crossings {
    pub exited: HitSet,
    pub entered: HitSet,
}

/// Who hears of a `Released`: the set captured at `Press` gets `Release`
/// then `Clicked`; a finger's last hit set gets `Exit` as its state is
/// torn down.
pub struct Releasing {
    pub clicked: Option<HitSet>,
    pub exited: Option<HitSet>,
}

/// Whether `s` holds `node`.
fn holds(s: &HitSet, node: u64) -> (r: bool)
    ensures
        r == hit_nodes(*s).contains(node),
{
    let n = hit_count(s);
    let mut i: usize = 0;
    while i < n
        invariant
            i <= n,
            n == hit_nodes(*s).len(),
            forall|j: int| 0 <= j < i ==> hit_nodes(*s)[j] != node,
        decreases n - i,
    {
        if hit_at(s, i) == node {
            assert(hit_nodes(*s)[i as int] == node);
            return true;
        }
        i = i + 1;
    }
    false
}

/// The nodes of `from` not in `other`, in order.
fn not_in(from: &HitSet, other: &HitSet) -> (r: HitSet)
    requires
        has_room(hit_nodes(*from)),
    ensures
        hit_nodes(r) == hit_nodes(*from).filter(outside(hit_nodes(*other))),
{
    let ghost f = hit_nodes(*from);
    let n = hit_count(from);
    let mut out = empty_hits();
    let mut i: usize = 0;
    while i < n
        invariant
            i <= n,
            n == f.len(),
            f == hit_nodes(*from),
            has_room(f),
            hit_nodes(out) == f.take(i as int).filter(outside(hit_nodes(*other))),
        decreases n - i,
    {
        let node = hit_at(from, i);
        proof {
            assert(f.take(i + 1).drop_last() =~= f.take(i as int));
            assert(f.take(i + 1).last() == node);
            reveal(Seq::filter);
            f.take(i as int).lemma_filter_len(outside(hit_nodes(*other)));
        }
        if !holds(other, node) {
            push_hit(&mut out, node);
        }
        i = i + 1;
    }
    assert(f.take(n as int) =~= f);
    out
}

/// Every live contact, the mouse pointer and each active touch.
pub struct Contacts<P> {
    live: HashMap<u64, ContactState<P>>,
}

impl<P: Copy> Default for Contacts<P> {
    fn default() -> (r: Self)
        ensures
            r.wf(),
            r.live() == Map::<ContactId, ContactView<P>>::empty(),
    {
        Contacts::new()
    }
}

impl<P: Copy> Contacts<P> {
    /// Every live contact, as values.
    pub closed spec fn live(self) -> Map<ContactId, ContactView<P>> {
        Map::new(
            |c: ContactId| self.live@.contains_key(c.spec_key()),
            |c: ContactId| self.live@[c.spec_key()].view(),
        )
    }

    /// Every key in the table names a contact.
    pub closed spec fn wf(self) -> bool {
        forall|k: u64| #[trigger] self.live@.contains_key(k) ==> k <= 0x1_0000_0000
    }

    /// No contact seen yet.
    pub fn new() -> (r: Self)
        ensures
            r.wf(),
            r.live() == Map::<ContactId, ContactView<P>>::empty(),
    {
        let r = Contacts { live: HashMap::new() };
        assert(r.live() =~= Map::<ContactId, ContactView<P>>::empty());
        r
    }

    /// Whether `contact` has a button or finger down right now.
    pub fn is_pressed(&self, contact: ContactId) -> (r: bool)
        ensures
            r == (self.live().contains_key(contact) && self.live()[contact].captured is Some),
    {
        match self.live.get(&contact.key()) {
            Some(s) => s.captured.is_some(),
            None => false,
        }
    }

    /// `contact`'s last known position, or `None` if it has never been
    /// seen, or has since been torn down.
    pub fn position(&self, contact: ContactId) -> (r: Option<P>)
        ensures
            r == if self.live().contains_key(contact) {
                Some(self.live()[contact].position)
            } else {
                None
            },
    {
        match self.live.get(&contact.key()) {
            Some(s) => Some(s.position),
            None => None,
        }
    }

    /// Take `c`'s state out of the table, if it has one.
    fn take(&mut self, c: ContactId) -> (r: Option<ContactState<P>>)
        requires
            old(self).wf(),
        ensures
            final(self).wf(),
            match r {
                Some(s) => old(self).live().contains_key(c) && old(self).live()[c] == s.view(),
                None => !old(self).live().contains_key(c),
            },
            final(self).live() == old(self).live().remove(c),
    {
        let r = self.live.remove(&c.key());
        proof {
            assert forall|d: ContactId| #![auto] final(self).live().contains_key(d) <==> old(self).live().remove(c).contains_key(d) by {
                lemma_key_names_one_contact(c, d);
            }
            assert(final(self).live() =~= old(self).live().remove(c));
        }
        r
    }

    /// Put `s` in the table as `c`'s state.
    fn put(&mut self, c: ContactId, s: ContactState<P>)
        requires
            old(self).wf(),
        ensures
            final(self).wf(),
            final(self).live() == old(self).live().insert(c, s.view()),
    {
        let ghost v = s.view();
        self.live.insert(c.key(), s);
        proof {
            assert forall|d: ContactId| #![auto] final(self).live().contains_key(d) <==> old(self).live().insert(c, v).contains_key(d) by {
                lemma_key_names_one_contact(c, d);
            }
            assert forall|d: ContactId| #![auto] final(self).live().contains_key(d) implies final(self).live()[d] == old(self).live().insert(c, v)[d] by {
                lemma_key_names_one_contact(c, d);
            }
            assert(final(self).live() =~= old(self).live().insert(c, v));
        }
    }

    /// A `Moved`, with `hit` the fresh hit test at its position: the
    /// contact's hit set and position are replaced, and the nodes it left
    /// and reached come back. Any other phase changes nothing and names
    /// nobody.
    pub fn on_moved(&mut self, input: &ContactInput<P>, hit: HitSet) -> (r: Crossings)
        requires
            old(self).wf(),
            has_room(hit_nodes(hit)),
            has_room(hit_before(old(self).live(), input.contact)),
        ensures
            final(self).wf(),
            input.phase != ContactPhase::Moved ==> {
                &&& final(self).live() == old(self).live()
                &&& hit_nodes(r.exited) == Seq::<u64>::empty()
                &&& hit_nodes(r.entered) == Seq::<u64>::empty()
            },
            input.phase == ContactPhase::Moved ==> {
                let before = hit_before(old(self).live(), input.contact);
                &&& final(self).live() == moved(
                    old(self).live(),
                    input.contact,
                    input.window,
                    input.position,
                    hit_nodes(hit),
                )
                &&& hit_nodes(r.exited) == before.filter(outside(hit_nodes(hit)))
                &&& hit_nodes(r.entered) == hit_nodes(hit).filter(outside(before))
            },
    {
        if input.phase != ContactPhase::Moved {
            return Crossings { exited: empty_hits(), entered: empty_hits() };
        }
        let (captured, before) = match self.take(input.contact) {
            Some(s) => (s.captured, s.hit),
            None => (None, empty_hits()),
        };
        let exited = not_in(&before, &hit);
        let entered = not_in(&hit, &before);
        self.put(
            input.contact,
            ContactState { window: input.window, position: input.position, hit, captured },
        );
        proof {
            assert(old(self).live().remove(input.contact).insert(
                input.contact,
                ContactState { window: input.window, position: input.position, hit, captured }.view(),
            ) =~= moved(old(self).live(), input.contact, input.window, input.position, hit_nodes(hit)));
        }
        Crossings { exited, entered }
    }

    /// A `Pressed`, with `hit` the fresh hit test at its position: the hit
    /// set is replaced and captured, and it comes back as the nodes that
    /// get `Press`. Any other phase changes nothing and names nobody.
    pub fn on_pressed(&mut self, input: &ContactInput<P>, hit: HitSet) -> (r: HitSet)
        requires
            old(self).wf(),
        ensures
            final(self).wf(),
            input.phase != ContactPhase::Pressed ==> {
                &&& final(self).live() == old(self).live()
                &&& hit_nodes(r) == Seq::<u64>::empty()
            },
            input.phase == ContactPhase::Pressed ==> {
                &&& final(self).live() == pressed(
                    old(self).live(),
                    input.contact,
                    input.window,
                    input.position,
                    hit_nodes(hit),
                )
                &&& hit_nodes(r) == hit_nodes(hit)
            },
    {
        if input.phase != ContactPhase::Pressed {
            return empty_hits();
        }
        let press = copy_hits(&hit);
        let captured = copy_hits(&hit);
        self.put(
            input.contact,
            ContactState {
                window: input.window,
                position: input.position,
                hit,
                captured: Some(captured),
            },
        );
        proof {
            assert(old(self).live().insert(
                input.contact,
                ContactState {
                    window: input.window,
                    position: input.position,
                    hit,
                    captured: Some(captured),
                }.view(),
            ) =~= pressed(old(self).live(), input.contact, input.window, input.position, hit_nodes(hit)));
        }
        press
    }

    /// A `Released`: the capture is let go and comes back, when it names
    /// anyone, as the nodes that get `Release` and `Clicked`, whether or
    /// not the contact is still over them. A finger's state is then torn
    /// down and its last hit set, when not empty, gets `Exit`; the mouse
    /// keeps hovering. A contact never seen, or any other phase, changes
    /// nothing and names nobody.
    pub fn on_released(&mut self, input: &ContactInput<P>) -> (r: Releasing)
        requires
            old(self).wf(),
        ensures
            final(self).wf(),
            input.phase != ContactPhase::Released ==> {
                &&& final(self).live() == old(self).live()
                &&& r.clicked is None
                &&& r.exited is None
            },
            input.phase == ContactPhase::Released ==> {
                let live = old(self).live();
                let c = input.contact;
                &&& final(self).live() == released(live, c, input.position)
                &&& match r.clicked {
                    Some(set) => live.contains_key(c) && live[c].captured == Some(hit_nodes(set))
                        && hit_nodes(set).len() > 0,
                    None => !(live.contains_key(c) && live[c].captured is Some
                        && live[c].captured.unwrap().len() > 0),
                }
                &&& match r.exited {
                    Some(set) => live.contains_key(c) && c is Touch && live[c].hit == hit_nodes(set)
                        && hit_nodes(set).len() > 0,
                    None => !(live.contains_key(c) && c is Touch && live[c].hit.len() > 0),
                }
            },
    {
        if input.phase != ContactPhase::Released {
            return Releasing { clicked: None, exited: None };
        }
        let s = match self.take(input.contact) {
            Some(s) => s,
            None => return Releasing { clicked: None, exited: None },
        };
        let ContactState { window, position: _, hit, captured } = s;
        let clicked = match captured {
            Some(set) => if hit_count(&set) > 0 {
                Some(set)
            } else {
                None
            },
            None => None,
        };
        match input.contact {
            ContactId::Touch(_) => {
                let exited = if hit_count(&hit) > 0 {
                    Some(hit)
                } else {
                    None
                };
                Releasing { clicked, exited }
            },
            ContactId::Mouse => {
                self.put(
                    input.contact,
                    ContactState { window, position: input.position, hit, captured: None },
                );
                proof {
                    let live = old(self).live();
                    assert(live.remove(input.contact).insert(
                        input.contact,
                        ContactView {
                            window: live[input.contact].window,
                            position: input.position,
                            hit: live[input.contact].hit,
                            captured: None,
                        },
                    ) =~= released(live, input.contact, input.position));
                }
                Releasing { clicked, exited: None }
            },
        }
    }

    /// A `Cancelled`: the contact's state is torn down with no `Release`
    /// or `Clicked`, and its last hit set, when not empty, gets `Exit`.
    /// Any other phase changes nothing and names nobody.
    pub fn on_cancelled(&mut self, input: &ContactInput<P>) -> (r: Option<HitSet>)
        requires
            old(self).wf(),
        ensures
            final(self).wf(),
            input.phase != ContactPhase::Cancelled ==> {
                &&& final(self).live() == old(self).live()
                &&& r is None
            },
            input.phase == ContactPhase::Cancelled ==> {
                let live = old(self).live();
                let c = input.contact;
                &&& final(self).live() == live.remove(c)
                &&& match r {
                    Some(set) => live.contains_key(c) && live[c].hit == hit_nodes(set)
                        && hit_nodes(set).len() > 0,
                    None => !(live.contains_key(c) && live[c].hit.len() > 0),
                }
            },
    {
        if input.phase != ContactPhase::Cancelled {
            return None;
        }
        match self.take(input.contact) {
            Some(s) => if hit_count(&s.hit) > 0 {
                Some(s.hit)
            } else {
                None
            },
            None => None,
        }
    }
}

/// The contacts after `c` moves through `steps`, each a window, a
/// position and the hit set there, in order.
pub open spec fn moved_through<P>(
    live: Map<ContactId, ContactView<P>>,
    c: ContactId,
    steps: Seq<(u64, P, Seq<u64>)>,
) -> Map<ContactId, ContactView<P>>
    decreases steps.len(),
{
    if steps.len() == 0 {
        live
    } else {
        let last = steps.last();
        moved(moved_through(live, c, steps.drop_last()), c, last.0, last.1, last.2)
    }
}

/// A capture survives moving: what a `Press` captured is still held,
/// and so is what the next `Release` of that contact reaches, however
/// the contact moved in between, on or off the captured nodes.
pub proof fn law_capture_survives_moves<P>(
    live: Map<ContactId, ContactView<P>>,
    c: ContactId,
    window: u64,
    position: P,
    hit: Seq<u64>,
    steps: Seq<(u64, P, Seq<u64>)>,
)
    ensures
        moved_through(pressed(live, c, window, position, hit), c, steps).contains_key(c),
        moved_through(pressed(live, c, window, position, hit), c, steps)[c].captured == Some(hit),
    decreases steps.len(),
{
    if steps.len() > 0 {
        law_capture_survives_moves(live, c, window, position, hit, steps.drop_last());
    }
}

/// Contacts are independent: an input of one contact leaves every other
/// contact as it was.
pub proof fn law_contacts_are_independent<P>(
    live: Map<ContactId, ContactView<P>>,
    c: ContactId,
    d: ContactId,
    window: u64,
    position: P,
    hit: Seq<u64>,
)
    requires
        c != d,
    ensures
        moved(live, c, window, position, hit).contains_key(d) == live.contains_key(d),
        pressed(live, c, window, position, hit).contains_key(d) == live.contains_key(d),
        released(live, c, position).contains_key(d) == live.contains_key(d),
        live.remove(c).contains_key(d) == live.contains_key(d),
        live.contains_key(d) ==> {
            &&& moved(live, c, window, position, hit)[d] == live[d]
            &&& pressed(live, c, window, position, hit)[d] == live[d]
            &&& released(live, c, position)[d] == live[d]
            &&& live.remove(c)[d] == live[d]
        },
{
}

/// A `Press` holds the contact down; a `Release` lets it go. A finger's
/// release ends the finger; the mouse stays, hovering where it was.
pub proof fn law_press_then_release<P>(
    live: Map<ContactId, ContactView<P>>,
    c: ContactId,
    window: u64,
    position: P,
    hit: Seq<u64>,
    up: P,
)
    ensures
        pressed(live, c, window, position, hit)[c].captured is Some,
        c is Touch ==> !released(pressed(live, c, window, position, hit), c, up).contains_key(c),
        c is Mouse ==> {
            let after = released(pressed(live, c, window, position, hit), c, up);
            &&& after.contains_key(c)
            &&& after[c].captured is None
            &&& after[c].hit == hit
            &&& after[c].position == up
        },
{
}

/// What a move reports: the nodes it entered are exactly those under it
/// now and not before, the nodes it exited exactly those under it before
/// and not now.
pub proof fn law_crossings(before: Seq<u64>, hit: Seq<u64>, n: u64)
    ensures
        hit.filter(outside(before)).contains(n) <==> (hit.contains(n) && !before.contains(n)),
        before.filter(outside(hit)).contains(n) <==> (before.contains(n) && !hit.contains(n)),
{
    broadcast use vstd::seq_lib::group_filter_ensures;

    if hit.contains(n) && !before.contains(n) {
        let i = choose|i: int| 0 <= i < hit.len() && hit[i] == n;
        hit.lemma_filter_contains(outside(before), i);
    }
    if before.contains(n) && !hit.contains(n) {
        let i = choose|i: int| 0 <= i < before.len() && before[i] == n;
        before.lemma_filter_contains(outside(hit), i);
    }
    if hit.filter(outside(before)).contains(n) {
        let j = choose|j: int| 0 <= j < hit.filter(outside(before)).len() && hit.filter(outside(before))[j] == n;
        hit.lemma_filter_pred(outside(before), j);
        hit.lemma_filter_contains_rev(outside(before), n);
    }
    if before.filter(outside(hit)).contains(n) {
        let j = choose|j: int| 0 <= j < before.filter(outside(hit)).len() && before.filter(outside(hit))[j] == n;
        before.lemma_filter_pred(outside(hit), j);
        before.lemma_filter_contains_rev(outside(hit), n);
    }
}

/// A move that stays over the same nodes reports nothing.
pub proof fn law_staying_put_reports_nothing(hit: Seq<u64>)
    ensures
        hit.filter(outside(hit)) == Seq::<u64>::empty(),
{
    broadcast use vstd::seq_lib::group_filter_ensures;

    if hit.filter(outside(hit)).len() > 0 {
        hit.lemma_filter_pred(outside(hit), 0);
        let n = hit.filter(outside(hit))[0];
        assert(hit.filter(outside(hit)).contains(n));
        hit.lemma_filter_contains_rev(outside(hit), n);
    }
    assert(hit.filter(outside(hit)) =~= Seq::<u64>::empty());
}

} // verus!
