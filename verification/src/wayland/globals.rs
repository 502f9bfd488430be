//! The registry and every global it currently advertises.
use vstd::prelude::*;

use crate::wayland::connection::Wayland;
use crate::wayland::display::{RegistryEventView, WlRegistry, WlRegistryEvent};
use crate::wayland::wire::{message, string_bytes, word_bytes};
use crate::wayland::{Interface, ObjectId};

verus! {

/// One advertised global.
#[derive(Debug, PartialEq, Eq)]
pub struct Global {
    pub name: u32,
    pub interface: String,
    pub version: u32,
}

/// A global with its interface name as characters.
pub struct GlobalView {
    pub name: u32,
    pub interface: Seq<char>,
    pub version: u32,
}

impl View for Global {
    type V = GlobalView;

    open spec fn view(&self) -> GlobalView {
        GlobalView { name: self.name, interface: self.interface@, version: self.version }
    }
}

impl Global {
    /// A copy of this global.
    pub fn duplicate(&self) -> (g: Global)
        ensures
            g@ == self@,
    {
        Global { name: self.name, interface: self.interface.clone(), version: self.version }
    }
}

/// The globals of `list` not named `name`, in order.
pub open spec fn without_name(list: Seq<GlobalView>, name: u32) -> Seq<GlobalView>
    decreases list.len(),
{
    if list.len() == 0 {
        Seq::empty()
    } else {
        (if list[0].name != name {
            seq![list[0]]
        } else {
            Seq::empty()
        }) + without_name(list.drop_first(), name)
    }
}

/// The first global of `list` advertising `interface`, by index.
pub open spec fn first_of(list: Seq<GlobalView>, interface: Seq<char>) -> Option<int> {
    if exists|i: int| 0 <= i < list.len() && (#[trigger] list[i]).interface == interface {
        Some(
            choose|i: int|
                0 <= i < list.len() && (#[trigger] list[i]).interface == interface && forall|j: int|
                    0 <= j < i ==> (#[trigger] list[j]).interface != interface,
        )
    } else {
        None
    }
}

/// The registry and every global it currently advertises, in the order
/// advertised.
pub struct Globals {
    registry: WlRegistry,
    list: Vec<Global>,
}

impl Globals {
    pub closed spec fn spec_registry(self) -> WlRegistry {
        self.registry
    }

    /// The globals advertised and not since removed, in order.
    pub closed spec fn list(self) -> Seq<GlobalView> {
        self.list@.map_values(|g: Global| g@)
    }

    /// Nothing advertised yet.
    pub fn new(registry: WlRegistry) -> (g: Globals)
        ensures
            g.spec_registry() == registry,
            g.list() == Seq::<GlobalView>::empty(),
    {
        let g = Globals { registry, list: Vec::new() };
        assert(g.list() =~= Seq::<GlobalView>::empty());
        g
    }

    pub fn registry(&self) -> (r: WlRegistry)
        ensures
            r == self.spec_registry(),
    {
        self.registry
    }

    /// Every global, in the order advertised.
    pub fn iter(&self) -> (r: &[Global])
        ensures
            r@.map_values(|g: Global| g@) == self.list(),
    {
        self.list.as_slice()
    }

    /// The first advertised global of that interface.
    pub fn find(&self, interface: &str) -> (r: Option<&Global>)
        ensures
            match r {
                Some(g) => first_of(self.list(), interface@) matches Some(i) && self.list()[i] == g@,
                None => first_of(self.list(), interface@) is None,
            },
    {
        let target = interface.to_owned();
        let mut i: usize = 0;
        while i < self.list.len()
            invariant
                i <= self.list@.len(),
                target@ == interface@,
                forall|j: int| 0 <= j < i ==> (#[trigger] self.list()[j]).interface != interface@,
            decreases self.list@.len() - i,
        {
            if self.list[i].interface == target {
                proof {
                    let l = self.list();
                    assert(l[i as int].interface == interface@);
                    let k = choose|k: int|
                        0 <= k < l.len() && (#[trigger] l[k]).interface == interface@ && forall|j: int|
                            0 <= j < k ==> (#[trigger] l[j]).interface != interface@;
                    assert(0 <= k < l.len() && l[k].interface == interface@ && forall|j: int|
                        0 <= j < k ==> (#[trigger] l[j]).interface != interface@);
                    if k < i {
                    } else if k > i {
                        assert(l[i as int].interface != interface@);
                    }
                }
                return Some(&self.list[i]);
            }
            i = i + 1;
        }
        None
    }

    /// Bind `global` as `I`, at the lesser of its version and `I::VERSION`.
    /// `global` must advertise `I`.
    pub fn bind<I: Interface>(&self, global: &Global, wl: &mut Wayland) -> (object: I)
        requires
            old(wl).wf(),
            global.interface@ == I::NAME@,
        ensures
            object.spec_id() == ObjectId(old(wl).next_id()),
            ({
                let version = if global.version <= I::VERSION {
                    global.version
                } else {
                    I::VERSION
                };
                final(wl).allocated_from_then_sent(
                    *old(wl),
                    I::spec_info(),
                    version,
                    message(
                        self.spec_registry().0.0,
                        0,
                        word_bytes(global.name) + string_bytes(I::NAME@) + word_bytes(version)
                            + word_bytes(old(wl).next_id()),
                    ),
                )
            }),
    {
        let version = if global.version <= I::VERSION {
            global.version
        } else {
            I::VERSION
        };
        self.registry.bind::<I>(wl, global.name, version)
    }

    /// A registry event: `global` adds to the end of the list,
    /// `global_remove` takes out every global of that name.
    pub fn on_registry(&mut self, e: &WlRegistryEvent)
        ensures
            final(self).spec_registry() == old(self).spec_registry(),
            final(self).list() == match e@ {
                RegistryEventView::Global { name, interface, version, .. } => old(self).list().push(
                    GlobalView { name, interface, version },
                ),
                RegistryEventView::GlobalRemove { name, .. } => without_name(old(self).list(), name),
            },
    {
        match e {
            WlRegistryEvent::Global { name, interface, version, .. } => {
                self.list.push(Global { name: *name, interface: interface.clone(), version: *version });
                assert(self.list() =~= old(self).list().push(
                    GlobalView { name: *name, interface: interface@, version: *version },
                ));
            },
            WlRegistryEvent::GlobalRemove { name, .. } => {
                let mut rest: Vec<Global> = Vec::new();
                std::mem::swap(&mut rest, &mut self.list);
                let ghost all = rest@.map_values(|g: Global| g@);
                while rest.len() > 0
                    invariant
                        self.registry == old(self).registry,
                        all == old(self).list(),
                        without_name(all, *name) == self.list() + without_name(
                            rest@.map_values(|g: Global| g@),
                            *name,
                        ),
                    decreases rest@.len(),
                {
                    let ghost before = rest@.map_values(|g: Global| g@);
                    let g = rest.remove(0);
                    assert(rest@.map_values(|g: Global| g@) =~= before.drop_first());
                    let ghost kept = self.list();
                    if g.name != *name {
                        self.list.push(g);
                        assert(self.list() =~= kept.push(before[0]));
                        assert(kept + without_name(before, *name) =~= self.list() + without_name(
                            before.drop_first(),
                            *name,
                        ));
                    } else {
                        assert(kept + without_name(before, *name) =~= self.list() + without_name(
                            before.drop_first(),
                            *name,
                        ));
                    }
                }
                assert(self.list() + without_name(Seq::<GlobalView>::empty(), *name) =~= self.list());
                assert(rest@.map_values(|g: Global| g@) =~= Seq::<GlobalView>::empty());
            },
        }
    }
}

/// A `global_remove` leaves no global of that name, and keeps every other
/// global that was advertised.
pub proof fn law_remove_keeps_the_others(list: Seq<GlobalView>, name: u32)
    ensures
        forall|i: int|
            0 <= i < without_name(list, name).len() ==> (#[trigger] without_name(list, name)[i]).name
                != name,
        forall|g: GlobalView| list.contains(g) && g.name != name ==> #[trigger] without_name(
            list,
            name,
        ).contains(g),
    decreases list.len(),
{
    if list.len() > 0 {
        let rest = list.drop_first();
        law_remove_keeps_the_others(rest, name);
        let head: Seq<GlobalView> = if list[0].name != name {
            seq![list[0]]
        } else {
            Seq::empty()
        };
        assert(without_name(list, name) == head + without_name(rest, name));
        assert forall|i: int| 0 <= i < without_name(list, name).len() implies (#[trigger] without_name(
            list,
            name,
        )[i]).name != name by {
            if i >= head.len() {
                assert(without_name(list, name)[i] == without_name(rest, name)[i - head.len()]);
            }
        }
        assert forall|g: GlobalView| list.contains(g) && g.name != name implies #[trigger] without_name(
            list,
            name,
        ).contains(g) by {
            let k = choose|k: int| 0 <= k < list.len() && list[k] == g;
            if k == 0 {
                assert(without_name(list, name)[0] == g);
            } else {
                assert(rest[k - 1] == g);
                assert(rest.contains(g));
                assert(without_name(rest, name).contains(g));
                let j = choose|j: int| 0 <= j < without_name(rest, name).len() && without_name(rest, name)[j] == g;
                assert(without_name(list, name)[head.len() + j] == g);
            }
        }
    }
}

/// Whether a global is not the one named `name`.
pub open spec fn not_named(name: u32) -> spec_fn(GlobalView) -> bool {
    |g: GlobalView| g.name != name
}

/// A `global_remove` keeps the other globals in the order they were
/// advertised: what is left is the advertised list with that name
/// filtered out, and nothing else.
pub proof fn law_remove_keeps_the_order(list: Seq<GlobalView>, name: u32)
    ensures
        without_name(list, name) == list.filter(not_named(name)),
    decreases list.len(),
{
    reveal(Seq::filter);
    if list.len() == 0 {
        assert(list.filter(not_named(name)) =~= Seq::<GlobalView>::empty());
    } else {
        let rest = list.drop_first();
        let one = seq![list[0]];
        law_remove_keeps_the_order(rest, name);
        assert(list =~= one + rest);
        Seq::filter_distributes_over_add(one, rest, not_named(name));
        assert(one.drop_last() =~= Seq::<GlobalView>::empty());
        assert(Seq::<GlobalView>::empty().filter(not_named(name)) =~= Seq::<GlobalView>::empty());
        if list[0].name != name {
            assert(one.filter(not_named(name)) =~= one);
        } else {
            assert(one.filter(not_named(name)) =~= Seq::<GlobalView>::empty());
        }
    }
}

/// A lookup finds the first global advertised with the interface: it
/// advertises that interface and none before it does; and it finds none
/// only when no global advertises it.
pub proof fn law_find_gives_the_first_advertised(list: Seq<GlobalView>, interface: Seq<char>)
    ensures
        first_of(list, interface) matches Some(i) ==> {
            &&& 0 <= i < list.len()
            &&& list[i].interface == interface
            &&& forall|j: int| 0 <= j < i ==> (#[trigger] list[j]).interface != interface
        },
        first_of(list, interface) is None ==> forall|j: int|
            0 <= j < list.len() ==> (#[trigger] list[j]).interface != interface,
{
    if exists|i: int| 0 <= i < list.len() && (#[trigger] list[i]).interface == interface {
        let i0 = choose|i: int| 0 <= i < list.len() && (#[trigger] list[i]).interface == interface;
        lemma_least_of_interface(list, interface, i0);
    }
}

/// Below any index advertising the interface there is a least one.
proof fn lemma_least_of_interface(list: Seq<GlobalView>, interface: Seq<char>, i: int)
    requires
        0 <= i < list.len(),
        list[i].interface == interface,
    ensures
        exists|k: int|
            0 <= k < list.len() && (#[trigger] list[k]).interface == interface && forall|j: int|
                0 <= j < k ==> (#[trigger] list[j]).interface != interface,
    decreases i,
{
    if exists|j: int| 0 <= j < i && (#[trigger] list[j]).interface == interface {
        let j = choose|j: int| 0 <= j < i && (#[trigger] list[j]).interface == interface;
        lemma_least_of_interface(list, interface, j);
    } else {
        assert(forall|j: int| 0 <= j < i ==> (#[trigger] list[j]).interface != interface);
    }
}

/// A global advertised on a list that had none of its interface is what
/// a lookup of that interface finds.
pub proof fn law_advertised_then_found(list: Seq<GlobalView>, g: GlobalView)
    requires
        first_of(list, g.interface) is None,
    ensures
        first_of(list.push(g), g.interface) == Some(list.len() as int),
{
    let l = list.push(g);
    assert(l[list.len() as int] == g);
    assert forall|j: int| 0 <= j < list.len() implies (#[trigger] l[j]).interface != g.interface by {
        assert(l[j] == list[j]);
        if list[j].interface == g.interface {
            assert(0 <= j < list.len() && list[j].interface == g.interface);
        }
    }
    let k = choose|k: int|
        0 <= k < l.len() && (#[trigger] l[k]).interface == g.interface && forall|j: int|
            0 <= j < k ==> (#[trigger] l[j]).interface != g.interface;
    assert(0 <= k < l.len() && l[k].interface == g.interface && forall|j: int|
        0 <= j < k ==> (#[trigger] l[j]).interface != g.interface);
    if k < list.len() {
        assert(l[k] == list[k]);
    }
    assert(k == list.len());
}

} // verus!
