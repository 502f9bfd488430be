//! A window on the compositor: the objects a toplevel is made of, the
//! requests that make it, and which window owns each object, so that an
//! event for any of them finds its window.
use vstd::prelude::*;
use vstd::utf8::encode_utf8;
use std::collections::HashMap;

use crate::wayland::connection::{lemma_free_ids_name_slots, Table, Wayland};
use crate::wayland::display::WlCallback;
use crate::wayland::protocol::{WlBuffer, WlCompositor, WlSurface, XdgWmBase};
use crate::wayland::wire::{
    lemma_read_string_of_string, read_string, lemma_auto_words, lemma_header_of_message, lemma_word_round_trip, message, spec_header,
    string_bytes, word_at, word_bytes, Header,
};
use crate::wayland::layer::{
    spec_keyboard_value, spec_layer_value, Anchor, KeyboardInteractivity, Layer, ZwlrLayerShellV1,
    ZwlrLayerSurfaceV1,
};
use crate::wayland::xdg::{XdgSurface, XdgToplevel};
use crate::wayland::{Interface, ObjectId, SERVER_ID_BASE};

verus! {

broadcast use vstd::std_specs::hash::group_hash_axioms;

/// The objects a toplevel window is made of.
#[derive(Debug, Clone, Copy, PartialEq, Eq, Structural)]
pub struct Toplevel {
    pub surface: WlSurface,
    pub xdg: XdgSurface,
    pub toplevel: XdgToplevel,
}

/// What opening a toplevel puts on the wire: the surface, its desktop
/// role, the window, its title and app id, and the first commit, with no
/// buffer.
pub open spec fn toplevel_bytes(
    compositor: u32,
    wm_base: u32,
    t: Toplevel,
    title: Seq<char>,
    app_id: Seq<char>,
) -> Seq<u8> {
    message(compositor, 0, word_bytes(t.surface.0.0)) + message(
        wm_base,
        2,
        word_bytes(t.xdg.0.0) + word_bytes(t.surface.0.0),
    ) + message(t.xdg.0.0, 1, word_bytes(t.toplevel.0.0)) + message(
        t.toplevel.0.0,
        2,
        string_bytes(title),
    ) + message(t.toplevel.0.0, 3, string_bytes(app_id)) + message(t.surface.0.0, 6, Seq::empty())
}

/// A toplevel is made as asked: the compositor makes the surface, the
/// shell its `xdg_surface` for that surface, which makes the toplevel;
/// then the toplevel's title, then its app id, each reading back as
/// given.
pub proof fn law_a_toplevel_is_made_as_asked(
    compositor: u32,
    wm_base: u32,
    t: Toplevel,
    title: Seq<char>,
    app_id: Seq<char>,
)
    requires
        encode_utf8(title).len() + 1 < 0x1_0000_0000,
        encode_utf8(app_id).len() + 1 < 0x1_0000_0000,
    ensures
        ({
            let out = toplevel_bytes(compositor, wm_base, t, title, app_id);
            let a = 56 + string_bytes(title).len() as int;
            &&& spec_header(out) matches Some(h) && h.sender == ObjectId(compositor) && h.opcode == 0
            &&& word_at(out, 8) == t.surface.0.0
            &&& spec_header(out.skip(12)) matches Some(h) && h.sender == ObjectId(wm_base) && h.opcode == 2
            &&& word_at(out, 20) == t.xdg.0.0
            &&& word_at(out, 24) == t.surface.0.0
            &&& spec_header(out.skip(28)) matches Some(h) && h.sender == t.xdg.0 && h.opcode == 1
            &&& word_at(out, 36) == t.toplevel.0.0
            &&& spec_header(out.skip(40)) matches Some(h) && h.sender == t.toplevel.0 && h.opcode == 2
            &&& read_string(out, 48).0 == Some(title)
            &&& spec_header(out.skip(a - 8)) matches Some(h) && h.sender == t.toplevel.0 && h.opcode == 3
            &&& read_string(out, a).0 == Some(app_id)
        }),
{
    lemma_auto_words();
    let s = t.surface.0.0;
    let x = t.xdg.0.0;
    let tl = t.toplevel.0.0;
    let m1 = message(compositor, 0, word_bytes(s));
    let m2 = message(wm_base, 2, word_bytes(x) + word_bytes(s));
    let m3 = message(x, 1, word_bytes(tl));
    let m4 = message(tl, 2, string_bytes(title));
    let m5 = message(tl, 3, string_bytes(app_id));
    let m6 = message(s, 6, Seq::empty());
    let out = toplevel_bytes(compositor, wm_base, t, title, app_id);
    assert(out =~= m1 + (m2 + m3 + m4 + m5 + m6));
    lemma_header_of_message(compositor, 0, word_bytes(s), m2 + m3 + m4 + m5 + m6);
    let hw = |sender: u32, n: nat, op: u16| word_bytes(sender) + word_bytes(crate::wayland::wire::size_word(8 + n, op));
    assert(out =~= hw(compositor, 4, 0) + word_bytes(s) + (m2 + m3 + m4 + m5 + m6));
    lemma_word_round_trip(s, hw(compositor, 4, 0), m2 + m3 + m4 + m5 + m6);
    assert(out.skip(12) =~= m2 + (m3 + m4 + m5 + m6));
    lemma_header_of_message(wm_base, 2, word_bytes(x) + word_bytes(s), m3 + m4 + m5 + m6);
    assert(out =~= (m1 + hw(wm_base, 8, 2)) + word_bytes(x) + (word_bytes(s) + m3 + m4 + m5 + m6));
    lemma_word_round_trip(x, m1 + hw(wm_base, 8, 2), word_bytes(s) + m3 + m4 + m5 + m6);
    assert(out =~= (m1 + hw(wm_base, 8, 2) + word_bytes(x)) + word_bytes(s) + (m3 + m4 + m5 + m6));
    lemma_word_round_trip(s, m1 + hw(wm_base, 8, 2) + word_bytes(x), m3 + m4 + m5 + m6);
    assert(out.skip(28) =~= m3 + (m4 + m5 + m6));
    lemma_header_of_message(x, 1, word_bytes(tl), m4 + m5 + m6);
    assert(out =~= (m1 + m2 + hw(x, 4, 1)) + word_bytes(tl) + (m4 + m5 + m6));
    lemma_word_round_trip(tl, m1 + m2 + hw(x, 4, 1), m4 + m5 + m6);
    assert(out.skip(40) =~= m4 + (m5 + m6));
    lemma_header_of_message(tl, 2, string_bytes(title), m5 + m6);
    let pre4 = m1 + m2 + m3 + hw(tl, string_bytes(title).len(), 2);
    assert(pre4.len() == 48);
    assert(out =~= pre4 + string_bytes(title) + (m5 + m6));
    lemma_read_string_of_string(title, pre4, m5 + m6);
    let a = 56 + string_bytes(title).len() as int;
    assert((m1 + m2 + m3 + m4).len() == a - 8);
    assert(out.skip(a - 8) =~= m5 + m6);
    lemma_header_of_message(tl, 3, string_bytes(app_id), m6);
    let pre5 = m1 + m2 + m3 + m4 + hw(tl, string_bytes(app_id).len(), 3);
    assert(pre5.len() == a);
    assert(out =~= pre5 + string_bytes(app_id) + m6);
    lemma_read_string_of_string(app_id, pre5, m6);
}

/// Make a window a toplevel: a surface from the compositor, at its
/// version; its `xdg_surface`, at the shell's, and its `xdg_toplevel`, at
/// the `xdg_surface`'s; the title and app id; and the initial commit. The
/// client ids must not run into the server's.
pub fn open_toplevel(
    wl: &mut Wayland,
    compositor: WlCompositor,
    wm_base: XdgWmBase,
    title: &str,
    app_id: &str,
) -> (t: Toplevel)
    requires
        old(wl).wf(),
        old(wl).lookup(compositor.0.0) is Some,
        old(wl).lookup(wm_base.0.0) is Some,
        old(wl).slots().len() + 3 < SERVER_ID_BASE,
    ensures
        ({
            let t0 = old(wl).table();
            let vc = old(wl).lookup(compositor.0.0).unwrap().1;
            let t1 = t0.allocate(WlSurface::spec_info(), vc);
            let t2 = t1.allocate(XdgSurface::spec_info(), t1.lookup(wm_base.0.0).unwrap().1);
            let t3 = t2.allocate(XdgToplevel::spec_info(), t2.lookup(t1.next_id()).unwrap().1);
            &&& t.surface == WlSurface(ObjectId(t0.next_id()))
            &&& t.xdg == XdgSurface(ObjectId(t1.next_id()))
            &&& t.toplevel == XdgToplevel(ObjectId(t2.next_id()))
            &&& final(wl).wf()
            &&& final(wl).table() == t3
            &&& final(wl).out() == old(wl).out() + toplevel_bytes(
                compositor.0.0,
                wm_base.0.0,
                t,
                title@,
                app_id@,
            )
            &&& final(wl).inbox() == old(wl).inbox()
            &&& final(wl).sending() == old(wl).sending()
            &&& final(wl).reading() == old(wl).reading()
            &&& final(wl).is_synced() == old(wl).is_synced()
            &&& final(wl).sync_callback() == old(wl).sync_callback()
        }),
{
    let ghost w0 = *wl;
    let surface = compositor.create_surface(wl);
    proof {
        lemma_free_ids_name_slots(w0);
        crate::wayland::connection::law_allocate_then_lookup(
            w0.table(),
            WlSurface::spec_info(),
            w0.lookup(compositor.0.0).unwrap().1,
            wm_base.0.0,
        );
        lemma_slots_grow_by_one(w0.table(), WlSurface::spec_info(), w0.lookup(compositor.0.0).unwrap().1);
    }
    let ghost w1 = *wl;
    let xdg = wm_base.get_xdg_surface(wl, surface);
    proof {
        lemma_free_ids_name_slots(w1);
        crate::wayland::connection::law_allocate_then_lookup(
            w1.table(),
            XdgSurface::spec_info(),
            w1.lookup(wm_base.0.0).unwrap().1,
            xdg.0.0,
        );
        lemma_slots_grow_by_one(w1.table(), XdgSurface::spec_info(), w1.lookup(wm_base.0.0).unwrap().1);
    }
    let toplevel = xdg.get_toplevel(wl);
    toplevel.set_title(wl, title);
    toplevel.set_app_id(wl, app_id);
    surface.commit(wl);
    let t = Toplevel { surface, xdg, toplevel };
    proof {
        assert(wl.out() =~= w0.out() + toplevel_bytes(compositor.0.0, wm_base.0.0, t, title@, app_id@));
    }
    t
}

/// An allocation grows the client slots by at most one, and keeps every
/// freed id below them.
proof fn lemma_slots_grow_by_one(t: Table, info: crate::wayland::Info, version: u32)
    requires
        forall|i: int| 0 <= i < t.free.len() ==> (#[trigger] t.free[i]) < t.slots.len(),
    ensures
        t.allocate(info, version).slots.len() <= t.slots.len() + 1,
{
    if t.free.len() > 0 {
        assert(t.free[t.free.len() - 1] < t.slots.len());
    }
}

/// What a window is to the layer shell: its layer, the edges it is
/// anchored to, the zone it keeps others out of, whether it takes the
/// keyboard, and the namespace the compositor may group it by.
#[derive(Debug)]
pub struct LayerRole {
    pub layer: Layer,
    pub anchor: Anchor,
    pub exclusive_zone: i32,
    pub namespace: String,
    pub keyboard_interactivity: KeyboardInteractivity,
}

/// The objects a layer window is made of.
#[derive(Debug, Clone, Copy, PartialEq, Eq, Structural)]
pub struct LayerWindow {
    pub surface: WlSurface,
    pub layer_surface: ZwlrLayerSurfaceV1,
}

/// What opening a layer window puts on the wire: the surface, its layer
/// surface on the compositor's choice of output, the anchor, the
/// exclusive zone, the keyboard mode, the size asked for, and the first
/// commit, with no buffer.
pub open spec fn layer_bytes(
    compositor: u32,
    shell: u32,
    w: LayerWindow,
    layer: Layer,
    anchor: Anchor,
    exclusive_zone: i32,
    namespace: Seq<char>,
    keyboard: KeyboardInteractivity,
    width: u32,
    height: u32,
) -> Seq<u8> {
    let ls = w.layer_surface.0.0;
    message(compositor, 0, word_bytes(w.surface.0.0)) + message(
        shell,
        0,
        word_bytes(ls) + word_bytes(w.surface.0.0) + word_bytes(0) + word_bytes(
            spec_layer_value(layer),
        ) + string_bytes(namespace),
    ) + message(ls, 1, word_bytes(anchor.0)) + message(ls, 2, word_bytes(exclusive_zone as u32))
        + message(ls, 4, word_bytes(spec_keyboard_value(keyboard))) + message(
        ls,
        0,
        word_bytes(width) + word_bytes(height),
    ) + message(w.surface.0.0, 6, Seq::empty())
}

/// A layer window goes on the layer its role asks for: the second request
/// opening it is the shell's `get_layer_surface` (opcode 0), and the word
/// after its new id, its surface and its output is the protocol's value
/// of the layer: background 0, bottom 1, top 2, overlay 3.
pub proof fn law_a_layer_window_is_on_its_layer(
    compositor: u32,
    shell: u32,
    w: LayerWindow,
    layer: Layer,
    anchor: Anchor,
    exclusive_zone: i32,
    namespace: Seq<char>,
    keyboard: KeyboardInteractivity,
    width: u32,
    height: u32,
)
    ensures
        ({
            let out = layer_bytes(
                compositor,
                shell,
                w,
                layer,
                anchor,
                exclusive_zone,
                namespace,
                keyboard,
                width,
                height,
            );
            &&& spec_header(out.skip(12)) matches Some(h) && h.sender == ObjectId(shell) && h.opcode == 0
            &&& word_at(out, 32) == match layer {
                Layer::Background => 0u32,
                Layer::Bottom => 1u32,
                Layer::Top => 2u32,
                Layer::Overlay => 3u32,
            }
        }),
{
    law_a_layer_window_is_on_its_layer_header(compositor, shell, w, layer, anchor, exclusive_zone, namespace, keyboard, width, height);
}

/// The layer word of the layer surface request, as
/// [`law_a_layer_window_is_on_its_layer`] states it.
proof fn law_a_layer_window_is_on_its_layer_header(
    compositor: u32,
    shell: u32,
    w: LayerWindow,
    layer: Layer,
    anchor: Anchor,
    exclusive_zone: i32,
    namespace: Seq<char>,
    keyboard: KeyboardInteractivity,
    width: u32,
    height: u32,
)
    ensures
        ({
            let out = layer_bytes(
                compositor,
                shell,
                w,
                layer,
                anchor,
                exclusive_zone,
                namespace,
                keyboard,
                width,
                height,
            );
            &&& spec_header(out.skip(12)) matches Some(h) && h.sender == ObjectId(shell) && h.opcode == 0
            &&& word_at(out, 32) == spec_layer_value(layer)
        }),
{
    lemma_auto_words();
    let ls = w.layer_surface.0.0;
    let first = message(compositor, 0, word_bytes(w.surface.0.0));
    let body = word_bytes(ls) + word_bytes(w.surface.0.0) + word_bytes(0) + word_bytes(
        spec_layer_value(layer),
    ) + string_bytes(namespace);
    let after = message(ls, 1, word_bytes(anchor.0)) + message(ls, 2, word_bytes(exclusive_zone as u32))
        + message(ls, 4, word_bytes(spec_keyboard_value(keyboard))) + message(
        ls,
        0,
        word_bytes(width) + word_bytes(height),
    ) + message(w.surface.0.0, 6, Seq::empty());
    let out = layer_bytes(compositor, shell, w, layer, anchor, exclusive_zone, namespace, keyboard, width, height);
    assert(out =~= first + message(shell, 0, body) + after);
    assert(first.len() == 12);
    assert(out.skip(12) =~= message(shell, 0, body) + after);
    lemma_header_of_message(shell, 0, body, after);
    let prefix = first + word_bytes(shell) + word_bytes(size_word_of(body.len())) + word_bytes(ls)
        + word_bytes(w.surface.0.0) + word_bytes(0);
    let suffix = string_bytes(namespace) + after;
    assert(out =~= prefix + word_bytes(spec_layer_value(layer)) + suffix);
    assert(prefix.len() == 32);
    lemma_word_round_trip(spec_layer_value(layer), prefix, suffix);
}

/// The rest of a layer window's role goes out as asked for: after the
/// layer surface request (`g` bytes in), the anchor's edges, the
/// exclusive zone, the keyboard mode as the protocol numbers it (none 0,
/// exclusive 1, on demand 2), and the width then the height asked for,
/// each request on the layer surface with its own opcode.
pub proof fn law_a_layer_window_has_its_role(
    compositor: u32,
    shell: u32,
    w: LayerWindow,
    layer: Layer,
    anchor: Anchor,
    exclusive_zone: i32,
    namespace: Seq<char>,
    keyboard: KeyboardInteractivity,
    width: u32,
    height: u32,
)
    ensures
        ({
            let out = layer_bytes(
                compositor,
                shell,
                w,
                layer,
                anchor,
                exclusive_zone,
                namespace,
                keyboard,
                width,
                height,
            );
            let ls = w.layer_surface.0.0;
            let g = 36 + string_bytes(namespace).len() as int;
            &&& spec_header(out.skip(g)) matches Some(h) && h.sender == ObjectId(ls) && h.opcode == 1
            &&& word_at(out, g + 8) == anchor.0
            &&& spec_header(out.skip(g + 12)) matches Some(h) && h.sender == ObjectId(ls) && h.opcode == 2
            &&& word_at(out, g + 20) == exclusive_zone as u32
            &&& spec_header(out.skip(g + 24)) matches Some(h) && h.sender == ObjectId(ls) && h.opcode == 4
            &&& word_at(out, g + 32) == match keyboard {
                KeyboardInteractivity::NoFocus => 0u32,
                KeyboardInteractivity::Exclusive => 1u32,
                KeyboardInteractivity::OnDemand => 2u32,
            }
            &&& spec_header(out.skip(g + 36)) matches Some(h) && h.sender == ObjectId(ls) && h.opcode == 0
            &&& word_at(out, g + 44) == width
            &&& word_at(out, g + 48) == height
        }),
{
    lemma_auto_words();
    let ls = w.layer_surface.0.0;
    let first = message(compositor, 0, word_bytes(w.surface.0.0));
    let body = word_bytes(ls) + word_bytes(w.surface.0.0) + word_bytes(0) + word_bytes(
        spec_layer_value(layer),
    ) + string_bytes(namespace);
    let pre = first + message(shell, 0, body);
    let ma = message(ls, 1, word_bytes(anchor.0));
    let mz = message(ls, 2, word_bytes(exclusive_zone as u32));
    let mk = message(ls, 4, word_bytes(spec_keyboard_value(keyboard)));
    let ms = message(ls, 0, word_bytes(width) + word_bytes(height));
    let mc = message(w.surface.0.0, 6, Seq::empty());
    let out = layer_bytes(compositor, shell, w, layer, anchor, exclusive_zone, namespace, keyboard, width, height);
    assert(out =~= pre + ma + mz + mk + ms + mc);
    let g = 36 + string_bytes(namespace).len() as int;
    assert(pre.len() == g);
    assert(out.skip(g) =~= ma + (mz + mk + ms + mc));
    lemma_header_of_message(ls, 1, word_bytes(anchor.0), mz + mk + ms + mc);
    assert(out.skip(g + 12) =~= mz + (mk + ms + mc));
    lemma_header_of_message(ls, 2, word_bytes(exclusive_zone as u32), mk + ms + mc);
    assert(out.skip(g + 24) =~= mk + (ms + mc));
    lemma_header_of_message(ls, 4, word_bytes(spec_keyboard_value(keyboard)), ms + mc);
    assert(out.skip(g + 36) =~= ms + mc);
    lemma_header_of_message(ls, 0, word_bytes(width) + word_bytes(height), mc);
    let h1 = word_bytes(ls) + word_bytes(crate::wayland::wire::size_word(12, 1));
    assert(out =~= (pre + h1) + word_bytes(anchor.0) + (mz + mk + ms + mc));
    lemma_word_round_trip(anchor.0, pre + h1, mz + mk + ms + mc);
    let h2 = word_bytes(ls) + word_bytes(crate::wayland::wire::size_word(12, 2));
    assert(out =~= (pre + ma + h2) + word_bytes(exclusive_zone as u32) + (mk + ms + mc));
    lemma_word_round_trip(exclusive_zone as u32, pre + ma + h2, mk + ms + mc);
    let h4 = word_bytes(ls) + word_bytes(crate::wayland::wire::size_word(12, 4));
    assert(out =~= (pre + ma + mz + h4) + word_bytes(spec_keyboard_value(keyboard)) + (ms + mc));
    lemma_word_round_trip(spec_keyboard_value(keyboard), pre + ma + mz + h4, ms + mc);
    let h0 = word_bytes(ls) + word_bytes(crate::wayland::wire::size_word(16, 0));
    assert(out =~= (pre + ma + mz + mk + h0) + word_bytes(width) + (word_bytes(height) + mc));
    lemma_word_round_trip(width, pre + ma + mz + mk + h0, word_bytes(height) + mc);
    assert(out =~= (pre + ma + mz + mk + h0 + word_bytes(width)) + word_bytes(height) + mc);
    lemma_word_round_trip(height, pre + ma + mz + mk + h0 + word_bytes(width), mc);
}

/// The header's second word of a message with a body of `n` bytes and
/// opcode 0.
spec fn size_word_of(n: nat) -> u32 {
    crate::wayland::wire::size_word(8 + n, 0)
}

/// Make a window a layer of the desktop: a surface from the compositor,
/// at its version; its layer surface, at the shell's, on no output in
/// particular; its anchor, exclusive zone and keyboard mode; the size
/// asked for, zero on an axis leaving it to the compositor; and the
/// initial commit. The client ids must not run into the server's.
#[verifier::spinoff_prover]
#[verifier::rlimit(50)]
pub fn open_layer(
    wl: &mut Wayland,
    compositor: WlCompositor,
    shell: ZwlrLayerShellV1,
    role: &LayerRole,
    width: u32,
    height: u32,
) -> (lw: LayerWindow)
    requires
        old(wl).wf(),
        old(wl).lookup(compositor.0.0) is Some,
        old(wl).lookup(shell.0.0) is Some,
        old(wl).slots().len() + 2 < SERVER_ID_BASE,
    ensures
        ({
            let t0 = old(wl).table();
            let t1 = t0.allocate(WlSurface::spec_info(), old(wl).lookup(compositor.0.0).unwrap().1);
            let t2 = t1.allocate(ZwlrLayerSurfaceV1::spec_info(), t1.lookup(shell.0.0).unwrap().1);
            &&& lw.surface == WlSurface(ObjectId(t0.next_id()))
            &&& lw.layer_surface == ZwlrLayerSurfaceV1(ObjectId(t1.next_id()))
            &&& final(wl).wf()
            &&& final(wl).table() == t2
            &&& final(wl).out() == old(wl).out() + layer_bytes(
                compositor.0.0,
                shell.0.0,
                lw,
                role.layer,
                role.anchor,
                role.exclusive_zone,
                role.namespace@,
                role.keyboard_interactivity,
                width,
                height,
            )
            &&& final(wl).inbox() == old(wl).inbox()
            &&& final(wl).sending() == old(wl).sending()
            &&& final(wl).reading() == old(wl).reading()
            &&& final(wl).is_synced() == old(wl).is_synced()
            &&& final(wl).sync_callback() == old(wl).sync_callback()
        }),
{
    let ghost w0 = *wl;
    let surface = compositor.create_surface(wl);
    proof {
        lemma_free_ids_name_slots(w0);
        crate::wayland::connection::law_allocate_then_lookup(
            w0.table(),
            WlSurface::spec_info(),
            w0.lookup(compositor.0.0).unwrap().1,
            shell.0.0,
        );
        lemma_slots_grow_by_one(w0.table(), WlSurface::spec_info(), w0.lookup(compositor.0.0).unwrap().1);
    }
    let ghost w1 = *wl;
    let ls = shell.get_layer_surface(wl, surface, None, role.layer, role.namespace.as_str());
    let ghost w2 = *wl;
    ls.set_anchor(wl, role.anchor);
    ls.set_exclusive_zone(wl, role.exclusive_zone);
    ls.set_keyboard_interactivity(wl, role.keyboard_interactivity);
    ls.set_size(wl, width, height);
    surface.commit(wl);
    let lw = LayerWindow { surface, layer_surface: ls };
    proof {
        assert(w1.table() == w0.table().allocate(WlSurface::spec_info(), w0.lookup(compositor.0.0).unwrap().1));
        assert(w2.table() == w1.table().allocate(ZwlrLayerSurfaceV1::spec_info(), w1.lookup(shell.0.0).unwrap().1));
        assert(wl.table() == w2.table());
        assert(wl.out() =~= w0.out() + layer_bytes(
            compositor.0.0,
            shell.0.0,
            lw,
            role.layer,
            role.anchor,
            role.exclusive_zone,
            role.namespace@,
            role.keyboard_interactivity,
            width,
            height,
        ));
    }
    lw
}

/// Tear a layer window down: its layer surface destroyed, its buffers,
/// then its surface; and every object of it, its frame callback if one
/// is outstanding too, forgotten.
pub fn close_layer(
    wl: &mut Wayland,
    owners: &mut Owners,
    lw: LayerWindow,
    buffers: &[WlBuffer],
    callback: Option<WlCallback>,
)
    requires
        old(wl).wf(),
    ensures
        final(wl).sent_from(
            *old(wl),
            message(lw.layer_surface.0.0, 7, Seq::empty()) + destroy_bytes(buffers@) + message(
                lw.surface.0.0,
                0,
                Seq::empty(),
            ),
        ),
        ({
            let gone = forget(old(owners).map().remove(lw.layer_surface.0.0), buffers@).remove(
                lw.surface.0.0,
            );
            final(owners).map() == match callback {
                Some(cb) => gone.remove(cb.0.0),
                None => gone,
            }
        }),
{
    let ghost w0 = *wl;
    lw.layer_surface.destroy(wl);
    owners.remove(lw.layer_surface.0);
    let ghost before = *wl;
    let ghost forgotten = owners.map();
    let mut i: usize = 0;
    while i < buffers.len()
        invariant
            i <= buffers@.len(),
            wl.sent_from(before, destroy_bytes(buffers@.take(i as int))),
            owners.map() == forget(forgotten, buffers@.take(i as int)),
        decreases buffers@.len() - i,
    {
        buffers[i].destroy(wl);
        owners.remove(buffers[i].0);
        proof {
            assert(buffers@.take(i + 1).drop_last() =~= buffers@.take(i as int));
            assert(buffers@.take(i + 1).last() == buffers@[i as int]);
            assert(wl.out() =~= before.out() + destroy_bytes(buffers@.take(i + 1)));
        }
        i = i + 1;
    }
    assert(buffers@.take(buffers@.len() as int) =~= buffers@);
    lw.surface.destroy(wl);
    owners.remove(lw.surface.0);
    if let Some(cb) = callback {
        owners.remove(cb.0);
    }
    proof {
        assert(wl.out() =~= w0.out() + (message(lw.layer_surface.0.0, 7, Seq::empty()) + destroy_bytes(
            buffers@,
        ) + message(lw.surface.0.0, 0, Seq::empty())));
    }
}

/// Which window owns each object presentation made, so that an event for
/// any of them finds its window.
pub struct Owners {
    owner: HashMap<u32, u64>,
}

impl Owners {
    /// Each object's window, by the object's id.
    pub closed spec fn map(self) -> Map<u32, u64> {
        self.owner@
    }

    pub fn new() -> (o: Owners)
        ensures
            o.map() == Map::<u32, u64>::empty(),
    {
        Owners { owner: HashMap::new() }
    }

    /// `object` belongs to `window` from now on.
    pub fn insert(&mut self, object: ObjectId, window: u64)
        ensures
            final(self).map() == old(self).map().insert(object.0, window),
    {
        self.owner.insert(object.0, window);
    }

    /// Every object of a layer window belongs to `window`.
    pub fn insert_layer(&mut self, lw: LayerWindow, window: u64)
        ensures
            final(self).map() == old(self).map().insert(lw.layer_surface.0.0, window).insert(
                lw.surface.0.0,
                window,
            ),
    {
        self.insert(lw.layer_surface.0, window);
        self.insert(lw.surface.0, window);
    }

    /// Every object of a toplevel belongs to `window`.
    pub fn insert_toplevel(&mut self, t: Toplevel, window: u64)
        ensures
            final(self).map() == old(self).map().insert(t.xdg.0.0, window).insert(
                t.toplevel.0.0,
                window,
            ).insert(t.surface.0.0, window),
    {
        self.insert(t.xdg.0, window);
        self.insert(t.toplevel.0, window);
        self.insert(t.surface.0, window);
    }

    /// `object` is forgotten; a late event for it finds no window.
    pub fn remove(&mut self, object: ObjectId) -> (w: Option<u64>)
        ensures
            final(self).map() == old(self).map().remove(object.0),
            w == if old(self).map().contains_key(object.0) {
                Some(old(self).map()[object.0])
            } else {
                None
            },
    {
        self.owner.remove(&object.0)
    }

    /// The window that owns `object`, if any.
    pub fn window_of(&self, object: ObjectId) -> (w: Option<u64>)
        ensures
            w == if self.map().contains_key(object.0) {
                Some(self.map()[object.0])
            } else {
                None
            },
    {
        match self.owner.get(&object.0) {
            Some(w) => Some(*w),
            None => None,
        }
    }
}

/// One `destroy` per buffer, in order.
pub open spec fn destroy_bytes(buffers: Seq<WlBuffer>) -> Seq<u8>
    decreases buffers.len(),
{
    if buffers.len() == 0 {
        Seq::empty()
    } else {
        destroy_bytes(buffers.drop_last()) + message(buffers.last().0.0, 0, Seq::empty())
    }
}

/// What closing a toplevel puts on the wire: the window, then its
/// desktop role, then each buffer, then the surface.
pub open spec fn teardown_bytes(t: Toplevel, buffers: Seq<WlBuffer>) -> Seq<u8> {
    message(t.toplevel.0.0, 0, Seq::empty()) + message(t.xdg.0.0, 0, Seq::empty()) + destroy_bytes(
        buffers,
    ) + message(t.surface.0.0, 0, Seq::empty())
}

/// Each buffer's `destroy` is 8 bytes.
proof fn lemma_destroy_len(buffers: Seq<WlBuffer>)
    ensures
        destroy_bytes(buffers).len() == 8 * buffers.len(),
    decreases buffers.len(),
{
    lemma_auto_words();
    if buffers.len() > 0 {
        lemma_destroy_len(buffers.drop_last());
    }
}

/// The `destroy`s of the first `j` buffers, then those of the rest.
proof fn lemma_destroy_split(buffers: Seq<WlBuffer>, j: int)
    requires
        0 <= j <= buffers.len(),
    ensures
        destroy_bytes(buffers) == destroy_bytes(buffers.take(j)) + destroy_bytes(buffers.skip(j)),
    decreases buffers.len(),
{
    if j == buffers.len() {
        assert(buffers.take(j) =~= buffers);
        assert(buffers.skip(j) =~= Seq::<WlBuffer>::empty());
        assert(destroy_bytes(buffers) + Seq::<u8>::empty() =~= destroy_bytes(buffers));
    } else {
        let front = buffers.drop_last();
        lemma_destroy_split(front, j);
        assert(front.take(j) =~= buffers.take(j));
        assert(buffers.skip(j).drop_last() =~= front.skip(j));
        assert(buffers.skip(j).last() == buffers.last());
    }
}

/// Closing a toplevel tears it down from the top: the toplevel's
/// `destroy` first, then its `xdg_surface`'s, then each buffer's in
/// order, then the surface's last, and nothing more.
pub proof fn law_a_toplevel_is_torn_down_in_order(t: Toplevel, buffers: Seq<WlBuffer>, k: int)
    requires
        0 <= k < buffers.len(),
    ensures
        ({
            let out = teardown_bytes(t, buffers);
            &&& spec_header(out) matches Some(h) && h.sender == t.toplevel.0 && h.opcode == 0 && h.size == 8
            &&& spec_header(out.skip(8)) matches Some(h) && h.sender == t.xdg.0 && h.opcode == 0 && h.size == 8
            &&& spec_header(out.skip(16 + 8 * k)) matches Some(h) && h.sender == buffers[k].0 && h.opcode == 0
                && h.size == 8
            &&& spec_header(out.skip(16 + 8 * buffers.len() as int)) matches Some(h) && h.sender == t.surface.0
                && h.opcode == 0 && h.size == 8
            &&& out.len() == 24 + 8 * buffers.len()
        }),
{
    lemma_auto_words();
    let e = Seq::<u8>::empty();
    let mt = message(t.toplevel.0.0, 0, e);
    let mx = message(t.xdg.0.0, 0, e);
    let ms = message(t.surface.0.0, 0, e);
    let d = destroy_bytes(buffers);
    lemma_destroy_len(buffers);
    let out = teardown_bytes(t, buffers);
    assert(out =~= mt + (mx + d + ms));
    lemma_header_of_message(t.toplevel.0.0, 0, e, mx + d + ms);
    assert(out.skip(8) =~= mx + (d + ms));
    lemma_header_of_message(t.xdg.0.0, 0, e, d + ms);
    lemma_destroy_split(buffers, k + 1);
    lemma_destroy_len(buffers.take(k));
    assert(buffers.take(k + 1).drop_last() =~= buffers.take(k));
    assert(buffers.take(k + 1).last() == buffers[k]);
    let mb = message(buffers[k].0.0, 0, e);
    assert(destroy_bytes(buffers.take(k + 1)) =~= destroy_bytes(buffers.take(k)) + mb);
    let later = destroy_bytes(buffers.skip(k + 1));
    assert(out =~= (mt + mx + destroy_bytes(buffers.take(k))) + mb + (later + ms));
    assert(out.skip(16 + 8 * k) =~= mb + (later + ms));
    lemma_header_of_message(buffers[k].0.0, 0, e, later + ms);
    assert(out.skip(16 + 8 * buffers.len() as int) =~= ms + e);
    lemma_header_of_message(t.surface.0.0, 0, e, e);
}

/// Tear a toplevel window down: the window and its role destroyed, its
/// buffers, then its surface; and every object of it, its frame callback
/// if one is outstanding too, forgotten, so a late event for any of them
/// finds no window.
pub fn close_toplevel(
    wl: &mut Wayland,
    owners: &mut Owners,
    t: Toplevel,
    buffers: &[WlBuffer],
    callback: Option<WlCallback>,
)
    requires
        old(wl).wf(),
    ensures
        final(wl).sent_from(*old(wl), teardown_bytes(t, buffers@)),
        ({
            let gone = forget(old(owners).map().remove(t.toplevel.0.0).remove(t.xdg.0.0), buffers@)
                .remove(t.surface.0.0);
            final(owners).map() == match callback {
                Some(cb) => gone.remove(cb.0.0),
                None => gone,
            }
        }),
{
    let ghost w0 = *wl;
    t.toplevel.destroy(wl);
    t.xdg.destroy(wl);
    owners.remove(t.toplevel.0);
    owners.remove(t.xdg.0);
    let ghost before = *wl;
    let ghost forgotten = owners.map();
    let mut i: usize = 0;
    while i < buffers.len()
        invariant
            i <= buffers@.len(),
            wl.sent_from(before, destroy_bytes(buffers@.take(i as int))),
            owners.map() == forget(forgotten, buffers@.take(i as int)),
        decreases buffers@.len() - i,
    {
        buffers[i].destroy(wl);
        owners.remove(buffers[i].0);
        proof {
            assert(buffers@.take(i + 1).drop_last() =~= buffers@.take(i as int));
            assert(buffers@.take(i + 1).last() == buffers@[i as int]);
            assert(wl.out() =~= before.out() + destroy_bytes(buffers@.take(i + 1)));
        }
        i = i + 1;
    }
    assert(buffers@.take(buffers@.len() as int) =~= buffers@);
    t.surface.destroy(wl);
    owners.remove(t.surface.0);
    if let Some(cb) = callback {
        owners.remove(cb.0);
    }
    proof {
        assert(wl.out() =~= w0.out() + teardown_bytes(t, buffers@));
    }
}

/// `owners` without any of `buffers`.
pub open spec fn forget(owners: Map<u32, u64>, buffers: Seq<WlBuffer>) -> Map<u32, u64>
    decreases buffers.len(),
{
    if buffers.len() == 0 {
        owners
    } else {
        forget(owners, buffers.drop_last()).remove(buffers.last().0.0)
    }
}

/// After a window is closed no object of it has an owner: an event that
/// arrives late for any of them finds no window.
pub proof fn law_a_closed_window_is_forgotten(owners: Map<u32, u64>, t: Toplevel, buffers: Seq<WlBuffer>)
    ensures
        ({
            let gone = forget(owners.remove(t.toplevel.0.0).remove(t.xdg.0.0), buffers).remove(
                t.surface.0.0,
            );
            &&& !gone.contains_key(t.toplevel.0.0)
            &&& !gone.contains_key(t.xdg.0.0)
            &&& !gone.contains_key(t.surface.0.0)
            &&& forall|i: int| 0 <= i < buffers.len() ==> !gone.contains_key(#[trigger] buffers[i].0.0)
        }),
{
    let kept = owners.remove(t.toplevel.0.0).remove(t.xdg.0.0);
    lemma_forget(kept, buffers);
    lemma_forget_adds_nothing(kept, buffers, t.toplevel.0.0);
    lemma_forget_adds_nothing(kept, buffers, t.xdg.0.0);
}

/// `forget` only takes keys away.
proof fn lemma_forget_adds_nothing(owners: Map<u32, u64>, buffers: Seq<WlBuffer>, k: u32)
    ensures
        forget(owners, buffers).contains_key(k) ==> owners.contains_key(k),
    decreases buffers.len(),
{
    if buffers.len() > 0 {
        lemma_forget_adds_nothing(owners, buffers.drop_last(), k);
    }
}

/// What `forget` leaves holds no key of the buffers.
proof fn lemma_forget(owners: Map<u32, u64>, buffers: Seq<WlBuffer>)
    ensures
        forall|i: int| 0 <= i < buffers.len() ==> !forget(owners, buffers).contains_key(#[trigger] buffers[i].0.0),
    decreases buffers.len(),
{
    if buffers.len() > 0 {
        lemma_forget(owners, buffers.drop_last());
        assert forall|i: int| 0 <= i < buffers.len() implies !forget(owners, buffers).contains_key(
            #[trigger] buffers[i].0.0,
        ) by {
            if i < buffers.len() - 1 {
                assert(buffers.drop_last()[i] == buffers[i]);
            }
        }
    }
}

} // verus!
