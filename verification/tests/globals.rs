use mechanix::wayland::connection::Wayland;
use mechanix::wayland::display::{WlRegistry, WlRegistryEvent};
use mechanix::wayland::globals::{Global, Globals};
use mechanix::wayland::protocol::WlCompositor;
use mechanix::wayland::wire::{header, Reader};
use mechanix::wayland::{Interface, ObjectId};

fn advertise(g: &mut Globals, name: u32, interface: &str, version: u32) {
    g.on_registry(&WlRegistryEvent::Global {
        registry: g.registry(),
        name,
        interface: interface.to_string(),
        version,
    });
}

#[test]
fn globals_are_kept_in_the_order_advertised() {
    let mut g = Globals::new(WlRegistry(ObjectId(2)));
    assert_eq!(g.registry(), WlRegistry(ObjectId(2)));
    advertise(&mut g, 1, "wl_compositor", 6);
    advertise(&mut g, 2, "wl_shm", 1);
    advertise(&mut g, 3, "wl_output", 4);
    let names: Vec<u32> = g.iter().iter().map(|g| g.name).collect();
    assert_eq!(names, vec![1, 2, 3]);
}

#[test]
fn find_gives_the_first_of_an_interface() {
    let mut g = Globals::new(WlRegistry(ObjectId(2)));
    advertise(&mut g, 1, "wl_output", 4);
    advertise(&mut g, 2, "wl_seat", 9);
    advertise(&mut g, 3, "wl_output", 3);
    assert_eq!(g.find("wl_output").map(|g| g.name), Some(1));
    assert_eq!(g.find("wl_seat").map(|g| g.version), Some(9));
    assert!(g.find("wl_shm").is_none());
}

#[test]
fn the_registry_keeps_being_followed_after_install() {
    let mut g = Globals::new(WlRegistry(ObjectId(2)));
    advertise(&mut g, 1, "wl_output", 4);
    advertise(&mut g, 2, "wl_seat", 9);
    g.on_registry(&WlRegistryEvent::GlobalRemove {
        registry: g.registry(),
        name: 1,
    });
    assert!(g.find("wl_output").is_none());
    assert_eq!(g.iter().len(), 1);
    advertise(&mut g, 5, "wl_output", 4);
    assert_eq!(g.find("wl_output").map(|g| g.name), Some(5));
}

#[test]
fn a_global_above_the_xml_version_binds_at_the_xml_version() {
    let mut wl = Wayland::new();
    let registry = wl.start();
    wl.flush();
    let g = Globals::new(registry);
    let global = Global {
        name: 7,
        interface: "wl_compositor".to_string(),
        version: 99,
    };
    let compositor: WlCompositor = g.bind(&global, &mut wl);
    assert_eq!(compositor.id(), ObjectId(4));
    assert_eq!(wl.version(compositor), WlCompositor::VERSION);
    let out = wl.flush().unwrap();
    let h = header(&out).unwrap();
    assert_eq!((h.sender, h.opcode), (registry.0, 0));
    let mut r = Reader::new(&out[8..]);
    assert_eq!(r.uint(), Some(7));
    assert_eq!(r.string().as_deref(), Some("wl_compositor"));
    assert_eq!(r.uint(), Some(7), "the XML's version");
    assert_eq!(r.object(), Some(ObjectId(4)));
}

#[test]
fn a_global_below_the_xml_version_binds_at_its_own() {
    let mut wl = Wayland::new();
    let registry = wl.start();
    let g = Globals::new(registry);
    let global = Global {
        name: 1,
        interface: "wl_compositor".to_string(),
        version: 4,
    };
    let compositor: WlCompositor = g.bind(&global, &mut wl);
    assert_eq!(wl.version(compositor), 4);
    assert_eq!(global.duplicate(), global);
}
