//! The Wayland client: the wire format, the object table and the three
//! interfaces the connection itself owns.
use vstd::prelude::*;

pub mod connection;
pub mod display;
pub mod fake;
pub mod globals;
pub mod layer;
pub mod names;
pub mod protocol;
pub mod wire;
pub mod xdg;

verus! {

/// A protocol object's id. Client ids count up from 2; the server's
/// start at [`SERVER_ID_BASE`]; 1 is the display.
#[derive(Debug, Clone, Copy, PartialEq, Eq, Hash, Structural)]
pub struct ObjectId(pub u32);

/// The display's id.
pub const DISPLAY: u32 = 1;

/// The first id the server allocates.
pub const SERVER_ID_BASE: u32 = 0xff00_0000;

/// What the connection knows about an interface: its name and its XML
/// version. The decoder that turns an event into a signal belongs to the
/// program around this library, which finds it by the name.
#[derive(Debug, Clone, Copy, PartialEq, Eq)]
pub struct Info {
    pub name: &'static str,
    pub version: u32,
}

/// One interface: a `Copy` newtype over [`ObjectId`].
pub trait Interface: Copy + Sized {
    const NAME: &'static str;
    /// The XML's version; a bind never exceeds it.
    const VERSION: u32;

    /// The name and version together, as the object table keeps them.
    spec fn spec_info() -> Info;

    fn info() -> (r: Info)
        ensures
            r == Self::spec_info(),
    ;

    spec fn spec_id(self) -> ObjectId;

    fn id(self) -> (r: ObjectId)
        ensures
            r == self.spec_id(),
    ;

    fn from_id(id: ObjectId) -> (r: Self)
        ensures
            r.spec_id() == id,
    ;
}

} // verus!
