//! Mechanix: the wire, state and decision logic of a small Wayland client
//! toolkit, with contracts proved by Verus.
use vstd::prelude::*;

pub mod gles;
pub mod interactivity;
pub mod layout;
pub mod presentation;
pub mod render;
pub mod ring;
pub mod theme;
pub mod wayland;

verus! {

} // verus!
