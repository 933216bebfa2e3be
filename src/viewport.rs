use vstd::prelude::*;

verus! {

/// Control scheme for the preview viewport.
#[derive(Clone, Copy, Debug, PartialEq, Eq, Structural)]
pub enum PreviewControlScheme {
    Simple,
    Maya,
    Blender,
}

/// The current key state of the mouse.
#[derive(Clone, Copy, Debug, PartialEq, Eq, Structural)]
pub struct ViewportKeyState {
    pub control_scheme: PreviewControlScheme,
    pub left: bool,
    pub right: bool,
    pub middle: bool,
    pub alt: bool,
    pub shift: bool,
}

} // verus!
