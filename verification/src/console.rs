//! Session-level types shared with the surrounding terminal controller.

use vstd::prelude::*;

verus! {

/// Which set of key bindings the session controller is currently in.
///
/// While `Editing`, every key event is forwarded to the input engine; in
/// `Control` the controller interprets keys itself. The controller owns the
/// transitions between the two modes, driven by the completion signals the
/// engine returns.
#[derive(Debug, Clone, Copy, PartialEq, Eq)]
pub enum InputMode {
    Editing,
    Control,
}

} // verus!
