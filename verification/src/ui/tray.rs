//! The system tray icon, which has no behaviour of its own yet.
use vstd::prelude::*;

verus! {

/// The tray icon.
pub struct SystemTray;

impl SystemTray {
    pub fn new() -> (t: Self)
        ensures
            t == SystemTray,
    {
        SystemTray
    }
}

} // verus!
