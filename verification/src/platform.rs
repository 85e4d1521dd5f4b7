//! The systems that the program runs on.

use vstd::prelude::*;

verus! {

/// The system that the program runs on.
#[derive(Debug, Clone, Copy, PartialEq, Eq, Structural)]
pub enum Platform {
    Windows,
    Linux,
    MacOs,
    Other,
}

impl Platform {
    /// Whether panes can be frozen: on Windows only. Elsewhere a stopped
    /// foreground process loses its terminal to the shell, and cannot be
    /// brought back to it.
    pub open spec fn freezes(self) -> bool {
        self == Platform::Windows
    }

    /// Whether panes can be frozen here.
    pub fn can_freeze(self) -> (r: bool)
        ensures
            r == self.freezes(),
    {
        self == Platform::Windows
    }
}

} // verus!
