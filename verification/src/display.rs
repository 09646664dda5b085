//! How frames are presented, and the vsync toggle on the `V` key.

use vstd::prelude::*;

verus! {

/// The window's presentation modes.
#[derive(Clone, Copy, Debug, PartialEq, Eq, Structural)]
pub enum Presentation {
    AutoVsync,
    AutoNoVsync,
    Fifo,
    FifoRelaxed,
    Immediate,
    Mailbox,
}

/// The mode the vsync toggle switches to: from a mode that does not wait for
/// vertical sync (no-vsync, immediate, mailbox) to automatic vsync, and from
/// any other mode to automatic no-vsync.
pub open spec fn vsync_toggled(mode: Presentation) -> Presentation {
    match mode {
        Presentation::AutoNoVsync | Presentation::Immediate | Presentation::Mailbox => Presentation::AutoVsync,
        _ => Presentation::AutoNoVsync,
    }
}

/// The mode after pressing the vsync toggle.
pub fn toggled_vsync(mode: Presentation) -> (next: Presentation)
    ensures
        next == vsync_toggled(mode),
{
    match mode {
        Presentation::AutoNoVsync | Presentation::Immediate | Presentation::Mailbox => Presentation::AutoVsync,
        _ => Presentation::AutoNoVsync,
    }
}

/// The toggle always changes the mode and lands on one of the two automatic
/// modes; between those two it flips back and forth, so pressing it twice
/// from either returns there.
pub proof fn lemma_toggle_flips_between_automatic_modes(mode: Presentation)
    ensures
        vsync_toggled(mode) != mode,
        vsync_toggled(mode) == Presentation::AutoVsync || vsync_toggled(mode)
            == Presentation::AutoNoVsync,
        mode == Presentation::AutoVsync || mode == Presentation::AutoNoVsync ==> vsync_toggled(
            vsync_toggled(mode),
        ) == mode,
{
}

} // verus!
