//! The handoff of the shared framebuffer between the core that renders and
//! the core that sends frames to the display, through one shared state code.

use vstd::prelude::*;

verus! {

/// The renderer may draw the next frame.
pub const FREE: u8 = 0;

/// A rendered frame waits to be sent.
pub const READY: u8 = 1;

/// The frame is being sent to the display.
pub const SENDING: u8 = 2;

/// Whether the renderer may draw into the framebuffer, given the shared
/// state code: only once the last frame has been sent.
pub fn renderer_may_draw(code: u8) -> (may: bool)
    ensures
        may == (code == FREE),
{
    code == FREE
}

/// Whether the display core should take the framebuffer and send it: only
/// when a rendered frame is ready.
pub fn blitter_may_send(code: u8) -> (may: bool)
    ensures
        may == (code == READY),
{
    code == READY
}

} // verus!
