use vstd::prelude::*;
use crate::display::{DisplayBuffer, DisplayControl, DriverState, uniform, all_pixels, Color};
use crate::hardware::TransportFailure;

verus! {

#[verifier::external_type_specification]
#[verifier::external_body]
pub struct ExWindow(minifb::Window);

#[verifier::external_type_specification]
#[verifier::external_body]
pub struct ExWindowError(minifb::Error);

/// Relies on minifb's `Window::update_with_buffer`: shows `buffer` as an
/// image `width` pixels wide and `height` high, or reports an error.
#[verifier::external_body]
fn window_update(
    window: &mut minifb::Window,
    buffer: &[u32],
    width: usize,
    height: usize,
) -> (r: Result<(), minifb::Error>) {
    window.update_with_buffer(buffer, width, height)
}

/// A display shown in a desktop window instead of on the panel.
pub struct MiniFbDisplay {
    fb: DisplayBuffer,
    window: minifb::Window,
    state: DriverState,
}

impl MiniFbDisplay {
    /// A black frame shown in `window`.
    pub fn new(window: minifb::Window) -> (r: MiniFbDisplay)
        ensures
            r.state() == DriverState::Uninitialized,
            all_pixels(r.frame(), Color::Black),
            r.frame() == uniform(0u8),
    {
        MiniFbDisplay { fb: DisplayBuffer::new(), window, state: DriverState::Uninitialized }
    }

    /// The frame's bytes.
    pub closed spec fn frame(&self) -> Seq<u8> {
        self.fb.buffer@
    }
}

impl DisplayControl for MiniFbDisplay {
    closed spec fn state(&self) -> DriverState {
        self.state
    }

    /// A window needs no bring-up.
    fn init(&mut self) -> (r: Result<(), TransportFailure>)
        ensures
            r is Ok,
            final(self).frame() == old(self).frame(),
    {
        self.state = DriverState::Active;
        Ok(())
    }

    /// A window needs no power-down.
    fn deinit(&mut self) -> (r: Result<(), TransportFailure>)
        ensures
            r is Ok,
            final(self).frame() == old(self).frame(),
    {
        self.state = DriverState::Deinitialized;
        Ok(())
    }

    /// Shows the frame in the window, the panel's top row first.
    fn swap(&mut self) -> (r: Result<(), TransportFailure>)
        ensures
            final(self).frame() == old(self).frame(),
    {
        let pixels = self.fb.window_pixels();
        match window_update(&mut self.window, pixels.as_slice(), 32, 128) {
            Ok(()) => Ok(()),
            Err(_) => Err(TransportFailure::Window),
        }
    }

    fn fb(&mut self) -> (r: &mut DisplayBuffer)
        ensures
            r.buffer@ == old(self).frame(),
            final(self).frame() == final(r).buffer@,
    {
        &mut self.fb
    }
}

} // verus!
